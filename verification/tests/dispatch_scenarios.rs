use rocas::config::RuleConfig;
use rocas::dispatch::{plan_event, rule_matches};
use rocas::relocate::Volume;
use rocas::text::join_path;
use rocas::watcher::{diff, FileRecord, Snapshot, WatchEvent};

fn pdf_rule() -> RuleConfig {
    RuleConfig {
        patterns: vec![String::from("*.pdf")],
        destination: String::from("bills"),
    }
}

#[test]
fn created_pdf_is_matched_and_relocated() {
    // The watch root starts empty; invoice.pdf appears before the next poll.
    let before = Snapshot::new();
    let mut after = Snapshot::new();
    after.insert(
        String::from("invoice.pdf"),
        FileRecord { modified: 1, size: 64 },
    );
    let events = diff(&before, &after);
    assert_eq!(events.len(), 1);
    assert!(matches!(&events[0], WatchEvent::Created(p) if p == "invoice.pdf"));

    // The rule {patterns: ["*.pdf"], destination: "bills"} matches it.
    let rules = vec![pdf_rule()];
    let dests = plan_event(&events[0], &rules);
    assert_eq!(dests, vec![String::from("bills")]);

    // The relocation moves the bytes to bills/invoice.pdf and empties the root.
    let mut volume = Volume::new();
    volume.create(String::from("invoice.pdf"), vec![1u8, 2, 3]);
    let dest_path = join_path(&dests[0], "invoice.pdf");
    assert_eq!(dest_path, "bills/invoice.pdf");
    assert!(volume.relocate("invoice.pdf", &dest_path, true));
    assert_eq!(volume.read("bills/invoice.pdf"), Some(&vec![1u8, 2, 3]));
    assert!(!volume.contains("invoice.pdf"));
}

#[test]
fn removed_file_triggers_no_relocation() {
    // A file present in the first snapshot is deleted before the second poll.
    let mut before = Snapshot::new();
    before.insert(
        String::from("invoice.pdf"),
        FileRecord { modified: 1, size: 64 },
    );
    let after = Snapshot::new();
    let events = diff(&before, &after);
    assert_eq!(events.len(), 1);
    assert!(matches!(&events[0], WatchEvent::Removed(p) if p == "invoice.pdf"));

    let rules = vec![pdf_rule()];
    let dests = plan_event(&events[0], &rules);
    assert!(dests.is_empty());
}

#[test]
fn event_path_is_routed_per_pattern_shape() {
    // Separator-free patterns see the file name; others see the full path.
    let rules = vec![
        RuleConfig {
            patterns: vec![String::from("*.pdf")],
            destination: String::from("bills"),
        },
        RuleConfig {
            patterns: vec![String::from("downloads/*.tmp")],
            destination: String::from("scratch"),
        },
    ];
    let deep_pdf = WatchEvent::Created(String::from("downloads/sub/report.pdf"));
    assert_eq!(plan_event(&deep_pdf, &rules), vec![String::from("bills")]);
    let tmp = WatchEvent::Modified(String::from("downloads/a.tmp"));
    assert_eq!(plan_event(&tmp, &rules), vec![String::from("scratch")]);
    let deep_tmp = WatchEvent::Created(String::from("downloads/sub/a.tmp"));
    assert!(plan_event(&deep_tmp, &rules).is_empty());
}

#[test]
fn all_matching_rules_fire_in_declaration_order() {
    let rules = vec![
        RuleConfig {
            patterns: vec![String::from("*.pdf")],
            destination: String::from("first"),
        },
        RuleConfig {
            patterns: vec![String::from("report.*"), String::from("nope")],
            destination: String::from("second"),
        },
    ];
    let ev = WatchEvent::Created(String::from("report.pdf"));
    assert_eq!(
        plan_event(&ev, &rules),
        vec![String::from("first"), String::from("second")]
    );
}

#[test]
fn rule_matches_tries_every_pattern() {
    let rule = RuleConfig {
        patterns: vec![String::from("*.txt"), String::from("*.pdf")],
        destination: String::from("docs"),
    };
    assert!(rule_matches(&rule, "a/b/report.pdf", "report.pdf"));
    assert!(!rule_matches(&rule, "a/b/image.png", "image.png"));
}
