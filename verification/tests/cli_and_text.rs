use rocas::cli::Command;
use rocas::config::RuleConfig;
use rocas::text::{file_name_of, has_separator, join_path, str_eq, with_file_name};

fn args(list: &[&str]) -> Vec<String> {
    list.iter().map(|s| String::from(*s)).collect()
}

#[test]
fn bare_invocation_runs_the_watcher() {
    assert!(matches!(
        Command::from_args(&args(&["rocas"])),
        Some(Command::Run)
    ));
    assert!(matches!(
        Command::from_args(&args(&["rocas", "whatever"])),
        Some(Command::Run)
    ));
}

#[test]
fn setup_and_unsetup_flags() {
    assert!(matches!(
        Command::from_args(&args(&["rocas", "--setup"])),
        Some(Command::Setup)
    ));
    assert!(matches!(
        Command::from_args(&args(&["rocas", "--unsetup"])),
        Some(Command::Unsetup)
    ));
}

#[test]
fn post_update_takes_the_next_argument() {
    let c = Command::from_args(&args(&["rocas", "--post-update", "/usr/bin/rocas"]));
    match c {
        Some(Command::PostUpdate(p)) => assert_eq!(p, "/usr/bin/rocas"),
        _ => panic!("expected a post-update command"),
    }
    // The flag wins wherever it stands.
    let c2 = Command::from_args(&args(&["rocas", "--setup", "--post-update", "old.exe"]));
    assert!(matches!(c2, Some(Command::PostUpdate(p)) if p == "old.exe"));
}

#[test]
fn post_update_without_path_is_fatal() {
    assert!(Command::from_args(&args(&["rocas", "--post-update"])).is_none());
}

#[test]
fn file_name_takes_the_last_component() {
    assert_eq!(file_name_of("a/b/c.txt"), "c.txt");
    assert_eq!(file_name_of("c.txt"), "c.txt");
    assert_eq!(file_name_of("a/b/"), "");
    assert_eq!(file_name_of(""), "");
}

#[test]
fn with_file_name_swaps_the_last_component() {
    assert_eq!(with_file_name("/opt/rocas", "rocas_update.exe"), "/opt/rocas_update.exe");
    assert_eq!(with_file_name("rocas", "rocas_update.exe"), "rocas_update.exe");
}

#[test]
fn join_path_inserts_one_separator() {
    assert_eq!(join_path("bills", "invoice.pdf"), "bills/invoice.pdf");
    assert_eq!(join_path("", "x"), "/x");
}

#[test]
fn separators_and_string_equality() {
    assert!(has_separator("a/b"));
    assert!(!has_separator("ab"));
    assert!(str_eq("same", "same"));
    assert!(!str_eq("same", "sane"));
    assert!(!str_eq("same", "same "));
}

#[test]
fn rule_config_compiles_and_matches() {
    let rule = RuleConfig {
        patterns: vec![String::from("*.pdf"), String::from("*.txt")],
        destination: String::from("docs"),
    };
    let compiled = rule.compiled_patterns();
    assert_eq!(compiled.len(), 2);
    assert_eq!(compiled[0].raw, "*.pdf");
    assert_eq!(compiled[1].raw, "*.txt");
    assert!(rule.matches("notes.txt"));
    assert!(!rule.matches("image.png"));
}
