use rocas::pattern::{glob_match, Pattern};

#[test]
fn star_matches_filename_suffix() {
    let p = Pattern::new("*.pdf");
    assert!(p.matches("report.pdf"));
    assert!(!p.matches("a/report.pdf"));
    assert!(!p.matches("report.pdfx"));
    assert!(p.matches(".pdf"));
}

#[test]
fn double_star_crosses_directories() {
    let p = Pattern::new("**/*.pdf");
    assert!(p.matches("a/b/report.pdf"));
    assert!(p.matches("a/report.pdf"));
    assert!(!p.matches("a/b/report.txt"));
}

#[test]
fn question_mark_matches_one_character() {
    let p = Pattern::new("file?.txt");
    assert!(p.matches("file1.txt"));
    assert!(!p.matches("file10.txt"));
    assert!(!p.matches("file.txt"));
    assert!(!p.matches("file/.txt"));
}

#[test]
fn literal_patterns_match_exactly() {
    assert!(glob_match("notes.txt", "notes.txt"));
    assert!(!glob_match("notes.txt", "notes.txt.bak"));
    assert!(!glob_match("notes.txt", "anotes.txt"));
    assert!(glob_match("", ""));
    assert!(!glob_match("", "a"));
}

#[test]
fn single_star_stops_at_separator() {
    assert!(glob_match("downloads/*.tmp", "downloads/a.tmp"));
    assert!(!glob_match("downloads/*.tmp", "downloads/sub/a.tmp"));
    assert!(glob_match("*", "anything"));
    assert!(!glob_match("*", "a/b"));
}

#[test]
fn double_star_matches_any_run() {
    assert!(glob_match("**", "a/b/c"));
    assert!(glob_match("a**c", "a/b/c"));
    assert!(glob_match("src/**/main.rs", "src/x/y/main.rs"));
    assert!(!glob_match("src/**/main.rs", "src/main.rs"));
}

#[test]
fn compiling_twice_gives_identical_results() {
    let a = Pattern::new("downloads/**/*.tmp");
    let b = Pattern::new("downloads/**/*.tmp");
    let candidates = [
        "downloads/a.tmp",
        "downloads/x/y/a.tmp",
        "downloads/a.txt",
        "other/a.tmp",
        "downloads/.tmp",
        "",
    ];
    for c in candidates.iter() {
        assert_eq!(a.matches(c), b.matches(c));
    }
    let a2 = Pattern::new("*.pdf");
    let b2 = Pattern::new("*.pdf");
    for c in candidates.iter() {
        assert_eq!(a2.matches(c), b2.matches(c));
    }
}

#[test]
fn routing_picks_full_path_or_filename() {
    let slashy = Pattern::new("downloads/*.tmp");
    // A pattern holding a separator is matched against the full path.
    assert!(slashy.matches_routed("downloads/a.tmp", "a.tmp"));
    assert!(!slashy.matches_routed("elsewhere/a.tmp", "a.tmp"));
    // A separator-free pattern is matched against the file name only.
    let bare = Pattern::new("*.pdf");
    assert!(bare.matches_routed("deep/dir/report.pdf", "report.pdf"));
    assert!(!bare.matches_routed("deep/dir/report.txt", "report.txt"));
}

#[test]
fn pattern_keeps_raw_text() {
    let p = Pattern::new("*.pdf");
    assert_eq!(p.raw, "*.pdf");
}

#[test]
fn star_backtracks_across_candidates() {
    assert!(glob_match("a*b*c", "axxbyyc"));
    assert!(glob_match("a*b*c", "abbc"));
    assert!(!glob_match("a*b*c", "axxbyy"));
    assert!(glob_match("*a*a*", "banana"));
    assert!(!glob_match("*a*a*a*a*", "banana"));
}

#[test]
fn double_star_backtracks_across_separators() {
    assert!(glob_match("**x**", "a/x/b"));
    assert!(glob_match("**.pdf", "a/b/c.pdf"));
    assert!(!glob_match("**.pdf", "a/b/c.pdfd"));
    assert!(glob_match("a/**/z", "a/b/c/d/z"));
    assert!(!glob_match("a/**/z", "a/z"));
}
