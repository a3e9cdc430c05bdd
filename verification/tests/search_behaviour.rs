use codex_frontend::errors::BridgeError;
use codex_frontend::facade::search_files;
use codex_frontend::facade::search_files_cancellable;
use codex_frontend::facade::is_hidden_path;
use codex_frontend::facade::FsSnapshot;
use codex_frontend::search::fuzzy_match;
use codex_frontend::search::search_cancellable;
use codex_frontend::search::search_ranked;
use codex_frontend::search::CancelFlag;

fn strings(xs: &[&str]) -> Vec<String> {
    xs.iter().map(|s| s.to_string()).collect()
}

#[test]
fn fuzzy_match_is_an_in_order_case_insensitive_scan() {
    assert!(fuzzy_match("mrs", "src/main.rs"));
    assert!(fuzzy_match("MRS", "src/main.rs"));
    assert!(fuzzy_match("", "anything"));
    assert!(!fuzzy_match("srm", "src/main.rs".split('/').next().unwrap()));
    assert!(!fuzzy_match("x", ""));
}

#[test]
fn search_orders_matches_by_score_shorter_first() {
    let cands = strings(&["src/some_longer_name.rs", "a.rs", "midlen.rs"]);
    let r = search_ranked("rs", &cands, 10);
    assert_eq!(
        r,
        strings(&["a.rs", "midlen.rs", "src/some_longer_name.rs"])
    );
}

#[test]
fn search_breaks_ties_by_discovery_order() {
    let cands = strings(&["ab", "ba", "aa"]);
    let r = search_ranked("a", &cands, 10);
    assert_eq!(r, strings(&["ab", "ba", "aa"]));
}

#[test]
fn search_keeps_at_most_the_limit() {
    let cands = strings(&["aaaa", "aa", "aaa", "a"]);
    let r = search_ranked("a", &cands, 2);
    assert_eq!(r, strings(&["a", "aa"]));
}

#[test]
fn search_skips_non_matches() {
    let cands = strings(&["alpha", "beta", "gamma"]);
    let r = search_ranked("zzz", &cands, 10);
    assert!(r.is_empty());
    let r2 = search_ranked("ea", &cands, 10);
    assert_eq!(r2, strings(&["beta"]));
}

#[test]
fn search_is_deterministic_for_a_fixed_snapshot() {
    let cands = strings(&["src/app.rs", "src/api.rs", "docs/a.md", "a.rs"]);
    let r1 = search_ranked("a", &cands, 3);
    let r2 = search_ranked("a", &cands, 3);
    assert_eq!(r1, r2);
}

#[test]
fn cancelled_search_returns_partial_success() {
    let cands = strings(&["a1", "a2", "a3"]);
    let flag = CancelFlag::new();
    assert!(!flag.is_cancelled());
    flag.cancel();
    assert!(flag.is_cancelled());
    let r = search_cancellable("a", &cands, 10, &flag);
    // the flag was set before the first step boundary: nothing was
    // discovered, and that is a successful empty result, not an error
    assert!(r.is_empty());
}

#[test]
fn unset_flag_gives_the_full_result() {
    let cands = strings(&["aaa", "a", "aa"]);
    let flag = CancelFlag::new();
    let r = search_cancellable("a", &cands, 10, &flag);
    assert_eq!(r, search_ranked("a", &cands, 10));
    assert_eq!(r, strings(&["a", "aa", "aaa"]));
}

#[test]
fn search_files_rejects_a_missing_root() {
    let snapshot = FsSnapshot { root_is_dir: false, entries: strings(&["a.rs"]) };
    let r = search_files("a", &snapshot);
    assert!(matches!(r, Err(BridgeError::InvalidRootError)));
}

#[test]
fn search_files_excludes_hidden_paths() {
    assert!(is_hidden_path(".git/config"));
    assert!(is_hidden_path("src/.hidden/x.rs"));
    assert!(!is_hidden_path("src/main.rs"));
    let snapshot = FsSnapshot {
        root_is_dir: true,
        entries: strings(&[".git/config", "src/.cache/c", "src/c.rs", "c"]),
    };
    let r = search_files("c", &snapshot).unwrap();
    assert_eq!(r, strings(&["c", "src/c.rs"]));
}

#[test]
fn search_files_caps_results_at_ten() {
    let mut entries: Vec<String> = Vec::new();
    for i in 0..12 {
        entries.push(format!("match_{i:02}.rs"));
    }
    let snapshot = FsSnapshot { root_is_dir: true, entries };
    let r = search_files("match", &snapshot).unwrap();
    assert_eq!(r.len(), 10);
    // equal scores: discovery order is the tie-break
    assert_eq!(r[0], "match_00.rs");
    assert_eq!(r[9], "match_09.rs");
}

#[test]
fn cancellable_command_with_unset_flag_matches_the_plain_command() {
    let snapshot = FsSnapshot {
        root_is_dir: true,
        entries: strings(&[".git/config", "src/c.rs", "c"]),
    };
    let flag = CancelFlag::new();
    let r = search_files_cancellable("c", &snapshot, &flag).unwrap();
    assert_eq!(r, search_files("c", &snapshot).unwrap());
}

#[test]
fn cancellable_command_cancelled_early_is_a_successful_partial_result() {
    let snapshot = FsSnapshot { root_is_dir: true, entries: strings(&["c1", "c2"]) };
    let flag = CancelFlag::new();
    flag.cancel();
    let r = search_files_cancellable("c", &snapshot, &flag).unwrap();
    assert!(r.is_empty());
    let missing = FsSnapshot { root_is_dir: false, entries: Vec::new() };
    assert!(matches!(
        search_files_cancellable("c", &missing, &flag),
        Err(BridgeError::InvalidRootError)
    ));
}

#[test]
fn search_of_empty_snapshot_is_empty() {
    let snapshot = FsSnapshot { root_is_dir: true, entries: Vec::new() };
    let r = search_files("a", &snapshot).unwrap();
    assert!(r.is_empty());
}
