use duckduckgo_suggest::suggest::suggestions;

fn phrases(v: &[&str]) -> Vec<String> {
    let mut out: Vec<String> = Vec::new();
    for s in v.iter() {
        out.push(s.to_string());
    }
    out
}

#[test]
fn failed_fetch_policy_on_yields_query() {
    let r = suggestions("rust", None, true);
    assert_eq!(r, phrases(&["rust"]));
}

#[test]
fn failed_fetch_policy_off_yields_nothing() {
    let r = suggestions("rust", None, false);
    assert!(r.is_empty());
}

#[test]
fn duplicates_collapse_to_one_entry_each() {
    let r = suggestions("x", Some(phrases(&["bank", "bank", "bbc"])), false);
    assert_eq!(r, phrases(&["bank", "bbc"]));
}

#[test]
fn many_repeats_collapse() {
    let r = suggestions("x", Some(phrases(&["b", "a", "b", "a", "b"])), false);
    assert_eq!(r, phrases(&["a", "b"]));
}

#[test]
fn policy_entry_wins_collision_with_remote() {
    let r = suggestions(
        "bank of america",
        Some(phrases(&["bbc news", "bank of america"])),
        true,
    );
    assert_eq!(r, phrases(&["bank of america", "bbc news"]));
}

#[test]
fn empty_query_policy_on_empty_response() {
    let r = suggestions("", Some(Vec::new()), true);
    assert_eq!(r, phrases(&[""]));
}

#[test]
fn empty_query_policy_on_failed_response() {
    let r = suggestions("", None, true);
    assert_eq!(r, phrases(&[""]));
}

#[test]
fn output_is_sorted_ascending() {
    let r = suggestions("x", Some(phrases(&["zeta", "alpha", "mid"])), false);
    assert_eq!(r, phrases(&["alpha", "mid", "zeta"]));
}

#[test]
fn policy_on_keeps_remote_entries_after_query() {
    let r = suggestions("q", Some(phrases(&["beta", "alpha"])), true);
    assert_eq!(r, phrases(&["q", "alpha", "beta"]));
}

#[test]
fn query_with_reserved_characters_kept_verbatim() {
    let r = suggestions("c++ & rust", Some(Vec::new()), true);
    assert_eq!(r, phrases(&["c++ & rust"]));
}
