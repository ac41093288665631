use teleproj::resolve::{resolve, resolve_scored, ResolveResult, MAX_LISTED};

fn paths(v: &[&str]) -> Vec<String> {
    v.iter().map(|s| s.to_string()).collect()
}

#[test]
fn shared_prefix_is_ambiguous_in_list_order() {
    let ps = paths(&["/work/apollo", "/work/apple", "/work/apex"]);
    match resolve(&ps, "ap") {
        ResolveResult::Ambiguous(v) => {
            assert_eq!(v.len(), 3);
            assert_eq!(v.iter().map(|c| c.index).collect::<Vec<_>>(), vec![0, 1, 2]);
            assert!(v.iter().all(|c| c.score == 520));
            assert_eq!(v[0].path, "/work/apollo");
        }
        _ => panic!("expected an ambiguous result"),
    }
}

#[test]
fn scattered_match_picks_the_only_candidate() {
    let ps = paths(&["/src/frontend", "/src/backend"]);
    match resolve(&ps, "fe") {
        ResolveResult::Unique(p) => assert_eq!(p, "/src/frontend"),
        _ => panic!("expected a unique result"),
    }
}

#[test]
fn exact_name_wins_over_prefix_matches() {
    let ps = paths(&["/w/apple", "/w/app", "/w/application"]);
    match resolve(&ps, "APP") {
        ResolveResult::Unique(p) => assert_eq!(p, "/w/app"),
        _ => panic!("expected a unique result"),
    }
}

#[test]
fn index_takes_precedence_over_names() {
    let ps = paths(&["/w/alpha", "/w/1"]);
    match resolve(&ps, "1") {
        ResolveResult::DirectIndex(p) => assert_eq!(p, "/w/1"),
        _ => panic!("expected a direct index"),
    }
    match resolve(&ps, "0") {
        ResolveResult::DirectIndex(p) => assert_eq!(p, "/w/alpha"),
        _ => panic!("expected a direct index"),
    }
}

#[test]
fn index_with_plus_sign() {
    let ps = paths(&["/w/alpha", "/w/beta"]);
    match resolve(&ps, "+1") {
        ResolveResult::DirectIndex(p) => assert_eq!(p, "/w/beta"),
        _ => panic!("expected a direct index"),
    }
}

#[test]
fn index_past_the_end_fails() {
    let ps = paths(&["/w/alpha", "/w/7"]);
    match resolve(&ps, "7") {
        ResolveResult::IndexOutOfRange(i) => assert_eq!(i, 7),
        _ => panic!("expected an out-of-range index"),
    }
}

#[test]
fn empty_query_is_rejected() {
    let ps = paths(&["/w/alpha"]);
    assert!(matches!(resolve(&ps, ""), ResolveResult::EmptyQuery));
}

#[test]
fn nothing_matches() {
    let ps = paths(&["/w/alpha", "/w/beta"]);
    assert!(matches!(resolve(&ps, "zzz"), ResolveResult::NotFound));
    let none: Vec<String> = Vec::new();
    assert!(matches!(resolve(&none, "a"), ResolveResult::NotFound));
}

#[test]
fn same_name_twice_is_ambiguous() {
    let ps = paths(&["/a/site", "/b/site"]);
    match resolve(&ps, "site") {
        ResolveResult::Ambiguous(v) => {
            assert_eq!(v.len(), 2);
            assert_eq!((v[0].index, v[0].score), (0, 1000));
            assert_eq!((v[1].index, v[1].score), (1, 1000));
        }
        _ => panic!("expected an ambiguous result"),
    }
}

#[test]
fn higher_score_alone_is_unique() {
    let ps = paths(&["/w/mytool", "/w/toolbox"]);
    match resolve(&ps, "tool") {
        ResolveResult::Unique(p) => assert_eq!(p, "/w/toolbox"),
        _ => panic!("expected a unique result"),
    }
}

#[test]
fn ambiguous_lists_at_most_five_best_first() {
    let ps = paths(&[
        "/w/xay", "/w/ab1", "/w/ab2", "/w/xab", "/w/ab3", "/w/ab4", "/w/ab5", "/w/ab6",
    ]);
    match resolve(&ps, "ab") {
        ResolveResult::Ambiguous(v) => {
            assert_eq!(v.len(), MAX_LISTED);
            assert_eq!(v.iter().map(|c| c.index).collect::<Vec<_>>(), vec![1, 2, 4, 5, 6]);
        }
        _ => panic!("expected an ambiguous result"),
    }
}

#[test]
fn ranking_orders_by_score_then_position() {
    let ps = paths(&["/w/a", "/w/b", "/w/c", "/w/d"]);
    let scores: Vec<u128> = vec![3, 7, 7, 0];
    match resolve_scored(&ps, &scores) {
        ResolveResult::Ambiguous(v) => {
            assert_eq!(v.iter().map(|c| c.index).collect::<Vec<_>>(), vec![1, 2, 0]);
        }
        _ => panic!("expected an ambiguous result"),
    }
    let scores: Vec<u128> = vec![3, 9, 7, 0];
    match resolve_scored(&ps, &scores) {
        ResolveResult::Unique(p) => assert_eq!(p, "/w/b"),
        _ => panic!("expected a unique result"),
    }
    let scores: Vec<u128> = vec![0, 0, 0, 0];
    assert!(matches!(resolve_scored(&ps, &scores), ResolveResult::NotFound));
}
