use legba::Error;
use legba::Glob;
use legba::Wordlist;

#[test]
fn wordlist_counts_and_yields_lines() {
    let lines = vec!["item0".to_string(), "item1".to_string(), "item2".to_string()];
    let mut wl = Wordlist::new(lines.clone());
    assert_eq!(wl.search_space_size(), 3);
    let collected = wl.drain();
    assert_eq!(collected, lines);
}

#[test]
fn wordlist_next_yields_in_order_each_once() {
    let lines = vec!["a".to_string(), "b".to_string()];
    let mut wl = Wordlist::new(lines);
    assert_eq!(wl.next(), Some("a".to_string()));
    assert_eq!(wl.next(), Some("b".to_string()));
    assert_eq!(wl.next(), None);
    assert_eq!(wl.next(), None);
}

#[test]
fn empty_wordlist_is_empty() {
    let mut wl = Wordlist::new(vec![]);
    assert_eq!(wl.search_space_size(), 0);
    assert_eq!(wl.next(), None);
}

#[test]
fn glob_rejects_malformed_pattern() {
    let r = Glob::new("[".to_string());
    assert!(matches!(r, Err(Error::InvalidPattern(_))));
}

#[test]
fn glob_expands_existing_entries() {
    let mut g = Glob::new("/*".to_string()).unwrap();
    let n = g.search_space_size();
    let paths = g.drain();
    assert!(n > 0);
    assert_eq!(paths.len(), n);
    assert!(paths.iter().all(|p| p.starts_with('/') && !p.contains('*')));
    let mut sorted = paths.clone();
    sorted.sort();
    assert_eq!(paths, sorted);
}

#[test]
fn glob_with_no_matches_is_empty() {
    let mut g = Glob::new("no_such_dir_anywhere/*.txt".to_string()).unwrap();
    assert_eq!(g.search_space_size(), 0);
    assert_eq!(g.next(), None);
}
