use waddle::entries::FileEntry;
use waddle::search::{contains_chars, find_match, restore_directory_view, SearchState};

fn entries() -> Vec<FileEntry> {
    ["alpha", "Beta", "alphabet", "gamma"]
        .into_iter()
        .map(|name| FileEntry {
            path: name.to_owned(),
            name: name.to_owned(),
            directory: false,
        })
        .collect()
}

#[test]
fn search_wraps_and_ignores_case() {
    let entries = entries();
    assert_eq!(find_match(&entries, "ALP", Some(0), false), Some(2));
    assert_eq!(find_match(&entries, "beta", Some(2), false), Some(1));
}

#[test]
fn reverse_search_wraps_backwards() {
    let entries = entries();
    assert_eq!(find_match(&entries, "alp", Some(2), true), Some(0));
    assert_eq!(find_match(&entries, "alp", Some(0), true), Some(2));
}

#[test]
fn leaving_recursive_search_restores_directory_entries_and_selection() {
    let mut state = SearchState {
        entries: vec![FileEntry {
            path: "nested/result".to_owned(),
            name: "result".to_owned(),
            directory: false,
        }],
        directory_entries: entries(),
        selected_entry: Some(0),
        search_origin: Some(Some(2)),
        recursive_search_active: true,
        recursive_search_loading: true,
        recursive_search_truncated: true,
    };

    assert!(restore_directory_view(&mut state, true));

    assert_eq!(state.entries.len(), 4);
    assert_eq!(state.selected_entry, Some(2));
    assert!(!state.recursive_search_active);
    assert!(!state.recursive_search_loading);
    assert!(!state.recursive_search_truncated);
}

#[test]
fn search_without_anchor_starts_at_either_end() {
    let entries = entries();
    assert_eq!(find_match(&entries, "a", None, false), Some(0));
    assert_eq!(find_match(&entries, "a", None, true), Some(3));
    assert_eq!(find_match(&entries, "zeta", None, false), None);
    assert_eq!(find_match(&entries, "", Some(1), false), None);
    assert_eq!(find_match(&[], "alpha", None, false), None);
}

#[test]
fn search_lowercases_beyond_ascii() {
    let entries = vec![
        FileEntry { path: "/x/a".to_owned(), name: "Ärger".to_owned(), directory: false },
        FileEntry { path: "/x/b".to_owned(), name: "ÖL".to_owned(), directory: false },
    ];
    assert_eq!(find_match(&entries, "öl", None, false), Some(1));
    assert_eq!(find_match(&entries, "ÄR", Some(1), false), Some(0));
}

#[test]
fn anchors_past_the_end_still_wrap() {
    let entries = entries();
    assert_eq!(find_match(&entries, "gamma", Some(7), false), Some(3));
    assert_eq!(find_match(&entries, "beta", Some(9), true), Some(1));
}

#[test]
fn inactive_search_leaves_the_listing_alone() {
    let mut state = SearchState {
        entries: entries(),
        directory_entries: Vec::new(),
        selected_entry: Some(1),
        search_origin: Some(Some(3)),
        recursive_search_active: false,
        recursive_search_loading: false,
        recursive_search_truncated: false,
    };
    assert!(!restore_directory_view(&mut state, true));
    assert_eq!(state.entries.len(), 4);
    assert_eq!(state.selected_entry, Some(1));
}

#[test]
fn substring_search_finds_inner_and_empty_patterns() {
    let hay: Vec<char> = "alphabet".chars().collect();
    assert!(contains_chars(&hay, &"hab".chars().collect::<Vec<_>>()));
    assert!(contains_chars(&hay, &[]));
    assert!(!contains_chars(&hay, &"bat".chars().collect::<Vec<_>>()));
    assert!(!contains_chars(&[], &['a']));
}

#[test]
fn the_anchor_is_visited_last() {
    let entries = entries();
    assert_eq!(find_match(&entries, "gamma", Some(3), false), Some(3));
    assert_eq!(find_match(&entries, "gamma", Some(3), true), Some(3));
    assert_eq!(find_match(&entries, "beta", Some(1), true), Some(1));
    assert_eq!(find_match(&entries, "BET", Some(0), true), Some(2));
}
