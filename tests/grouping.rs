use std::collections::HashSet;
use wallcolle::grouping::group_by_artist;

fn input(v: &[(&str, usize)]) -> Vec<(String, usize)> {
    v.iter().map(|(a, n)| (a.to_string(), *n)).collect()
}

fn set(v: &[usize]) -> HashSet<usize> {
    v.iter().copied().collect()
}

#[test]
fn group_sorted_selections() {
    let r = group_by_artist(input(&[("a", 1), ("a", 2), ("b", 1)]));
    assert_eq!(r, vec![("a".to_string(), set(&[1, 2])), ("b".to_string(), set(&[1]))]);
}

#[test]
fn group_collapses_duplicates() {
    let r = group_by_artist(input(&[("a", 3), ("a", 3), ("a", 1)]));
    assert_eq!(r, vec![("a".to_string(), set(&[1, 3]))]);
}

#[test]
fn group_empty_input_has_no_groups() {
    assert!(group_by_artist(Vec::new()).is_empty());
}

#[test]
fn group_non_contiguous_artist_starts_new_group() {
    let r = group_by_artist(input(&[("a", 1), ("b", 2), ("a", 3)]));
    assert_eq!(
        r,
        vec![
            ("a".to_string(), set(&[1])),
            ("b".to_string(), set(&[2])),
            ("a".to_string(), set(&[3])),
        ]
    );
}

#[test]
fn group_empty_artist_name_is_an_identifier() {
    let r = group_by_artist(input(&[("", 1), ("x", 2)]));
    assert_eq!(r, vec![("".to_string(), set(&[1])), ("x".to_string(), set(&[2]))]);
}
