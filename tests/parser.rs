use wallcolle::parser::{parse_manifest, parse_trimmed, parse_usize, ManifestWarning};

fn pairs(v: &[(&str, usize)]) -> Vec<(String, usize)> {
    v.iter().map(|(a, n)| (a.to_string(), *n)).collect()
}

#[test]
fn parse_skips_comments_blanks_and_malformed_lines() {
    let r = parse_manifest("a:1\n#comment\n\nb:2\nbad-line\nc:x\n");
    assert_eq!(r.entries, pairs(&[("a", 1), ("b", 2)]));
    assert_eq!(
        r.warnings,
        vec![
            ManifestWarning::InvalidLine("bad-line".to_string()),
            ManifestWarning::InvalidNumber("x".to_string()),
        ]
    );
}

#[test]
fn parse_count_matches_content_lines_minus_malformed() {
    let text = "x:1\n  y:2  \n# note\nz\n\n w:3\nq:-1\n";
    let r = parse_manifest(text);
    // Five content lines, two of them malformed.
    assert_eq!(r.entries.len() + r.warnings.len(), 5);
    assert_eq!(r.entries, pairs(&[("x", 1), ("y", 2), ("w", 3)]));
    assert_eq!(r.warnings.len(), 2);
}

#[test]
fn parse_splits_at_first_colon_only() {
    let r = parse_manifest("a:1:2\nb::3");
    assert!(r.entries.is_empty());
    assert_eq!(
        r.warnings,
        vec![
            ManifestWarning::InvalidNumber("1:2".to_string()),
            ManifestWarning::InvalidNumber(":3".to_string()),
        ]
    );
}

#[test]
fn parse_keeps_duplicates_and_order_and_crlf() {
    let r = parse_manifest("b:2\r\na:1\r\nb:2");
    assert_eq!(r.entries, pairs(&[("b", 2), ("a", 1), ("b", 2)]));
    assert!(r.warnings.is_empty());
}

#[test]
fn parse_empty_input() {
    let r = parse_manifest("");
    assert!(r.entries.is_empty());
    assert!(r.warnings.is_empty());
}

#[test]
fn parse_value_is_not_trimmed_inside_the_line() {
    let r = parse_manifest("a: 1\nb :4");
    assert_eq!(r.entries, pairs(&[("b ", 4)]));
    assert_eq!(r.warnings, vec![ManifestWarning::InvalidNumber(" 1".to_string())]);
}

#[test]
fn parse_usize_follows_from_str() {
    assert_eq!(parse_usize("0"), Some(0));
    assert_eq!(parse_usize("+17"), Some(17));
    assert_eq!(parse_usize("007"), Some(7));
    assert_eq!(parse_usize("+"), None);
    assert_eq!(parse_usize(""), None);
    assert_eq!(parse_usize("-1"), None);
    assert_eq!(parse_usize("1a"), None);
    let max = usize::MAX.to_string();
    assert_eq!(parse_usize(&max), Some(usize::MAX));
    assert_eq!(parse_usize(&format!("{}0", max)), None);
    assert_eq!(parse_usize("18446744073709551616"), "18446744073709551616".parse::<usize>().ok());
}

#[test]
fn parse_trimmed_line_outcomes() {
    assert_eq!(parse_trimmed("a:1"), (Some(("a".to_string(), 1)), None));
    assert_eq!(parse_trimmed("#a:1"), (None, None));
    assert_eq!(parse_trimmed(""), (None, None));
    assert_eq!(parse_trimmed("z"), (None, Some(ManifestWarning::InvalidLine("z".to_string()))));
    assert_eq!(parse_trimmed("z:"), (None, Some(ManifestWarning::InvalidNumber(String::new()))));
}

#[test]
fn parse_trims_unicode_whitespace() {
    let r = parse_manifest("\u{3000}a:5\u{00A0}\n");
    assert_eq!(r.entries, pairs(&[("a", 5)]));
}
