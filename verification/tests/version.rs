use crate_docs::version::{
    parse_version_numeric_and_prerelease, ranks_above, read_segment, version_is_greater,
    SEGMENT_MAX,
};

#[test]
fn parses_plain_version() {
    assert_eq!(parse_version_numeric_and_prerelease("0.4.2"), (vec![0, 4, 2], false));
}

#[test]
fn parses_prerelease_tag() {
    assert_eq!(parse_version_numeric_and_prerelease("0.10.0-rc0"), (vec![0, 10, 0], true));
}

#[test]
fn parse_trims_white_space() {
    assert_eq!(parse_version_numeric_and_prerelease("  1.2.3\n"), (vec![1, 2, 3], false));
}

#[test]
fn parse_hyphen_without_tag_is_no_prerelease() {
    assert_eq!(parse_version_numeric_and_prerelease("1.2.3-"), (vec![1, 2, 3], false));
}

#[test]
fn parse_segment_without_digit_counts_zero_and_flags() {
    assert_eq!(parse_version_numeric_and_prerelease("1.x.3"), (vec![1, 0, 3], true));
    assert_eq!(parse_version_numeric_and_prerelease(""), (vec![0], true));
}

#[test]
fn parse_reads_leading_digits_of_segment() {
    assert_eq!(parse_version_numeric_and_prerelease("1.2beta.3"), (vec![1, 2, 3], false));
    assert_eq!(parse_version_numeric_and_prerelease("1.0.0+build5"), (vec![1, 0, 0], false));
}

#[test]
fn segment_number_is_capped() {
    let long: Vec<char> = "99999999999999999999999".chars().collect();
    assert_eq!(read_segment(&long), (SEGMENT_MAX, true));
    let edge: Vec<char> = "9223372036854775807".chars().collect();
    assert_eq!(read_segment(&edge), (9223372036854775807, true));
    let over: Vec<char> = "9223372036854775808".chars().collect();
    assert_eq!(read_segment(&over), (SEGMENT_MAX, true));
    let none: Vec<char> = "rc1".chars().collect();
    assert_eq!(read_segment(&none), (0, false));
}

#[test]
fn numeric_segments_rank_not_lexical() {
    assert!(version_is_greater("0.10.0", "0.4.2"));
    assert!(!version_is_greater("0.4.2", "0.10.0"));
}

#[test]
fn release_ranks_above_prerelease() {
    assert!(version_is_greater("1.2.0", "1.2.0-rc1"));
    assert!(!version_is_greater("1.2.0-rc1", "1.2.0"));
}

#[test]
fn missing_segments_count_as_zero() {
    assert!(!version_is_greater("1.2", "1.2.0"));
    assert!(!version_is_greater("1.2.0", "1.2"));
    assert!(version_is_greater("1.2.1", "1.2"));
    assert!(version_is_greater("1.3", "1.2.9"));
}

#[test]
fn equal_versions_do_not_outrank_each_other() {
    assert!(!version_is_greater("2.0.0", "2.0.0"));
    assert!(!version_is_greater("2.0.0-a", "2.0.0-b"));
}

#[test]
fn ranking_chains_on_concrete_versions() {
    let a = (vec![2, 0, 0], false);
    let b = (vec![1, 9], false);
    let c = (vec![1, 9, 0], true);
    assert!(ranks_above(&a, &b));
    assert!(ranks_above(&b, &c));
    assert!(ranks_above(&a, &c));
    assert!(!ranks_above(&c, &a));
    assert!(!ranks_above(&a, &a));
}

#[test]
fn parse_trims_white_space_of_every_kind() {
    assert_eq!(parse_version_numeric_and_prerelease("\u{a0}\u{3000}2.1\u{2028}"), (vec![2, 1], false));
}

#[test]
fn tag_alone_makes_a_prerelease_of_zero() {
    assert_eq!(parse_version_numeric_and_prerelease("-beta"), (vec![0], true));
    assert!(version_is_greater("0.0.1", "-beta"));
    assert!(!version_is_greater("-beta", "0"));
}

#[test]
fn long_digit_runs_rank_as_the_cap() {
    assert!(!version_is_greater("99999999999999999999.0", "9223372036854775807.0"));
    assert!(version_is_greater("99999999999999999999.1", "9223372036854775807.0"));
}
