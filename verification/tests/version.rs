use monosetup::{ParseError, PatchStrategy, Version};
use std::cmp::Ordering;

fn version(
    major: Option<u8>,
    minor: Option<u8>,
    patch: Option<u8>,
    appendix: Option<&str>,
    patch_strategy: PatchStrategy,
) -> Version {
    Version { major, minor, patch, appendix: appendix.map(|a| a.to_string()), patch_strategy }
}

fn parsed(range: &str) -> Version {
    Version::parse(range).unwrap()
}

#[test]
fn test_version_comp() {
    let ver = vec!["1.1.3",
     "1.0.3",
     "^2.3.1",
     "^1.3.3",
     "2.4.4",
     "4.3.0",
     "^0.10.3",
     "^1.3.4",
     "1.7.4",
     "2.8.5",
     "4.18.2",
     "6.0.1",
     "5.0.1",
     "1.4.1",
     "^1.4.5-lts.1",
     "0.12.0",
     "1.0.2",
     "9.3.4",
     "^0.5.3",
     "0.1.13",
     "4.6.2",
     "3.2.2",
     "3.0.4",
     "1.0.1",
     "0.3.0"];
    let mut x: Vec<Version> = ver.into_iter().map(TryFrom::try_from).map(|r| r.unwrap()).collect();
    x.sort_by(|a, b| a.cmp(b));
    println!("{:#?}", x)
}

#[test]
fn sorting_puts_versions_in_rank_order() {
    let ranges = vec![
        "1.1.3", "1.0.3", "^2.3.1", "^1.3.3", "2.4.4", "4.3.0", "^0.10.3", "^1.3.4", "1.7.4",
        "2.8.5", "4.18.2", "6.0.1", "5.0.1", "1.4.1", "^1.4.5-lts.1", "0.12.0", "1.0.2", "9.3.4",
        "^0.5.3", "0.1.13", "4.6.2", "3.2.2", "3.0.4", "1.0.1", "0.3.0",
    ];
    let mut versions: Vec<Version> = ranges.into_iter().map(parsed).collect();
    versions.sort_by(|a, b| a.cmp(b));
    let sorted: Vec<String> = versions.iter().map(|v| v.to_string()).collect();
    assert_eq!(
        sorted,
        vec![
            "0.1.13", "0.3.0", "0.12.0", "^0.5.3", "^0.10.3", "1.0.1", "1.0.2", "1.0.3", "1.1.3",
            "1.4.1", "1.7.4", "^1.3.3", "^1.3.4", "^1.4.5-lts.1", "2.4.4", "2.8.5", "^2.3.1",
            "3.0.4", "3.2.2", "4.3.0", "4.6.2", "4.18.2", "5.0.1", "6.0.1", "9.3.4",
        ]
    );
}

#[test]
fn parses_exact_version() {
    assert_eq!(
        Version::parse("1.2.3"),
        Ok(version(Some(1), Some(2), Some(3), None, PatchStrategy::Exact))
    );
    assert_eq!(
        Version::parse("7"),
        Ok(version(Some(7), None, None, None, PatchStrategy::Exact))
    );
    assert_eq!(
        Version::parse("7.10"),
        Ok(version(Some(7), Some(10), None, None, PatchStrategy::Exact))
    );
    assert_eq!(
        Version::parse("0.0.0"),
        Ok(version(Some(0), Some(0), Some(0), None, PatchStrategy::Exact))
    );
    assert_eq!(
        Version::parse("255.255.255"),
        Ok(version(Some(255), Some(255), Some(255), None, PatchStrategy::Exact))
    );
}

#[test]
fn parses_tilde_range() {
    assert_eq!(
        Version::parse("~1.2.3"),
        Ok(version(Some(1), Some(2), Some(3), None, PatchStrategy::Patch))
    );
    assert_eq!(
        Version::parse("~1.2"),
        Ok(version(Some(1), Some(2), None, None, PatchStrategy::Patch))
    );
    assert_eq!(
        Version::parse("~4"),
        Ok(version(Some(4), None, None, None, PatchStrategy::Patch))
    );
}

#[test]
fn parses_caret_range() {
    assert_eq!(
        Version::parse("^5.1.2"),
        Ok(version(Some(5), Some(1), Some(2), None, PatchStrategy::Minor))
    );
    assert_eq!(
        Version::parse("^0.10"),
        Ok(version(Some(0), Some(10), None, None, PatchStrategy::Minor))
    );
}

#[test]
fn parses_wildcards() {
    let any = version(None, None, None, None, PatchStrategy::Major);
    assert_eq!(Version::parse("*"), Ok(any.clone()));
    assert_eq!(Version::parse("x"), Ok(any.clone()));
    assert_eq!(Version::parse("x.1.2"), Ok(any.clone()));
    assert_eq!(Version::parse("*anything"), Ok(any));
    assert_eq!(
        Version::parse("*-beta"),
        Ok(version(None, None, None, Some("-beta"), PatchStrategy::Major))
    );
}

#[test]
fn parses_any_marker_in_plain_range() {
    assert_eq!(
        Version::parse("1.x"),
        Ok(version(Some(1), None, None, None, PatchStrategy::Minor))
    );
    assert_eq!(
        Version::parse("1.2.x"),
        Ok(version(Some(1), Some(2), None, None, PatchStrategy::Patch))
    );
    assert_eq!(
        Version::parse("1.x.not.read.at.all"),
        Ok(version(Some(1), None, None, None, PatchStrategy::Minor))
    );
    assert_eq!(
        Version::parse("1.2.x.9.9"),
        Ok(version(Some(1), Some(2), None, None, PatchStrategy::Patch))
    );
    assert_eq!(Version::parse("^1.x"), Err(ParseError::InvalidFormat));
    assert_eq!(Version::parse("~1.2.x"), Err(ParseError::InvalidFormat));
    assert_eq!(Version::parse("1.xx"), Err(ParseError::InvalidFormat));
}

#[test]
fn keeps_appendix_verbatim() {
    assert_eq!(
        Version::parse("^1.4.5-lts.1"),
        Ok(version(Some(1), Some(4), Some(5), Some("-lts.1"), PatchStrategy::Minor))
    );
    assert_eq!(
        Version::parse("1.0.0-alpha-2+build.7"),
        Ok(version(Some(1), Some(0), Some(0), Some("-alpha-2+build.7"), PatchStrategy::Exact))
    );
    assert_eq!(
        Version::parse("2-"),
        Ok(version(Some(2), None, None, Some("-"), PatchStrategy::Exact))
    );
    assert_eq!(
        Version::parse("1.2.3-\u{e9}t\u{e9}"),
        Ok(version(Some(1), Some(2), Some(3), Some("-\u{e9}t\u{e9}"), PatchStrategy::Exact))
    );
}

#[test]
fn accepts_plus_sign_and_leading_zeros_in_component() {
    assert_eq!(
        Version::parse("1.+2.3"),
        Ok(version(Some(1), Some(2), Some(3), None, PatchStrategy::Exact))
    );
    assert_eq!(
        Version::parse("^+1"),
        Ok(version(Some(1), None, None, None, PatchStrategy::Minor))
    );
    assert_eq!(
        Version::parse("001.0002.00003"),
        Ok(version(Some(1), Some(2), Some(3), None, PatchStrategy::Exact))
    );
    assert_eq!(Version::parse("1.+"), Err(ParseError::InvalidFormat));
    assert_eq!(Version::parse("1.++2"), Err(ParseError::InvalidFormat));
    assert_eq!(Version::parse("+1"), Err(ParseError::InvalidFormat));
}

#[test]
fn rejects_empty_range() {
    assert_eq!(Version::parse(""), Err(ParseError::Empty));
}

#[test]
fn rejects_wrong_shape() {
    assert_eq!(Version::parse("abc"), Err(ParseError::InvalidFormat));
    assert_eq!(Version::parse("-beta"), Err(ParseError::InvalidFormat));
    assert_eq!(Version::parse("^"), Err(ParseError::InvalidFormat));
    assert_eq!(Version::parse("~"), Err(ParseError::InvalidFormat));
    assert_eq!(Version::parse("~-rc"), Err(ParseError::InvalidFormat));
    assert_eq!(Version::parse("1.2.3.4"), Err(ParseError::InvalidFormat));
    assert_eq!(Version::parse("^1.2.3.4"), Err(ParseError::InvalidFormat));
    assert_eq!(Version::parse("1..3"), Err(ParseError::InvalidFormat));
    assert_eq!(Version::parse("1."), Err(ParseError::InvalidFormat));
    assert_eq!(Version::parse("^.1"), Err(ParseError::InvalidFormat));
    assert_eq!(Version::parse("1.a.3"), Err(ParseError::InvalidFormat));
    assert_eq!(Version::parse("1.2a"), Err(ParseError::InvalidFormat));
    assert_eq!(Version::parse(">=1.2.3"), Err(ParseError::InvalidFormat));
    assert_eq!(Version::parse(" 1.2.3"), Err(ParseError::InvalidFormat));
    assert_eq!(Version::parse("1.2.3 "), Err(ParseError::InvalidFormat));
    assert_eq!(Version::parse("1.999a"), Err(ParseError::InvalidFormat));
}

#[test]
fn rejects_component_above_255() {
    assert_eq!(Version::parse("256.0.0"), Err(ParseError::ComponentOverflow));
    assert_eq!(Version::parse("1.300.0"), Err(ParseError::ComponentOverflow));
    assert_eq!(Version::parse("^1.2.1000"), Err(ParseError::ComponentOverflow));
    assert_eq!(
        Version::parse("~99999999999999999999999999999999"),
        Err(ParseError::ComponentOverflow)
    );
    assert_eq!(Version::parse("1.+256"), Err(ParseError::ComponentOverflow));
}

#[test]
fn first_failing_component_decides_the_error() {
    assert_eq!(Version::parse("1.300.a"), Err(ParseError::ComponentOverflow));
    assert_eq!(Version::parse("1.a.300"), Err(ParseError::InvalidFormat));
    assert_eq!(Version::parse("1.2.300.4"), Err(ParseError::ComponentOverflow));
    assert_eq!(Version::parse("1.2.3.300"), Err(ParseError::InvalidFormat));
}

#[test]
fn try_from_agrees_with_parse() {
    for range in ["1.2.3", "^1", "~1.2", "*", "", "abc", "1.2.3.4", "300", "1.x-rc"] {
        assert_eq!(Version::try_from(range), Version::parse(range));
    }
}

#[test]
fn error_categories_have_names() {
    assert_eq!(ParseError::InvalidFormat.category(), "InvalidFormat");
    assert_eq!(ParseError::ComponentOverflow.category(), "ComponentOverflow");
    assert_eq!(ParseError::Empty.category(), "Empty");
}

#[test]
fn renders_canonical_strings() {
    assert_eq!(parsed("1.2.3").to_string(), "1.2.3");
    assert_eq!(parsed("^5.1.2").to_string(), "^5.1.2");
    assert_eq!(parsed("~5.0.3").to_string(), "~5.0.3");
    assert_eq!(parsed("7").to_string(), "7");
    assert_eq!(parsed("^7.10").to_string(), "^7.10");
    assert_eq!(parsed("*").to_string(), "*");
    assert_eq!(parsed("x").to_string(), "*");
    assert_eq!(parsed("0.0.0").to_string(), "0.0.0");
    assert_eq!(parsed("255.100.9").to_string(), "255.100.9");
    assert_eq!(parsed("10.20.200").to_string(), "10.20.200");
    assert_eq!(parsed("001.+2.03").to_string(), "1.2.3");
    assert_eq!(parsed("^1.4.5-lts.1").to_string(), "^1.4.5-lts.1");
}

#[test]
fn renders_any_marker_as_caret_or_tilde() {
    assert_eq!(parsed("1.x").to_string(), "^1");
    assert_eq!(parsed("1.2.x").to_string(), "~1.2");
    assert_eq!(parsed("1.x-rc").to_string(), "^1-rc");
}

#[test]
fn renders_wildcard_with_its_appendix() {
    assert_eq!(parsed("*-beta").to_string(), "*-beta");
    assert_eq!(
        version(Some(1), Some(2), Some(3), Some("-z"), PatchStrategy::Major).to_string(),
        "*-z"
    );
}

#[test]
fn renders_only_the_components_that_are_present() {
    assert_eq!(
        version(Some(1), None, Some(3), None, PatchStrategy::Exact).to_string(),
        "1.3"
    );
    assert_eq!(
        version(None, Some(2), None, None, PatchStrategy::Patch).to_string(),
        "~2"
    );
    assert_eq!(version(None, None, None, None, PatchStrategy::Exact).to_string(), "");
    assert_eq!(
        version(None, None, None, Some("-only"), PatchStrategy::Minor).to_string(),
        "^-only"
    );
}

#[test]
fn string_from_version_is_the_canonical_string() {
    assert_eq!(String::from(parsed("^2.3.1")), "^2.3.1");
    assert_eq!(String::from(parsed("1.2.x")), "~1.2");
    let text: String = parsed("4.18.2-next").into();
    assert_eq!(text, "4.18.2-next");
}

#[test]
fn round_trip_gives_the_same_version() {
    let ranges = [
        "1.2.3", "0.0.0", "255.255.255", "7", "7.10", "^1", "^1.2", "^1.2.3", "~1", "~1.2",
        "~1.2.3", "*", "x", "1.x", "1.2.x", "^1.4.5-lts.1", "*-beta", "1.x-rc.1", "2-", "3.+4",
        "1.2.3-a-b-c", "x.y.z", "*junk-tail",
    ];
    for range in ranges {
        let v = parsed(range);
        assert_eq!(Version::parse(&v.to_string()), Ok(v.clone()), "{}", range);
    }
}

#[test]
fn round_trip_over_every_component_value() {
    for n in 0..=255u8 {
        let v = version(Some(n), Some(255 - n), Some(n / 2), None, PatchStrategy::Minor);
        assert_eq!(Version::parse(&v.to_string()), Ok(v));
    }
}

#[test]
fn strategy_table_at_equal_major() {
    assert_eq!(parsed("1.2.3").cmp(&parsed("^1.2.3")), Ordering::Less);
    assert_eq!(parsed("~1.2.3").cmp(&parsed("^1.2.0")), Ordering::Less);
    assert_eq!(parsed("1.2.3").cmp(&parsed("~1.2.4")), Ordering::Less);
    // minor Less
    assert_eq!(parsed("1.1.0").cmp(&parsed("~1.2.0")), Ordering::Less);
    assert_eq!(parsed("1.1.9").cmp(&parsed("1.2.0")), Ordering::Less);
    assert_eq!(parsed("^1.1.0").cmp(&parsed("1.2.0")), Ordering::Greater);
    // minor Equal
    assert_eq!(parsed("1.2.0").cmp(&parsed("~1.2.0")), Ordering::Less);
    assert_eq!(parsed("1.2.3").cmp(&parsed("1.2.3")), Ordering::Equal);
    assert_eq!(parsed("1.2.3").cmp(&parsed("1.2.4")), Ordering::Less);
    assert_eq!(parsed("1.2.4").cmp(&parsed("1.2.3")), Ordering::Greater);
    assert_eq!(parsed("1.2").cmp(&parsed("1.2.0")), Ordering::Less);
    assert_eq!(parsed("^1.2.0").cmp(&parsed("~1.2.9")), Ordering::Greater);
    // minor Greater
    assert_eq!(parsed("1.9.0").cmp(&parsed("~1.2.0")), Ordering::Less);
    assert_eq!(parsed("1.3.0").cmp(&parsed("1.2.9")), Ordering::Greater);
    assert_eq!(parsed("^1.3.0").cmp(&parsed("~1.2.0")), Ordering::Greater);
}

#[test]
fn major_component_decides_first() {
    assert_eq!(parsed("2.0.0").cmp(&parsed("^1.9.9")), Ordering::Greater);
    assert_eq!(parsed("^1.9.9").cmp(&parsed("2.0.0")), Ordering::Less);
    assert_eq!(parsed("0.12.0").cmp(&parsed("^0.5.3")), Ordering::Less);
    assert_eq!(
        version(None, Some(9), Some(9), None, PatchStrategy::Minor)
            .cmp(&version(Some(0), None, None, None, PatchStrategy::Exact)),
        Ordering::Less
    );
}

#[test]
fn wildcard_ranks_above_everything_else() {
    let any = parsed("*");
    for range in ["0", "1.2.3", "^255.255.255", "~1.2", "1.x", "255.255.255-z"] {
        assert_eq!(any.cmp(&parsed(range)), Ordering::Greater, "{}", range);
        assert_eq!(parsed(range).cmp(&any), Ordering::Less, "{}", range);
        assert!(any > parsed(range));
        assert!(any.outranks(&parsed(range)));
        assert!(!parsed(range).outranks(&any));
    }
}

#[test]
fn wildcards_rank_equal_among_themselves() {
    assert_eq!(parsed("*").cmp(&parsed("x")), Ordering::Equal);
    assert_eq!(parsed("*-a").cmp(&parsed("*-b")), Ordering::Equal);
    assert_eq!(parsed("*-b").cmp(&parsed("*-a")), Ordering::Equal);
    assert_eq!(
        version(Some(1), None, None, None, PatchStrategy::Major).cmp(&parsed("*")),
        Ordering::Equal
    );
}

#[test]
fn appendix_has_no_part_in_the_order() {
    assert_eq!(parsed("1.2.3-a").cmp(&parsed("1.2.3-b")), Ordering::Equal);
    assert_eq!(parsed("1.2.3-a").cmp(&parsed("1.2.3")), Ordering::Equal);
    assert_eq!(parsed("1.2.3-z").cmp(&parsed("1.2.4-a")), Ordering::Less);
    assert_ne!(parsed("1.2.3-a"), parsed("1.2.3-b"));
}

#[test]
fn order_is_total_on_samples() {
    let samples: Vec<Version> = [
        "0", "0.0", "0.0.0", "1", "1.2", "1.2.3", "1.2.3-x", "~1", "~1.2", "~1.2.3", "^1",
        "^1.2", "^1.2.3", "1.x", "1.2.x", "2.0.0", "^0.9.9", "*", "x", "*-a", "255.255.255",
    ]
    .into_iter()
    .map(parsed)
    .collect();
    for a in &samples {
        assert_eq!(a.cmp(a), Ordering::Equal);
        for b in &samples {
            assert_eq!(a.cmp(b), b.cmp(a).reverse());
            assert_eq!(a.partial_cmp(b), Some(a.cmp(b)));
            assert_eq!(a < b, a.cmp(b) == Ordering::Less);
            assert_eq!(a.outranks(b), a.cmp(b) == Ordering::Greater);
            if a == b {
                assert_eq!(a.cmp(b), Ordering::Equal);
            }
            for c in &samples {
                if a.cmp(b) != Ordering::Greater && b.cmp(c) != Ordering::Greater {
                    assert_ne!(a.cmp(c), Ordering::Greater);
                }
                if a.cmp(b) == Ordering::Less && b.cmp(c) == Ordering::Less {
                    assert_eq!(a.cmp(c), Ordering::Less);
                }
            }
        }
    }
}

#[test]
fn strategies_are_ordered_by_looseness() {
    assert!(PatchStrategy::Exact < PatchStrategy::Patch);
    assert!(PatchStrategy::Patch < PatchStrategy::Minor);
    assert!(PatchStrategy::Minor < PatchStrategy::Major);
    assert_eq!(PatchStrategy::Exact.ordinal(), 0);
    assert_eq!(PatchStrategy::Patch.ordinal(), 1);
    assert_eq!(PatchStrategy::Minor.ordinal(), 2);
    assert_eq!(PatchStrategy::Major.ordinal(), 3);
}

#[test]
fn clone_keeps_every_field() {
    let v = parsed("^1.4.5-lts.1");
    assert_eq!(v.clone(), v);
}
