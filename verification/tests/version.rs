use sentrux_core::version::{
    cmp_pre, parse_pre, parse_pre_segment, parse_version, parse_version_component,
    version_at_least, PrId,
};
use std::cmp::Ordering;

#[test]
fn test_version_at_least_release_and_prerelease() {
    assert!(version_at_least("0.5.7", "0.5.6").unwrap());
    assert!(version_at_least("0.5.7", "0.5.7").unwrap());
    assert!(!version_at_least("0.5.6", "0.5.7").unwrap());
    // Release newer than pre-release of same core.
    assert!(version_at_least("0.5.7", "0.5.7-rc1").unwrap());
    assert!(!version_at_least("0.5.7-rc1", "0.5.7").unwrap());
    // Numeric pre-release ordering.
    assert!(version_at_least("0.5.7-rc10", "0.5.7-rc2").unwrap());
    assert!(!version_at_least("0.5.7-rc2", "0.5.7-rc10").unwrap());
    // Dotted pre-release ordering.
    assert!(version_at_least("1.0.0-alpha.2", "1.0.0-alpha.1").unwrap());
    assert!(version_at_least("1.0.0-alpha.1", "1.0.0-alpha").unwrap());
    assert!(!version_at_least("1.0.0-alpha", "1.0.0-alpha.1").unwrap());
    // Build metadata ignored in comparison, core parsed correctly.
    assert!(!version_at_least("0.5.7", "0.5.8+linux").unwrap());
    assert!(version_at_least("0.5.8+linux", "0.5.7").unwrap());
    // Malformed numeric core components are rejected.
    assert!(version_at_least("0.5.7", "0.5.x").is_err());
}

#[test]
fn components_are_unsigned_numbers() {
    assert_eq!(parse_version_component("0"), Ok(0));
    assert_eq!(parse_version_component("007"), Ok(7));
    assert_eq!(parse_version_component("+5"), Ok(5));
    assert_eq!(
        parse_version_component("18446744073709551615"),
        Ok(u64::MAX)
    );
    for bad in ["", "+", "-1", "++1", "1a", " 1", "1_0", "\u{0661}", "18446744073709551616"] {
        assert_eq!(
            parse_version_component(bad),
            Err(format!("invalid version component '{}'", bad))
        );
        // std agrees on what is a number.
        assert!(bad.parse::<u64>().is_err());
    }
}

#[test]
fn versions_are_taken_apart() {
    assert_eq!(parse_version("0.5.7"), Ok((0, 5, 7, "")));
    assert_eq!(parse_version("1.0.0-rc1"), Ok((1, 0, 0, "rc1")));
    assert_eq!(parse_version("1.2.3-a-b.c+x-y+z"), Ok((1, 2, 3, "a-b.c")));
    assert_eq!(parse_version("1"), Ok((1, 0, 0, "")));
    assert_eq!(parse_version("1.2"), Ok((1, 2, 0, "")));
    assert_eq!(parse_version("1.0.0-"), Ok((1, 0, 0, "")));
    assert_eq!(parse_version("1.0.0-\u{e9}t\u{e9}"), Ok((1, 0, 0, "\u{e9}t\u{e9}")));
}

#[test]
fn malformed_versions_say_what_is_wrong() {
    assert_eq!(
        parse_version(""),
        Err("invalid version component ''".to_string())
    );
    assert_eq!(
        parse_version("1..2"),
        Err("invalid version component ''".to_string())
    );
    assert_eq!(
        parse_version("1.2.x-rc"),
        Err("invalid version component 'x'".to_string())
    );
    assert_eq!(
        parse_version("1.2.3.4-rc1+b"),
        Err("invalid version '1.2.3.4-rc1': too many numeric components".to_string())
    );
    assert_eq!(
        parse_version("1.2.3."),
        Err("invalid version '1.2.3.': too many numeric components".to_string())
    );
    // A bad number is reported before there being too many.
    assert_eq!(
        parse_version("1.2.z.4"),
        Err("invalid version component 'z'".to_string())
    );
    // The current version is looked at first.
    assert_eq!(
        version_at_least("a", "b"),
        Err("invalid version component 'a'".to_string())
    );
    assert_eq!(
        version_at_least("1", "b"),
        Err("invalid version component 'b'".to_string())
    );
}

#[test]
fn segments_become_identifiers() {
    assert_eq!(parse_pre_segment(""), vec![]);
    assert_eq!(parse_pre_segment("12"), vec![PrId::Num(12)]);
    assert_eq!(
        parse_pre_segment("99999999999999999999999"),
        vec![PrId::Num(u64::MAX)]
    );
    assert_eq!(
        parse_pre_segment("rc10"),
        vec![PrId::Str("rc".to_string()), PrId::Num(10)]
    );
    assert_eq!(
        parse_pre_segment("pre-7"),
        vec![PrId::Str("pre-".to_string()), PrId::Num(7)]
    );
    // Letters of any alphabet make a name.
    assert_eq!(
        parse_pre_segment("\u{3b2}2"),
        vec![PrId::Str("\u{3b2}".to_string()), PrId::Num(2)]
    );
    assert_eq!(
        parse_pre_segment("rc18446744073709551616"),
        vec![PrId::Str("rc".to_string()), PrId::Num(u64::MAX)]
    );
    for whole in ["alpha", "1rc", "rc1a", "r_c1", "r c1", "-"] {
        assert_eq!(
            parse_pre_segment(whole),
            vec![PrId::Str(whole.to_string())]
        );
    }
}

#[test]
fn pre_releases_become_identifiers() {
    assert_eq!(parse_pre(""), vec![]);
    assert_eq!(parse_pre("."), vec![]);
    assert_eq!(
        parse_pre("alpha..rc2.3"),
        vec![
            PrId::Str("alpha".to_string()),
            PrId::Str("rc".to_string()),
            PrId::Num(2),
            PrId::Num(3),
        ]
    );
}

#[test]
fn pre_releases_are_ordered() {
    assert_eq!(cmp_pre("alpha", "alpha"), Ordering::Equal);
    assert_eq!(cmp_pre("rc1", "rc.1"), Ordering::Equal);
    assert_eq!(cmp_pre("", ""), Ordering::Equal);
    assert_eq!(cmp_pre("alpha", "beta"), Ordering::Less);
    assert_eq!(cmp_pre("beta", "alpha"), Ordering::Greater);
    assert_eq!(cmp_pre("alp", "alpha"), Ordering::Less);
    assert_eq!(cmp_pre("Z", "a"), Ordering::Less);
    assert_eq!(cmp_pre("z", "\u{e9}"), Ordering::Less);
    assert_eq!(cmp_pre("\u{ffff}", "\u{10000}"), Ordering::Less);
    // Numbers sort before names.
    assert_eq!(cmp_pre("999", "a"), Ordering::Less);
    assert_eq!(cmp_pre("a", "999"), Ordering::Greater);
    // Shorter prefixes sort before longer ones.
    assert_eq!(cmp_pre("alpha", "alpha.1"), Ordering::Less);
    assert_eq!(cmp_pre("alpha.1", "alpha"), Ordering::Greater);
    assert_eq!(cmp_pre("", "0"), Ordering::Less);
}

#[test]
fn order_of_versions_is_total_and_transitive_on_samples() {
    let ascending = [
        "0.9.9",
        "1.0.0-.",
        "1.0.0-1",
        "1.0.0-2",
        "1.0.0-10",
        "1.0.0-alpha",
        "1.0.0-alpha.1",
        "1.0.0-alpha.beta",
        "1.0.0-beta",
        "1.0.0-rc2",
        "1.0.0-rc10",
        "1.0.0",
        "1.0.1-a",
        "1.1",
        "2",
    ];
    for (i, a) in ascending.iter().enumerate() {
        for (j, b) in ascending.iter().enumerate() {
            assert_eq!(version_at_least(a, b), Ok(i >= j), "{} against {}", a, b);
        }
    }
}

#[test]
fn build_metadata_changes_nothing() {
    for v in ["1.2.3", "1.2.3-rc1", "1"] {
        let built = format!("{}+linux.x86-64+2", v);
        assert_eq!(parse_version(&built), parse_version(v));
        assert_eq!(version_at_least(&built, v), Ok(true));
        assert_eq!(version_at_least(v, &built), Ok(true));
    }
    for v in ["", "1.x", "1.2.3.4", "1.2.3.4-rc1"] {
        let built = format!("{}+linux", v);
        assert!(parse_version(v).is_err());
        assert_eq!(parse_version(&built), parse_version(v));
    }
}

#[test]
fn missing_numbers_are_zero() {
    assert_eq!(parse_version("3"), parse_version("3.0"));
    assert_eq!(parse_version("3.0"), parse_version("3.0.0"));
    assert_eq!(version_at_least("3", "3.0.0"), Ok(true));
    assert_eq!(version_at_least("3.0.0", "3"), Ok(true));
}
