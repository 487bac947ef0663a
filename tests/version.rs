use bepinex_sources::version::Version;

fn v(text: &str) -> Version {
    Version::parse(text)
}

fn parts(ver: &Version) -> (u64, u64, u64, String, String) {
    (ver.major, ver.minor, ver.patch, ver.pre.clone(), ver.build.clone())
}

#[test]
fn parse_round_trips_valid_semver() {
    for text in ["1.2.3", "0.0.0", "6.0.0-pre.1", "1.2.3-alpha.1+build.5", "6.0.0-be.735+5fef357", "10.20.30+meta"] {
        assert_eq!(v(text).to_string(), text);
    }
    let full = v("1.2.3-alpha.1+build.5");
    assert_eq!(parts(&full), (1, 2, 3, "alpha.1".to_string(), "build.5".to_string()));
}

#[test]
fn parse_strips_leading_v() {
    assert_eq!(v("v5.4.21"), v("5.4.21"));
    assert_eq!(parts(&v("v6.0.0-pre.1")), (6, 0, 0, "pre.1".to_string(), String::new()));
}

#[test]
fn parse_legacy_four_part_equals_truncation() {
    assert_eq!(v("5.4.11.0"), v("5.4.11"));
    assert_eq!(v("5.4.21.1234"), v("5.4.21"));
    assert_eq!(v("5.4.11.0").to_string(), "5.4.11");
}

#[test]
fn parse_malformed_rescues_major_minor() {
    assert_eq!(parts(&v("abc")), (0, 0, 0, String::new(), String::new()));
    assert_eq!(parts(&v("7.2.x")), (7, 2, 0, String::new(), String::new()));
    assert_eq!(parts(&v("1.2")), (1, 2, 0, String::new(), String::new()));
    assert_eq!(parts(&v("")), (0, 0, 0, String::new(), String::new()));
    assert_eq!(parts(&v("3.01.2")), (3, 1, 0, String::new(), String::new()));
    assert_eq!(parts(&v("4.99999999999999999999.1")), (4, 0, 0, String::new(), String::new()));
}

#[test]
fn try_to_parse_and_fallback() {
    assert_eq!(parts(&Version::try_to_parse("2.3.4-rc.1")), (2, 3, 4, "rc.1".to_string(), String::new()));
    assert_eq!(parts(&Version::try_to_parse("v2.3.4")), (0, 3, 0, String::new(), String::new()));
    assert_eq!(parts(&Version::fallback("+8.9.junk")), (8, 9, 0, String::new(), String::new()));
    let given = Version::fix_version(1, 1);
    assert_eq!(Version::from_parse_result("anything", Some(given.clone())), given);
    assert_eq!(parts(&Version::from_parse_result("9.8.7.6.5", None)), (9, 8, 0, String::new(), String::new()));
}

#[test]
fn precedence_follows_semver() {
    assert!(v("1.0.0-alpha").precedes(&v("1.0.0")));
    assert!(v("1.0.0").precedes(&v("1.0.1")));
    assert!(v("1.0.0-alpha").precedes(&v("1.0.1")));
    assert!(!v("1.0.0").precedes(&v("1.0.0-alpha")));
    let chain = [
        "1.0.0-alpha",
        "1.0.0-alpha.1",
        "1.0.0-alpha.beta",
        "1.0.0-beta",
        "1.0.0-beta.2",
        "1.0.0-beta.11",
        "1.0.0-rc.1",
        "1.0.0",
        "1.1.0",
        "2.0.0",
    ];
    for i in 0..chain.len() {
        for j in 0..chain.len() {
            assert_eq!(v(chain[i]).precedes(&v(chain[j])), i < j, "{} vs {}", chain[i], chain[j]);
        }
    }
}

#[test]
fn precedence_ignores_build_metadata() {
    let a = v("1.0.0+aaa");
    let b = v("1.0.0+bbb");
    assert!(!a.precedes(&b));
    assert!(!b.precedes(&a));
    assert!(a.at_least(&b));
    assert!(v("6.0.0-pre.1").at_least(&v("6.0.0-pre.1")));
    assert!(!v("5.4.11").at_least(&v("6.0.0-pre.1")));
}

#[test]
fn renderings() {
    let ver = v("6.0.0-be.650+abcdef1");
    assert_eq!(ver.mmp(), "6.0.0");
    assert_eq!(ver.mmpp(), "6.0.0-be.650");
    assert_eq!(ver.display(), "6.0.0-be.650");
    assert_eq!(ver.to_string(), "6.0.0-be.650+abcdef1");
    let plain = v("5.4.21");
    assert_eq!(plain.display(), "5.4.21");
    assert_eq!(plain.mmpp(), "5.4.21-");
    assert_eq!(Version::fix_version(18446744073709551615, 7).to_string(), "18446744073709551615.7.0");
}
