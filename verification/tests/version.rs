use repo_status::version::compare_versions;
use std::cmp::Ordering;

#[test]
fn versions_are_ordered_as_versions() {
    let ascending = [
        "0.9.0",
        "1.0.0-alpha",
        "1.0.0-alpha.1",
        "1.0.0-alpha.2",
        "1.0.0-alpha.11",
        "1.0.0-alpha.beta",
        "1.0.0-beta",
        "1.0.0-rc.1",
        "1.0.0",
        "1.0.0+0",
        "1.0.0+00",
        "1.0.0+1",
        "1.0.0+01",
        "1.0.0+build",
        "1.2.0",
        "1.10.0",
        "18446744073709551615.0.0",
    ];
    for (i, a) in ascending.iter().enumerate() {
        for (j, b) in ascending.iter().enumerate() {
            assert_eq!(compare_versions(a, b), i.cmp(&j), "{} {}", a, b);
        }
    }
}

#[test]
fn what_is_no_version_is_ordered_as_text() {
    // too few numbers, leading zero, overflow, empty parts, foreign characters
    for odd in [
        "1.10",
        "1.10.00",
        "1.10.18446744073709551616",
        "1.10.0-",
        "1.10.0+",
        "1.10.0-a..b",
        "1.10.0-01",
        "1.10.0-a_b",
        " 1.10.0",
        "v1.10.0",
        "",
    ] {
        assert_eq!(compare_versions(odd, "1.9.0"), odd.cmp("1.9.0"), "{}", odd);
        assert_eq!(compare_versions("1.9.0", odd), "1.9.0".cmp(odd), "{}", odd);
        assert_eq!(compare_versions(odd, odd), Ordering::Equal);
    }
    // as versions, the other way round
    assert_eq!(compare_versions("1.10.0", "1.9.0"), Ordering::Greater);
}

#[test]
fn only_the_same_text_is_equal() {
    assert_eq!(compare_versions("1.0.0", "1.0.0+x"), Ordering::Less);
    assert_eq!(compare_versions("1.0.0", "1.0"), "1.0.0".cmp("1.0"));
}
