use repo_status::registry::parse_published_version_from_output;
use repo_status::status::PublishStatus;
use repo_status::version::compare_versions;

#[test]
fn test_parse_published_version_from_output() {
    let sample = "clap #argument #cli\nversion: 4.6.7\nlicense: MIT\n";
    assert_eq!(
        parse_published_version_from_output(sample),
        Some("4.6.7".to_string())
    );

    let sample_with_latest = "clap\nversion: 4.0.0 (latest 4.6.7)\nlicense: MIT\n";
    assert_eq!(
        parse_published_version_from_output(sample_with_latest),
        Some("4.0.0".to_string())
    );

    let empty_sample = "no version info here\n";
    assert_eq!(parse_published_version_from_output(empty_sample), None);
}

#[test]
fn test_compare_versions() {
    assert_eq!(
        compare_versions("1.0.0", "1.0.0"),
        std::cmp::Ordering::Equal
    );
    assert_eq!(
        compare_versions("1.1.0", "1.0.0"),
        std::cmp::Ordering::Greater
    );
    assert_eq!(compare_versions("0.9.0", "1.0.0"), std::cmp::Ordering::Less);
    assert_eq!(
        compare_versions("1.0.0-alpha.1", "1.0.0"),
        std::cmp::Ordering::Less
    );
}

#[test]
fn test_status_messages() {
    let s1 = PublishStatus::NotPublished;
    assert_eq!(
        s1.format_message("my-crate", "0.1.0"),
        "my-crate 0.1.0 is not published"
    );
    assert!(!s1.is_success(false));

    let s2 = PublishStatus::Private;
    assert_eq!(
        s2.format_message("my-crate", "0.1.0"),
        "my-crate 0.1.0 is not published (private crate: publish = false)"
    );
    assert!(!s2.is_success(false));

    let s3 = PublishStatus::UpToDate {
        version: "0.1.0".to_string(),
        has_uncommitted_changes: false,
    };
    assert_eq!(
        s3.format_message("my-crate", "0.1.0"),
        "my-crate 0.1.0 is published and up to date"
    );
    assert!(s3.is_success(false));
    assert!(s3.is_success(true));

    let s4 = PublishStatus::UpToDate {
        version: "0.1.0".to_string(),
        has_uncommitted_changes: true,
    };
    assert_eq!(
        s4.format_message("my-crate", "0.1.0"),
        "my-crate 0.1.0 is published and up to date (uncommitted changes)"
    );
    assert!(s4.is_success(false));
    assert!(!s4.is_success(true));

    let s5 = PublishStatus::Outdated {
        local_version: "0.1.0".to_string(),
        published_version: "0.2.0".to_string(),
    };
    assert_eq!(
        s5.format_message("my-crate", "0.1.0"),
        "my-crate 0.1.0 is published, but outdated (latest published is 0.2.0)"
    );
    assert!(!s5.is_success(false));

    let s6 = PublishStatus::Ahead {
        local_version: "0.2.0".to_string(),
        published_version: "0.1.0".to_string(),
    };
    assert_eq!(
        s6.format_message("my-crate", "0.2.0"),
        "my-crate 0.2.0 is published, but local version is ahead (latest published is 0.1.0)"
    );
    assert!(!s6.is_success(false));
}
