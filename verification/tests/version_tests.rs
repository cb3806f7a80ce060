use raise::error::ErrorCode;
use raise::version::MigrationVersion;

#[test]
fn test_version_parsing() {
    let v = MigrationVersion::parse("1.2.3").unwrap();
    assert_eq!(v.major, 1);
    assert_eq!(v.minor, 2);
    assert_eq!(v.patch, 3);
    assert_eq!(v.raw, "1.2.3");

    assert!(MigrationVersion::parse("invalid").is_err());
    assert!(MigrationVersion::parse("1.2").is_err());
}

#[test]
fn test_version_parse_errors() {
    assert_eq!(MigrationVersion::parse("1.2").unwrap_err().code, ErrorCode::MigrationVersionFormatInvalid);
    assert_eq!(MigrationVersion::parse("x.2.3").unwrap_err().code, ErrorCode::VersionParseMajor);
    assert_eq!(MigrationVersion::parse("1..3").unwrap_err().code, ErrorCode::VersionParseMinor);
    assert_eq!(MigrationVersion::parse("1.2.4294967296").unwrap_err().code, ErrorCode::VersionParsePatch);
    let v = MigrationVersion::parse("+1.02.4294967295").unwrap();
    assert_eq!((v.major, v.minor, v.patch), (1, 2, 4294967295));
}

#[test]
fn test_version_ordering() {
    let v1 = MigrationVersion::parse("1.0.0").unwrap();
    let v2 = MigrationVersion::parse("1.0.1").unwrap();
    let v3 = MigrationVersion::parse("1.1.0").unwrap();
    let v4 = MigrationVersion::parse("2.0.0").unwrap();

    assert!(v1 < v2);
    assert!(v2 < v3);
    assert!(v3 < v4);
    assert!(v1 < v4);
}

#[test]
fn test_version_sorting_list() {
    let mut versions = vec![
        MigrationVersion::parse("2.0.0").unwrap(),
        MigrationVersion::parse("1.0.0").unwrap(),
        MigrationVersion::parse("1.5.0").unwrap(),
    ];
    versions.sort_by(|a, b| a.partial_cmp(b).unwrap());

    assert_eq!(versions[0].raw, "1.0.0");
    assert_eq!(versions[1].raw, "1.5.0");
    assert_eq!(versions[2].raw, "2.0.0");
}
