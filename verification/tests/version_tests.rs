use package_audit::models::{PackageReference, PackageVersion, RepoFileContentLine};

fn v(major: Option<u32>, minor: Option<u32>, patch: Option<u32>) -> PackageVersion {
    PackageVersion::new(major, minor, patch)
}

#[test]
fn version_display_full() {
    assert_eq!(v(Some(13), Some(0), Some(1)).to_string(), "13.0.1");
}

#[test]
fn version_display_major_only() {
    assert_eq!(v(Some(5), None, None).to_string(), "5.?.?");
}

#[test]
fn version_display_absent_middle() {
    assert_eq!(v(Some(1), None, Some(2)).to_string(), "1.?.2");
}

#[test]
fn version_order_numeric_not_lexicographic() {
    // 1.2.10 is above 1.2.3: segments compare as numbers.
    assert!(v(Some(1), Some(2), Some(3)).lt(&v(Some(1), Some(2), Some(10))));
    assert!(v(Some(1), Some(2), Some(10)).lt(&v(Some(2), Some(0), Some(0))));
}

#[test]
fn version_order_absent_sorts_lowest() {
    assert!(v(Some(1), None, None).lt(&v(Some(1), Some(0), None)));
    assert!(v(None, None, None).lt(&v(Some(0), None, None)));
}

#[test]
fn version_order_reflexive_le() {
    assert!(v(Some(1), Some(2), Some(3)).le(&v(Some(1), Some(2), Some(3))));
    assert!(!v(Some(1), Some(2), Some(3)).lt(&v(Some(1), Some(2), Some(3))));
}

fn parse(text: &str) -> Result<PackageReference, ()> {
    PackageReference::try_from(RepoFileContentLine {
        text: text.to_string(),
    })
}

#[test]
fn manifest_line_parses_name_and_version() {
    let p = parse("    <PackageReference Include=\"Newtonsoft.Json\" Version=\"13.0.1\" />")
        .expect("declaration line must parse");
    assert_eq!(p.package_name, "Newtonsoft.Json");
    assert_eq!(p.package_version, PackageVersion::new(Some(13), Some(0), Some(1)));
}

#[test]
fn line_without_marker_is_no_match() {
    assert!(parse("  <ProjectReference Include=\"Other.csproj\" />").is_err());
    assert!(parse("</ItemGroup>").is_err());
}

#[test]
fn line_with_marker_but_missing_attribute_is_no_match() {
    assert!(parse("<PackageReference Include=\"Newtonsoft.Json\" />").is_err());
    assert!(parse("<PackageReference Version=\"13.0.1\" />").is_err());
}

#[test]
fn malformed_version_segment_falls_back_to_zero() {
    let p = parse("<PackageReference Include=\"A.B\" Version=\"13.x.1\" />").unwrap();
    assert_eq!(p.package_version, PackageVersion::new(Some(13), Some(0), Some(1)));
}

#[test]
fn short_version_leaves_components_absent() {
    let p = parse("<PackageReference Include=\"A.B\" Version=\"7\" />").unwrap();
    assert_eq!(p.package_version, PackageVersion::new(Some(7), None, None));
    let p = parse("<PackageReference Include=\"A.B\" Version=\"7.1\" />").unwrap();
    assert_eq!(p.package_version, PackageVersion::new(Some(7), Some(1), None));
}

#[test]
fn fourth_segment_folds_into_patch_and_is_malformed() {
    // splitn keeps "1.2" as the third segment; it is no numeral, so 0.
    let p = parse("<PackageReference Include=\"A.B\" Version=\"4.3.1.2\" />").unwrap();
    assert_eq!(p.package_version, PackageVersion::new(Some(4), Some(3), Some(0)));
}

#[test]
fn overlong_numeral_falls_back_to_zero() {
    let p = parse("<PackageReference Include=\"A.B\" Version=\"4294967296.1.1\" />").unwrap();
    assert_eq!(p.package_version, PackageVersion::new(Some(0), Some(1), Some(1)));
}

#[test]
fn marker_inside_name_is_kept() {
    // Only the marker prefix is stripped; an occurrence inside the value stays.
    let p = parse("<PackageReference Include=\"AIncludeB\" Version=\"1\" />").unwrap();
    assert_eq!(p.package_name, "AIncludeB");
    let p = parse("<PackageReference Include=\"X\" Version=\"2Version\" />").unwrap();
    // "2Version" keeps the inner marker and so is no numeral: fallback 0.
    assert_eq!(p.package_version, PackageVersion::new(Some(0), None, None));
}
