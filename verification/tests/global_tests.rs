use core::cmp::Ordering;
use shincrypt::{Error, FileDir, Global, PathError, resolve_output_path};

#[test]
fn what_classifies_probes() {
    assert_eq!(FileDir::what(true, true, false), Ok(FileDir::File));
    assert_eq!(FileDir::what(true, true, true), Ok(FileDir::File));
    assert_eq!(FileDir::what(true, false, true), Ok(FileDir::Directory));
    assert_eq!(
        FileDir::what(false, false, false),
        Err(Error::Path(PathError::Missing))
    );
    assert_eq!(
        FileDir::what(true, false, false),
        Err(Error::Path(PathError::UnknownKind))
    );
}

#[test]
fn format_duration_zero() {
    assert_eq!(Global::format_duration(0, 0), "00:00:00.000");
}

#[test]
fn format_duration_typical() {
    assert_eq!(Global::format_duration(3661, 7), "01:01:01.007");
    assert_eq!(Global::format_duration(59, 999), "00:00:59.999");
    assert_eq!(Global::format_duration(3600, 0), "01:00:00.000");
}

#[test]
fn format_duration_hours_grow_past_two_digits() {
    assert_eq!(Global::format_duration(360_061, 42), "100:01:01.042");
}

#[test]
fn compare_versions_numeric() {
    assert_eq!(Global::compare_versions("1.2.3", "1.2.10"), Ordering::Less);
    assert_eq!(Global::compare_versions("1.2.10", "1.2.3"), Ordering::Greater);
    assert_eq!(Global::compare_versions("2.0.0", "2.0.0"), Ordering::Equal);
}

#[test]
fn compare_versions_pads_missing_components_with_zero() {
    assert_eq!(Global::compare_versions("1.2", "1.2.0"), Ordering::Equal);
    assert_eq!(Global::compare_versions("1.2", "1.2.1"), Ordering::Less);
    assert_eq!(Global::compare_versions("1.2.1", "1.2"), Ordering::Greater);
}

#[test]
fn compare_versions_unparsable_components_read_as_zero() {
    assert_eq!(Global::compare_versions("abc", "0"), Ordering::Equal);
    assert_eq!(Global::compare_versions("1.x.3", "1.0.3"), Ordering::Equal);
    assert_eq!(Global::compare_versions("", "0"), Ordering::Equal);
    // a component too large for the numeric width also reads as zero
    assert_eq!(Global::compare_versions("1.99999999999", "1.0"), Ordering::Equal);
}

#[test]
fn output_path_appends_container_extension() {
    let r = resolve_output_path("/in/report.pdf", "/out", "report.pdf", "/");
    assert_eq!(r, "/out/report.pdf.snc");
}

#[test]
fn output_path_collision_is_disambiguated() {
    let r = resolve_output_path("/out/report.pdf.snc", "/out", "report.pdf", "/");
    assert_eq!(r, "/out/report.pdf - new.snc");
    assert_ne!(r, "/out/report.pdf.snc");
}
