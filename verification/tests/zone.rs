use sasso::zone::tz_path;

fn path(s: &str) -> Option<String> {
    Some(s.to_string())
}

#[test]
fn unset_or_empty_means_the_system_link() {
    let sys = path("/etc/localtime");
    assert_eq!(tz_path(None), sys);
    assert_eq!(tz_path(Some("")), sys);
}

#[test]
fn a_name_resolves_under_zoneinfo() {
    assert_eq!(tz_path(Some("Asia/Taipei")), path("/usr/share/zoneinfo/Asia/Taipei"));
    // A leading colon is allowed, and some tools write one.
    assert_eq!(tz_path(Some(":Asia/Taipei")), path("/usr/share/zoneinfo/Asia/Taipei"));
    // Three components happen.
    assert_eq!(
        tz_path(Some("America/Argentina/Salta")),
        path("/usr/share/zoneinfo/America/Argentina/Salta")
    );
}

#[test]
fn an_absolute_path_is_taken_as_given() {
    assert_eq!(tz_path(Some("/etc/localtime")), path("/etc/localtime"));
}

#[test]
fn a_name_cannot_escape_the_zoneinfo_directory() {
    for bad in [
        "../../../etc/passwd",
        "America/../../etc/passwd",
        ".",
        "..",
        "Asia/./Taipei",
        "Asia//Taipei",
        ":",
    ] {
        assert_eq!(tz_path(Some(bad)), None, "TZ={bad:?} should resolve to nothing");
    }
}
