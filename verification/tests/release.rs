use gochu_core::release::{bump_version, read_version, release_arg, version_js, VersionError};

fn chars(s: &str) -> Vec<char> {
    s.chars().collect()
}

const MANIFEST: &str = "[package]\nname = \"gochu-core\"\nversion = \"0.3.1\"\nedition = \"2021\"\n\n[dependencies]\nfoo = { version = \"0.3.1\" }\n";

#[test]
fn read_version_of_manifest() {
    assert_eq!(read_version(&chars(MANIFEST)), Ok("0.3.1".to_string()));
}

#[test]
fn read_version_trims_line() {
    assert_eq!(read_version(&chars("  version = \"1.2.3\"  \r\n")), Ok("1.2.3".to_string()));
    assert_eq!(read_version(&chars("\tversion = \"\" # none")), Ok(String::new()));
}

#[test]
fn read_version_errors() {
    assert_eq!(read_version(&chars("version = \"1.2\n")), Err(VersionError::NoClosingQuote));
    assert_eq!(read_version(&chars("[package]\nname = \"x\"\n")), Err(VersionError::NoVersionLine));
    assert_eq!(read_version(&chars("")), Err(VersionError::NoVersionLine));
    assert_eq!(read_version(&chars("version=\"1\"\n")), Err(VersionError::NoVersionLine));
}

#[test]
fn bump_version_replaces_every_occurrence() {
    let bumped = bump_version(&chars(MANIFEST), &chars("0.3.1"), &chars("0.4.0")).unwrap();
    assert_eq!(
        bumped,
        "[package]\nname = \"gochu-core\"\nversion = \"0.4.0\"\nedition = \"2021\"\n\n[dependencies]\nfoo = { version = \"0.4.0\" }\n"
    );
    assert_eq!(read_version(&chars(&bumped)), Ok("0.4.0".to_string()));
}

#[test]
fn bump_version_missing() {
    assert_eq!(bump_version(&chars(MANIFEST), &chars("0.3.0"), &chars("0.4.0")), None);
    assert_eq!(bump_version(&chars(""), &chars("1"), &chars("2")), None);
}

#[test]
fn version_js_contents() {
    assert_eq!(
        version_js(&chars("abc1234"), &chars("2024-05-01T10:00:00+07:00")),
        "window.GOCHU_VERSION = { commit: \"abc1234\", date: \"2024-05-01T10:00:00+07:00\" };\n"
    );
    assert_eq!(
        version_js(&chars("unknown"), &chars("unknown")),
        "window.GOCHU_VERSION = { commit: \"unknown\", date: \"unknown\" };\n"
    );
}

#[test]
fn release_argument() {
    let args = |v: &[&str]| -> Vec<Vec<char>> { v.iter().map(|s| chars(s)).collect() };
    assert_eq!(release_arg(&args(&["xtask", "release", "0.4.0"])), Some(2));
    assert_eq!(release_arg(&args(&["xtask", "0.4.0"])), Some(1));
    assert_eq!(release_arg(&args(&["xtask", "release"])), Some(1));
    assert_eq!(release_arg(&args(&["xtask", "release", ""])), None);
    assert_eq!(release_arg(&args(&["xtask", "build"])), None);
    assert_eq!(release_arg(&args(&["xtask"])), None);
    assert_eq!(release_arg(&args(&["xtask", "1", "x"])), Some(1));
}
