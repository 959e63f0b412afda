use pgextkit::control::{
    control_stem_matches, describe_extension, find_matching_control_file, parse_control_lines,
    parse_setting_line, setting_value, split_stem, unload_version, ControlError, UnloadError,
};
use pgextkit::workers::InstalledExtension;

fn lines(text: &str) -> Vec<String> {
    text.lines().map(String::from).collect()
}

#[test]
fn setting_lines() {
    assert_eq!(
        parse_setting_line("default_version = '1.0' # comment"),
        Some((String::from("default_version"), String::from("1.0")))
    );
    assert_eq!(
        parse_setting_line("  module_pathname='$libdir/example'"),
        Some((String::from("module_pathname"), String::from("$libdir/example")))
    );
    assert_eq!(parse_setting_line("# only a comment = here"), None);
    assert_eq!(parse_setting_line("no setting"), None);
    assert_eq!(parse_setting_line("a = b = c"), None);
    assert_eq!(parse_setting_line("comment = 'x' # = y"), Some((String::from("comment"), String::from("x"))));
    assert_eq!(parse_setting_line("k =\t''quoted''  "), Some((String::from("k"), String::from("quoted"))));
    assert_eq!(parse_setting_line("="), Some((String::new(), String::new())));
}

#[test]
fn later_setting_overrides() {
    let pairs = parse_control_lines(&lines("a = 1\nb = 2\n# c = 3\na = 4\n"));
    assert_eq!(pairs.len(), 3);
    assert_eq!(setting_value(&pairs, "a"), Some(String::from("4")));
    assert_eq!(setting_value(&pairs, "b"), Some(String::from("2")));
    assert_eq!(setting_value(&pairs, "c"), None);
}

#[test]
fn stems_split_at_double_dash() {
    assert_eq!(split_stem("example"), Some((String::from("example"), None)));
    assert_eq!(split_stem("example--1.0"), Some((String::from("example"), Some(String::from("1.0")))));
    assert_eq!(split_stem("a---b"), Some((String::from("a"), Some(String::from("-b")))));
    assert_eq!(split_stem("a--1.0--2.0"), None);
}

#[test]
fn describe_with_default_version() {
    let pairs = parse_control_lines(&lines(
        "comment = 'example'\ndefault_version = '0.0.0'\nmodule_pathname = '$libdir/example'\n",
    ));
    let info = describe_extension("example", &pairs, "/usr/lib/pg").unwrap();
    assert_eq!(info.name, "example");
    assert_eq!(info.version, "0.0.0");
    assert_eq!(info.library_path, "/usr/lib/pg/example.so");
}

#[test]
fn describe_with_version_in_stem() {
    let pairs = parse_control_lines(&lines("module_pathname = 'example'\n"));
    let info = describe_extension("example--1.2", &pairs, "/lib").unwrap();
    assert_eq!(info.version, "1.2");
    assert_eq!(info.library_path, "example.so");
}

#[test]
fn describe_errors() {
    let none = parse_control_lines(&lines("module_pathname = 'x'\n"));
    assert!(matches!(describe_extension("example", &none, "/l"), Err(ControlError::MissingDefaultVersion)));
    assert!(matches!(describe_extension("a--b--c", &none, "/l"), Err(ControlError::InvalidFileName)));
    let no_module = parse_control_lines(&lines("default_version = '1'\n"));
    assert!(matches!(describe_extension("example", &no_module, "/l"), Err(ControlError::MissingModulePathname)));
}

#[test]
fn stem_matching() {
    assert!(control_stem_matches("example", "example", Some("1.0")));
    assert!(control_stem_matches("example--1.0", "example", Some("1.0")));
    assert!(!control_stem_matches("example--2.0", "example", Some("1.0")));
    assert!(control_stem_matches("example--2.0", "example", None));
    assert!(!control_stem_matches("other", "example", None));
}

#[test]
fn most_specific_descriptor_wins() {
    let stems = vec![
        String::from("example"),
        String::from("other--1.0"),
        String::from("example--1.0"),
        String::from("example--2.0"),
    ];
    assert_eq!(find_matching_control_file(&stems, "example", None), Some(2));
    assert_eq!(find_matching_control_file(&stems, "example", Some("2.0")), Some(3));
    assert_eq!(find_matching_control_file(&stems, "missing", None), None);
}

#[test]
fn unload_version_resolution() {
    let rows = vec![
        InstalledExtension { name: String::from("example"), version: String::from("0.0.0"), owner: String::from("o") },
    ];
    assert_eq!(unload_version(&rows, "example", None), Ok(String::from("0.0.0")));
    assert_eq!(unload_version(&rows, "example", Some("0.0.0")), Ok(String::from("0.0.0")));
    assert_eq!(unload_version(&rows, "example", Some("9")), Err(UnloadError::NotInstalledAtVersion));
    assert_eq!(unload_version(&rows, "missing", None), Err(UnloadError::NotInstalled));
}
