use scrumple::errors::{write_help, write_usage, write_version, CliError};

#[test]
fn module_not_found_message() {
    let e = CliError::ModuleNotFound { context: "/proj".to_string(), name: "missing".to_string() };
    assert_eq!(e.message(), "module 'missing' not found in /proj");
    assert_eq!(e.report(), "scrumple: module 'missing' not found in /proj");
}

#[test]
fn other_messages() {
    assert_eq!(CliError::ExternalMain.message(), "main module is --external");
    assert_eq!(
        CliError::RequireRoot { context: None, path: "/".to_string() }.message(),
        "main module is root path /"
    );
    assert_eq!(
        CliError::RequireRoot { context: Some("/a.js".to_string()), path: "/".to_string() }.message(),
        "require of root path / in /a.js"
    );
    assert_eq!(CliError::EmptyModuleName { context: "/a.js".to_string() }.message(), "require('') in /a.js");
    assert_eq!(CliError::MainNotFound { name: "x".to_string() }.message(), "main module 'x' not found");
    assert_eq!(CliError::UnknownOption("-q".to_string()).report(), "scrumple: unknown option -q");
}

#[test]
fn help_usage_version() {
    let mut v = String::new();
    write_version(&mut v);
    assert_eq!(v, "scrumple v0.1.0");
    let mut u = String::new();
    write_usage(&mut u);
    assert!(u.starts_with("Usage: scrumple [options] <input> [output]\n"));
    let mut h = String::new();
    write_help(&mut h);
    assert!(h.starts_with("scrumple v0.1.0\n\nUsage: scrumple"));
    assert!(h.contains("--external-core"));
    assert!(h.ends_with("Print version information.\n"));
    assert_eq!(CliError::Help.report(), h);
    assert_eq!(CliError::MissingFileName.report(), u);
}
