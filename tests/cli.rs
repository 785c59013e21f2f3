use scrumple::cli::{finish, option_kind, parse_args, push_core_modules, MapOutput, OptKind, PackageManager};
use scrumple::errors::CliError;

fn args(v: &[&str]) -> Vec<String> {
    v.iter().map(|s| s.to_string()).collect()
}

fn err_text(v: &[&str]) -> String {
    match parse_args(&args(v)) {
        Err(e) => e.message(),
        Ok(_) => panic!("expected an error"),
    }
}

#[test]
fn option_kinds() {
    assert_eq!(option_kind("-x"), Some(OptKind::External));
    assert_eq!(option_kind("--external-core"), Some(OptKind::ExternalCore));
    assert_eq!(option_kind("--map"), Some(OptKind::MapFile));
    assert_eq!(option_kind("-q"), None);
}

#[test]
fn positional_input_and_output() {
    let o = parse_args(&args(&["a.js", "out.js"])).ok().unwrap();
    assert_eq!(o.input.as_deref(), Some("a.js"));
    assert_eq!(o.output.as_deref(), Some("out.js"));
    let c = finish(o).ok().unwrap();
    match c.map_output {
        MapOutput::File { map, bundle } => {
            assert_eq!(map, "out.js.map");
            assert_eq!(bundle, "out.js");
        }
        _ => panic!("expected a map file"),
    }
}

#[test]
fn stdout_suppresses_map() {
    let c = finish(parse_args(&args(&["a.js"])).ok().unwrap()).ok().unwrap();
    assert_eq!(c.output, "-");
    assert!(matches!(c.map_output, MapOutput::Suppressed));
    assert_eq!(c.package_manager, PackageManager::Npm);
}

#[test]
fn external_list_is_split_on_commas() {
    let o = parse_args(&args(&["-x", "fs , path,os", "a.js"])).ok().unwrap();
    assert_eq!(o.external, vec!["fs".to_string(), "path".to_string(), "os".to_string()]);
}

#[test]
fn external_core_adds_builtins() {
    let c = finish(parse_args(&args(&["--external-core", "-x", "left-pad", "a.js"])).ok().unwrap())
        .ok()
        .unwrap();
    assert_eq!(c.external.len(), 28);
    assert_eq!(c.external[0], "left-pad");
    assert!(c.external.contains(&"fs".to_string()));
    let mut v = Vec::new();
    push_core_modules(&mut v);
    assert_eq!(v.len(), 27);
    assert_eq!(v[26], "zlib");
}

#[test]
fn cli_errors() {
    assert_eq!(err_text(&["-i", "a.js", "-i", "b.js"]), "option -i specified more than once");
    assert_eq!(err_text(&["a.js", "-m"]), "missing value for option -m");
    assert_eq!(err_text(&["--frob"]), "unknown option --frob");
    assert_eq!(err_text(&["a", "b", "c"]), "unexpected argument c");
    assert!(matches!(parse_args(&args(&["-h"])), Err(CliError::Help)));
    assert!(matches!(parse_args(&args(&["--version"])), Err(CliError::Version)));
}

#[test]
fn finish_errors() {
    let o = parse_args(&args(&["-I", "-M", "a.js"])).ok().unwrap();
    match finish(o) {
        Err(e) => assert_eq!(e.message(), "--map-inline, --map <file>, and --no-map are mutually exclusive"),
        Ok(_) => panic!("expected an error"),
    }
    let o = parse_args(&args(&["-w"])).ok().unwrap();
    assert!(matches!(finish(o), Err(CliError::MissingFileName)));
}

#[test]
fn flags_set_options() {
    let o = parse_args(&args(&["-W", "-b", "-N", "-m", "x.map", "-o", "out.js", "a.js"])).ok().unwrap();
    assert!(o.watch && o.quiet_watch && o.for_bower && o.npm_dev_deps);
    let c = finish(o).ok().unwrap();
    assert_eq!(c.package_manager, PackageManager::Bower);
    match c.map_output {
        MapOutput::File { map, bundle } => {
            assert_eq!(map, "x.map");
            assert_eq!(bundle, "out.js");
        }
        _ => panic!("expected a map file"),
    }
    let c = finish(parse_args(&args(&["-I", "a.js", "o.js"])).ok().unwrap()).ok().unwrap();
    assert!(matches!(c.map_output, MapOutput::Inline));
}

#[test]
fn external_split_trims_only_around_commas() {
    let o = parse_args(&args(&["-x", " a b ,\u{a0}c,,d\t", "in.js"])).ok().unwrap();
    assert_eq!(o.external, vec![" a b".to_string(), "c".to_string(), "".to_string(), "d\t".to_string()]);
}
