use scrumple::cli::PackageManager;
use scrumple::errors::CliError;
use scrumple::resolve::{dep_step, BrowserTarget, DepAction};
use scrumple::resolver::{resolve_start, resolve_step, Probe, ProbeAnswer, ResolveOptions, ResolveStep};
use scrumple::rewrite::Resolved;

struct Fs {
    files: Vec<&'static str>,
    manifests: Vec<(&'static str, Option<&'static str>, Option<&'static str>)>,
    browsers: Vec<(&'static str, &'static str, Vec<(&'static str, Option<&'static str>)>)>,
}

fn reply(fs: &Fs, p: &Probe) -> ProbeAnswer {
    match p {
        Probe::IsFile(f) => ProbeAnswer::Exists(fs.files.contains(&f.as_str())),
        Probe::Manifest(d) => match fs.manifests.iter().find(|m| m.0 == d) {
            Some(m) => ProbeAnswer::Manifest {
                main: m.1.map(|s| s.to_string()),
                browser_main: m.2.map(|s| s.to_string()),
            },
            None => ProbeAnswer::Manifest { main: None, browser_main: None },
        },
        Probe::Browser(f) => ProbeAnswer::Browser(fs.browsers.iter().find(|b| b.0 == f).map(|b| {
            let entries = b
                .2
                .iter()
                .map(|(k, v)| {
                    let t = match v {
                        None => BrowserTarget::Off,
                        Some(r) => BrowserTarget::Replace(r.to_string()),
                    };
                    (k.to_string(), t)
                })
                .collect();
            (b.1.to_string(), entries)
        })),
    }
}

fn run(fs: &Fs, dir: &str, name: &str, opts: &ResolveOptions) -> (Result<Resolved, CliError>, Vec<String>) {
    let mut asked = Vec::new();
    let (mut st, mut step) = resolve_start(dir.to_string(), name.to_string(), Vec::new(), opts);
    for _ in 0..100 {
        match step {
            ResolveStep::Done(r) => return (r, asked),
            ResolveStep::Ask(p) => {
                if let Probe::IsFile(f) = &p {
                    asked.push(f.clone());
                }
                let a = reply(fs, &p);
                let n = resolve_step(st, &a, opts);
                st = n.0;
                step = n.1;
            }
        }
    }
    panic!("no verdict");
}

fn npm(external: &[&str]) -> ResolveOptions {
    ResolveOptions {
        package_manager: PackageManager::Npm,
        external: external.iter().map(|s| s.to_string()).collect(),
        forced_npm_deps: vec![],
    }
}

fn normal(r: Result<Resolved, CliError>) -> String {
    match r {
        Ok(Resolved::Normal(p)) => p,
        _ => panic!("expected a file"),
    }
}

#[test]
fn relative_with_extension_probing() {
    let fs = Fs { files: vec!["/p/b.js"], manifests: vec![], browsers: vec![] };
    let (r, asked) = run(&fs, "/p", "./b", &npm(&[]));
    assert_eq!(normal(r), "/p/b.js");
    assert_eq!(asked, vec!["/p/b", "/p/b.js"]);
}

#[test]
fn folder_main_then_index() {
    let fs = Fs { files: vec!["/p/lib/main.js", "/p/other/index.json"], manifests: vec![("/p/lib", Some("main"), None)], browsers: vec![] };
    assert_eq!(normal(run(&fs, "/p", "./lib", &npm(&[])).0), "/p/lib/main.js");
    assert_eq!(normal(run(&fs, "/p", "./other", &npm(&[])).0), "/p/other/index.json");
}

#[test]
fn string_browser_field_replaces_main() {
    let fs = Fs { files: vec!["/p/lib/main.js", "/p/lib/b.js"], manifests: vec![("/p/lib", Some("main"), Some("b.js"))], browsers: vec![] };
    assert_eq!(normal(run(&fs, "/p", "./lib", &npm(&[])).0), "/p/lib/b.js");
}

#[test]
fn bare_walks_up_to_first_match() {
    let fs = Fs { files: vec!["/node_modules/x/index.js", "/p/node_modules/x/index.js"], manifests: vec![], browsers: vec![] };
    assert_eq!(normal(run(&fs, "/p/src", "x", &npm(&[])).0), "/p/node_modules/x/index.js");
    let fs = Fs { files: vec!["/node_modules/x.js"], manifests: vec![], browsers: vec![] };
    assert_eq!(normal(run(&fs, "/p/src", "x", &npm(&[])).0), "/node_modules/x.js");
}

#[test]
fn verdicts_without_files() {
    let fs = Fs { files: vec![], manifests: vec![], browsers: vec![] };
    assert!(matches!(run(&fs, "/p", "fs", &npm(&["fs"])).0, Ok(Resolved::External)));
    assert!(matches!(run(&fs, "/p", "", &npm(&[])).0, Err(CliError::EmptyModuleName { .. })));
    assert!(matches!(run(&fs, "/p", "../../x", &npm(&[])).0, Err(CliError::RequireRoot { .. })));
    match run(&fs, "/p", "./missing", &npm(&[])).0 {
        Err(e) => assert_eq!(e.message(), "module 'missing' not found in /p"),
        Ok(_) => panic!("expected an error"),
    }
}

#[test]
fn browser_false_ignores_and_replacement_reenters() {
    let fs = Fs {
        files: vec!["/p/n.js", "/p/m.js", "/p/m-browser.js", "/p/loop.js"],
        manifests: vec![],
        browsers: vec![
            ("/p/n.js", "/p", vec![("./n.js", None)]),
            ("/p/m.js", "/p", vec![("./m.js", Some("./m-browser.js"))]),
            ("/p/loop.js", "/p", vec![("./loop.js", Some("./loop.js"))]),
        ],
    };
    assert!(matches!(run(&fs, "/p", "./n.js", &npm(&[])).0, Ok(Resolved::Ignore)));
    assert_eq!(normal(run(&fs, "/p", "./m.js", &npm(&[])).0), "/p/m-browser.js");
    assert!(matches!(run(&fs, "/p", "./loop.js", &npm(&[])).0, Err(CliError::ModuleNotFound { .. })));
}

#[test]
fn dependency_steps() {
    let mut names = vec!["a".to_string()];
    assert!(matches!(dep_step(&mut names, "a", Some("/x".to_string()), false, "/r"), DepAction::Skip));
    assert_eq!(names.len(), 1);
    match dep_step(&mut names, "b", Some("/r/node_modules/b".to_string()), false, "/r") {
        DepAction::Visit(p) => assert_eq!(p, "/r/node_modules/b"),
        _ => panic!("expected a visit"),
    }
    assert!(matches!(dep_step(&mut names, "c", None, true, "/r"), DepAction::Skip));
    match dep_step(&mut names, "d", None, false, "/r") {
        DepAction::Fail(e) => assert_eq!(e.message(), "module 'd' not found in /r"),
        _ => panic!("expected a failure"),
    }
    assert_eq!(names, vec!["a", "b", "c", "d"]);
}
