use scrumple::bundle::BundleState;
use scrumple::cli::PackageManager;
use scrumple::resolve::{
    browser_lookup, browser_verdict, classify, file_candidates, index_candidates, manifest_name,
    module_not_found, package_folder, BrowserVerdict,
    package_name, BrowserTarget, SpecKind,
};
use scrumple::rewrite::Resolved;

fn v(s: &[&str]) -> Vec<String> {
    s.iter().map(|x| x.to_string()).collect()
}

#[test]
fn specifier_shapes() {
    let ext = v(&["fs"]);
    assert_eq!(classify("fs", &ext), SpecKind::External);
    assert_eq!(classify("", &ext), SpecKind::Empty);
    assert_eq!(classify("./b", &ext), SpecKind::Path);
    assert_eq!(classify("../b", &ext), SpecKind::Path);
    assert_eq!(classify("/abs/b", &ext), SpecKind::Path);
    assert_eq!(classify("lodash/fp", &ext), SpecKind::Bare);
    assert_eq!(classify(".hidden", &ext), SpecKind::Bare);
}

#[test]
fn probe_orders() {
    assert_eq!(file_candidates("/p/b"), v(&["/p/b", "/p/b.js", "/p/b.json"]));
    assert_eq!(index_candidates("/p/pkg"), v(&["/p/pkg/index.js", "/p/pkg/index.json"]));
}

#[test]
fn package_roots() {
    assert_eq!(package_name("lodash/fp/map"), "lodash");
    assert_eq!(package_name("react"), "react");
    let forced = v(&["mocha"]);
    assert_eq!(package_folder(PackageManager::Npm, &forced, "x"), "node_modules");
    assert_eq!(package_folder(PackageManager::Bower, &forced, "x"), "bower_components");
    assert_eq!(package_folder(PackageManager::Bower, &forced, "mocha"), "node_modules");
    assert_eq!(manifest_name(PackageManager::Bower), "bower.json");
    assert_eq!(manifest_name(PackageManager::Npm), "package.json");
}

#[test]
fn browser_field_lookup() {
    let entries = vec![
        ("./n.js".to_string(), BrowserTarget::Off),
        ("./m.js".to_string(), BrowserTarget::Replace("./m-browser.js".to_string())),
    ];
    assert_eq!(browser_lookup(&entries, "./n.js"), Some(0));
    assert_eq!(browser_lookup(&entries, "./m.js"), Some(1));
    assert_eq!(browser_lookup(&entries, "./x.js"), None);
}

#[test]
fn bundle_state_closes_table() {
    let mut st = BundleState::new("/p/a.js".to_string());
    assert!(!st.is_done());
    let fresh = st.complete(
        "/p/a.js".to_string(),
        vec![Resolved::Normal("/p/b.js".to_string()), Resolved::External, Resolved::Normal("/p/b.js".to_string())],
        b"x".to_vec(),
    );
    assert_eq!(fresh, v(&["/p/b.js"]));
    assert!(!st.is_done());
    let fresh = st.complete("/p/b.js".to_string(), vec![Resolved::Normal("/p/a.js".to_string())], b"y".to_vec());
    assert!(fresh.is_empty());
    assert!(st.is_done());
    assert!(st.has_module("/p/a.js") && st.has_module("/p/b.js"));
    assert_eq!(st.modules.len(), 2);
}

#[test]
fn browser_verdicts() {
    let entries = vec![
        ("./n.js".to_string(), BrowserTarget::Off),
        ("./m.js".to_string(), BrowserTarget::Replace("./m-browser.js".to_string())),
        ("fs".to_string(), BrowserTarget::Off),
    ];
    assert!(matches!(browser_verdict(&entries, "./n.js", "./n.js"), BrowserVerdict::Ignore));
    match browser_verdict(&entries, "./m.js", "./m") {
        BrowserVerdict::Replace(t) => assert_eq!(t, "./m-browser.js"),
        _ => panic!("expected a replacement"),
    }
    assert!(matches!(browser_verdict(&entries, "./node_modules/fs/index.js", "fs"), BrowserVerdict::Ignore));
    assert!(matches!(browser_verdict(&entries, "./x.js", "./x"), BrowserVerdict::Keep));
}

#[test]
fn not_found_names_the_module() {
    let e = module_not_found("/proj", "./missing");
    assert_eq!(e.message(), "module 'missing' not found in /proj");
    assert_eq!(module_not_found("/proj", "lodash").message(), "module 'lodash' not found in /proj");
}
