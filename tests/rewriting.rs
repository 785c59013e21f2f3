use scrumple::rewrite::{replacement, rewrite_body, specifiers, splice_bytes, Resolved};
use scrumple::scan::find_requires;

fn rewrite(src: &str, refs: Vec<Resolved>) -> String {
    let b = src.as_bytes();
    let sites = find_requires(b);
    String::from_utf8(rewrite_body(b, &sites, &refs)).unwrap()
}

fn specs(src: &str) -> Vec<Option<String>> {
    let b = src.as_bytes();
    specifiers(b, &find_requires(b))
}

#[test]
fn single_file_has_no_requires() {
    assert!(find_requires(b"console.log(1)").is_empty());
    assert_eq!(rewrite("console.log(1)", vec![]), "console.log(1)");
}

#[test]
fn relative_require_is_substituted() {
    let src = "var b = require('./b')";
    assert_eq!(find_requires(src.as_bytes()), vec![(16, 21)]);
    assert_eq!(specs(src), vec![Some("./b".to_string())]);
    assert_eq!(
        rewrite(src, vec![Resolved::Normal("/proj/b.js".to_string())]),
        "var b = require(\"/proj/b.js\")"
    );
}

#[test]
fn external_require_is_kept() {
    let src = "var f = require('fs')";
    assert_eq!(rewrite(src, vec![Resolved::External]), src);
}

#[test]
fn ignored_require_gets_sentinel() {
    assert_eq!(rewrite("require(\"./n.js\");", vec![Resolved::Ignore]), "require(null);");
}

#[test]
fn requires_in_strings_comments_and_regexes_are_skipped() {
    let src = "'require(\"a\")'; // require('b')\n/* require('c') */ x = /require('d')/; y = a.require('e'); z = require('f')";
    assert_eq!(specs(src), vec![Some("f".to_string())]);
    assert!(find_requires(b"`require('a')`").is_empty());
    assert!(find_requires(b"myrequire('a')").is_empty());
    assert!(find_requires(b"require('a' + b)").is_empty());
}

#[test]
fn division_is_not_a_regex() {
    let src = "var x = a / 2; var y = require('y') / 3";
    assert_eq!(specs(src), vec![Some("y".to_string())]);
}

#[test]
fn several_requires_keep_other_bytes() {
    let src = "a(require('x'), require(\"y\"));";
    let out = rewrite(src, vec![Resolved::Normal("/x.js".to_string()), Resolved::External]);
    assert_eq!(out, "a(require(\"/x.js\"), require(\"y\"));");
}

#[test]
fn escaped_specifier_is_decoded() {
    assert_eq!(specs("require('\\x61')"), vec![Some("a".to_string())]);
}

#[test]
fn splice_and_replacement_directly() {
    assert_eq!(splice_bytes(b"abcdef", &vec![(1, 2), (4, 6)], &vec![b"XY".to_vec(), b"".to_vec()]), b"aXYcd".to_vec());
    assert_eq!(replacement(b"'x'", &Resolved::Normal("/x".to_string())), b"\"/x\"".to_vec());
    assert_eq!(replacement(b"'x'", &Resolved::External), b"'x'".to_vec());
}

#[test]
fn literals_the_decoder_cannot_take_give_none() {
    assert_eq!(specs("require('a\\nb\\nc')"), vec![None]);
    assert_eq!(specs("require('\\u{41}')"), vec![None]);
    assert_eq!(specs("require('\\u0041')"), vec![Some("A".to_string())]);
    assert_eq!(specs("require('./b') + require('../c/d.js')"), vec![Some("./b".to_string()), Some("../c/d.js".to_string())]);
}

#[test]
fn decodable_literals() {
    assert!(scrumple::rewrite::is_decodable(b"'abc'"));
    assert!(scrumple::rewrite::is_decodable(b"\"a\\tb\""));
    assert!(!scrumple::rewrite::is_decodable(b"'a\\t\\tb'"));
    assert!(!scrumple::rewrite::is_decodable(b"'"));
    assert!(!scrumple::rewrite::is_decodable(b"abc"));
}

#[test]
fn dynamic_import_is_a_site() {
    let src = "const m = import('./m'); reimport('x'); a.import('y')";
    assert_eq!(find_requires(src.as_bytes()), vec![(17, 22)]);
    assert_eq!(specs(src), vec![Some("./m".to_string())]);
    assert_eq!(
        rewrite(src, vec![Resolved::Normal("/p/m.js".to_string())]),
        "const m = import(\"/p/m.js\"); reimport('x'); a.import('y')"
    );
}

#[test]
fn static_import_and_export_forms() {
    let src = "import x from './x';\nimport {a, b} from \"./ab\";\nimport * as n from './n';\nimport './side';\nexport {c} from './c';\nexport * from './all';";
    assert_eq!(
        specs(src),
        vec![
            Some("./x".to_string()),
            Some("./ab".to_string()),
            Some("./n".to_string()),
            Some("./side".to_string()),
            Some("./c".to_string()),
            Some("./all".to_string()),
        ]
    );
    let out = rewrite("import x from './x';", vec![Resolved::Normal("/p/x.js".to_string())]);
    assert_eq!(out, "import x from \"/p/x.js\";");
}

#[test]
fn white_space_between_tokens() {
    assert_eq!(specs("require ( './b' )"), vec![Some("./b".to_string())]);
    assert_eq!(specs("import\n  ('./d')"), vec![Some("./d".to_string())]);
    assert_eq!(specs("import {\n  a,\n  b\n}\nfrom\n'./m'"), vec![Some("./m".to_string())]);
    assert!(specs("export const x = 'not a specifier';").is_empty());
    assert!(specs("export default function () { return 'y' }").is_empty());
    assert!(specs("important('x'); exported('y')").is_empty());
}

#[test]
fn regex_after_keywords() {
    assert_eq!(specs("function f() { return /require('a')/.test(s) }"), vec![]);
    assert_eq!(specs("x = typeof /'/; require('b')"), vec![Some("b".to_string())]);
    assert_eq!(specs("x = a / 2; y = b / require('c')"), vec![Some("c".to_string())]);
}

#[test]
fn non_ascii_literal_without_escape() {
    assert_eq!(specs("require('./café')"), vec![Some("./café".to_string())]);
    assert_eq!(specs("require('./caf\\xe9')"), vec![Some("./café".to_string())]);
}
