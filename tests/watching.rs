use scrumple::lex::{Lexer, Loc, Span, Tok, Tt};
use scrumple::watch::{contains_text, reconcile};

fn v(s: &[&str]) -> Vec<String> {
    s.iter().map(|x| x.to_string()).collect()
}

#[test]
fn watch_reconciliation() {
    let (w, u) = reconcile(&v(&["/a.js", "/b.js"]), &v(&["/a.js", "/c.js"]));
    assert_eq!(w, v(&["/c.js"]));
    assert_eq!(u, v(&["/b.js"]));
}

#[test]
fn reconcile_unchanged_and_empty() {
    let (w, u) = reconcile(&v(&["/a.js"]), &v(&["/a.js"]));
    assert!(w.is_empty() && u.is_empty());
    let (w, u) = reconcile(&v(&[]), &v(&["/a.js", "/b.js"]));
    assert_eq!(w, v(&["/a.js", "/b.js"]));
    assert!(u.is_empty());
}

#[test]
fn contains_by_text() {
    assert!(contains_text(&v(&["x", "y"]), "y"));
    assert!(!contains_text(&v(&["x", "y"]), "z"));
}

#[test]
fn lexer_values() {
    let l = Loc::new(3, 1, 2);
    assert_eq!((l.pos, l.row, l.col), (3, 1, 2));
    assert_eq!(Loc::zero(), Loc::default());
    let s = Span::new("a.js", Loc::zero(), l);
    assert_eq!(s.file_name, "a.js");
    assert_eq!(s.end, l);
    let t = Tok { tt: Tt::Ident, span: s };
    assert_eq!(t.tt, Tt::Ident);
    let _lexer = Lexer::new("a.js", "x");
}

#[test]
fn lexer_finds_require_spans() {
    let l = Lexer::new("a.js", "var b = require('./b')");
    assert_eq!(l.require_spans(), vec![(16, 21)]);
}
