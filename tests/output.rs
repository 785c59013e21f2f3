use scrumple::sourcemap::{bundle_segments, mappings, module_segments, shift_segments, Segment};
use scrumple::writer::{base64, inline_map_comment, map_comment, write_bundle, write_source_map};

fn seg(out_line: usize, out_col: usize, src_index: usize, src_line: usize, src_col: usize) -> Segment {
    Segment { out_line, out_col, src_index, src_line, src_col }
}

#[test]
fn single_file_bundle() {
    let out = write_bundle("/p/a.js", &vec!["/p/a.js".to_string()], &vec![b"console.log(1)".to_vec()]);
    let text = String::from_utf8(out).unwrap();
    assert!(text.starts_with("(function(modules, entry) {\n"));
    assert!(text.contains("\"/p/a.js\": function(module, exports, require) {\nconsole.log(1)\n},\n"));
    assert!(text.ends_with("}, \"/p/a.js\");\n"));
    assert_eq!(text.matches("function(module, exports, require)").count(), 1);
}

#[test]
fn two_module_bundle_in_given_order() {
    let out = write_bundle(
        "/p/a.js",
        &vec!["/p/a.js".to_string(), "/p/b.js".to_string()],
        &vec![b"var b = require(\"/p/b.js\")".to_vec(), b"module.exports = 2".to_vec()],
    );
    let text = String::from_utf8(out).unwrap();
    let a = text.find("\"/p/a.js\": function").unwrap();
    let b = text.find("\"/p/b.js\": function").unwrap();
    assert!(a < b);
    assert!(text.contains("module.exports = 2\n},\n"));
}

#[test]
fn segments_of_a_module() {
    let src = b"var b = require('./b')\nx";
    let segs = module_segments(src, &vec![(16, 21)], &vec![12], 3);
    assert_eq!(segs, vec![seg(0, 0, 3, 0, 0), seg(0, 28, 3, 0, 21), seg(1, 0, 3, 1, 0)]);
    let shifted = shift_segments(&segs, 11);
    assert_eq!(shifted[2], seg(12, 0, 3, 1, 0));
}

#[test]
fn segments_are_sorted() {
    let src = b"a\nb\n\nrequire('x'); require('y')\n";
    let segs = module_segments(src, &vec![(13, 16), (27, 30)], &vec![0, 10], 0);
    for w in segs.windows(2) {
        assert!((w[0].out_line, w[0].out_col) <= (w[1].out_line, w[1].out_col));
    }
    assert_eq!(segs.len(), 7);
}

#[test]
fn mappings_text() {
    let m = mappings(&vec![seg(0, 0, 0, 0, 0), seg(0, 5, 0, 0, 7), seg(2, 0, 0, 1, 0)]);
    assert_eq!(String::from_utf8(m).unwrap(), "AAAA,KAAO;;AACP");
    assert_eq!(mappings(&vec![]), Vec::<u8>::new());
}

#[test]
fn source_map_document() {
    let m = write_source_map(
        "out.js",
        &vec!["a.js".to_string(), "b.js".to_string()],
        &vec!["x\n".to_string(), "y".to_string()],
        &b"AAAA".to_vec(),
    );
    assert_eq!(
        String::from_utf8(m).unwrap(),
        "{\"version\":3,\"file\":\"out.js\",\"sources\":[\"a.js\",\"b.js\"],\"sourcesContent\":[\"x\\n\",\"y\"],\"names\":[],\"mappings\":\"AAAA\"}"
    );
    assert_eq!(map_comment("out.js.map"), b"\n//# sourceMappingURL=out.js.map".to_vec());
}

#[test]
fn base64_with_padding() {
    assert_eq!(base64(b""), b"".to_vec());
    assert_eq!(base64(b"f"), b"Zg==".to_vec());
    assert_eq!(base64(b"fo"), b"Zm8=".to_vec());
    assert_eq!(base64(b"foo"), b"Zm9v".to_vec());
    assert_eq!(base64(b"foobar"), b"Zm9vYmFy".to_vec());
    assert_eq!(base64(&[255, 254, 253]), b"//79".to_vec());
    assert_eq!(
        inline_map_comment(b"{}"),
        b"\n//# sourceMappingURL=data:application/json;base64,e30=".to_vec()
    );
}

#[test]
fn bundle_segments_are_placed_and_sorted() {
    let a = vec![seg(0, 0, 0, 0, 0), seg(1, 0, 0, 1, 0)];
    let b = vec![seg(0, 0, 0, 0, 0)];
    let all = bundle_segments(&vec![a, b], &vec![2, 1]);
    assert_eq!(all, vec![seg(12, 0, 0, 0, 0), seg(13, 0, 0, 1, 0), seg(16, 0, 1, 0, 0)]);
}
