use vstd::prelude::*;
use vstd::string::StrSliceExecFns;
use vstd::utf8::encode_utf8;

use crate::rewrite::{replacements, splice, Resolved};
use crate::scan::require_sites;
use crate::text::{json_string_of, to_quoted_json_string};
use crate::vlq::b64_digit;

verus! {

/// The loader placed before the modules: it runs each module once, as a
/// function of `module`, `exports` and `require`, and maps the sentinel of
/// an ignored module to empty exports.
pub open spec fn prelude_text() -> Seq<char> {
    "(function(modules, entry) {\n  var cache = {};\n  function require(name) {\n    if (name === null) return {};\n    if (cache[name]) return cache[name].exports;\n    var module = cache[name] = {exports: {}};\n    modules[name].call(module.exports, module, module.exports, require);\n    return module.exports;\n  }\n  require(entry);\n})({\n"@
}

pub open spec fn module_head() -> Seq<char> {
    ": function(module, exports, require) {\n"@
}

pub open spec fn module_tail() -> Seq<char> {
    "\n},\n"@
}

/// One entry of the module table: the quoted id, then the body wrapped in a
/// function.
pub open spec fn entry_bytes(id: Seq<char>, body: Seq<u8>) -> Seq<u8> {
    encode_utf8(json_string_of(id)) + encode_utf8(module_head()) + body + encode_utf8(module_tail())
}

pub open spec fn entries_bytes(ids: Seq<Seq<char>>, bodies: Seq<Seq<u8>>, k: int) -> Seq<u8>
    decreases k,
{
    if k <= 0 || k > ids.len() {
        Seq::empty()
    } else {
        entries_bytes(ids, bodies, k - 1) + entry_bytes(ids[k - 1], bodies[k - 1])
    }
}

/// The bundle: the loader, each module in the order given, and the call of
/// the entry module.
pub open spec fn bundle_bytes(entry: Seq<char>, ids: Seq<Seq<char>>, bodies: Seq<Seq<u8>>) -> Seq<u8> {
    encode_utf8(prelude_text()) + entries_bytes(ids, bodies, ids.len() as int) + encode_utf8("}, "@)
        + encode_utf8(json_string_of(entry)) + encode_utf8(");\n"@)
}

fn append_str(out: &mut Vec<u8>, s: &str)
    ensures
        final(out)@ == old(out)@ + encode_utf8(s@),
{
    let mut b = s.as_bytes_vec();
    out.append(&mut b);
}

fn append_bytes(out: &mut Vec<u8>, b: &Vec<u8>)
    ensures
        final(out)@ == old(out)@ + b@,
{
    let mut c = b.clone();
    out.append(&mut c);
}

/// Writes the bundle for modules `ids` with bodies `bodies`, in that
/// order, started from `entry`.
pub fn write_bundle(entry: &str, ids: &Vec<String>, bodies: &Vec<Vec<u8>>) -> (r: Vec<u8>)
    requires
        ids@.len() == bodies@.len(),
    ensures
        r@ == bundle_bytes(
            entry@,
            ids@.map_values(|s: String| s@),
            bodies@.map_values(|b: Vec<u8>| b@),
        ),
{
    let ghost iv = ids@.map_values(|s: String| s@);
    let ghost bv = bodies@.map_values(|b: Vec<u8>| b@);
    let mut out: Vec<u8> = Vec::new();
    append_str(
        &mut out,
        "(function(modules, entry) {\n  var cache = {};\n  function require(name) {\n    if (name === null) return {};\n    if (cache[name]) return cache[name].exports;\n    var module = cache[name] = {exports: {}};\n    modules[name].call(module.exports, module, module.exports, require);\n    return module.exports;\n  }\n  require(entry);\n})({\n",
    );
    let ghost head = out@;
    let mut k: usize = 0;
    while k < ids.len()
        invariant
            k <= ids@.len(),
            ids@.len() == bodies@.len(),
            iv == ids@.map_values(|s: String| s@),
            bv == bodies@.map_values(|b: Vec<u8>| b@),
            head == encode_utf8(prelude_text()),
            out@ == head + entries_bytes(iv, bv, k as int),
        decreases ids@.len() - k,
    {
        let q = to_quoted_json_string(ids[k].as_str());
        append_str(&mut out, q.as_str());
        append_str(&mut out, ": function(module, exports, require) {\n");
        append_bytes(&mut out, &bodies[k]);
        append_str(&mut out, "\n},\n");
        proof {
            assert(iv[k as int] == ids@[k as int]@);
            assert(bv[k as int] == bodies@[k as int]@);
            assert(out@ =~= head + entries_bytes(iv, bv, k + 1));
        }
        k = k + 1;
    }
    append_str(&mut out, "}, ");
    let q = to_quoted_json_string(entry);
    append_str(&mut out, q.as_str());
    append_str(&mut out, ");\n");
    assert(out@ =~= bundle_bytes(entry@, iv, bv));
    out
}

/// The body that `rewrite_body` gives for a source and its resolutions.
pub open spec fn body_of(src: Seq<u8>, refs: Seq<Resolved>) -> Seq<u8> {
    splice(src, require_sites(src), replacements(src, require_sites(src), refs))
}

/// The bundle for modules given by id, source and resolutions.
pub open spec fn bundle_of(
    entry: Seq<char>,
    ids: Seq<Seq<char>>,
    srcs: Seq<Seq<u8>>,
    refs: Seq<Seq<Resolved>>,
) -> Seq<u8> {
    bundle_bytes(entry, ids, Seq::new(ids.len(), |k: int| body_of(srcs[k], refs[k])))
}

/// A source map, version 3, as JSON: the bundle's name, the sources and
/// their texts, no names, and the mappings.
pub open spec fn json_list(items: Seq<Seq<char>>, k: int) -> Seq<u8>
    decreases k,
{
    if k <= 0 || k > items.len() {
        Seq::empty()
    } else if k == 1 {
        encode_utf8(json_string_of(items[0]))
    } else {
        json_list(items, k - 1) + encode_utf8(","@) + encode_utf8(json_string_of(items[k - 1]))
    }
}

pub open spec fn source_map_bytes(
    file: Seq<char>,
    sources: Seq<Seq<char>>,
    contents: Seq<Seq<char>>,
    mappings: Seq<u8>,
) -> Seq<u8> {
    encode_utf8("{\"version\":3,\"file\":"@) + encode_utf8(json_string_of(file)) + encode_utf8(
        ",\"sources\":["@,
    ) + json_list(sources, sources.len() as int) + encode_utf8("],\"sourcesContent\":["@)
        + json_list(contents, contents.len() as int) + encode_utf8(
        "],\"names\":[],\"mappings\":\""@,
    ) + mappings + encode_utf8("\"}"@)
}

fn append_json_list(out: &mut Vec<u8>, items: &Vec<String>)
    ensures
        final(out)@ == old(out)@ + json_list(
            items@.map_values(|s: String| s@),
            items@.len() as int,
        ),
{
    let ghost iv = items@.map_values(|s: String| s@);
    let ghost start = out@;
    let mut k: usize = 0;
    while k < items.len()
        invariant
            k <= items@.len(),
            iv == items@.map_values(|s: String| s@),
            out@ == start + json_list(iv, k as int),
        decreases items@.len() - k,
    {
        if k > 0 {
            append_str(out, ",");
        }
        let q = to_quoted_json_string(items[k].as_str());
        append_str(out, q.as_str());
        proof {
            assert(iv[k as int] == items@[k as int]@);
            assert(out@ =~= start + json_list(iv, k + 1));
        }
        k = k + 1;
    }
}

/// Writes the source map document for a bundle named `file`.
pub fn write_source_map(
    file: &str,
    sources: &Vec<String>,
    contents: &Vec<String>,
    mappings: &Vec<u8>,
) -> (r: Vec<u8>)
    ensures
        r@ == source_map_bytes(
            file@,
            sources@.map_values(|s: String| s@),
            contents@.map_values(|s: String| s@),
            mappings@,
        ),
{
    let mut out: Vec<u8> = Vec::new();
    append_str(&mut out, "{\"version\":3,\"file\":");
    let q = to_quoted_json_string(file);
    append_str(&mut out, q.as_str());
    append_str(&mut out, ",\"sources\":[");
    append_json_list(&mut out, sources);
    append_str(&mut out, "],\"sourcesContent\":[");
    append_json_list(&mut out, contents);
    append_str(&mut out, "],\"names\":[],\"mappings\":\"");
    append_bytes(&mut out, mappings);
    append_str(&mut out, "\"}");
    proof {
        assert(out@ =~= source_map_bytes(
            file@,
            sources@.map_values(|s: String| s@),
            contents@.map_values(|s: String| s@),
            mappings@,
        ));
    }
    out
}

/// Standard base64 with `=` padding: four digits for each three bytes.
pub open spec fn base64_of(b: Seq<u8>) -> Seq<u8>
    decreases b.len(),
{
    if b.len() == 0 {
        Seq::empty()
    } else if b.len() == 1 {
        seq![b64_digit((b[0] / 4) as nat), b64_digit(((b[0] % 4) * 16) as nat), 61u8, 61u8]
    } else if b.len() == 2 {
        seq![
            b64_digit((b[0] / 4) as nat),
            b64_digit(((b[0] % 4) * 16 + b[1] / 16) as nat),
            b64_digit(((b[1] % 16) * 4) as nat),
            61u8,
        ]
    } else {
        seq![
            b64_digit((b[0] / 4) as nat),
            b64_digit(((b[0] % 4) * 16 + b[1] / 16) as nat),
            b64_digit(((b[1] % 16) * 4 + b[2] / 64) as nat),
            b64_digit((b[2] % 64) as nat),
        ] + base64_of(b.subrange(3, b.len() as int))
    }
}

fn digit(d: u8) -> (c: u8)
    requires
        d < 64,
    ensures
        c == b64_digit(d as nat),
{
    if d < 26 {
        65 + d
    } else if d < 52 {
        97 + (d - 26)
    } else if d < 62 {
        48 + (d - 52)
    } else if d == 62 {
        43
    } else {
        47
    }
}

/// Encodes bytes as base64.
pub fn base64(b: &[u8]) -> (r: Vec<u8>)
    ensures
        r@ == base64_of(b@),
{
    let n = b.len();
    let mut out: Vec<u8> = Vec::new();
    let mut i: usize = 0;
    assert(b@.subrange(0, n as int) =~= b@);
    assert(out@ + base64_of(b@.subrange(0, n as int)) =~= base64_of(b@));
    while i < n
        invariant
            n == b@.len(),
            i <= n,
            out@ + base64_of(b@.subrange(i as int, n as int)) == base64_of(b@),
        decreases n - i,
    {
        let ghost rest = b@.subrange(i as int, n as int);
        let ghost o0 = out@;
        let b0 = b[i];
        assert(rest[0] == b0);
        if n - i == 1 {
            out.push(digit(b0 / 4));
            out.push(digit((b0 % 4) * 16));
            out.push(61);
            out.push(61);
            assert(out@ =~= o0 + base64_of(rest));
            assert(b@.subrange(n as int, n as int) =~= Seq::<u8>::empty());
            i = n;
        } else if n - i == 2 {
            let b1 = b[i + 1];
            assert(rest[1] == b1);
            out.push(digit(b0 / 4));
            out.push(digit((b0 % 4) * 16 + b1 / 16));
            out.push(digit((b1 % 16) * 4));
            out.push(61);
            assert(out@ =~= o0 + base64_of(rest));
            assert(b@.subrange(n as int, n as int) =~= Seq::<u8>::empty());
            i = n;
        } else {
            let b1 = b[i + 1];
            let b2 = b[i + 2];
            assert(rest[1] == b1 && rest[2] == b2);
            out.push(digit(b0 / 4));
            out.push(digit((b0 % 4) * 16 + b1 / 16));
            out.push(digit((b1 % 16) * 4 + b2 / 64));
            out.push(digit(b2 % 64));
            assert(rest.subrange(3, rest.len() as int) =~= b@.subrange(i + 3, n as int));
            assert(out@ + base64_of(b@.subrange(i + 3, n as int)) =~= o0 + base64_of(rest));
            i = i + 3;
        }
    }
    assert(out@ =~= out@ + base64_of(b@.subrange(n as int, n as int)));
    out
}

/// The comment that carries a source map inside the bundle, as a data URI.
pub fn inline_map_comment(doc: &[u8]) -> (r: Vec<u8>)
    ensures
        r@ == encode_utf8("\n//# sourceMappingURL=data:application/json;base64,"@) + base64_of(doc@),
{
    let mut out: Vec<u8> = Vec::new();
    append_str(&mut out, "\n//# sourceMappingURL=data:application/json;base64,");
    let mut enc = base64(doc);
    out.append(&mut enc);
    out
}

/// The comment that points a bundle at its source map file.
pub fn map_comment(url: &str) -> (r: Vec<u8>)
    ensures
        r@ == encode_utf8("\n//# sourceMappingURL="@) + encode_utf8(url@),
{
    let mut out: Vec<u8> = Vec::new();
    append_str(&mut out, "\n//# sourceMappingURL=");
    append_str(&mut out, url);
    out
}

} // verus!
