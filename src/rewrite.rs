use vstd::prelude::*;
use vstd::slice::slice_subrange;
use vstd::string::StrSliceExecFns;
use vstd::utf8::encode_utf8;

use crate::scan::{is_quote, int_pairs, require_sites, sites_from, step, ScanState};
use crate::text::{json_string_of, to_quoted_json_string};

verus! {

/// What a specifier resolved to.
pub enum Resolved {
    /// A file of the bundle, by its canonical path.
    Normal(String),
    /// Left for the host's own `require`.
    External,
    /// Replaced by the empty module.
    Ignore,
}

/// Each span holds a quoted literal: it opens and closes with the same quote.
pub open spec fn literal_spans(src: Seq<u8>, sites: Seq<(int, int)>) -> bool {
    forall|k: int|
        0 <= k < sites.len() ==> {
            let p = #[trigger] sites[k];
            &&& 0 <= p.0
            &&& p.0 + 2 <= p.1 <= src.len()
            &&& is_quote(src[p.0])
            &&& src[p.1 - 1] == src[p.0]
        }
}

/// Spans that lie inside `[pos, len]`, each after the one before.
pub open spec fn ordered(sites: Seq<(int, int)>, pos: int, len: int) -> bool {
    &&& forall|k: int| 0 <= k < sites.len() ==> pos <= #[trigger] sites[k].0 <= sites[k].1 <= len
    &&& forall|k: int| 0 <= k < sites.len() - 1 ==> #[trigger] sites[k].1 <= sites[k + 1].0
}

proof fn lemma_sites_ordered(src: Seq<u8>, i: int, st: ScanState)
    requires
        0 <= i,
    ensures
        ordered(sites_from(src, i, st), i, src.len() as int),
        literal_spans(src, sites_from(src, i, st)),
    decreases src.len() - i,
{
    if i < src.len() {
        let (st2, i2, found) = step(src, i, st);
        if i2 > i && i2 <= src.len() {
            lemma_sites_ordered(src, i2, st2);
        }
        let rest = if i2 > i && i2 <= src.len() {
            sites_from(src, i2, st2)
        } else {
            Seq::empty()
        };
        match found {
            Some(p) => {
                crate::scan::lemma_site_at(src, i);
                let all = seq![p] + rest;
                assert(all =~= sites_from(src, i, st));
                assert forall|k: int| 0 <= k < all.len() - 1 implies #[trigger] all[k].1 <= all[k
                    + 1].0 by {
                    if k > 0 {
                        assert(all[k] == rest[k - 1]);
                        assert(all[k + 1] == rest[k]);
                    }
                }
                assert forall|k: int| 0 <= k < all.len() implies #[trigger] all[k] == all[k] && {
                    let p = all[k];
                    &&& 0 <= p.0
                    &&& p.0 + 2 <= p.1 <= src.len()
                    &&& is_quote(src[p.0])
                    &&& src[p.1 - 1] == src[p.0]
                } by {
                    if k > 0 {
                        assert(all[k] == rest[k - 1]);
                    }
                }
                assert forall|k: int| 0 <= k < all.len() implies i <= #[trigger] all[k].0
                    <= all[k].1 <= src.len() by {
                    if k > 0 {
                        assert(all[k] == rest[k - 1]);
                    }
                }
            },
            None => {},
        }
    }
}

/// The literals that `find_requires` reports are in order and inside the text.
pub proof fn lemma_require_sites_ordered(src: Seq<u8>)
    ensures
        ordered(require_sites(src), 0, src.len() as int),
        literal_spans(src, require_sites(src)),
{
    lemma_sites_ordered(src, 0, crate::scan::start_state());
}

/// `src` with the span `sites[k]` replaced by `repls[k]`, for each `k` from
/// `k` on, starting at `pos`.
pub open spec fn splice_from(
    src: Seq<u8>,
    sites: Seq<(int, int)>,
    repls: Seq<Seq<u8>>,
    k: int,
    pos: int,
) -> Seq<u8>
    decreases sites.len() - k,
{
    if k < 0 || k >= sites.len() {
        src.subrange(pos, src.len() as int)
    } else {
        src.subrange(pos, sites[k].0) + repls[k] + splice_from(src, sites, repls, k + 1, sites[k].1)
    }
}

pub open spec fn splice(src: Seq<u8>, sites: Seq<(int, int)>, repls: Seq<Seq<u8>>) -> Seq<u8> {
    splice_from(src, sites, repls, 0, 0)
}

pub open spec fn byte_views(v: Seq<Vec<u8>>) -> Seq<Seq<u8>> {
    v.map_values(|b: Vec<u8>| b@)
}

fn copy_range(out: &mut Vec<u8>, src: &[u8], from: usize, to: usize)
    requires
        from <= to <= src@.len(),
    ensures
        final(out)@ == old(out)@ + src@.subrange(from as int, to as int),
{
    let mut j: usize = from;
    while j < to
        invariant
            from <= j <= to <= src@.len(),
            out@ == old(out)@ + src@.subrange(from as int, j as int),
        decreases to - j,
    {
        out.push(src[j]);
        assert(src@.subrange(from as int, j + 1) =~= src@.subrange(from as int, j as int).push(src@[j as int]));
        j = j + 1;
    }
}

/// `src` with each span of `sites` replaced by the bytes at the same index
/// of `repls`; every other byte is copied.
pub fn splice_bytes(src: &[u8], sites: &Vec<(usize, usize)>, repls: &Vec<Vec<u8>>) -> (r: Vec<u8>)
    requires
        ordered(int_pairs(sites@), 0, src@.len() as int),
        repls@.len() == sites@.len(),
    ensures
        r@ == splice(src@, int_pairs(sites@), byte_views(repls@)),
{
    let ghost sv = int_pairs(sites@);
    let ghost rv = byte_views(repls@);
    let mut out: Vec<u8> = Vec::new();
    let mut k: usize = 0;
    let mut pos: usize = 0;
    while k < sites.len()
        invariant
            sv == int_pairs(sites@),
            rv == byte_views(repls@),
            ordered(sv, 0, src@.len() as int),
            repls@.len() == sites@.len(),
            k <= sites@.len(),
            pos <= src@.len(),
            k < sites@.len() ==> pos <= sv[k as int].0,
            out@ + splice_from(src@, sv, rv, k as int, pos as int) == splice(src@, sv, rv),
        decreases sites@.len() - k,
    {
        let (s, e) = sites[k];
        assert(sv[k as int] == (s as int, e as int));
        let ghost o0 = out@;
        copy_range(&mut out, src, pos, s);
        let rep = &repls[k];
        assert(rv[k as int] == rep@);
        let mut j: usize = 0;
        while j < rep.len()
            invariant
                j <= rep@.len(),
                out@ == o0 + src@.subrange(pos as int, s as int) + rep@.subrange(0, j as int),
            decreases rep@.len() - j,
        {
            out.push(rep[j]);
            assert(rep@.subrange(0, j + 1) =~= rep@.subrange(0, j as int).push(rep@[j as int]));
            j = j + 1;
        }
        assert(rep@.subrange(0, rep@.len() as int) =~= rep@);
        assert(out@ + splice_from(src@, sv, rv, k + 1, e as int) =~= o0 + splice_from(
            src@,
            sv,
            rv,
            k as int,
            pos as int,
        ));
        pos = e;
        k = k + 1;
        proof {
            if k < sites@.len() {
                assert(sv[k - 1].1 <= sv[k as int].0);
            }
        }
    }
    let ghost o1 = out@;
    copy_range(&mut out, src, pos, src.len());
    assert(out@ =~= o1 + splice_from(src@, sv, rv, k as int, pos as int));
    out
}

/// The sentinel that stands for an ignored module: the loader maps it to
/// empty exports.
pub open spec fn ignore_sentinel() -> Seq<u8> {
    seq![110u8, 117u8, 108u8, 108u8]
}

/// The bytes that replace a specifier literal `lit` resolved to `r`.
pub open spec fn replacement_of(lit: Seq<u8>, r: Resolved) -> Seq<u8> {
    match r {
        Resolved::Normal(p) => encode_utf8(json_string_of(p@)),
        Resolved::External => lit,
        Resolved::Ignore => ignore_sentinel(),
    }
}

/// The text that a specifier literal becomes in the bundle.
pub fn replacement(lit: &[u8], r: &Resolved) -> (out: Vec<u8>)
    ensures
        out@ == replacement_of(lit@, *r),
{
    match r {
        Resolved::Normal(p) => {
            let q = to_quoted_json_string(p.as_str());
            q.as_str().as_bytes_vec()
        },
        Resolved::External => {
            let mut v: Vec<u8> = Vec::new();
            copy_range(&mut v, lit, 0, lit.len());
            assert(lit@.subrange(0, lit@.len() as int) =~= lit@);
            v
        },
        Resolved::Ignore => {
            let v: Vec<u8> = vec![110u8, 117u8, 108u8, 108u8];
            assert(v@ =~= ignore_sentinel());
            v
        },
    }
}

/// Where the stretch of unchanged bytes before span `k` starts in the source.
pub open spec fn gap_start(sites: Seq<(int, int)>, k: int) -> int {
    if k <= 0 {
        0
    } else {
        sites[k - 1].1
    }
}

/// Where that stretch ends: at span `k`, or at the end of the source after
/// the last span.
pub open spec fn gap_end(sites: Seq<(int, int)>, k: int, len: int) -> int {
    if k < sites.len() {
        sites[k].0
    } else {
        len
    }
}

/// Where stretch `k` starts in the output.
pub open spec fn out_start(sites: Seq<(int, int)>, repls: Seq<Seq<u8>>, k: int) -> int
    decreases k,
{
    if k <= 0 {
        0
    } else {
        out_start(sites, repls, k - 1) + (gap_end(sites, k - 1, 0) - gap_start(sites, k - 1))
            + repls[k - 1].len()
    }
}

/// Where source byte `j` of stretch `m` lands in the output of `splice_from`
/// started at stretch `k`.
pub open spec fn out_pos(sites: Seq<(int, int)>, repls: Seq<Seq<u8>>, k: int, m: int, j: int) -> int {
    out_start(sites, repls, m) - out_start(sites, repls, k) + (j - gap_start(sites, m))
}

proof fn lemma_splice_keeps(
    src: Seq<u8>,
    sites: Seq<(int, int)>,
    repls: Seq<Seq<u8>>,
    k: int,
)
    requires
        ordered(sites, 0, src.len() as int),
        repls.len() == sites.len(),
        0 <= k <= sites.len(),
    ensures
        splice_from(src, sites, repls, k, gap_start(sites, k)).len() == out_start(
            sites,
            repls,
            sites.len() as int,
        ) - out_start(sites, repls, k) + src.len() - gap_start(sites, sites.len() as int),
        forall|m: int, j: int|
            k <= m <= sites.len() && gap_start(sites, m) <= j < gap_end(sites, m, src.len() as int)
                ==> {
                let o = #[trigger] out_pos(sites, repls, k, m, j);
                &&& 0 <= o < splice_from(src, sites, repls, k, gap_start(sites, k)).len()
                &&& splice_from(src, sites, repls, k, gap_start(sites, k))[o] == src[j]
            },
    decreases sites.len() - k,
{
    let n = sites.len() as int;
    let len = src.len() as int;
    if k < n {
        if k > 0 {
            assert(sites[k - 1].1 <= sites[k].0);
        }
        assert(0 <= sites[k].0 <= sites[k].1 <= len);
        lemma_splice_keeps(src, sites, repls, k + 1);
        let a = src.subrange(gap_start(sites, k), sites[k].0);
        let c = splice_from(src, sites, repls, k + 1, gap_start(sites, k + 1));
        let x = splice_from(src, sites, repls, k, gap_start(sites, k));
        assert(x == a + repls[k] + c);
        assert(out_start(sites, repls, k + 1) == out_start(sites, repls, k) + a.len()
            + repls[k].len());
        assert forall|m: int, j: int|
            k <= m <= n && gap_start(sites, m) <= j < gap_end(sites, m, len) implies {
            let o = #[trigger] out_pos(sites, repls, k, m, j);
            &&& 0 <= o < x.len()
            &&& x[o] == src[j]
        } by {
            if m == k {
                assert(out_pos(sites, repls, k, m, j) == j - gap_start(sites, k));
                assert(a[j - gap_start(sites, k)] == src[j]);
            } else {
                let o1 = out_pos(sites, repls, k + 1, m, j);
                assert(0 <= o1 < c.len() && c[o1] == src[j]);
                assert(out_pos(sites, repls, k, m, j) == a.len() + repls[k].len() + o1);
            }
        }
    } else {
        let x = splice_from(src, sites, repls, k, gap_start(sites, k));
        if n > 0 {
            assert(0 <= sites[n - 1].0 <= sites[n - 1].1 <= len);
        }
        assert(x == src.subrange(gap_start(sites, k), len));
    }
}

/// Every byte of the source outside the replaced spans is kept: byte `j` of
/// the stretch before span `m` (or after the last span, for `m` equal to the
/// number of spans) stands in the output at
/// `out_start(m) + (j - gap_start(m))`.
pub proof fn lemma_splice_preserves(
    src: Seq<u8>,
    sites: Seq<(int, int)>,
    repls: Seq<Seq<u8>>,
    m: int,
    j: int,
)
    requires
        ordered(sites, 0, src.len() as int),
        repls.len() == sites.len(),
        0 <= m <= sites.len(),
        gap_start(sites, m) <= j < gap_end(sites, m, src.len() as int),
    ensures
        0 <= out_start(sites, repls, m) + (j - gap_start(sites, m)) < splice(src, sites, repls).len(),
        splice(src, sites, repls)[out_start(sites, repls, m) + (j - gap_start(sites, m))] == src[j],
{
    lemma_splice_keeps(src, sites, repls, 0);
    assert(out_pos(sites, repls, 0, m, j) == out_start(sites, repls, m) + (j - gap_start(sites, m)));
}

/// The value of a JavaScript string literal (quotes included) given as
/// bytes: `None` where an escape is invalid.
pub uninterp spec fn str_lit_value_of(lit: Seq<u8>) -> Option<Seq<char>>;

/// The number of backslashes in `b`.
pub open spec fn backslashes(b: Seq<u8>) -> nat
    decreases b.len(),
{
    if b.len() == 0 {
        0
    } else {
        backslashes(b.drop_last()) + if b.last() == 92 {
            1nat
        } else {
            0nat
        }
    }
}

/// Literals that esparse's decoder takes without panicking: ASCII, with at
/// most one escape, which is not a `\u{...}` escape (the decoder takes a
/// match position within a suffix for one within the whole, which only
/// holds for the first backslash and never inside braces).
pub open spec fn decodable(lit: Seq<u8>) -> bool {
    &&& lit.len() >= 2
    &&& is_quote(lit[0])
    &&& is_quote(lit.last())
    &&& (backslashes(lit) == 0 || {
        &&& forall|i: int| 0 <= i < lit.len() ==> lit[i] < 128
        &&& backslashes(lit) <= 1
        &&& forall|i: int| 0 <= i < lit.len() - 2 ==> !#[trigger] brace_escape_at(lit, i)
    })
}

/// Whether every byte of `lit` is ASCII.
pub open spec fn all_ascii(lit: Seq<u8>) -> bool {
    forall|i: int| 0 <= i < lit.len() ==> lit[i] < 128
}

/// Whether `\u{` starts at `i`.
pub open spec fn brace_escape_at(lit: Seq<u8>, i: int) -> bool {
    lit[i] == 92 && lit[i + 1] == 117 && lit[i + 2] == 123
}

/// The text between the quotes, one character per byte.
pub open spec fn inner_text(lit: Seq<u8>) -> Seq<char> {
    Seq::new((lit.len() - 2) as nat, |i: int| lit[i + 1] as char)
}

/// Relies on esparse::lex::str_lit_value: strips the two quotes and decodes
/// the escapes, failing on a bad escape; without a backslash it returns the
/// text between the quotes as it stands.
#[verifier::external_body]
fn str_lit_value(lit: &[u8]) -> (r: Option<String>)
    requires
        decodable(lit@),
    ensures
        r is Some <==> str_lit_value_of(lit@) is Some,
        r matches Some(v) ==> v@ == str_lit_value_of(lit@)->0,
        backslashes(lit@) == 0 && all_ascii(lit@) ==> r is Some && r->0@ == inner_text(lit@),
{
    let s = std::str::from_utf8(lit).ok()?;
    esparse::lex::str_lit_value(s).ok().map(|v| v.into_owned())
}

proof fn lemma_backslashes_step(b: Seq<u8>, i: int)
    requires
        0 <= i < b.len(),
    ensures
        backslashes(b.subrange(0, i + 1)) == backslashes(b.subrange(0, i)) + if b[i] == 92 {
            1nat
        } else {
            0nat
        },
{
    assert(b.subrange(0, i + 1).drop_last() =~= b.subrange(0, i));
}

/// Whether esparse's decoder can be handed `lit`.
pub fn is_decodable(lit: &[u8]) -> (r: bool)
    ensures
        r == decodable(lit@),
{
    let n = lit.len();
    if n < 2 {
        return false;
    }
    if !((lit[0] == 39 || lit[0] == 34) && (lit[n - 1] == 39 || lit[n - 1] == 34)) {
        return false;
    }
    if count_backslashes(lit) == 0 {
        return true;
    }
    let mut i: usize = 0;
    let mut count: usize = 0;
    while i < n
        invariant
            n == lit@.len(),
            n >= 2,
            i <= n,
            count == backslashes(lit@.subrange(0, i as int)),
            count <= 1,
            backslashes(lit@) > 0,
            forall|j: int| 0 <= j < i ==> lit@[j] < 128,
            forall|j: int| 0 <= j < i && j < n - 2 ==> !#[trigger] brace_escape_at(lit@, j),
        decreases n - i,
    {
        let c = lit[i];
        proof {
            lemma_backslashes_step(lit@, i as int);
        }
        if c >= 128 {
            return false;
        }
        if c == 92 {
            if count == 1 {
                proof {
                    lemma_backslashes_prefix(lit@, i + 1);
                }
                return false;
            }
            count = count + 1;
            if n - i > 2 && lit[i + 1] == 117 && lit[i + 2] == 123 {
                assert(brace_escape_at(lit@, i as int));
                return false;
            }
        }
        i = i + 1;
    }
    assert(lit@.subrange(0, n as int) =~= lit@);
    true
}

fn count_backslashes(lit: &[u8]) -> (r: usize)
    ensures
        r == backslashes(lit@),
{
    let n = lit.len();
    let mut i: usize = 0;
    let mut count: usize = 0;
    while i < n
        invariant
            n == lit@.len(),
            i <= n,
            count <= i,
            count == backslashes(lit@.subrange(0, i as int)),
        decreases n - i,
    {
        proof {
            lemma_backslashes_step(lit@, i as int);
        }
        if lit[i] == 92 {
            count = count + 1;
        }
        i = i + 1;
    }
    assert(lit@.subrange(0, n as int) =~= lit@);
    count
}

proof fn lemma_backslashes_prefix(b: Seq<u8>, k: int)
    requires
        0 <= k <= b.len(),
    ensures
        backslashes(b.subrange(0, k)) <= backslashes(b),
    decreases b.len() - k,
{
    if k < b.len() {
        lemma_backslashes_prefix(b, k + 1);
        lemma_backslashes_step(b, k);
    } else {
        assert(b.subrange(0, k) =~= b);
    }
}

/// The specifiers that the `require` calls of `src` name, in order: the
/// decoded value of each literal of `sites`, or `None` where it does not
/// decode or is not one the decoder takes.
pub fn specifiers(src: &[u8], sites: &Vec<(usize, usize)>) -> (r: Vec<Option<String>>)
    requires
        int_pairs(sites@) == require_sites(src@),
    ensures
        r@.len() == sites@.len(),
        forall|k: int|
            0 <= k < r@.len() ==> {
                let lit = src@.subrange(sites@[k].0 as int, sites@[k].1 as int);
                &&& (#[trigger] r@[k] is Some <==> decodable(lit) && str_lit_value_of(lit) is Some)
                &&& (r@[k] matches Some(v) ==> v@ == str_lit_value_of(lit)->0)
                &&& (decodable(lit) && backslashes(lit) == 0 && all_ascii(lit) ==> r@[k] is Some
                    && r@[k]->0@ == inner_text(lit))
            },
{
    proof {
        lemma_require_sites_ordered(src@);
    }
    let mut r: Vec<Option<String>> = Vec::new();
    let mut k: usize = 0;
    while k < sites.len()
        invariant
            int_pairs(sites@) == require_sites(src@),
            literal_spans(src@, require_sites(src@)),
            k <= sites@.len(),
            r@.len() == k,
            forall|m: int|
                0 <= m < k ==> {
                    let lit = src@.subrange(sites@[m].0 as int, sites@[m].1 as int);
                    &&& (#[trigger] r@[m] is Some <==> decodable(lit) && str_lit_value_of(lit) is Some)
                    &&& (r@[m] matches Some(v) ==> v@ == str_lit_value_of(lit)->0)
                    &&& (decodable(lit) && backslashes(lit) == 0 && all_ascii(lit) ==> r@[m] is Some
                        && r@[m]->0@ == inner_text(lit))
                },
        decreases sites@.len() - k,
    {
        let (s, e) = sites[k];
        assert(int_pairs(sites@)[k as int] == (s as int, e as int));
        let lit = slice_subrange(src, s, e);
        assert(lit@[0] == src@[s as int]);
        assert(lit@.last() == src@[e - 1]);
        let v = if is_decodable(lit) {
            str_lit_value(lit)
        } else {
            None
        };
        r.push(v);
        k = k + 1;
    }
    r
}

/// The bytes that replace each literal of `sites`.
pub open spec fn replacements(src: Seq<u8>, sites: Seq<(int, int)>, refs: Seq<Resolved>) -> Seq<
    Seq<u8>,
> {
    Seq::new(sites.len(), |k: int| replacement_of(src.subrange(sites[k].0, sites[k].1), refs[k]))
}

/// The body of a module in the bundle: `src` with the literal of each
/// `require` call replaced as its resolution says, all else unchanged.
pub fn rewrite_body(src: &[u8], sites: &Vec<(usize, usize)>, refs: &Vec<Resolved>) -> (r: Vec<u8>)
    requires
        int_pairs(sites@) == require_sites(src@),
        refs@.len() == sites@.len(),
    ensures
        r@ == splice(src@, require_sites(src@), replacements(src@, require_sites(src@), refs@)),
{
    proof {
        lemma_require_sites_ordered(src@);
    }
    let ghost sv = int_pairs(sites@);
    let mut repls: Vec<Vec<u8>> = Vec::new();
    let mut k: usize = 0;
    while k < sites.len()
        invariant
            sv == int_pairs(sites@),
            sv == require_sites(src@),
            ordered(sv, 0, src@.len() as int),
            refs@.len() == sites@.len(),
            k <= sites@.len(),
            repls@.len() == k,
            forall|m: int|
                0 <= m < k ==> #[trigger] byte_views(repls@)[m] == replacements(src@, sv, refs@)[m],
        decreases sites@.len() - k,
    {
        let (s, e) = sites[k];
        assert(sv[k as int] == (s as int, e as int));
        let lit = slice_subrange(src, s, e);
        let rep = replacement(lit, &refs[k]);
        let ghost rv = rep@;
        assert(rv == replacement_of(src@.subrange(sv[k as int].0, sv[k as int].1), refs@[k as int]));
        let ghost before = repls@;
        let ghost bbefore = byte_views(repls@);
        repls.push(rep);
        proof {
            assert forall|m: int| 0 <= m < k + 1 implies #[trigger] byte_views(repls@)[m]
                == replacements(src@, sv, refs@)[m] by {
                assert(byte_views(repls@)[m] == repls@[m]@);
                if m < k {
                    assert(repls@[m] == before[m]);
                    assert(bbefore[m] == before[m]@);
                    assert(bbefore[m] == replacements(src@, sv, refs@)[m]);
                } else {
                    assert(repls@[m]@ == rv);
                    assert(replacements(src@, sv, refs@)[m] == replacement_of(
                        src@.subrange(sv[m].0, sv[m].1),
                        refs@[m],
                    ));
                }
            }
        }
        k = k + 1;
    }
    assert(byte_views(repls@) =~= replacements(src@, sv, refs@));
    splice_bytes(src, sites, &repls)
}

} // verus!
