use vstd::prelude::*;

use crate::rewrite::ordered;
use crate::scan::int_pairs;
use crate::vlq::{encode, vlq_encoding};

verus! {

/// One mapping: a position of the output, and the source file (by index)
/// and position in it that it shows.
#[derive(Debug, Clone, Copy, PartialEq, Eq, Structural)]
pub struct Segment {
    pub out_line: usize,
    pub out_col: usize,
    pub src_index: usize,
    pub src_line: usize,
    pub src_col: usize,
}

/// Whether `a` comes no later than `b` in the output.
pub open spec fn seg_le(a: Segment, b: Segment) -> bool {
    a.out_line < b.out_line || (a.out_line == b.out_line && a.out_col <= b.out_col)
}

/// Output positions never go back.
pub open spec fn sorted(segs: Seq<Segment>) -> bool {
    forall|i: int, j: int| 0 <= i < j < segs.len() ==> seg_le(#[trigger] segs[i], #[trigger] segs[j])
}

/// The sum of the first `k` lengths.
pub open spec fn sum_to(s: Seq<usize>, k: int) -> int
    decreases k,
{
    if k <= 0 || k > s.len() {
        0
    } else {
        sum_to(s, k - 1) + s[k - 1]
    }
}

proof fn lemma_sum_to_mono(s: Seq<usize>, j: int, k: int)
    requires
        0 <= j <= k <= s.len(),
    ensures
        sum_to(s, j) <= sum_to(s, k),
    decreases k - j,
{
    if j < k {
        lemma_sum_to_mono(s, j, k - 1);
    }
}

/// The segments met walking the source from byte `i`, at span `k`, on line
/// `line`, at source column `col` and output column `oc`.
pub open spec fn segs_walk(
    src: Seq<u8>,
    sites: Seq<(int, int)>,
    lens: Seq<usize>,
    idx: usize,
    i: int,
    k: int,
    line: int,
    col: int,
    oc: int,
) -> Seq<Segment>
    decreases src.len() - i, sites.len() - k,
{
    if i < 0 || i >= src.len() || k < 0 {
        Seq::empty()
    } else if k < sites.len() && i == sites[k].0 {
        if sites[k].1 < i || sites[k].1 > src.len() || k >= lens.len() {
            Seq::empty()
        } else {
            let oc2 = oc + lens[k];
            let col2 = col + (sites[k].1 - sites[k].0);
            seq![
                Segment {
                    out_line: line as usize,
                    out_col: oc2 as usize,
                    src_index: idx,
                    src_line: line as usize,
                    src_col: col2 as usize,
                },
            ] + segs_walk(src, sites, lens, idx, sites[k].1, k + 1, line, col2, oc2)
        }
    } else if src[i] == 10 {
        seq![
            Segment {
                out_line: (line + 1) as usize,
                out_col: 0,
                src_index: idx,
                src_line: (line + 1) as usize,
                src_col: 0,
            },
        ] + segs_walk(src, sites, lens, idx, i + 1, k, line + 1, 0, 0)
    } else {
        segs_walk(src, sites, lens, idx, i + 1, k, line, col + 1, oc + 1)
    }
}

/// The segments of a rewritten module: one at the start of each source line,
/// mapping column 0 to column 0, and one after each replaced span, mapping
/// the output column after the replacement to the source column after the
/// span. Replacements hold no line breaks, so lines stay in step. Columns
/// count bytes.
pub fn module_segments(
    src: &[u8],
    sites: &Vec<(usize, usize)>,
    repl_lens: &Vec<usize>,
    src_index: usize,
) -> (r: Vec<Segment>)
    requires
        ordered(int_pairs(sites@), 0, src@.len() as int),
        repl_lens@.len() == sites@.len(),
        src@.len() + sum_to(repl_lens@, repl_lens@.len() as int) <= usize::MAX,
    ensures
        r@ == seq![Segment { out_line: 0, out_col: 0, src_index, src_line: 0, src_col: 0 }]
            + segs_walk(src@, int_pairs(sites@), repl_lens@, src_index, 0, 0, 0, 0, 0),
        sorted(r@),
        r@.len() >= 1,
        r@[0] == (Segment { out_line: 0, out_col: 0, src_index, src_line: 0, src_col: 0 }),
        forall|k: int|
            0 <= k < r@.len() ==> #[trigger] r@[k].out_line == r@[k].src_line && r@[k].src_index
                == src_index,
{
    let ghost sv = int_pairs(sites@);
    let n = src.len();
    let mut r: Vec<Segment> = Vec::new();
    r.push(Segment { out_line: 0, out_col: 0, src_index, src_line: 0, src_col: 0 });
    let mut i: usize = 0;
    let mut line: usize = 0;
    let mut col: usize = 0;
    let mut out_col: usize = 0;
    let mut k: usize = 0;
    while i < n
        invariant
            sv == int_pairs(sites@),
            ordered(sv, 0, n as int),
            n == src@.len(),
            repl_lens@.len() == sites@.len(),
            src@.len() + sum_to(repl_lens@, repl_lens@.len() as int) <= usize::MAX,
            i <= n,
            k <= sites@.len(),
            k < sites@.len() ==> i <= sv[k as int].0,
            out_col <= i + sum_to(repl_lens@, k as int),
            col <= i,
            line <= i,
            r@.len() >= 1,
            r@[0] == (Segment { out_line: 0, out_col: 0, src_index, src_line: 0, src_col: 0 }),
            sorted(r@),
            r@ + segs_walk(src@, sv, repl_lens@, src_index, i as int, k as int, line as int, col as int, out_col as int)
                == seq![Segment { out_line: 0, out_col: 0, src_index, src_line: 0, src_col: 0 }]
                + segs_walk(src@, sv, repl_lens@, src_index, 0, 0, 0, 0, 0),
            forall|j: int|
                0 <= j < r@.len() ==> #[trigger] r@[j].out_line < line || (r@[j].out_line == line
                    && r@[j].out_col <= out_col),
            forall|j: int|
                0 <= j < r@.len() ==> #[trigger] r@[j].out_line == r@[j].src_line && r@[j].src_index
                    == src_index,
        decreases n - i, sites@.len() - k,
    {
        let ghost r0 = r@;
        let ghost w0 = segs_walk(src@, sv, repl_lens@, src_index, i as int, k as int, line as int, col as int, out_col as int);
        if k < sites.len() && i == sites[k].0 {
            let (s, e) = sites[k];
            assert(sv[k as int] == (s as int, e as int));
            assert(sv[k as int].0 <= sv[k as int].1 <= n);
            proof {
                lemma_sum_to_mono(repl_lens@, k + 1, repl_lens@.len() as int);
                if k + 1 < sites@.len() {
                    assert(sv[k as int].1 <= sv[k + 1].0);
                }
            }
            out_col = out_col + repl_lens[k];
            col = col + (e - s);
            i = e;
            k = k + 1;
            let sg = Segment { out_line: line, out_col, src_index, src_line: line, src_col: col };
            r.push(sg);
            assert(r@ == r0.push(sg));
            assert(w0 == seq![sg] + segs_walk(src@, sv, repl_lens@, src_index, i as int, k as int, line as int, col as int, out_col as int));
            assert(r@ + segs_walk(src@, sv, repl_lens@, src_index, i as int, k as int, line as int, col as int, out_col as int) =~= r0 + w0);
            assert forall|a: int, b: int| 0 <= a < b < r@.len() implies seg_le(
                #[trigger] r@[a],
                #[trigger] r@[b],
            ) by {
                if b == r0.len() {
                    assert(r@[a] == r0[a]);
                } else {
                    assert(r@[a] == r0[a] && r@[b] == r0[b]);
                }
            }
        } else if src[i] == 10 {
            proof {
                lemma_sum_to_mono(repl_lens@, k as int, repl_lens@.len() as int);
            }
            line = line + 1;
            col = 0;
            out_col = 0;
            i = i + 1;
            let sg = Segment { out_line: line, out_col: 0, src_index, src_line: line, src_col: 0 };
            r.push(sg);
            assert(r@ == r0.push(sg));
            assert(w0 == seq![sg] + segs_walk(src@, sv, repl_lens@, src_index, i as int, k as int, line as int, col as int, out_col as int));
            assert(r@ + segs_walk(src@, sv, repl_lens@, src_index, i as int, k as int, line as int, col as int, out_col as int) =~= r0 + w0);
            assert forall|a: int, b: int| 0 <= a < b < r@.len() implies seg_le(
                #[trigger] r@[a],
                #[trigger] r@[b],
            ) by {
                if b == r0.len() {
                    assert(r@[a] == r0[a]);
                } else {
                    assert(r@[a] == r0[a] && r@[b] == r0[b]);
                }
            }
        } else {
            proof {
                lemma_sum_to_mono(repl_lens@, k as int, repl_lens@.len() as int);
            }
            col = col + 1;
            out_col = out_col + 1;
            i = i + 1;
        }
    }
    assert(r@ =~= r@ + segs_walk(src@, sv, repl_lens@, src_index, i as int, k as int, line as int, col as int, out_col as int));
    r
}

/// Moves module-local segments down by `lines` output lines, to where the
/// module's body stands in the bundle.
pub fn shift_segments(segs: &Vec<Segment>, lines: usize) -> (r: Vec<Segment>)
    requires
        forall|k: int| 0 <= k < segs@.len() ==> #[trigger] segs@[k].out_line + lines <= usize::MAX,
    ensures
        r@.len() == segs@.len(),
        forall|k: int|
            0 <= k < r@.len() ==> #[trigger] r@[k] == (Segment {
                out_line: (segs@[k].out_line + lines) as usize,
                ..segs@[k]
            }),
        sorted(segs@) ==> sorted(r@),
{
    let mut r: Vec<Segment> = Vec::new();
    let mut k: usize = 0;
    while k < segs.len()
        invariant
            k <= segs@.len(),
            r@.len() == k,
            forall|k: int| 0 <= k < segs@.len() ==> #[trigger] segs@[k].out_line + lines <= usize::MAX,
            forall|j: int|
                0 <= j < k ==> #[trigger] r@[j] == (Segment {
                    out_line: (segs@[j].out_line + lines) as usize,
                    ..segs@[j]
                }),
        decreases segs@.len() - k,
    {
        let s = segs[k];
        r.push(Segment { out_line: s.out_line + lines, ..s });
        k = k + 1;
    }
    proof {
        if sorted(segs@) {
            assert forall|i: int, j: int| 0 <= i < j < r@.len() implies seg_le(
                #[trigger] r@[i],
                #[trigger] r@[j],
            ) by {
                assert(seg_le(segs@[i], segs@[j]));
            }
        }
    }
    r
}

/// The output line of the first module body: the loader's lines and the
/// first module's header line come before it.
pub const FIRST_BODY_LINE: usize = 12;

/// Every segment stands on one of the first `lines` lines.
pub open spec fn within(segs: Seq<Segment>, lines: int) -> bool {
    forall|j: int| 0 <= j < segs.len() ==> (#[trigger] segs[j]).out_line < lines
}

/// Module `k`'s segments moved down by `line` lines and tagged with `k`.
pub open spec fn placed(segs: Seq<Segment>, line: int, k: int) -> Seq<Segment> {
    segs.map_values(
        |s: Segment| Segment { out_line: (s.out_line + line) as usize, src_index: k as usize, ..s },
    )
}

/// The segments of modules `k` on, module `k`'s body starting at `line`.
pub open spec fn bundle_segs_from(pm: Seq<Seq<Segment>>, bl: Seq<usize>, k: int, line: int) -> Seq<
    Segment,
>
    decreases pm.len() - k,
{
    if k < 0 || k >= pm.len() {
        Seq::empty()
    } else {
        placed(pm[k], line, k) + bundle_segs_from(pm, bl, k + 1, line + bl[k] + 2)
    }
}

pub open spec fn seg_views(v: Seq<Vec<Segment>>) -> Seq<Seq<Segment>> {
    v.map_values(|x: Vec<Segment>| x@)
}

/// The segments of a whole bundle: those of module `k` moved down to where
/// its body stands (each body is followed by a closing line and the next
/// module's header line) and tagged with source index `k`.
pub fn bundle_segments(per_module: &Vec<Vec<Segment>>, body_lines: &Vec<usize>) -> (r: Vec<Segment>)
    requires
        per_module@.len() == body_lines@.len(),
        forall|k: int|
            0 <= k < per_module@.len() ==> sorted((#[trigger] per_module@[k])@) && within(
                per_module@[k]@,
                body_lines@[k] as int,
            ),
        FIRST_BODY_LINE + sum_to(body_lines@, body_lines@.len() as int) + 2 * body_lines@.len()
            <= usize::MAX,
    ensures
        r@ == bundle_segs_from(seg_views(per_module@), body_lines@, 0, FIRST_BODY_LINE as int),
        sorted(r@),
{
    let ghost pmv = seg_views(per_module@);
    let mut r: Vec<Segment> = Vec::new();
    let mut line: usize = FIRST_BODY_LINE;
    let mut k: usize = 0;
    while k < per_module.len()
        invariant
            per_module@.len() == body_lines@.len(),
            forall|k: int|
                0 <= k < per_module@.len() ==> sorted((#[trigger] per_module@[k])@) && within(
                    per_module@[k]@,
                    body_lines@[k] as int,
                ),
            FIRST_BODY_LINE + sum_to(body_lines@, body_lines@.len() as int) + 2 * body_lines@.len()
                <= usize::MAX,
            k <= per_module@.len(),
            line == FIRST_BODY_LINE + sum_to(body_lines@, k as int) + 2 * k,
            pmv == seg_views(per_module@),
            r@ + bundle_segs_from(pmv, body_lines@, k as int, line as int) == bundle_segs_from(
                pmv,
                body_lines@,
                0,
                FIRST_BODY_LINE as int,
            ),
            sorted(r@),
            forall|j: int| 0 <= j < r@.len() ==> (#[trigger] r@[j]).out_line < line,
        decreases per_module@.len() - k,
    {
        let segs = &per_module[k];
        let n = body_lines[k];
        proof {
            lemma_sum_to_mono(body_lines@, k + 1, body_lines@.len() as int);
            assert(sum_to(body_lines@, k + 1) == sum_to(body_lines@, k as int) + n);
        }
        let ghost r0 = r@;
        let mut j: usize = 0;
        while j < segs.len()
            invariant
                sorted(segs@),
                within(segs@, n as int),
                line + n <= usize::MAX,
                j <= segs@.len(),
                r@.len() == r0.len() + j,
                forall|a: int| 0 <= a < r0.len() ==> r@[a] == r0[a],
                sorted(r0),
                forall|a: int| 0 <= a < r0.len() ==> (#[trigger] r0[a]).out_line < line,
                forall|b: int|
                    0 <= b < j ==> #[trigger] r@[r0.len() + b] == (Segment {
                        out_line: (segs@[b].out_line + line) as usize,
                        src_index: k,
                        ..segs@[b]
                    }),
                sorted(r@),
                forall|a: int| 0 <= a < r@.len() ==> (#[trigger] r@[a]).out_line < line + n,
            decreases segs@.len() - j,
        {
            let s = segs[j];
            assert(s.out_line < n);
            let t = Segment { out_line: s.out_line + line, src_index: k, ..s };
            let ghost before = r@;
            r.push(t);
            proof {
                assert forall|a: int, b: int| 0 <= a < b < r@.len() implies seg_le(
                    #[trigger] r@[a],
                    #[trigger] r@[b],
                ) by {
                    if b == before.len() {
                        assert(r@[a] == before[a]);
                        assert(r@[b] == t);
                        if a < r0.len() {
                            assert(before[a] == r0[a]);
                            assert(r0[a].out_line < line);
                        }
                        if a >= r0.len() {
                            let a2 = a - r0.len();
                            assert(0 <= a2 < j);
                            assert(r0.len() + a2 == a);
                            assert(before[r0.len() + a2] == Segment {
                                out_line: (segs@[a2].out_line + line) as usize,
                                src_index: k,
                                ..segs@[a2]
                            });
                            assert(before[a] == Segment {
                                out_line: (segs@[a2].out_line + line) as usize,
                                src_index: k,
                                ..segs@[a2]
                            });
                            assert(segs@[a2].out_line < n);
                            assert(seg_le(segs@[a2], segs@[j as int]));
                        }
                    } else {
                        assert(r@[a] == before[a] && r@[b] == before[b]);
                    }
                }
            }
            j = j + 1;
        }
        proof {
            assert(pmv[k as int] == segs@);
            let pl = placed(segs@, line as int, k as int);
            assert forall|i: int| 0 <= i < r@.len() implies r@[i] == (r0 + pl)[i] by {
                if i >= r0.len() {
                    let b = i - r0.len();
                    assert(r0.len() + b == i);
                    assert(r@[r0.len() + b] == Segment {
                        out_line: (segs@[b].out_line + line) as usize,
                        src_index: k,
                        ..segs@[b]
                    });
                }
            }
            assert(r@ =~= r0 + pl);
            assert(bundle_segs_from(pmv, body_lines@, k as int, line as int) == placed(
                segs@,
                line as int,
                k as int,
            ) + bundle_segs_from(pmv, body_lines@, k + 1, line + n + 2));
        }
        line = line + n + 2;
        k = k + 1;
    }
    assert(r@ =~= r@ + bundle_segs_from(pmv, body_lines@, k as int, line as int));
    r
}

/// `n` semicolons: the separators of `n` output lines.
pub open spec fn semis(n: int) -> Seq<u8> {
    Seq::new(if n > 0 { n as nat } else { 0 }, |_j: int| 59u8)
}

/// The four fields of a segment, each relative to the segment before (the
/// output column only within a line).
pub open spec fn seg_fields(prev: Segment, s: Segment, col_base: int) -> Seq<u8> {
    vlq_encoding(s.out_col - col_base) + vlq_encoding(s.src_index - prev.src_index) + vlq_encoding(
        s.src_line - prev.src_line,
    ) + vlq_encoding(s.src_col - prev.src_col)
}

/// The `mappings` text from segment `i` on, the output being at `line`,
/// after segment `prev`, and `fresh` where nothing stands on `line` yet.
pub open spec fn mappings_from(segs: Seq<Segment>, i: int, line: int, prev: Segment, fresh: bool) -> Seq<u8>
    decreases segs.len() - i,
{
    if i < 0 || i >= segs.len() {
        Seq::empty()
    } else {
        let s = segs[i];
        let starts = fresh || s.out_line > line;
        let sep = if starts {
            Seq::empty()
        } else {
            seq![44u8]
        };
        let base = if starts {
            0
        } else {
            prev.out_col as int
        };
        let next_line = if s.out_line > line {
            s.out_line as int
        } else {
            line
        };
        semis(s.out_line - line) + sep + seg_fields(prev, s, base) + mappings_from(
            segs,
            i + 1,
            next_line,
            s,
            false,
        )
    }
}

pub open spec fn zero_segment() -> Segment {
    Segment { out_line: 0, out_col: 0, src_index: 0, src_line: 0, src_col: 0 }
}

/// The `mappings` text of a source map for `segs`.
pub open spec fn mappings_of(segs: Seq<Segment>) -> Seq<u8> {
    mappings_from(segs, 0, 0, zero_segment(), true)
}

/// Fields small enough for every difference to be encoded.
pub open spec fn small(s: Segment) -> bool {
    s.out_col < 0x4000_0000 && s.src_index < 0x4000_0000 && s.src_line < 0x4000_0000 && s.src_col
        < 0x4000_0000 && s.out_line < 0x4000_0000
}

fn push_delta(out: &mut Vec<u8>, a: usize, b: usize)
    requires
        a < 0x4000_0000,
        b < 0x4000_0000,
    ensures
        final(out)@ == old(out)@ + vlq_encoding(a - b),
{
    let d: i64 = (a as i64) - (b as i64);
    encode(d, out);
}

/// Writes the `mappings` text of a source map: lines separated by `;`,
/// segments by `,`, each as base64 VLQ differences.
#[verifier::rlimit(60)]
pub fn mappings(segs: &Vec<Segment>) -> (r: Vec<u8>)
    requires
        sorted(segs@),
        forall|k: int| 0 <= k < segs@.len() ==> small(#[trigger] segs@[k]),
    ensures
        r@ == mappings_of(segs@),
{
    let mut out: Vec<u8> = Vec::new();
    let mut i: usize = 0;
    let mut line: usize = 0;
    let mut prev = Segment { out_line: 0, out_col: 0, src_index: 0, src_line: 0, src_col: 0 };
    let mut fresh = true;
    while i < segs.len()
        invariant
            sorted(segs@),
            forall|k: int| 0 <= k < segs@.len() ==> small(#[trigger] segs@[k]),
            i <= segs@.len(),
            small(prev),
            line < 0x4000_0000,
            i < segs@.len() ==> line <= segs@[i as int].out_line,
            out@ + mappings_from(segs@, i as int, line as int, prev, fresh) == mappings_of(segs@),
        decreases segs@.len() - i,
    {
        let s = segs[i];
        let ghost o0 = out@;
        let ghost rest = mappings_from(segs@, i as int, line as int, prev, fresh);
        let ghost prev0 = prev;
        let ghost line0 = line as int;
        let starts = fresh || s.out_line > line;
        let ghost sep: Seq<u8> = if starts {
            Seq::empty()
        } else {
            seq![44u8]
        };
        let ghost base0: int = if starts {
            0
        } else {
            prev.out_col as int
        };
        let ghost next_line: int = if s.out_line > line {
            s.out_line as int
        } else {
            line as int
        };
        assert(rest == semis(s.out_line - line0) + sep + seg_fields(prev0, s, base0) + mappings_from(
            segs@,
            i + 1,
            next_line,
            s,
            false,
        ));
        let mut j: usize = line;
        while j < s.out_line
            invariant
                line <= j <= s.out_line,
                out@ == o0 + semis(j - line),
            decreases s.out_line - j,
        {
            out.push(59u8);
            assert(out@ =~= o0 + semis(j + 1 - line));
            j = j + 1;
        }
        assert(out@ =~= o0 + semis(s.out_line - line));
        if !starts {
            out.push(44u8);
        }
        let ghost o1 = out@;
        assert(o1 =~= o0 + semis(s.out_line - line0) + sep);
        let base: usize = if starts {
            0
        } else {
            prev.out_col
        };
        push_delta(&mut out, s.out_col, base);
        push_delta(&mut out, s.src_index, prev.src_index);
        push_delta(&mut out, s.src_line, prev.src_line);
        push_delta(&mut out, s.src_col, prev.src_col);
        assert(out@ =~= o1 + seg_fields(prev0, s, base0));
        if s.out_line > line {
            line = s.out_line;
        }
        prev = s;
        fresh = false;
        i = i + 1;
        proof {
            if i < segs@.len() {
                assert(seg_le(segs@[i - 1], segs@[i as int]));
            }
            assert(line as int == next_line);
            assert(out@ + mappings_from(segs@, i as int, line as int, prev, fresh) =~= o0 + rest);
        }
    }
    assert(out@ =~= out@ + mappings_from(segs@, i as int, line as int, prev, fresh));
    out
}

} // verus!
