use vstd::prelude::*;
use vstd::utf8::encode_utf8;
use vstd::string::StrSliceExecFns;
use vstd::string::StringSliceAdditionalSpecFns;

verus! {

/// What the scanner is inside of.
#[derive(Debug, Clone, Copy, PartialEq, Eq, Structural)]
pub enum Mode {
    Code,
    LineComment,
    BlockComment,
    Str { quote: u8 },
    Template,
    Regex,
    RegexClass,
}

/// The scanner's state: its mode, and the last significant byte of code
/// (0 at the start), which tells a regex literal from a division.
#[derive(Debug, Clone, Copy, PartialEq, Eq, Structural)]
pub struct ScanState {
    pub mode: Mode,
    pub prev: u8,
}

pub open spec fn is_ident_byte(c: u8) -> bool {
    (48 <= c <= 57) || (65 <= c <= 90) || (97 <= c <= 122) || c == 95 || c == 36
}

pub open spec fn is_space(c: u8) -> bool {
    c == 32 || c == 9 || c == 10 || c == 13
}

/// After these (or at the start) a `/` opens a regex literal.
pub open spec fn regex_allowed(prev: u8) -> bool {
    prev == 0 || prev == 40 || prev == 44 || prev == 61 || prev == 58 || prev == 91 || prev
        == 33 || prev == 38 || prev == 124 || prev == 63 || prev == 123 || prev == 125 || prev
        == 59 || prev == 43 || prev == 45 || prev == 42 || prev == 37 || prev == 60 || prev == 62
        || prev == 126 || prev == 94
}

pub open spec fn is_quote(c: u8) -> bool {
    c == 39 || c == 34
}

/// The closing quote of a one-line literal whose body starts at `j`; a
/// backslash escapes the byte after it.
pub open spec fn literal_close(src: Seq<u8>, q: u8, j: int) -> Option<int>
    decreases src.len() - j,
{
    if j < 0 || j >= src.len() {
        None
    } else if src[j] == q {
        Some(j)
    } else if src[j] == 10 {
        None
    } else if src[j] == 92 {
        if j + 1 >= src.len() {
            None
        } else {
            literal_close(src, q, j + 2)
        }
    } else {
        literal_close(src, q, j + 1)
    }
}

/// Whether the word `w` stands at `i`, not as part of a longer name.
pub open spec fn word_at(src: Seq<u8>, i: int, w: Seq<u8>) -> bool {
    &&& w.len() > 0
    &&& 0 <= i
    &&& i + w.len() <= src.len()
    &&& src.subrange(i, i + w.len()) == w
    &&& (i == 0 || !is_ident_byte(src[i - 1]))
    &&& (i + w.len() == src.len() || !is_ident_byte(src[i + w.len()]))
}

/// The first index from `k` on that holds no white space.
pub open spec fn skip_ws(src: Seq<u8>, k: int) -> int
    decreases src.len() - k,
{
    if 0 <= k < src.len() && is_space(src[k]) {
        skip_ws(src, k + 1)
    } else {
        k
    }
}

/// Bytes that end the clause between `import`/`export` and `from`.
pub open spec fn stops_clause(c: u8) -> bool {
    c == 59 || is_quote(c) || c == 96 || c == 40 || c == 41 || c == 61
}

/// The opening quote of the literal after the first `from` met from `k`,
/// before any `;`, quote, backtick, parenthesis or `=`.
pub open spec fn from_clause(src: Seq<u8>, k: int) -> Option<int>
    decreases src.len() - k,
{
    if k < 0 || k >= src.len() {
        None
    } else if stops_clause(src[k]) {
        None
    } else if word_at(src, k, encode_utf8("from"@)) {
        let q = skip_ws(src, k + encode_utf8("from"@).len());
        if q < src.len() && is_quote(src[q]) {
            Some(q)
        } else {
            None
        }
    } else {
        from_clause(src, k + 1)
    }
}

/// After a callee ending before `k`: the opening quote of a literal that
/// follows `(`, white space allowed around it.
pub open spec fn call_arg(src: Seq<u8>, k: int) -> Option<int> {
    let p = skip_ws(src, k);
    if 0 <= p < src.len() && src[p] == 40 {
        let q = skip_ws(src, p + 1);
        if q < src.len() && is_quote(src[q]) {
            Some(q)
        } else {
            None
        }
    } else {
        None
    }
}

/// Whether `)` follows the literal closing at `j`, after white space.
pub open spec fn closes_call(src: Seq<u8>, j: int) -> bool {
    let c = skip_ws(src, j + 1);
    0 <= c < src.len() && src[c] == 41
}

/// The closing quote of the literal that opens at `q`.
pub open spec fn literal_at(src: Seq<u8>, q: int) -> Option<int> {
    if 0 <= q < src.len() && is_quote(src[q]) {
        literal_close(src, src[q], q + 1)
    } else {
        None
    }
}

/// The literal of a call: opened at `q`, and followed by `)`.
pub open spec fn call_site(src: Seq<u8>, q: Option<int>) -> Option<(int, int)> {
    match q {
        None => None,
        Some(q) => match literal_at(src, q) {
            Some(j) => if closes_call(src, j) {
                Some((q, j))
            } else {
                None
            },
            None => None,
        },
    }
}

/// The literal of a static form, opened at `q`.
pub open spec fn static_site(src: Seq<u8>, q: Option<int>) -> Option<(int, int)> {
    match q {
        None => None,
        Some(q) => match literal_at(src, q) {
            Some(j) => Some((q, j)),
            None => None,
        },
    }
}

/// The import form that starts at `i`, if any: the indexes of its
/// specifier literal's opening and closing quotes. The forms are
/// `require(<lit>)`, `import(<lit>)`, `import <lit>`, `import ... from <lit>`
/// and `export ... from <lit>`, with white space allowed between tokens.
pub open spec fn site_at(src: Seq<u8>, i: int) -> Option<(int, int)> {
    if word_at(src, i, encode_utf8("require"@)) {
        call_site(src, call_arg(src, i + encode_utf8("require"@).len()))
    } else if word_at(src, i, encode_utf8("import"@)) {
        let k = i + encode_utf8("import"@).len();
        if call_arg(src, k) is Some {
            call_site(src, call_arg(src, k))
        } else {
            let p = skip_ws(src, k);
            if 0 <= p < src.len() && is_quote(src[p]) {
                static_site(src, Some(p))
            } else {
                static_site(src, from_clause(src, p))
            }
        }
    } else if word_at(src, i, encode_utf8("export"@)) {
        static_site(src, from_clause(src, i + encode_utf8("export"@).len()))
    } else {
        None
    }
}

/// After these words a `/` opens a regex literal: the length of the one
/// that stands at `i`, or 0.
pub open spec fn expr_keyword_at(src: Seq<u8>, i: int) -> int {
    if word_at(src, i, encode_utf8("return"@)) {
        encode_utf8("return"@).len() as int
    } else if word_at(src, i, encode_utf8("typeof"@)) {
        encode_utf8("typeof"@).len() as int
    } else if word_at(src, i, encode_utf8("case"@)) {
        encode_utf8("case"@).len() as int
    } else if word_at(src, i, encode_utf8("do"@)) {
        encode_utf8("do"@).len() as int
    } else if word_at(src, i, encode_utf8("else"@)) {
        encode_utf8("else"@).len() as int
    } else if word_at(src, i, encode_utf8("in"@)) {
        encode_utf8("in"@).len() as int
    } else if word_at(src, i, encode_utf8("instanceof"@)) {
        encode_utf8("instanceof"@).len() as int
    } else if word_at(src, i, encode_utf8("new"@)) {
        encode_utf8("new"@).len() as int
    } else if word_at(src, i, encode_utf8("delete"@)) {
        encode_utf8("delete"@).len() as int
    } else if word_at(src, i, encode_utf8("void"@)) {
        encode_utf8("void"@).len() as int
    } else if word_at(src, i, encode_utf8("throw"@)) {
        encode_utf8("throw"@).len() as int
    } else if word_at(src, i, encode_utf8("yield"@)) {
        encode_utf8("yield"@).len() as int
    } else if word_at(src, i, encode_utf8("await"@)) {
        encode_utf8("await"@).len() as int
    } else {
        0
    }
}

pub open spec fn skip_pair(i: int, len: int) -> int {
    if i + 2 <= len {
        i + 2
    } else {
        len
    }
}

/// One step of the scanner at `i`: the next state, the next index, and the
/// span of a specifier literal (quotes included) found there.
pub open spec fn step(src: Seq<u8>, i: int, st: ScanState) -> (ScanState, int, Option<(int, int)>) {
    let c = src[i];
    let len = src.len() as int;
    let next = if i + 1 < len {
        src[i + 1]
    } else {
        0u8
    };
    let same = (st, i + 1, None);
    match st.mode {
        Mode::Code => {
            if site_at(src, i) is Some && st.prev != 46 {
                let (q, j) = site_at(src, i)->0;
                (ScanState { mode: Mode::Code, prev: 34 }, j + 1, Some((q, j + 1)))
            } else if expr_keyword_at(src, i) > 0 && st.prev != 46 {
                (ScanState { mode: Mode::Code, prev: 61 }, i + expr_keyword_at(src, i), None)
            } else if c == 47 && next == 47 {
                (ScanState { mode: Mode::LineComment, prev: st.prev }, i + 2, None)
            } else if c == 47 && next == 42 {
                (ScanState { mode: Mode::BlockComment, prev: st.prev }, i + 2, None)
            } else if c == 47 && regex_allowed(st.prev) {
                (ScanState { mode: Mode::Regex, prev: st.prev }, i + 1, None)
            } else if is_quote(c) {
                (ScanState { mode: Mode::Str { quote: c }, prev: st.prev }, i + 1, None)
            } else if c == 96 {
                (ScanState { mode: Mode::Template, prev: st.prev }, i + 1, None)
            } else if is_space(c) {
                same
            } else {
                (ScanState { mode: Mode::Code, prev: c }, i + 1, None)
            }
        },
        Mode::LineComment => if c == 10 {
            (ScanState { mode: Mode::Code, prev: st.prev }, i + 1, None)
        } else {
            same
        },
        Mode::BlockComment => if c == 42 && next == 47 {
            (ScanState { mode: Mode::Code, prev: st.prev }, i + 2, None)
        } else {
            same
        },
        Mode::Str { quote } => if c == 92 {
            (st, skip_pair(i, len), None)
        } else if c == quote || c == 10 {
            (ScanState { mode: Mode::Code, prev: 34 }, i + 1, None)
        } else {
            same
        },
        Mode::Template => if c == 92 {
            (st, skip_pair(i, len), None)
        } else if c == 96 {
            (ScanState { mode: Mode::Code, prev: 96 }, i + 1, None)
        } else {
            same
        },
        Mode::Regex => if c == 92 {
            (st, skip_pair(i, len), None)
        } else if c == 91 {
            (ScanState { mode: Mode::RegexClass, prev: st.prev }, i + 1, None)
        } else if c == 47 || c == 10 {
            (ScanState { mode: Mode::Code, prev: 47 }, i + 1, None)
        } else {
            same
        },
        Mode::RegexClass => if c == 92 {
            (st, skip_pair(i, len), None)
        } else if c == 93 {
            (ScanState { mode: Mode::Regex, prev: st.prev }, i + 1, None)
        } else {
            same
        },
    }
}

pub open spec fn start_state() -> ScanState {
    ScanState { mode: Mode::Code, prev: 0 }
}

/// The specifier literals found from `i` on, in order.
pub open spec fn sites_from(src: Seq<u8>, i: int, st: ScanState) -> Seq<(int, int)>
    decreases src.len() - i,
{
    if i < 0 || i >= src.len() {
        Seq::empty()
    } else {
        let (st2, i2, found) = step(src, i, st);
        let rest = if i2 > i && i2 <= src.len() {
            sites_from(src, i2, st2)
        } else {
            Seq::empty()
        };
        match found {
            Some(s) => seq![s] + rest,
            None => rest,
        }
    }
}

/// The spans of the specifier literals of the import forms (see `site_at`)
/// in the code of `src`, in order.
pub open spec fn require_sites(src: Seq<u8>) -> Seq<(int, int)> {
    sites_from(src, 0, start_state())
}

fn literal_close_exec(src: &[u8], q: u8, j: usize) -> (r: Option<usize>)
    ensures
        r is None <==> literal_close(src@, q, j as int) is None,
        r matches Some(k) ==> literal_close(src@, q, j as int) == Some(k as int),
        r matches Some(k) ==> j <= k < src@.len(),
{
    let mut k: usize = j;
    while k < src.len()
        invariant
            j <= k,
            literal_close(src@, q, k as int) == literal_close(src@, q, j as int),
        decreases src@.len() - k,
    {
        let c = src[k];
        if c == q {
            return Some(k);
        }
        if c == 10 {
            return None;
        }
        if c == 92 {
            if src.len() - k < 2 {
                return None;
            }
            k = k + 2;
        } else {
            k = k + 1;
        }
    }
    None
}

fn is_ident_exec(c: u8) -> (r: bool)
    ensures
        r == is_ident_byte(c),
{
    (48 <= c && c <= 57) || (65 <= c && c <= 90) || (97 <= c && c <= 122) || c == 95 || c == 36
}

proof fn lemma_skip_ws(src: Seq<u8>, k: int)
    ensures
        skip_ws(src, k) >= k,
        0 <= k ==> skip_ws(src, k) >= src.len() || !is_space(src[skip_ws(src, k)]),
        0 <= k <= src.len() ==> skip_ws(src, k) <= src.len(),
    decreases src.len() - k,
{
    if 0 <= k < src.len() && is_space(src[k]) {
        lemma_skip_ws(src, k + 1);
    }
}

proof fn lemma_from_clause(src: Seq<u8>, k: int)
    ensures
        from_clause(src, k) matches Some(q) ==> k <= q < src.len() && is_quote(src[q]),
    decreases src.len() - k,
{
    if 0 <= k < src.len() && !stops_clause(src[k]) {
        if word_at(src, k, encode_utf8("from"@)) {
            lemma_skip_ws(src, k + encode_utf8("from"@).len());
        } else {
            lemma_from_clause(src, k + 1);
        }
    }
}

proof fn lemma_literal_close(src: Seq<u8>, q: u8, j: int)
    ensures
        literal_close(src, q, j) matches Some(k) ==> j <= k < src.len() && src[k] == q,
    decreases src.len() - j,
{
    if 0 <= j < src.len() && src[j] != q && src[j] != 10 {
        if src[j] == 92 {
            if j + 1 < src.len() {
                lemma_literal_close(src, q, j + 2);
            }
        } else {
            lemma_literal_close(src, q, j + 1);
        }
    }
}

/// A site found at `i` is a quoted literal after `i`, inside the text.
pub proof fn lemma_site_at(src: Seq<u8>, i: int)
    ensures
        site_at(src, i) matches Some(p) ==> i < p.0 < p.1 < src.len() && is_quote(src[p.0])
            && src[p.1] == src[p.0],
{
    if site_at(src, i) is Some {
        let p = site_at(src, i)->0;
        let w = if word_at(src, i, encode_utf8("require"@)) {
            encode_utf8("require"@)
        } else if word_at(src, i, encode_utf8("import"@)) {
            encode_utf8("import"@)
        } else {
            encode_utf8("export"@)
        };
        let k = i + w.len();
        lemma_skip_ws(src, k);
        let p1 = skip_ws(src, k);
        lemma_skip_ws(src, p1 + 1);
        lemma_from_clause(src, p1);
        lemma_from_clause(src, k);
        lemma_literal_close(src, src[p.0], p.0 + 1);
    }
}

fn word_at_exec(src: &[u8], i: usize, w: &[u8]) -> (r: bool)
    ensures
        r == word_at(src@, i as int, w@),
{
    let n = src.len();
    let m = w.len();
    if m == 0 || i > n || n - i < m {
        return false;
    }
    let mut k: usize = 0;
    while k < m
        invariant
            m == w@.len(),
            i + m <= n == src@.len(),
            k <= m,
            forall|t: int| 0 <= t < k ==> src@[i + t] == w@[t],
        decreases m - k,
    {
        if src[i + k] != w[k] {
            assert(src@.subrange(i as int, i + m)[k as int] != w@[k as int]);
            return false;
        }
        k = k + 1;
    }
    assert(src@.subrange(i as int, i + m) =~= w@);
    if i > 0 && is_ident_exec(src[i - 1]) {
        return false;
    }
    if i + m < n && is_ident_exec(src[i + m]) {
        return false;
    }
    true
}

fn skip_ws_exec(src: &[u8], k: usize) -> (r: usize)
    requires
        k <= src@.len(),
    ensures
        r == skip_ws(src@, k as int),
        k <= r <= src@.len(),
{
    let mut p: usize = k;
    while p < src.len() && (src[p] == 32 || src[p] == 9 || src[p] == 10 || src[p] == 13)
        invariant
            k <= p <= src@.len(),
            skip_ws(src@, p as int) == skip_ws(src@, k as int),
        decreases src@.len() - p,
    {
        p = p + 1;
    }
    p
}

fn from_clause_exec(src: &[u8], k: usize) -> (r: Option<usize>)
    requires
        k <= src@.len(),
    ensures
        r is None <==> from_clause(src@, k as int) is None,
        r matches Some(q) ==> from_clause(src@, k as int) == Some(q as int),
{
    let from_w = "from".as_bytes();
    let mut p: usize = k;
    while p < src.len()
        invariant
            k <= p <= src@.len(),
            from_w@ == encode_utf8("from"@),
            from_clause(src@, p as int) == from_clause(src@, k as int),
        decreases src@.len() - p,
    {
        let c = src[p];
        if c == 59 || c == 39 || c == 34 || c == 96 || c == 40 || c == 41 || c == 61 {
            return None;
        }
        if word_at_exec(src, p, from_w) {
            let q = skip_ws_exec(src, p + from_w.len());
            if q < src.len() && (src[q] == 39 || src[q] == 34) {
                return Some(q);
            }
            return None;
        }
        p = p + 1;
    }
    None
}

fn literal_at_exec(src: &[u8], q: usize) -> (r: Option<usize>)
    ensures
        r is None <==> literal_at(src@, q as int) is None,
        r matches Some(j) ==> literal_at(src@, q as int) == Some(j as int),
{
    if q < src.len() && (src[q] == 39 || src[q] == 34) {
        proof {
            lemma_literal_close(src@, src@[q as int], q + 1);
        }
        literal_close_exec(src, src[q], q + 1)
    } else {
        None
    }
}

fn call_arg_exec(src: &[u8], k: usize) -> (r: Option<usize>)
    requires
        k <= src@.len(),
    ensures
        r is None <==> call_arg(src@, k as int) is None,
        r matches Some(q) ==> call_arg(src@, k as int) == Some(q as int),
{
    let p = skip_ws_exec(src, k);
    if p < src.len() && src[p] == 40 {
        let q = skip_ws_exec(src, p + 1);
        if q < src.len() && (src[q] == 39 || src[q] == 34) {
            Some(q)
        } else {
            None
        }
    } else {
        None
    }
}

fn call_site_exec(src: &[u8], q: Option<usize>) -> (r: Option<(usize, usize)>)
    ensures
        r is None <==> call_site(src@, opt_int(q)) is None,
        r matches Some(p) ==> call_site(src@, opt_int(q)) == Some((p.0 as int, p.1 as int)),
{
    match q {
        None => None,
        Some(q) => match literal_at_exec(src, q) {
            Some(j) => {
                let _n = src.len();
                proof {
                    lemma_literal_close(src@, src@[q as int], q + 1);
                }
                assert(literal_at(src@, q as int) == Some(j as int));
                assert(j < src@.len());
                let c = skip_ws_exec(src, j + 1);
                if c < src.len() && src[c] == 41 {
                    Some((q, j))
                } else {
                    None
                }
            },
            None => None,
        },
    }
}

fn static_site_exec(src: &[u8], q: Option<usize>) -> (r: Option<(usize, usize)>)
    ensures
        r is None <==> static_site(src@, opt_int(q)) is None,
        r matches Some(p) ==> static_site(src@, opt_int(q)) == Some((p.0 as int, p.1 as int)),
{
    match q {
        None => None,
        Some(q) => match literal_at_exec(src, q) {
            Some(j) => Some((q, j)),
            None => None,
        },
    }
}

pub open spec fn opt_int(q: Option<usize>) -> Option<int> {
    match q {
        Some(v) => Some(v as int),
        None => None,
    }
}

fn site_at_exec(src: &[u8], i: usize) -> (r: Option<(usize, usize)>)
    requires
        i < src@.len(),
    ensures
        r is None <==> site_at(src@, i as int) is None,
        r matches Some(p) ==> site_at(src@, i as int) == Some((p.0 as int, p.1 as int)),
{
    let _n = src.len();
    let require_w = "require".as_bytes();
    let import_w = "import".as_bytes();
    let export_w = "export".as_bytes();
    if word_at_exec(src, i, require_w) {
        assert(i + require_w@.len() <= src@.len());
        call_site_exec(src, call_arg_exec(src, i + require_w.len()))
    } else if word_at_exec(src, i, import_w) {
        let k = i + import_w.len();
        let a = call_arg_exec(src, k);
        if a.is_some() {
            call_site_exec(src, a)
        } else {
            let p = skip_ws_exec(src, k);
            if p < src.len() && (src[p] == 39 || src[p] == 34) {
                static_site_exec(src, Some(p))
            } else {
                static_site_exec(src, from_clause_exec(src, p))
            }
        }
    } else if word_at_exec(src, i, export_w) {
        static_site_exec(src, from_clause_exec(src, i + export_w.len()))
    } else {
        None
    }
}

fn expr_keyword_exec(src: &[u8], i: usize) -> (r: usize)
    ensures
        r == expr_keyword_at(src@, i as int),
{
    if word_at_exec(src, i, "return".as_bytes()) {
        "return".as_bytes().len()
    } else if word_at_exec(src, i, "typeof".as_bytes()) {
        "typeof".as_bytes().len()
    } else if word_at_exec(src, i, "case".as_bytes()) {
        "case".as_bytes().len()
    } else if word_at_exec(src, i, "do".as_bytes()) {
        "do".as_bytes().len()
    } else if word_at_exec(src, i, "else".as_bytes()) {
        "else".as_bytes().len()
    } else if word_at_exec(src, i, "in".as_bytes()) {
        "in".as_bytes().len()
    } else if word_at_exec(src, i, "instanceof".as_bytes()) {
        "instanceof".as_bytes().len()
    } else if word_at_exec(src, i, "new".as_bytes()) {
        "new".as_bytes().len()
    } else if word_at_exec(src, i, "delete".as_bytes()) {
        "delete".as_bytes().len()
    } else if word_at_exec(src, i, "void".as_bytes()) {
        "void".as_bytes().len()
    } else if word_at_exec(src, i, "throw".as_bytes()) {
        "throw".as_bytes().len()
    } else if word_at_exec(src, i, "yield".as_bytes()) {
        "yield".as_bytes().len()
    } else if word_at_exec(src, i, "await".as_bytes()) {
        "await".as_bytes().len()
    } else {
        0
    }
}

fn regex_allowed_exec(prev: u8) -> (r: bool)
    ensures
        r == regex_allowed(prev),
{
    prev == 0 || prev == 40 || prev == 44 || prev == 61 || prev == 58 || prev == 91 || prev == 33
        || prev == 38 || prev == 124 || prev == 63 || prev == 123 || prev == 125 || prev == 59
        || prev == 43 || prev == 45 || prev == 42 || prev == 37 || prev == 60 || prev == 62
        || prev == 126 || prev == 94
}

fn step_exec(src: &[u8], i: usize, st: ScanState) -> (r: (ScanState, usize, Option<(usize, usize)>))
    requires
        i < src@.len(),
    ensures
        ({
            let s = step(src@, i as int, st);
            &&& r.0 == s.0
            &&& r.1 == s.1
            &&& match s.2 {
                Some(p) => r.2 == Some((p.0 as usize, p.1 as usize)),
                None => r.2 is None,
            }
        }),
        i < r.1 <= src@.len(),
{
    let n = src.len();
    let c = src[i];
    let next: u8 = if i + 1 < n {
        src[i + 1]
    } else {
        0
    };
    let s2: usize = if n - i >= 2 {
        i + 2
    } else {
        n
    };
    match st.mode {
        Mode::Code => {
            if st.prev != 46 {
                proof {
                    lemma_site_at(src@, i as int);
                }
                match site_at_exec(src, i) {
                    Some((q, j)) => {
                        return (ScanState { mode: Mode::Code, prev: 34 }, j + 1, Some((q, j + 1)));
                    },
                    None => {},
                }
                let kw = expr_keyword_exec(src, i);
                if kw > 0 {
                    return (ScanState { mode: Mode::Code, prev: 61 }, i + kw, None);
                }
            }
            if c == 47 && next == 47 {
                (ScanState { mode: Mode::LineComment, prev: st.prev }, i + 2, None)
            } else if c == 47 && next == 42 {
                (ScanState { mode: Mode::BlockComment, prev: st.prev }, i + 2, None)
            } else if c == 47 && regex_allowed_exec(st.prev) {
                (ScanState { mode: Mode::Regex, prev: st.prev }, i + 1, None)
            } else if c == 39 || c == 34 {
                (ScanState { mode: Mode::Str { quote: c }, prev: st.prev }, i + 1, None)
            } else if c == 96 {
                (ScanState { mode: Mode::Template, prev: st.prev }, i + 1, None)
            } else if c == 32 || c == 9 || c == 10 || c == 13 {
                (st, i + 1, None)
            } else {
                (ScanState { mode: Mode::Code, prev: c }, i + 1, None)
            }
        },
        Mode::LineComment => if c == 10 {
            (ScanState { mode: Mode::Code, prev: st.prev }, i + 1, None)
        } else {
            (st, i + 1, None)
        },
        Mode::BlockComment => if c == 42 && next == 47 {
            (ScanState { mode: Mode::Code, prev: st.prev }, i + 2, None)
        } else {
            (st, i + 1, None)
        },
        Mode::Str { quote } => if c == 92 {
            (st, s2, None)
        } else if c == quote || c == 10 {
            (ScanState { mode: Mode::Code, prev: 34 }, i + 1, None)
        } else {
            (st, i + 1, None)
        },
        Mode::Template => if c == 92 {
            (st, s2, None)
        } else if c == 96 {
            (ScanState { mode: Mode::Code, prev: 96 }, i + 1, None)
        } else {
            (st, i + 1, None)
        },
        Mode::Regex => if c == 92 {
            (st, s2, None)
        } else if c == 91 {
            (ScanState { mode: Mode::RegexClass, prev: st.prev }, i + 1, None)
        } else if c == 47 || c == 10 {
            (ScanState { mode: Mode::Code, prev: 47 }, i + 1, None)
        } else {
            (st, i + 1, None)
        },
        Mode::RegexClass => if c == 92 {
            (st, s2, None)
        } else if c == 93 {
            (ScanState { mode: Mode::Regex, prev: st.prev }, i + 1, None)
        } else {
            (st, i + 1, None)
        },
    }
}

/// Index pairs as integers.
pub open spec fn int_pairs(v: Seq<(usize, usize)>) -> Seq<(int, int)> {
    v.map_values(|p: (usize, usize)| (p.0 as int, p.1 as int))
}

/// The spans of the literals that name a required module, each from its
/// opening quote to just past its closing quote, in order.
pub fn find_requires(src: &[u8]) -> (r: Vec<(usize, usize)>)
    ensures
        int_pairs(r@) == require_sites(src@),
{
    let mut out: Vec<(usize, usize)> = Vec::new();
    let mut i: usize = 0;
    let mut st = ScanState { mode: Mode::Code, prev: 0 };
    let ghost all = require_sites(src@);
    assert(int_pairs(out@) =~= Seq::<(int, int)>::empty());
    while i < src.len()
        invariant
            i <= src@.len(),
            all == require_sites(src@),
            int_pairs(out@) + sites_from(src@, i as int, st) == all,
        decreases src@.len() - i,
    {
        let ghost rest = sites_from(src@, i as int, st);
        let ghost before = int_pairs(out@);
        let (st2, i2, found) = step_exec(src, i, st);
        let ghost rest2 = sites_from(src@, i2 as int, st2);
        match found {
            Some(p) => {
                assert(rest =~= seq![(p.0 as int, p.1 as int)] + rest2);
                out.push(p);
                assert(int_pairs(out@) =~= before.push((p.0 as int, p.1 as int)));
                assert(int_pairs(out@) + rest2 =~= before + rest);
            },
            None => {
                assert(rest =~= rest2);
            },
        }
        i = i2;
        st = st2;
    }
    assert(sites_from(src@, i as int, st) =~= Seq::<(int, int)>::empty());
    assert(int_pairs(out@) =~= int_pairs(out@) + Seq::<(int, int)>::empty());
    out
}

} // verus!
