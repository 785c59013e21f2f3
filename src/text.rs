use vstd::prelude::*;
use vstd::string::StrSliceExecFns;
use vstd::string::StringSliceAdditionalSpecFns;

verus! {

/// The number of times byte `c` occurs in `b`.
pub open spec fn count_byte(b: Seq<u8>, c: u8) -> nat
    decreases b.len(),
{
    if b.len() == 0 {
        0
    } else {
        count_byte(b.drop_last(), c) + if b.last() == c {
            1nat
        } else {
            0nat
        }
    }
}

pub proof fn lemma_count_byte_bound(b: Seq<u8>, c: u8)
    ensures
        count_byte(b, c) <= b.len(),
    decreases b.len(),
{
    if b.len() > 0 {
        lemma_count_byte_bound(b.drop_last(), c);
    }
}

/// Relies on memchr::Memchr: iterates over each position of the byte, once.
#[verifier::external_body]
fn count_occurrences(c: u8, b: &[u8]) -> (r: usize)
    ensures
        r == count_byte(b@, c),
{
    memchr::Memchr::new(c, b).count()
}

/// The number of lines of a source text: one more than its line feeds.
pub fn count_lines(source: &str) -> (r: usize)
    requires
        source.spec_bytes().len() < usize::MAX,
    ensures
        r == 1 + count_byte(source.spec_bytes(), 10),
{
    let b = source.as_bytes();
    proof {
        lemma_count_byte_bound(b@, 10);
    }
    1 + count_occurrences(10, b)
}

/// A lowercase hexadecimal digit.
pub open spec fn hex_digit(d: int) -> char {
    seq!['0', '1', '2', '3', '4', '5', '6', '7', '8', '9', 'a', 'b', 'c', 'd', 'e', 'f'][d]
}

/// How a JSON string writes one character: `"` and `\\` behind a
/// backslash, the control characters with a short escape where JSON has
/// one (`\\b \\f \\n \\r \\t`) and as `\\u00XX` otherwise, any
/// other character as it is.
pub open spec fn json_escape(c: char) -> Seq<char> {
    if c == '"' {
        seq!['\\', '"']
    } else if c == '\\' {
        seq!['\\', '\\']
    } else if c == '\u{8}' {
        seq!['\\', 'b']
    } else if c == '\u{c}' {
        seq!['\\', 'f']
    } else if c == '\n' {
        seq!['\\', 'n']
    } else if c == '\r' {
        seq!['\\', 'r']
    } else if c == '\t' {
        seq!['\\', 't']
    } else if (c as u32) < 0x20 {
        seq!['\\', 'u', '0', '0', hex_digit((c as u32 / 16) as int), hex_digit((c as u32 % 16) as int)]
    } else {
        seq![c]
    }
}

/// The escaped characters of a string, in order.
pub open spec fn json_escaped(s: Seq<char>) -> Seq<char>
    decreases s.len(),
{
    if s.len() == 0 {
        Seq::empty()
    } else {
        json_escaped(s.drop_last()) + json_escape(s.last())
    }
}

/// The JSON string literal for a text: its escaped characters between
/// double quotes.
pub open spec fn json_string_of(s: Seq<char>) -> Seq<char> {
    seq!['"'] + json_escaped(s) + seq!['"']
}

/// Relies on serde_json::to_string on `str`, which never fails: it writes
/// the string between double quotes, escaping as `json_escape` says
/// (format_escaped_str with its ESCAPE table and lowercase hex digits).
#[verifier::external_body]
fn json_string(s: &str) -> (r: String)
    ensures
        r@ == json_string_of(s@),
{
    serde_json::to_string(s).unwrap()
}

/// `s` as a JSON string literal, quotes included.
pub fn to_quoted_json_string(s: &str) -> (r: String)
    ensures
        r@ == json_string_of(s@),
        r@.len() >= 2,
        r@[0] == '"',
        r@.last() == '"',
{
    let r = json_string(s);
    assert(r@[0] == '"');
    assert(r@.last() == '"');
    r
}

/// Whether two texts are equal, character by character.
pub fn text_eq(a: &str, b: &str) -> (r: bool)
    ensures
        r == (a@ == b@),
{
    let n = a.unicode_len();
    if n != b.unicode_len() {
        return false;
    }
    let mut i: usize = 0;
    while i < n
        invariant
            n == a@.len() == b@.len(),
            i <= n,
            forall|j: int| 0 <= j < i ==> a@[j] == b@[j],
        decreases n - i,
    {
        if a.get_char(i) != b.get_char(i) {
            return false;
        }
        i = i + 1;
    }
    assert(a@ =~= b@);
    true
}

/// Whether `a` begins with `p`.
pub fn text_starts_with(a: &str, p: &str) -> (r: bool)
    ensures
        r == (p@.len() <= a@.len() && a@.subrange(0, p@.len() as int) == p@),
{
    let n = p.unicode_len();
    if n > a.unicode_len() {
        return false;
    }
    let mut i: usize = 0;
    while i < n
        invariant
            n == p@.len() <= a@.len(),
            i <= n,
            forall|j: int| 0 <= j < i ==> a@[j] == p@[j],
        decreases n - i,
    {
        if a.get_char(i) != p.get_char(i) {
            assert(a@.subrange(0, n as int)[i as int] != p@[i as int]);
            return false;
        }
        i = i + 1;
    }
    assert(a@.subrange(0, n as int) =~= p@);
    true
}

} // verus!
