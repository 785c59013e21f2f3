use vstd::prelude::*;

verus! {

/// The base64 digit for a six-bit value.
pub open spec fn b64_digit(d: nat) -> u8 {
    if d < 26 {
        (65 + d) as u8
    } else if d < 52 {
        (97 + (d - 26)) as u8
    } else if d < 62 {
        (48 + (d - 52)) as u8
    } else if d == 62 {
        43u8
    } else {
        47u8
    }
}

/// The six-bit value of a base64 digit, if it is one.
pub open spec fn b64_value(c: u8) -> Option<nat> {
    if 65 <= c && c <= 90 {
        Some((c - 65) as nat)
    } else if 97 <= c && c <= 122 {
        Some((c - 97 + 26) as nat)
    } else if 48 <= c && c <= 57 {
        Some((c - 48 + 52) as nat)
    } else if c == 43 {
        Some(62)
    } else if c == 47 {
        Some(63)
    } else {
        None
    }
}

/// Zig-zag form of a signed value: the sign goes to the lowest bit.
pub open spec fn zigzag(n: int) -> nat {
    if n >= 0 {
        (2 * n) as nat
    } else {
        (-2 * n + 1) as nat
    }
}

/// Inverse of `zigzag`.
pub open spec fn unzigzag(z: nat) -> int {
    if z % 2 == 0 {
        (z / 2) as int
    } else {
        -((z / 2) as int)
    }
}

/// The digits of a zig-zagged value, five bits each, least significant first;
/// every digit but the last carries the continuation bit.
pub open spec fn vlq_chars(z: nat) -> Seq<u8>
    decreases z,
{
    if z < 32 {
        seq![b64_digit(z)]
    } else {
        seq![b64_digit(z % 32 + 32)] + vlq_chars(z / 32)
    }
}

/// The text that encodes a signed value.
pub open spec fn vlq_encoding(n: int) -> Seq<u8> {
    vlq_chars(zigzag(n))
}

/// Reads one zig-zagged value from the front of `s`: the value and the number
/// of digits it took, or `None` if `s` does not start with a complete value.
pub open spec fn vlq_decode(s: Seq<u8>) -> Option<(nat, nat)>
    decreases s.len(),
{
    if s.len() == 0 {
        None
    } else {
        match b64_value(s[0]) {
            None => None,
            Some(d) => if d < 32 {
                Some((d, 1))
            } else {
                match vlq_decode(s.drop_first()) {
                    None => None,
                    Some(p) => Some((((d - 32) + 32 * p.0) as nat, p.1 + 1)),
                }
            },
        }
    }
}

/// The largest value that `encode` accepts in magnitude.
pub open spec fn in_range(n: int) -> bool {
    -0x8000_0000 < n && n < 0x8000_0000
}

proof fn lemma_digit_value(d: nat)
    requires
        d < 64,
    ensures
        b64_value(b64_digit(d)) == Some(d),
{
}

proof fn lemma_chars_decode(z: nat, rest: Seq<u8>)
    ensures
        vlq_decode(vlq_chars(z) + rest) == Some((z, vlq_chars(z).len())),
    decreases z,
{
    let s = vlq_chars(z) + rest;
    if z < 32 {
        lemma_digit_value(z);
        assert(s[0] == b64_digit(z));
    } else {
        lemma_digit_value(z % 32 + 32);
        lemma_chars_decode(z / 32, rest);
        assert(s[0] == b64_digit(z % 32 + 32));
        assert(s.drop_first() =~= vlq_chars(z / 32) + rest);
    }
}

/// Decoding the encoding of a value gives the value back, and consumes exactly
/// the encoding, whatever text follows it.
pub proof fn lemma_vlq_round_trip(n: int, rest: Seq<u8>)
    ensures
        vlq_decode(vlq_encoding(n) + rest) == Some((zigzag(n), vlq_encoding(n).len())),
        unzigzag(zigzag(n)) == n,
{
    lemma_chars_decode(zigzag(n), rest);
}

fn digit_char(d: u64) -> (c: u8)
    requires
        d < 64,
    ensures
        c == b64_digit(d as nat),
{
    if d < 26 {
        (65 + d) as u8
    } else if d < 52 {
        (97 + (d - 26)) as u8
    } else if d < 62 {
        (48 + (d - 52)) as u8
    } else if d == 62 {
        43
    } else {
        47
    }
}

fn char_value(c: u8) -> (r: Option<u64>)
    ensures
        match b64_value(c) {
            Some(d) => r == Some(d as u64),
            None => r is None,
        },
{
    if 65 <= c && c <= 90 {
        Some((c - 65) as u64)
    } else if 97 <= c && c <= 122 {
        Some((c - 97 + 26) as u64)
    } else if 48 <= c && c <= 57 {
        Some((c - 48 + 52) as u64)
    } else if c == 43 {
        Some(62)
    } else if c == 47 {
        Some(63)
    } else {
        None
    }
}

/// Appends the base64 VLQ encoding of `n` to `out`.
pub fn encode(n: i64, out: &mut Vec<u8>)
    requires
        in_range(n as int),
    ensures
        final(out)@ == old(out)@ + vlq_encoding(n as int),
{
    let z0: u64 = if n >= 0 {
        (n as u64) * 2
    } else {
        ((0 - n) as u64) * 2 + 1
    };
    let ghost start = out@;
    let mut z: u64 = z0;
    while z >= 32
        invariant
            z <= z0,
            z0 == zigzag(n as int),
            out@ + vlq_chars(z as nat) == start + vlq_chars(z0 as nat),
        decreases z,
    {
        let c = digit_char(z % 32 + 32);
        proof {
            assert(out@.push(c) + vlq_chars((z / 32) as nat) =~= out@ + vlq_chars(z as nat));
        }
        out.push(c);
        z = z / 32;
    }
    let c = digit_char(z);
    proof {
        assert(out@.push(c) =~= out@ + vlq_chars(z as nat));
    }
    out.push(c);
}

/// The most digits that one value may take in a mapping.
pub const MAX_DIGITS: usize = 7;

/// Reads one value from `s` at `start`: the value and the index after it.
/// `None` where no complete value of at most `MAX_DIGITS` digits stands there.
pub fn decode(s: &[u8], start: usize) -> (r: Option<(i64, usize)>)
    requires
        start <= s@.len(),
    ensures
        match vlq_decode(s@.subrange(start as int, s@.len() as int)) {
            Some(p) => if p.1 <= 7 {
                &&& r is Some
                &&& (r->0).0 == unzigzag(p.0)
                &&& (r->0).1 == start + p.1
            } else {
                r is None
            },
            None => r is None,
        },
{
    let ghost whole = s@.subrange(start as int, s@.len() as int);
    let mut i: usize = start;
    let mut acc: u64 = 0;
    let mut mul: u64 = 1;
    let mut taken: usize = 0;
    while i < s.len()
        invariant
            start <= i <= s@.len(),
            whole == s@.subrange(start as int, s@.len() as int),
            taken == i - start,
            taken <= 6,
            mul == pow32(taken as nat),
            acc < mul,
            match vlq_decode(s@.subrange(i as int, s@.len() as int)) {
                Some(p) => vlq_decode(whole) == Some(((acc + mul * p.0) as nat, (p.1 + taken) as nat)),
                None => vlq_decode(whole) is None,
            },
        decreases s@.len() - i,
    {
        let ghost cur = s@.subrange(i as int, s@.len() as int);
        let ghost next = s@.subrange(i + 1, s@.len() as int);
        assert(cur.drop_first() =~= next);
        assert(cur[0] == s@[i as int]);
        proof {
            lemma_pow32_bound(taken as nat);
        }
        let c = s[i];
        match char_value(c) {
            None => {
                assert(vlq_decode(cur) is None);
                return None;
            },
            Some(d) => {
                if d < 32 {
                    proof {
                        assert(vlq_decode(cur) == Some((d as nat, 1nat)));
                        assert(acc + mul * d < 32 * mul) by (nonlinear_arith)
                            requires
                                acc < mul,
                                d < 32,
                        ;
                    }
                    let v: u64 = acc + mul * d;
                    return Some((unzig_exec(v), start + taken + 1));
                }
                if taken + 1 == MAX_DIGITS {
                    proof {
                        match vlq_decode(cur) {
                            Some(p) => {
                                assert(p.1 >= 2);
                            },
                            None => {},
                        }
                    }
                    return None;
                }
                proof {
                    assert(acc + mul * (d - 32) < 32 * mul) by (nonlinear_arith)
                        requires
                            acc < mul,
                            d < 64,
                            d >= 32,
                    ;
                    match vlq_decode(next) {
                        Some(p) => {
                            assert(vlq_decode(cur) == Some((((d - 32) + 32 * p.0) as nat, (p.1 + 1) as nat)));
                            assert(acc + mul * ((d - 32) + 32 * p.0) == (acc + mul * (d - 32)) + (
                            mul * 32) * p.0) by (nonlinear_arith);
                        },
                        None => {},
                    }
                }
                acc = acc + mul * (d - 32);
                mul = mul * 32;
                taken = taken + 1;
                i = i + 1;
            },
        }
    }
    proof {
        assert(s@.subrange(i as int, s@.len() as int).len() == 0);
    }
    None
}

pub open spec fn pow32(k: nat) -> nat
    decreases k,
{
    if k == 0 {
        1
    } else {
        32 * pow32((k - 1) as nat)
    }
}

proof fn lemma_pow32_bound(k: nat)
    requires
        k <= 7,
    ensures
        pow32(k) <= 0x8_0000_0000,
        32 * pow32(k) == pow32(k + 1),
{
    reveal_with_fuel(pow32, 8);
}

fn unzig_exec(v: u64) -> (r: i64)
    requires
        v < 0x100_0000_0000,
    ensures
        r == unzigzag(v as nat),
{
    if v % 2 == 0 {
        (v / 2) as i64
    } else {
        0 - ((v / 2) as i64)
    }
}

} // verus!
