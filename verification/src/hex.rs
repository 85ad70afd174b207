//! Hex input handling: turning the ASCII hex strings handed in at the
//! boundary (bytecode, calldata, transaction hashes) into byte strings.

use vstd::prelude::*;

verus! {

/// The value of one ASCII hex digit.
pub open spec fn hex_val(b: u8) -> Option<u8> {
    if 0x30 <= b && b <= 0x39 {
        Some((b - 0x30) as u8)
    } else if 0x61 <= b && b <= 0x66 {
        Some((b - 0x61 + 10) as u8)
    } else if 0x41 <= b && b <= 0x46 {
        Some((b - 0x41 + 10) as u8)
    } else {
        None
    }
}

pub open spec fn is_hex_digit(b: u8) -> bool {
    hex_val(b) is Some
}

/// The input without a leading `0x`, if it carries one.
pub open spec fn spec_strip_prefix(s: Seq<u8>) -> Seq<u8> {
    if s.len() >= 2 && s[0] == 0x30 && s[1] == 0x78 {
        s.skip(2)
    } else {
        s
    }
}

/// The bytes an ASCII hex string denotes: defined exactly when, after an
/// optional `0x` prefix, the length is even and every character is a hex
/// digit.
pub open spec fn spec_parse_hex(s: Seq<u8>) -> Option<Seq<u8>> {
    let t = spec_strip_prefix(s);
    if t.len() % 2 == 0 && (forall|i: int| 0 <= i < t.len() ==> is_hex_digit(#[trigger] t[i])) {
        Some(
            Seq::new(
                t.len() / 2,
                |j: int| (16 * hex_val(t[2 * j])->Some_0 + hex_val(t[2 * j + 1])->Some_0) as u8,
            ),
        )
    } else {
        None
    }
}

fn hex_val_of(b: u8) -> (r: Option<u8>)
    ensures
        r == hex_val(b),
{
    if 0x30 <= b && b <= 0x39 {
        Some(b - 0x30)
    } else if 0x61 <= b && b <= 0x66 {
        Some(b - 0x61 + 10)
    } else if 0x41 <= b && b <= 0x46 {
        Some(b - 0x41 + 10)
    } else {
        None
    }
}

/// Parses an ASCII hex string (with or without a `0x` prefix) into bytes.
/// Succeeds exactly on well-formed input, and then returns exactly the
/// denoted bytes.
pub fn parse_hex(s: &Vec<u8>) -> (r: Option<Vec<u8>>)
    ensures
        match r {
            Some(b) => spec_parse_hex(s@) == Some(b@),
            None => spec_parse_hex(s@) is None,
        },
{
    let has_prefix = s.len() >= 2 && s[0] == 0x30 && s[1] == 0x78;
    let start: usize = if has_prefix {
        2
    } else {
        0
    };
    let ghost t = spec_strip_prefix(s@);
    proof {
        assert(t =~= s@.skip(start as int));
    }
    let n = s.len() - start;
    if n % 2 != 0 {
        return None;
    }
    let half = n / 2;
    let ghost target = spec_parse_hex(s@)->Some_0;
    let mut out: Vec<u8> = Vec::new();
    let mut j: usize = 0;
    while j < half
        invariant
            t == spec_strip_prefix(s@),
            t =~= s@.skip(start as int),
            start + n == s@.len(),
            n == t.len(),
            n % 2 == 0,
            half == n / 2,
            j <= half,
            out@.len() == j,
            forall|i: int| 0 <= i < 2 * j ==> is_hex_digit(#[trigger] t[i]),
            forall|k: int|
                0 <= k < j ==> #[trigger] out@[k] == (16 * hex_val(t[2 * k])->Some_0 + hex_val(
                    t[2 * k + 1],
                )->Some_0) as u8,
        decreases half - j,
    {
        let d1 = hex_val_of(s[start + 2 * j]);
        let d2 = hex_val_of(s[start + 2 * j + 1]);
        proof {
            assert(t[2 * j] == s@[start + 2 * j]);
            assert(t[2 * j + 1] == s@[start + 2 * j + 1]);
        }
        match (d1, d2) {
            (Some(h), Some(l)) => {
                out.push(16 * h + l);
            },
            _ => {
                return None;
            },
        }
        j = j + 1;
    }
    proof {
        assert forall|i: int| 0 <= i < t.len() implies is_hex_digit(#[trigger] t[i]) by {
            if i % 2 == 0 {
                assert(i == 2 * (i / 2));
            } else {
                assert(i == 2 * (i / 2) + 1);
            }
            assert(0 <= i / 2 < half);
        }
        assert(spec_parse_hex(s@) is Some);
        assert(out@ =~= spec_parse_hex(s@)->Some_0);
    }
    Some(out)
}

/// The shape of a transaction hash: `0x` and then exactly 64 hex digits.
pub open spec fn spec_is_transaction_hash(s: Seq<u8>) -> bool {
    &&& s.len() == 66
    &&& s[0] == 0x30
    &&& s[1] == 0x78
    &&& (forall|i: int| 2 <= i < 66 ==> is_hex_digit(#[trigger] s[i]))
}

/// True exactly of well-formed transaction hashes.
pub fn is_transaction_hash(s: &Vec<u8>) -> (r: bool)
    ensures
        r == spec_is_transaction_hash(s@),
{
    if s.len() != 66 {
        return false;
    }
    if !(s[0] == 0x30 && s[1] == 0x78) {
        return false;
    }
    let mut i: usize = 2;
    while i < 66
        invariant
            s@.len() == 66,
            2 <= i <= 66,
            forall|k: int| 2 <= k < i ==> is_hex_digit(#[trigger] s@[k]),
        decreases 66 - i,
    {
        match hex_val_of(s[i]) {
            Some(_) => {},
            None => {
                return false;
            },
        }
        i = i + 1;
    }
    true
}

} // verus!
