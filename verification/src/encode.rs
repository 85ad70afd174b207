//! The argument encoder: the inverse of positional decoding, used to build
//! calldata from typed values. Heads come first (inline elementary slots or
//! offsets), tails follow in argument order.

use vstd::prelude::*;
use crate::calldata::{
    ArgumentType, ElemType, ElemValue, ElemValueModel, DecodedValue, ValueModel, all_zero,
    spec_decode_elem, spec_decode_from,
};
use crate::calldata::DecodeError;
use crate::calldata::spec_slot_offset;
use crate::calldata::spec_decode_dyn_bytes;
use crate::word::{Word, word_from_be, word_push_byte, spec_word_zero};

verus! {

/// `n` zero bytes.
pub open spec fn zeros(n: nat) -> Seq<u8> {
    Seq::new(n, |j: int| 0u8)
}

/// A value fits its declared elementary type.
pub open spec fn wf_elem_pair(t: ElemType, v: ElemValueModel) -> bool {
    match (t, v) {
        (ElemType::Uint(_), ElemValueModel::Uint(s)) => s.len() == 32,
        (ElemType::Int(_), ElemValueModel::Int(s)) => s.len() == 32,
        (ElemType::Address, ElemValueModel::Address(s)) => s.len() == 32,
        (ElemType::Bool, ElemValueModel::Bool(_)) => true,
        (ElemType::FixedBytes(n), ElemValueModel::FixedBytes(s)) => s.len() == n && n <= 32,
        _ => false,
    }
}

/// The 32-byte head slot of an elementary value.
pub open spec fn spec_encode_elem(t: ElemType, v: ElemValueModel) -> Seq<u8>
    recommends
        wf_elem_pair(t, v),
{
    match v {
        ElemValueModel::Uint(s) => s,
        ElemValueModel::Int(s) => s,
        ElemValueModel::Address(s) => s,
        ElemValueModel::Bool(b) => zeros(31).push(
            if b {
                1
            } else {
                0
            },
        ),
        ElemValueModel::FixedBytes(s) => s + zeros((32 - s.len()) as nat),
    }
}

/// A value list fits an all-elementary signature.
pub open spec fn wf_elementary_args(sig: Seq<ArgumentType>, vals: Seq<ValueModel>) -> bool {
    &&& vals.len() == sig.len()
    &&& (forall|i: int|
        0 <= i < sig.len() ==> match (#[trigger] sig[i], #[trigger] vals[i]) {
            (ArgumentType::Elementary(e), ValueModel::Elem(v)) => wf_elem_pair(e, v),
            _ => false,
        })
}

/// The head block of an all-elementary argument list: one 32-byte slot per
/// argument, in order.
pub open spec fn spec_encode_elementary(
    sig: Seq<ArgumentType>,
    vals: Seq<ValueModel>,
    idx: int,
) -> Seq<u8>
    recommends
        wf_elementary_args(sig, vals),
        0 <= idx <= sig.len(),
    decreases idx,
{
    if idx <= 0 {
        Seq::empty()
    } else {
        spec_encode_elementary(sig, vals, idx - 1) + (match (sig[idx - 1], vals[idx - 1]) {
            (ArgumentType::Elementary(e), ValueModel::Elem(v)) => spec_encode_elem(e, v),
            _ => Seq::empty(),
        })
    }
}

proof fn lemma_encode_elem_len(t: ElemType, v: ElemValueModel)
    requires
        wf_elem_pair(t, v),
    ensures
        spec_encode_elem(t, v).len() == 32,
{
}

proof fn lemma_encode_elementary_len(sig: Seq<ArgumentType>, vals: Seq<ValueModel>, idx: int)
    requires
        wf_elementary_args(sig, vals),
        0 <= idx <= sig.len(),
    ensures
        spec_encode_elementary(sig, vals, idx).len() == 32 * idx,
    decreases idx,
{
    if idx > 0 {
        lemma_encode_elementary_len(sig, vals, idx - 1);
        match (sig[idx - 1], vals[idx - 1]) {
            (ArgumentType::Elementary(e), ValueModel::Elem(v)) => {
                lemma_encode_elem_len(e, v);
            },
            _ => {},
        }
    }
}

proof fn lemma_encode_elementary_slot(
    sig: Seq<ArgumentType>,
    vals: Seq<ValueModel>,
    idx: int,
    i: int,
)
    requires
        wf_elementary_args(sig, vals),
        0 <= i < idx <= sig.len(),
    ensures
        spec_encode_elementary(sig, vals, idx).subrange(32 * i, 32 * i + 32) == (match (
            sig[i],
            vals[i],
        ) {
            (ArgumentType::Elementary(e), ValueModel::Elem(v)) => spec_encode_elem(e, v),
            _ => Seq::empty(),
        }),
    decreases idx,
{
    lemma_encode_elementary_len(sig, vals, idx - 1);
    match (sig[idx - 1], vals[idx - 1]) {
        (ArgumentType::Elementary(e), ValueModel::Elem(v)) => {
            lemma_encode_elem_len(e, v);
        },
        _ => {},
    }
    if i == idx - 1 {
        assert(spec_encode_elementary(sig, vals, idx).subrange(32 * i, 32 * i + 32)
            =~= (match (sig[i], vals[i]) {
            (ArgumentType::Elementary(e), ValueModel::Elem(v)) => spec_encode_elem(e, v),
            _ => Seq::empty(),
        }));
    } else {
        lemma_encode_elementary_slot(sig, vals, idx - 1, i);
        assert(spec_encode_elementary(sig, vals, idx).subrange(32 * i, 32 * i + 32)
            =~= spec_encode_elementary(sig, vals, idx - 1).subrange(32 * i, 32 * i + 32));
    }
}

proof fn lemma_elem_roundtrip(t: ElemType, v: ElemValueModel)
    requires
        wf_elem_pair(t, v),
    ensures
        spec_decode_elem(t, spec_encode_elem(t, v)) == v,
{
    match v {
        ElemValueModel::Bool(b) => {
            let slot = spec_encode_elem(t, v);
            if b {
                assert(slot[31] == 1);
                assert(!all_zero(slot));
            } else {
                assert forall|i: int| 0 <= i < slot.len() implies slot[i] == 0 by {
                    if i < 31 {
                        assert(slot[i] == zeros(31)[i]);
                    }
                }
            }
        },
        ElemValueModel::FixedBytes(s) => {
            assert(spec_encode_elem(t, v).take(s.len() as int) =~= s);
        },
        _ => {},
    }
}

proof fn lemma_roundtrip_elementary_from(
    sig: Seq<ArgumentType>,
    vals: Seq<ValueModel>,
    data: Seq<u8>,
    idx: int,
)
    requires
        wf_elementary_args(sig, vals),
        data == spec_encode_elementary(sig, vals, sig.len() as int),
        0 <= idx <= sig.len(),
    ensures
        spec_decode_from(sig, data, idx) == Ok::<Seq<ValueModel>, DecodeError>(vals.skip(idx)),
    decreases sig.len() - idx,
{
    lemma_encode_elementary_len(sig, vals, sig.len() as int);
    if idx == sig.len() {
        assert(vals.skip(idx) =~= Seq::<ValueModel>::empty());
    } else {
        lemma_encode_elementary_slot(sig, vals, sig.len() as int, idx);
        let slot = data.subrange(32 * idx, 32 * idx + 32);
        match (sig[idx], vals[idx]) {
            (ArgumentType::Elementary(e), ValueModel::Elem(v)) => {
                lemma_elem_roundtrip(e, v);
                assert(spec_decode_elem(e, slot) == v);
            },
            _ => {},
        }
        lemma_roundtrip_elementary_from(sig, vals, data, idx + 1);
        assert(seq![vals[idx]] + vals.skip(idx + 1) =~= vals.skip(idx));
    }
}

/// Round trip for elementary arguments: encoding a well-formed value list
/// against an all-elementary signature and decoding the bytes with that
/// same signature returns exactly the original values.
pub proof fn lemma_roundtrip_elementary(sig: Seq<ArgumentType>, vals: Seq<ValueModel>)
    requires
        wf_elementary_args(sig, vals),
    ensures
        spec_decode_from(sig, spec_encode_elementary(sig, vals, sig.len() as int), 0)
            == Ok::<Seq<ValueModel>, DecodeError>(vals),
{
    lemma_roundtrip_elementary_from(
        sig,
        vals,
        spec_encode_elementary(sig, vals, sig.len() as int),
        0,
    );
    assert(vals.skip(0) =~= vals);
}

/// Appends the 32-byte head slot of one elementary value; `false` (with no
/// bytes appended) when the value does not fit the type.
fn push_encoded_elem(t: ElemType, v: &ElemValue, out: &mut Vec<u8>) -> (ok: bool)
    ensures
        ok == wf_elem_pair(t, v@),
        (ok ==> final(out)@ == old(out)@ + spec_encode_elem(t, v@)),
        (!ok ==> final(out)@ == old(out)@),
{
    match (t, v) {
        (ElemType::Uint(_), ElemValue::Uint(s)) => push_exact32(s, out),
        (ElemType::Int(_), ElemValue::Int(s)) => push_exact32(s, out),
        (ElemType::Address, ElemValue::Address(s)) => push_exact32(s, out),
        (ElemType::Bool, ElemValue::Bool(b)) => {
            let ghost pre = out@;
            let mut i: usize = 0;
            while i < 31
                invariant
                    i <= 31,
                    out@ == pre + zeros(i as nat),
                decreases 31 - i,
            {
                out.push(0);
                i = i + 1;
                proof {
                    assert(out@ =~= pre + zeros(i as nat));
                }
            }
            if *b {
                out.push(1);
            } else {
                out.push(0);
            }
            proof {
                assert(out@ =~= pre + spec_encode_elem(t, v@));
            }
            true
        },
        (ElemType::FixedBytes(n), ElemValue::FixedBytes(s)) => {
            if s.len() != n || n > 32 {
                return false;
            }
            let ghost pre = out@;
            let mut i: usize = 0;
            while i < s.len()
                invariant
                    i <= s@.len(),
                    out@ == pre + s@.take(i as int),
                decreases s@.len() - i,
            {
                out.push(s[i]);
                i = i + 1;
                proof {
                    assert(out@ =~= pre + s@.take(i as int));
                }
            }
            let pad = 32 - s.len();
            let mut j: usize = 0;
            while j < pad
                invariant
                    j <= pad,
                    out@ == pre + s@.take(s@.len() as int) + zeros(j as nat),
                decreases pad - j,
            {
                out.push(0);
                j = j + 1;
                proof {
                    assert(out@ =~= pre + s@.take(s@.len() as int) + zeros(j as nat));
                }
            }
            proof {
                assert(s@.take(s@.len() as int) =~= s@);
                assert(out@ =~= pre + spec_encode_elem(t, v@));
            }
            true
        },
        _ => false,
    }
}

fn push_exact32(s: &Vec<u8>, out: &mut Vec<u8>) -> (ok: bool)
    ensures
        ok == (s@.len() == 32),
        (ok ==> final(out)@ == old(out)@ + s@),
        (!ok ==> final(out)@ == old(out)@),
{
    if s.len() != 32 {
        return false;
    }
    let ghost pre = out@;
    let mut i: usize = 0;
    while i < s.len()
        invariant
            i <= s@.len(),
            out@ == pre + s@.take(i as int),
        decreases s@.len() - i,
    {
        out.push(s[i]);
        i = i + 1;
        proof {
            assert(out@ =~= pre + s@.take(i as int));
        }
    }
    proof {
        assert(s@.take(s@.len() as int) =~= s@);
    }
    true
}

/// Encodes an all-elementary argument list into calldata bytes: one 32-byte
/// slot per argument. `None` exactly when a value does not fit its declared
/// type (or the counts differ).
pub fn encode_elementary_arguments(sig: &Vec<ArgumentType>, values: &Vec<DecodedValue>) -> (r:
    Option<Vec<u8>>)
    ensures
        (r is Some <==> wf_elementary_args(sig@, values@.map_values(|v: DecodedValue| v@))),
        (r matches Some(b) ==> b@ == spec_encode_elementary(
            sig@,
            values@.map_values(|v: DecodedValue| v@),
            sig@.len() as int,
        )),
{
    let ghost vals = values@.map_values(|v: DecodedValue| v@);
    if sig.len() != values.len() {
        return None;
    }
    let mut out: Vec<u8> = Vec::new();
    let mut i: usize = 0;
    while i < sig.len()
        invariant
            sig@.len() == values@.len(),
            vals == values@.map_values(|v: DecodedValue| v@),
            i <= sig@.len(),
            out@ == spec_encode_elementary(sig@, vals, i as int),
            forall|k: int|
                0 <= k < i ==> match (#[trigger] sig@[k], #[trigger] vals[k]) {
                    (ArgumentType::Elementary(e), ValueModel::Elem(v)) => wf_elem_pair(e, v),
                    _ => false,
                },
        decreases sig@.len() - i,
    {
        let t = sig[i];
        let ok = match (t, &values[i]) {
            (ArgumentType::Elementary(e), DecodedValue::Elem(v)) => push_encoded_elem(
                e,
                v,
                &mut out,
            ),
            _ => false,
        };
        if !ok {
            proof {
                assert(vals[i as int] == values@[i as int]@);
                assert(!(match (sig@[i as int], vals[i as int]) {
                    (ArgumentType::Elementary(e), ValueModel::Elem(v)) => wf_elem_pair(e, v),
                    _ => false,
                }));
            }
            return None;
        }
        i = i + 1;
    }
    Some(out)
}


/// 256 to the power `n`.
pub open spec fn pow256(n: nat) -> nat
    decreases n,
{
    if n == 0 {
        1
    } else {
        256 * pow256((n - 1) as nat)
    }
}

/// The `n`-byte big-endian string of `x`.
pub open spec fn spec_be(x: nat, n: nat) -> Seq<u8>
    decreases n,
{
    if n == 0 {
        Seq::empty()
    } else {
        spec_be(x / 256, (n - 1) as nat).push((x % 256) as u8)
    }
}

/// The 32-byte head slot that denotes the offset or length `x`.
pub open spec fn spec_offset_slot(x: nat) -> Seq<u8>
    recommends
        x < pow256(16),
{
    zeros(16) + spec_be(x, 16)
}

proof fn lemma_pow256_mono(n1: nat, n2: nat)
    requires
        n1 <= n2,
    ensures
        pow256(n1) <= pow256(n2),
    decreases n2,
{
    if n1 < n2 {
        lemma_pow256_mono(n1, (n2 - 1) as nat);
    }
}

proof fn lemma_word_push_zero()
    ensures
        word_push_byte(spec_word_zero(), 0) == spec_word_zero(),
{
    assert(((0u128 << 8) | (0u128 >> 120)) == 0 && ((0u128 << 8) | 0u128) == 0) by (bit_vector);
}

proof fn lemma_from_be_zeros(k: nat)
    ensures
        word_from_be(zeros(k)) == spec_word_zero(),
    decreases k,
{
    if k == 0 {
    } else {
        assert(zeros(k).drop_last() =~= zeros((k - 1) as nat));
        assert(zeros(k).last() == 0);
        lemma_from_be_zeros((k - 1) as nat);
        lemma_word_push_zero();
    }
}

proof fn lemma_from_be_zeros_prefix(k: nat, t: Seq<u8>)
    ensures
        word_from_be(zeros(k) + t) == word_from_be(t),
    decreases t.len(),
{
    if t.len() == 0 {
        assert(zeros(k) + t =~= zeros(k));
        lemma_from_be_zeros(k);
    } else {
        assert((zeros(k) + t).drop_last() =~= zeros(k) + t.drop_last());
        assert((zeros(k) + t).last() == t.last());
        lemma_from_be_zeros_prefix(k, t.drop_last());
    }
}

proof fn lemma_from_be_be(x: nat, n: nat)
    requires
        n <= 16,
        x < pow256(n),
    ensures
        word_from_be(spec_be(x, n)) == (Word { hi: 0, lo: x as u128 }),
    decreases n,
{
    vstd::arithmetic::div_mod::lemma_fundamental_div_mod(x as int, 256);
    vstd::arithmetic::div_mod::lemma_mod_bound(x as int, 256);
    lemma_pow256_mono(n, 16);
    assert(pow256(15) == 0x1000000000000000000000000000000 && pow256(16)
        == 0x100000000000000000000000000000000) by {
        reveal_with_fuel(pow256, 17);
    }
    if n == 0 {
        assert(x == 0);
    } else {
        let q = x / 256;
        let r = x % 256;
        assert(q < pow256((n - 1) as nat)) by {
            if q >= pow256((n - 1) as nat) {
                assert(256 * q >= 256 * pow256((n - 1) as nat));
                assert(false);
            }
        }
        lemma_from_be_be(q, (n - 1) as nat);
        assert(spec_be(x, n).drop_last() =~= spec_be(q, (n - 1) as nat));
        assert(spec_be(x, n).last() == (r as u8));
        lemma_pow256_mono((n - 1) as nat, 15);
        let y = q as u128;
        let rl = r as u128;
        assert((0u128 << 8) | (y >> 120) == 0) by (bit_vector)
            requires
                y < 0x1000000000000000000000000000000,
        ;
        assert((y << 8) | rl == 256 * y + rl) by (bit_vector)
            requires
                y < 0x1000000000000000000000000000000,
                rl < 256,
        ;
        assert(word_from_be(spec_be(x, n)) == word_push_byte(Word { hi: 0, lo: y }, r as u8));
        assert((r as u8) as u128 == rl);
        assert(256 * y + rl == x as u128);
    }
}

/// The encoding of one dynamic byte-string argument: its head slot holds
/// the offset 32, the tail holds the length and then the content.
pub open spec fn spec_encode_single_bytes(v: Seq<u8>) -> Seq<u8> {
    spec_offset_slot(32) + spec_offset_slot(v.len()) + v
}

/// Round trip for a dynamic type: encoding a byte-string argument and
/// decoding it against the one-entry `Bytes` signature returns exactly the
/// original content.
pub proof fn lemma_roundtrip_dynamic_bytes(v: Seq<u8>)
    requires
        v.len() <= usize::MAX,
    ensures
        spec_decode_from(seq![ArgumentType::Bytes], spec_encode_single_bytes(v), 0)
            == Ok::<Seq<ValueModel>, DecodeError>(seq![ValueModel::Bytes(v)]),
{
    let data = spec_encode_single_bytes(v);
    assert(zeros(16).len() == 16);
    assert(spec_be(32, 16).len() == 16) by {
        lemma_spec_be_len(32, 16);
    }
    assert(spec_be(v.len(), 16).len() == 16) by {
        lemma_spec_be_len(v.len(), 16);
    }
    assert(data.len() == 64 + v.len());
    let slot0 = data.subrange(0, 32);
    assert(slot0 =~= spec_offset_slot(32));
    assert(pow256(16) == 0x100000000000000000000000000000000) by {
        reveal_with_fuel(pow256, 17);
    }
    lemma_from_be_zeros_prefix(16, spec_be(32, 16));
    lemma_from_be_be(32, 16);
    assert(word_from_be(slot0) == (Word { hi: 0, lo: 32 }));
    assert(spec_slot_offset(slot0) == Some(32usize));
    let slot1 = data.subrange(32, 64);
    assert(slot1 =~= spec_offset_slot(v.len()));
    lemma_from_be_zeros_prefix(16, spec_be(v.len(), 16));
    lemma_from_be_be(v.len(), 16);
    assert(word_from_be(slot1) == (Word { hi: 0, lo: v.len() as u128 }));
    assert(spec_slot_offset(slot1) == Some(v.len() as usize));
    assert(data.subrange(64, 64 + v.len() as int) =~= v);
    assert(spec_decode_dyn_bytes(data, slot0) == Ok::<Seq<u8>, DecodeError>(v));
    let sig = seq![ArgumentType::Bytes];
    assert(spec_decode_from(sig, data, 1) == Ok::<Seq<ValueModel>, DecodeError>(
        Seq::empty(),
    ));
    assert(seq![ValueModel::Bytes(v)] + Seq::<ValueModel>::empty() =~= seq![
        ValueModel::Bytes(v),
    ]);
}

proof fn lemma_spec_be_len(x: nat, n: nat)
    ensures
        spec_be(x, n).len() == n,
    decreases n,
{
    if n > 0 {
        lemma_spec_be_len(x / 256, (n - 1) as nat);
    }
}

} // verus!
