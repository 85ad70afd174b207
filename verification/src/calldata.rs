//! The calldata/argument decoder.
//!
//! With a known signature, decoding is positional: every argument owns one
//! 32-byte head slot; elementary types live in the slot itself, dynamic
//! types (byte strings, text, arrays of elementary values) hold an offset to
//! length-prefixed data. A layout the bytes cannot satisfy is the one hard
//! failure of the whole analysis, `MalformedEncoding`. Without a signature
//! the decoder guesses a type per 32-byte word and says so: the result is
//! tagged as inferred, never presented as a known layout.

use vstd::prelude::*;
use crate::word::{word_from_be, word_from_bytes, spec_word_to_usize, word_to_usize};
use crate::decoder::copy_all;

verus! {

/// An elementary argument type: one 32-byte head slot. The width of the
/// numeric types is informational (it does not change the slot layout).
#[derive(Clone, Copy, PartialEq, Eq, Structural, Debug)]
pub enum ElemType {
    Uint(u32),
    Int(u32),
    Address,
    Bool,
    FixedBytes(usize),
}

/// One entry of an argument signature.
#[derive(Clone, Copy, PartialEq, Eq, Structural, Debug)]
pub enum ArgumentType {
    Elementary(ElemType),
    /// A dynamic byte string.
    Bytes,
    /// Dynamic text, kept as raw bytes.
    Str,
    /// A dynamic array of one elementary type.
    ArrayDyn(ElemType),
}

/// A decoded elementary value; numeric values keep their full 32-byte
/// big-endian slot.
#[derive(Debug, PartialEq, Eq)]
pub enum ElemValue {
    Uint(Vec<u8>),
    Int(Vec<u8>),
    Address(Vec<u8>),
    Bool(bool),
    FixedBytes(Vec<u8>),
}

/// The mathematical shape of an elementary value.
pub ghost enum ElemValueModel {
    Uint(Seq<u8>),
    Int(Seq<u8>),
    Address(Seq<u8>),
    Bool(bool),
    FixedBytes(Seq<u8>),
}

impl View for ElemValue {
    type V = ElemValueModel;

    open spec fn view(&self) -> ElemValueModel {
        match self {
            ElemValue::Uint(s) => ElemValueModel::Uint(s@),
            ElemValue::Int(s) => ElemValueModel::Int(s@),
            ElemValue::Address(s) => ElemValueModel::Address(s@),
            ElemValue::Bool(b) => ElemValueModel::Bool(*b),
            ElemValue::FixedBytes(s) => ElemValueModel::FixedBytes(s@),
        }
    }
}

impl Clone for ElemValue {
    /// A clone has the same model as the original.
    fn clone(&self) -> (res: Self)
        ensures
            res@ == self@,
    {
        match self {
            ElemValue::Uint(s) => ElemValue::Uint(copy_all(s)),
            ElemValue::Int(s) => ElemValue::Int(copy_all(s)),
            ElemValue::Address(s) => ElemValue::Address(copy_all(s)),
            ElemValue::Bool(b) => ElemValue::Bool(*b),
            ElemValue::FixedBytes(s) => ElemValue::FixedBytes(copy_all(s)),
        }
    }
}

/// One decoded argument.
#[derive(Debug, PartialEq, Eq)]
pub enum DecodedValue {
    Elem(ElemValue),
    Bytes(Vec<u8>),
    Str(Vec<u8>),
    Array(Vec<ElemValue>),
}

/// The mathematical shape of a decoded argument.
pub ghost enum ValueModel {
    Elem(ElemValueModel),
    Bytes(Seq<u8>),
    Str(Seq<u8>),
    Array(Seq<ElemValueModel>),
}

impl View for DecodedValue {
    type V = ValueModel;

    open spec fn view(&self) -> ValueModel {
        match self {
            DecodedValue::Elem(e) => ValueModel::Elem(e@),
            DecodedValue::Bytes(s) => ValueModel::Bytes(s@),
            DecodedValue::Str(s) => ValueModel::Str(s@),
            DecodedValue::Array(vs) => ValueModel::Array(
                vs@.map_values(|e: ElemValue| e@),
            ),
        }
    }
}

/// The one hard failure of the analysis: a supplied signature that the byte
/// layout cannot satisfy.
#[derive(Clone, Copy, PartialEq, Eq, Structural, Debug)]
pub enum DecodeError {
    MalformedEncoding,
}

/// How much trust a decoding carries: a supplied signature is known; a
/// guessed one is only inferred.
#[derive(Clone, Copy, PartialEq, Eq, Structural, Debug)]
pub enum Confidence {
    Known,
    Inferred,
}

/// A decoded argument list: the types used (supplied or guessed), the
/// values, and the confidence tag.
#[derive(Debug, PartialEq, Eq)]
pub struct ArgumentList {
    pub types: Vec<ArgumentType>,
    pub values: Vec<DecodedValue>,
    pub confidence: Confidence,
}

/// True when every byte of `s` is zero.
pub open spec fn all_zero(s: Seq<u8>) -> bool {
    forall|i: int| 0 <= i < s.len() ==> s[i] == 0
}

proof fn lemma_div32(len: int, q: int)
    requires
        len >= 0,
        q >= 0,
    ensures
        q < len / 32 ==> 32 * q + 32 <= len,
        q >= len / 32 ==> 32 * q + 32 > len,
{
    vstd::arithmetic::div_mod::lemma_fundamental_div_mod(len, 32);
    vstd::arithmetic::div_mod::lemma_mod_bound(len, 32);
}

/// Decoding one elementary value from its 32-byte head slot.
pub open spec fn spec_decode_elem(t: ElemType, slot: Seq<u8>) -> ElemValueModel
    recommends
        slot.len() == 32,
{
    match t {
        ElemType::Uint(_) => ElemValueModel::Uint(slot),
        ElemType::Int(_) => ElemValueModel::Int(slot),
        ElemType::Address => ElemValueModel::Address(slot),
        ElemType::Bool => ElemValueModel::Bool(!all_zero(slot)),
        ElemType::FixedBytes(n) => ElemValueModel::FixedBytes(
            slot.take(if n <= 32 {
                n as int
            } else {
                32
            }),
        ),
    }
}

/// The offset a dynamic head slot denotes, if it fits a machine word.
pub open spec fn spec_slot_offset(slot: Seq<u8>) -> Option<usize> {
    spec_word_to_usize(word_from_be(slot))
}

/// Decoding the length-prefixed byte string a head slot points at.
pub open spec fn spec_decode_dyn_bytes(data: Seq<u8>, slot: Seq<u8>) -> Result<
    Seq<u8>,
    DecodeError,
> {
    match spec_slot_offset(slot) {
        None => Err(DecodeError::MalformedEncoding),
        Some(ptr) => if ptr + 32 > data.len() {
            Err(DecodeError::MalformedEncoding)
        } else {
            match spec_slot_offset(data.subrange(ptr as int, ptr + 32)) {
                None => Err(DecodeError::MalformedEncoding),
                Some(l) => if ptr + 32 + l > data.len() {
                    Err(DecodeError::MalformedEncoding)
                } else {
                    Ok(data.subrange(ptr + 32, ptr + 32 + l))
                },
            }
        },
    }
}

/// Decoding the length-prefixed elementary array a head slot points at.
pub open spec fn spec_decode_dyn_array(e: ElemType, data: Seq<u8>, slot: Seq<u8>) -> Result<
    Seq<ElemValueModel>,
    DecodeError,
> {
    match spec_slot_offset(slot) {
        None => Err(DecodeError::MalformedEncoding),
        Some(ptr) => if ptr + 32 > data.len() {
            Err(DecodeError::MalformedEncoding)
        } else {
            match spec_slot_offset(data.subrange(ptr as int, ptr + 32)) {
                None => Err(DecodeError::MalformedEncoding),
                Some(count) => if ptr + 32 + 32 * count > data.len() {
                    Err(DecodeError::MalformedEncoding)
                } else {
                    Ok(
                        Seq::new(
                            count as nat,
                            |j: int|
                                spec_decode_elem(
                                    e,
                                    data.subrange(ptr + 32 + 32 * j, ptr + 32 + 32 * j + 32),
                                ),
                        ),
                    )
                },
            }
        },
    }
}

/// Positional decoding of arguments `idx..` of a signature: argument `i`
/// owns the 32-byte head slot at offset `32*i`.
pub open spec fn spec_decode_from(sig: Seq<ArgumentType>, data: Seq<u8>, idx: int) -> Result<
    Seq<ValueModel>,
    DecodeError,
>
    decreases sig.len() - idx,
{
    if idx < 0 || idx >= sig.len() {
        Ok(Seq::empty())
    } else {
        let off = 32 * idx;
        if off + 32 > data.len() {
            Err(DecodeError::MalformedEncoding)
        } else {
            let slot = data.subrange(off, off + 32);
            let head: Result<ValueModel, DecodeError> = match sig[idx] {
                ArgumentType::Elementary(e) => Ok(ValueModel::Elem(spec_decode_elem(e, slot))),
                ArgumentType::Bytes => match spec_decode_dyn_bytes(data, slot) {
                    Ok(s) => Ok(ValueModel::Bytes(s)),
                    Err(e) => Err(e),
                },
                ArgumentType::Str => match spec_decode_dyn_bytes(data, slot) {
                    Ok(s) => Ok(ValueModel::Str(s)),
                    Err(e) => Err(e),
                },
                ArgumentType::ArrayDyn(et) => match spec_decode_dyn_array(et, data, slot) {
                    Ok(vs) => Ok(ValueModel::Array(vs)),
                    Err(e) => Err(e),
                },
            };
            match head {
                Err(e) => Err(e),
                Ok(v) => match spec_decode_from(sig, data, idx + 1) {
                    Err(e) => Err(e),
                    Ok(rest) => Ok(seq![v] + rest),
                },
            }
        }
    }
}

/// Copies the 32-byte slot at `off`.
fn read_slot(data: &Vec<u8>, off: usize) -> (slot: Vec<u8>)
    requires
        off + 32 <= data@.len(),
    ensures
        slot@ == data@.subrange(off as int, off as int + 32),
{
    let dlen = data.len();
    let mut slot: Vec<u8> = Vec::new();
    let mut i: usize = 0;
    while i < 32
        invariant
            i <= 32,
            off + 32 <= data@.len(),
            dlen == data@.len(),
            slot@ == data@.subrange(off as int, off as int + i),
        decreases 32 - i,
    {
        slot.push(data[off + i]);
        i = i + 1;
        proof {
            assert(slot@ =~= data@.subrange(off as int, off as int + i));
        }
    }
    slot
}

/// The offset a slot denotes, pinned to `spec_slot_offset`.
fn slot_offset(slot: &Vec<u8>) -> (r: Option<usize>)
    ensures
        r == spec_slot_offset(slot@),
{
    word_to_usize(word_from_bytes(slot.as_slice()))
}

fn decode_elem(t: ElemType, slot: Vec<u8>) -> (r: ElemValue)
    requires
        slot@.len() == 32,
    ensures
        r@ == spec_decode_elem(t, slot@),
{
    match t {
        ElemType::Uint(_) => ElemValue::Uint(slot),
        ElemType::Int(_) => ElemValue::Int(slot),
        ElemType::Address => ElemValue::Address(slot),
        ElemType::Bool => {
            let mut nonzero = false;
            let mut i: usize = 0;
            while i < slot.len()
                invariant
                    i <= slot@.len(),
                    nonzero == !(forall|j: int| 0 <= j < i ==> slot@[j] == 0),
                decreases slot@.len() - i,
            {
                if slot[i] != 0 {
                    nonzero = true;
                }
                i = i + 1;
            }
            ElemValue::Bool(nonzero)
        },
        ElemType::FixedBytes(n) => {
            let keep = if n <= 32 {
                n
            } else {
                32
            };
            let mut out: Vec<u8> = Vec::new();
            let mut i: usize = 0;
            while i < keep
                invariant
                    keep <= 32,
                    slot@.len() == 32,
                    i <= keep,
                    out@ == slot@.take(i as int),
                decreases keep - i,
            {
                out.push(slot[i]);
                i = i + 1;
                proof {
                    assert(out@ =~= slot@.take(i as int));
                }
            }
            ElemValue::FixedBytes(out)
        },
    }
}

fn decode_dyn_bytes(data: &Vec<u8>, slot: &Vec<u8>) -> (r: Result<Vec<u8>, DecodeError>)
    ensures
        match r {
            Ok(s) => spec_decode_dyn_bytes(data@, slot@) == Ok::<Seq<u8>, DecodeError>(s@),
            Err(e) => spec_decode_dyn_bytes(data@, slot@) == Err::<Seq<u8>, DecodeError>(e),
        },
{
    match slot_offset(slot) {
        None => Err(DecodeError::MalformedEncoding),
        Some(ptr) => {
            if ptr > data.len() || data.len() - ptr < 32 {
                return Err(DecodeError::MalformedEncoding);
            }
            let len_slot = read_slot(data, ptr);
            match slot_offset(&len_slot) {
                None => Err(DecodeError::MalformedEncoding),
                Some(l) => {
                    if l > data.len() - (ptr + 32) {
                        return Err(DecodeError::MalformedEncoding);
                    }
                    let mut out: Vec<u8> = Vec::new();
                    let mut i: usize = 0;
                    proof {
                        assert(Seq::<u8>::empty() =~= data@.subrange(
                            ptr + 32,
                            ptr as int + 32,
                        ));
                    }
                    let dlen = data.len();
                    while i < l
                        invariant
                            ptr + 32 + l <= data@.len(),
                            dlen == data@.len(),
                            i <= l,
                            out@ == data@.subrange(ptr + 32, ptr + 32 + i),
                        decreases l - i,
                    {
                        out.push(data[ptr + 32 + i]);
                        i = i + 1;
                        proof {
                            assert(out@ =~= data@.subrange(ptr + 32, ptr + 32 + i));
                        }
                    }
                    Ok(out)
                },
            }
        },
    }
}

fn decode_dyn_array(e: ElemType, data: &Vec<u8>, slot: &Vec<u8>) -> (r: Result<
    Vec<ElemValue>,
    DecodeError,
>)
    ensures
        match r {
            Ok(vs) => spec_decode_dyn_array(e, data@, slot@) == Ok::<
                Seq<ElemValueModel>,
                DecodeError,
            >(vs@.map_values(|v: ElemValue| v@)),
            Err(er) => spec_decode_dyn_array(e, data@, slot@) == Err::<
                Seq<ElemValueModel>,
                DecodeError,
            >(er),
        },
{
    match slot_offset(slot) {
        None => Err(DecodeError::MalformedEncoding),
        Some(ptr) => {
            if ptr > data.len() || data.len() - ptr < 32 {
                return Err(DecodeError::MalformedEncoding);
            }
            let len_slot = read_slot(data, ptr);
            match slot_offset(&len_slot) {
                None => Err(DecodeError::MalformedEncoding),
                Some(count) => {
                    proof {
                        lemma_div32(data@.len() - (ptr + 32), count as int);
                    }
                    if count > (data.len() - (ptr + 32)) / 32 {
                        return Err(DecodeError::MalformedEncoding);
                    }
                    let ghost target = spec_decode_dyn_array(e, data@, slot@)->Ok_0;
                    let mut out: Vec<ElemValue> = Vec::new();
                    let mut j: usize = 0;
                    proof {
                        assert(out@.map_values(|v2: ElemValue| v2@) =~= target.take(0));
                    }
                    let dlen = data.len();
                    while j < count
                        invariant
                            ptr + 32 + 32 * count <= data@.len(),
                            dlen == data@.len(),
                            j <= count,
                            target == spec_decode_dyn_array(e, data@, slot@)->Ok_0,
                            spec_decode_dyn_array(e, data@, slot@) is Ok,
                            target == Seq::new(
                                count as nat,
                                |j2: int|
                                    spec_decode_elem(
                                        e,
                                        data@.subrange(
                                            ptr + 32 + 32 * j2,
                                            ptr + 32 + 32 * j2 + 32,
                                        ),
                                    ),
                            ),
                            target.len() == count,
                            out@.map_values(|v: ElemValue| v@) == target.take(j as int),
                        decreases count - j,
                    {
                        assert(32 * j + 32 <= 32 * count);
                        let elem_slot = read_slot(data, ptr + 32 + 32 * j);
                        let v = decode_elem(e, elem_slot);
                        let ghost prev = out@.map_values(|v2: ElemValue| v2@);
                        out.push(v);
                        j = j + 1;
                        proof {
                            assert(out@.map_values(|v2: ElemValue| v2@) =~= prev.push(
                                target[j - 1],
                            ));
                            assert(target.take(j as int) =~= target.take(j - 1).push(
                                target[j - 1],
                            ));
                        }
                    }
                    proof {
                        assert(target.take(count as int) =~= target);
                    }
                    Ok(out)
                },
            }
        },
    }
}

/// Recursive positional decode, pinned to `spec_decode_from`.
fn decode_from_rec(sig: &Vec<ArgumentType>, data: &Vec<u8>, idx: usize) -> (r: Result<
    Vec<DecodedValue>,
    DecodeError,
>)
    ensures
        match r {
            Ok(vs) => spec_decode_from(sig@, data@, idx as int) == Ok::<
                Seq<ValueModel>,
                DecodeError,
            >(vs@.map_values(|v: DecodedValue| v@)),
            Err(e) => spec_decode_from(sig@, data@, idx as int) == Err::<
                Seq<ValueModel>,
                DecodeError,
            >(e),
        },
    decreases sig@.len() - idx,
{
    if idx >= sig.len() {
        let out: Vec<DecodedValue> = Vec::new();
        proof {
            assert(out@.map_values(|v: DecodedValue| v@) =~= Seq::<ValueModel>::empty());
        }
        return Ok(out);
    }
    proof {
        lemma_div32(data@.len() as int, idx as int);
    }
    if idx >= data.len() / 32 {
        return Err(DecodeError::MalformedEncoding);
    }
    let slot = read_slot(data, 32 * idx);
    let head: Result<DecodedValue, DecodeError> = match sig[idx] {
        ArgumentType::Elementary(e) => Ok(DecodedValue::Elem(decode_elem(e, slot))),
        ArgumentType::Bytes => match decode_dyn_bytes(data, &slot) {
            Ok(s) => Ok(DecodedValue::Bytes(s)),
            Err(e) => Err(e),
        },
        ArgumentType::Str => match decode_dyn_bytes(data, &slot) {
            Ok(s) => Ok(DecodedValue::Str(s)),
            Err(e) => Err(e),
        },
        ArgumentType::ArrayDyn(et) => match decode_dyn_array(et, data, &slot) {
            Ok(vs) => Ok(DecodedValue::Array(vs)),
            Err(e) => Err(e),
        },
    };
    match head {
        Err(e) => Err(e),
        Ok(v) => match decode_from_rec(sig, data, idx + 1) {
            Err(e) => Err(e),
            Ok(rest) => {
                let ghost v_model = v@;
                let ghost rest_models = rest@.map_values(|x: DecodedValue| x@);
                let mut out: Vec<DecodedValue> = Vec::new();
                out.push(v);
                let mut k: usize = 0;
                proof {
                    assert(out@.map_values(|x: DecodedValue| x@) =~= seq![v_model]
                        + rest_models.take(0));
                }
                while k < rest.len()
                    invariant
                        k <= rest@.len(),
                        rest@.map_values(|x: DecodedValue| x@) == rest_models,
                        out@.map_values(|x: DecodedValue| x@) == seq![v_model]
                            + rest_models.take(k as int),
                    decreases rest@.len() - k,
                {
                    let ghost prev = out@.map_values(|x: DecodedValue| x@);
                    let item = rest_take(&rest, k);
                    out.push(item);
                    k = k + 1;
                    proof {
                        assert(out@.map_values(|x: DecodedValue| x@) =~= prev.push(
                            rest_models[k - 1],
                        ));
                        assert(seq![v_model] + rest_models.take(k as int) =~= prev.push(
                            rest_models[k - 1],
                        ));
                    }
                }
                proof {
                    assert(rest_models.take(rest_models.len() as int) =~= rest_models);
                }
                Ok(out)
            },
        },
    }
}

/// Clones element `k` out of a vector of decoded values.
fn rest_take(rest: &Vec<DecodedValue>, k: usize) -> (r: DecodedValue)
    requires
        k < rest@.len(),
    ensures
        r@ == rest@.map_values(|x: DecodedValue| x@)[k as int],
{
    let item = &rest[k];
    match item {
        DecodedValue::Elem(e) => DecodedValue::Elem(e.clone()),
        DecodedValue::Bytes(s) => DecodedValue::Bytes(copy_all(s)),
        DecodedValue::Str(s) => DecodedValue::Str(copy_all(s)),
        DecodedValue::Array(vs) => {
            let mut out: Vec<ElemValue> = Vec::new();
            let mut i: usize = 0;
            while i < vs.len()
                invariant
                    i <= vs@.len(),
                    out@.map_values(|e: ElemValue| e@) == vs@.map_values(|e: ElemValue| e@).take(
                        i as int,
                    ),
                decreases vs@.len() - i,
            {
                let ghost prev = out@.map_values(|e: ElemValue| e@);
                out.push(vs[i].clone());
                i = i + 1;
                proof {
                    assert(out@.map_values(|e: ElemValue| e@) =~= prev.push(
                        vs@.map_values(|e: ElemValue| e@)[i - 1],
                    ));
                    assert(vs@.map_values(|e: ElemValue| e@).take(i as int) =~= prev.push(
                        vs@.map_values(|e: ElemValue| e@)[i - 1],
                    ));
                }
            }
            proof {
                assert(vs@.map_values(|e: ElemValue| e@).take(vs@.len() as int) =~= vs@.map_values(
                    |e: ElemValue| e@,
                ));
            }
            DecodedValue::Array(out)
        },
    }
}

/// One type guess for the 32-byte word `j` of unsigned calldata, with its
/// value: the offset/length shape of a dynamic byte string first (the
/// pointer must reach past its own head slot), then the boolean shape (zero
/// or one), then the address shape (top twelve bytes zero), else a 256-bit
/// unsigned integer.
pub open spec fn spec_guess(data: Seq<u8>, j: int) -> (ArgumentType, ValueModel) {
    let slot = data.subrange(32 * j, 32 * j + 32);
    if (spec_slot_offset(slot) matches Some(p) && p >= 32) && spec_decode_dyn_bytes(data, slot)
        is Ok {
        (ArgumentType::Bytes, ValueModel::Bytes(spec_decode_dyn_bytes(data, slot)->Ok_0))
    } else if all_zero(slot.take(31)) && slot[31] <= 1 {
        (
            ArgumentType::Elementary(ElemType::Bool),
            ValueModel::Elem(ElemValueModel::Bool(!all_zero(slot))),
        )
    } else if all_zero(slot.take(12)) {
        (
            ArgumentType::Elementary(ElemType::Address),
            ValueModel::Elem(ElemValueModel::Address(slot)),
        )
    } else {
        (
            ArgumentType::Elementary(ElemType::Uint(256)),
            ValueModel::Elem(ElemValueModel::Uint(slot)),
        )
    }
}

/// Checks that `s[..k]` is all zeros.
fn prefix_zero(s: &Vec<u8>, k: usize) -> (r: bool)
    requires
        k <= s@.len(),
    ensures
        r == all_zero(s@.take(k as int)),
{
    let mut i: usize = 0;
    let mut r = true;
    while i < k
        invariant
            i <= k,
            k <= s@.len(),
            r == all_zero(s@.take(i as int)),
        decreases k - i,
    {
        if s[i] != 0 {
            r = false;
        }
        i = i + 1;
        proof {
            assert(all_zero(s@.take(i as int)) <==> (all_zero(s@.take(i - 1)) && s@[i - 1]
                == 0)) by {
                if all_zero(s@.take(i as int)) {
                    assert forall|j: int| 0 <= j < i - 1 implies #[trigger] s@.take(i - 1)[j]
                        == 0 by {
                        assert(s@.take(i as int)[j] == 0);
                    }
                    assert(s@.take(i as int)[i - 1] == 0);
                }
                if all_zero(s@.take(i - 1)) && s@[i - 1] == 0 {
                    assert forall|j: int| 0 <= j < i implies #[trigger] s@.take(i as int)[j]
                        == 0 by {
                        if j < i - 1 {
                            assert(s@.take(i - 1)[j] == 0);
                        }
                    }
                }
            }
        }
    }
    r
}

/// Decodes a raw byte string against a known or inferred signature.
///
/// With a signature the result is exactly the positional decoding that
/// `spec_decode_from` describes: `Ok` precisely when the layout fits, and
/// `MalformedEncoding` otherwise. Without one, decoding never fails: each
/// full 32-byte word gets the guess `spec_guess` describes and the result
/// is tagged `Inferred`.
pub fn decode_arguments(data: &Vec<u8>, signature: Option<&Vec<ArgumentType>>) -> (r: Result<
    ArgumentList,
    DecodeError,
>)
    ensures
        match signature {
            Some(sig) => {
                &&& (r is Ok <==> spec_decode_from(sig@, data@, 0) is Ok)
                &&& (r matches Ok(list) ==> list.values@.map_values(|v: DecodedValue| v@)
                    == spec_decode_from(sig@, data@, 0)->Ok_0 && list.types@ == sig@
                    && list.confidence == Confidence::Known)
                &&& (r matches Err(e) ==> e == DecodeError::MalformedEncoding)
            },
            None => {
                &&& r is Ok
                &&& (r matches Ok(list) ==> {
                    &&& list.types@.len() == data@.len() / 32
                    &&& list.values@.len() == data@.len() / 32
                    &&& (forall|j: int|
                        0 <= j < data@.len() / 32 ==> (#[trigger] list.types@[j],
                        list.values@.map_values(|v: DecodedValue| v@)[j]) == spec_guess(data@, j))
                    &&& list.confidence == Confidence::Inferred
                })
            },
        },
{
    match signature {
        Some(sig) => {
            match decode_from_rec(sig, data, 0) {
                Ok(values) => Ok(
                    ArgumentList {
                        types: copy_types(sig),
                        values,
                        confidence: Confidence::Known,
                    },
                ),
                Err(e) => Err(e),
            }
        },
        None => {
            let nwords = data.len() / 32;
            let mut types: Vec<ArgumentType> = Vec::new();
            let mut values: Vec<DecodedValue> = Vec::new();
            let mut j: usize = 0;
            let dlen = data.len();
            while j < nwords
                invariant
                    nwords == data@.len() / 32,
                    dlen == data@.len(),
                    j <= nwords,
                    types@.len() == j,
                    values@.len() == j,
                    forall|i: int|
                        0 <= i < j ==> (#[trigger] types@[i], values@.map_values(
                            |v: DecodedValue| v@,
                        )[i]) == spec_guess(data@, i),
                decreases nwords - j,
            {
                proof {
                    lemma_div32(data@.len() as int, j as int);
                }
                let slot = read_slot(data, 32 * j);
                let ghost prev_vals = values@.map_values(|v: DecodedValue| v@);
                let pointer_shaped = match slot_offset(&slot) {
                    Some(p) => p >= 32,
                    None => false,
                };
                let dyn_content = if pointer_shaped {
                    match decode_dyn_bytes(data, &slot) {
                        Ok(content) => Some(content),
                        Err(_) => None,
                    }
                } else {
                    None
                };
                match dyn_content {
                    Some(content) => {
                        types.push(ArgumentType::Bytes);
                        values.push(DecodedValue::Bytes(content));
                    },
                    None => {
                        if prefix_zero(&slot, 31) && slot[31] <= 1 {
                            let nonzero = slot[31] == 1;
                            proof {
                                if nonzero {
                                    assert(!all_zero(slot@));
                                } else {
                                    assert forall|i2: int| 0 <= i2 < slot@.len() implies slot@[i2]
                                        == 0 by {
                                        if i2 < 31 {
                                            assert(slot@.take(31)[i2] == 0);
                                        }
                                    }
                                }
                            }
                            types.push(ArgumentType::Elementary(ElemType::Bool));
                            values.push(DecodedValue::Elem(ElemValue::Bool(nonzero)));
                        } else if prefix_zero(&slot, 12) {
                            types.push(ArgumentType::Elementary(ElemType::Address));
                            values.push(DecodedValue::Elem(ElemValue::Address(slot)));
                        } else {
                            types.push(ArgumentType::Elementary(ElemType::Uint(256)));
                            values.push(DecodedValue::Elem(ElemValue::Uint(slot)));
                        }
                    },
                }
                j = j + 1;
                proof {
                    assert(values@.map_values(|v: DecodedValue| v@) =~= prev_vals.push(
                        values@[j - 1]@,
                    ));
                }
            }
            Ok(ArgumentList { types, values, confidence: Confidence::Inferred })
        },
    }
}

/// Copies a signature.
fn copy_types(sig: &Vec<ArgumentType>) -> (r: Vec<ArgumentType>)
    ensures
        r@ == sig@,
{
    let mut r: Vec<ArgumentType> = Vec::new();
    let mut i: usize = 0;
    while i < sig.len()
        invariant
            i <= sig@.len(),
            r@ == sig@.subrange(0, i as int),
        decreases sig@.len() - i,
    {
        r.push(sig[i]);
        i = i + 1;
        proof {
            assert(r@ =~= sig@.subrange(0, i as int));
        }
    }
    proof {
        assert(sig@.subrange(0, sig@.len() as int) =~= sig@);
    }
    r
}

/// The number of elementary entries of a signature.
pub open spec fn elementary_count(sig: Seq<ArgumentType>) -> nat
    decreases sig.len(),
{
    if sig.len() == 0 {
        0
    } else {
        elementary_count(sig.drop_last()) + (if sig.last() is Elementary {
            1nat
        } else {
            0
        })
    }
}

proof fn lemma_elementary_count_le(sig: Seq<ArgumentType>)
    ensures
        elementary_count(sig) <= sig.len(),
    decreases sig.len(),
{
    if sig.len() > 0 {
        lemma_elementary_count_le(sig.drop_last());
    }
}

proof fn lemma_decode_needs_heads(sig: Seq<ArgumentType>, data: Seq<u8>, idx: int)
    requires
        0 <= idx <= sig.len(),
        spec_decode_from(sig, data, idx) is Ok,
    ensures
        32 * sig.len() <= data.len() || idx == sig.len(),
    decreases sig.len() - idx,
{
    if idx < sig.len() {
        if idx + 1 < sig.len() {
            lemma_decode_needs_heads(sig, data, idx + 1);
        } else {
            assert(32 * idx + 32 <= data.len());
        }
    }
}

/// A signature whose declared elementary-type count, times the 32-byte slot
/// width, exceeds the input length can never be satisfied: decoding fails
/// with `MalformedEncoding`.
pub proof fn lemma_width_overflow_fails(sig: Seq<ArgumentType>, data: Seq<u8>)
    requires
        32 * elementary_count(sig) > data.len(),
    ensures
        spec_decode_from(sig, data, 0) == Err::<Seq<ValueModel>, DecodeError>(
            DecodeError::MalformedEncoding,
        ),
{
    lemma_elementary_count_le(sig);
    if spec_decode_from(sig, data, 0) is Ok {
        lemma_decode_needs_heads(sig, data, 0);
        assert(32 * elementary_count(sig) <= 32 * sig.len());
        if sig.len() == 0 {
            assert(elementary_count(sig) == 0);
        }
        assert(false);
    }
    match spec_decode_from(sig, data, 0) {
        Ok(_) => {},
        Err(e) => {
            lemma_decode_errors_malformed(sig, data, 0);
        },
    }
}

proof fn lemma_decode_errors_malformed(sig: Seq<ArgumentType>, data: Seq<u8>, idx: int)
    ensures
        spec_decode_from(sig, data, idx) is Err ==> spec_decode_from(sig, data, idx)
            == Err::<Seq<ValueModel>, DecodeError>(DecodeError::MalformedEncoding),
    decreases sig.len() - idx,
{
    if 0 <= idx < sig.len() {
        lemma_decode_errors_malformed(sig, data, idx + 1);
    }
}

/// Equal inputs decode equally: with a known signature the decoding is a
/// function of the signature and the bytes alone.
pub proof fn lemma_decode_deterministic(
    sig1: Seq<ArgumentType>,
    sig2: Seq<ArgumentType>,
    data1: Seq<u8>,
    data2: Seq<u8>,
    r1: Result<Seq<ValueModel>, DecodeError>,
    r2: Result<Seq<ValueModel>, DecodeError>,
)
    requires
        sig1 == sig2,
        data1 == data2,
        r1 == spec_decode_from(sig1, data1, 0),
        r2 == spec_decode_from(sig2, data2, 0),
    ensures
        r1 == r2,
{
}

} // verus!
