//! Symbolic expressions: the value language of the abstract interpreter.
//!
//! Expressions are pure trees compared structurally; they are produced, never
//! mutated. Constant folding is best-effort: where a fold would need
//! arithmetic this analysis does not model (signed compares, wide overflow),
//! the operation node is kept instead, which only costs precision.

use vstd::prelude::*;
use crate::word::{Word, spec_word_zero};

verus! {

/// The operation of an operation node: arithmetic, comparison, bitwise, or
/// the hash of a memory range.
#[derive(Clone, Copy, PartialEq, Eq, Structural, Debug)]
pub enum OpKind {
    Add,
    Mul,
    Sub,
    Div,
    Sdiv,
    Mod,
    Smod,
    AddMod,
    MulMod,
    Exp,
    SignExtend,
    Lt,
    Gt,
    Slt,
    Sgt,
    Eq,
    IsZero,
    And,
    Or,
    Xor,
    Not,
    Byte,
    Shl,
    Shr,
    Sar,
    Hash,
}

/// A symbolic expression: a constant word, a variable with an origin (the
/// four `...Var` variants: calldata, storage, memory, call result, plus
/// environment reads), an operation over one to three operands, or an opaque
/// value introduced by widening at a control-flow join (tagged by join
/// program counter and stack slot).
#[derive(Debug, PartialEq, Eq)]
pub enum SymbolicExpression {
    Constant(Word),
    /// A calldata word at the given offset expression.
    CalldataVar(Box<SymbolicExpression>),
    /// A storage word at the given slot expression.
    StorageVar(Box<SymbolicExpression>),
    /// A memory word at the given offset expression.
    MemoryVar(Box<SymbolicExpression>),
    /// The result of the call-family instruction at the given call site.
    ReturnVar(usize),
    /// An environment read: the opcode that produced it.
    EnvVar(u8),
    Unary(OpKind, Box<SymbolicExpression>),
    Binary(OpKind, Box<SymbolicExpression>, Box<SymbolicExpression>),
    Ternary(
        OpKind,
        Box<SymbolicExpression>,
        Box<SymbolicExpression>,
        Box<SymbolicExpression>,
    ),
    Opaque(usize, usize),
    /// A reference to a hoisted temporary in decompiled output.
    Temp(usize),
}

impl Clone for SymbolicExpression {
    /// A clone is structurally equal to the original.
    fn clone(&self) -> (res: Self)
        ensures
            res == self,
        decreases self,
    {
        match self {
            SymbolicExpression::Constant(w) => SymbolicExpression::Constant(*w),
            SymbolicExpression::CalldataVar(x) => SymbolicExpression::CalldataVar(
                Box::new((**x).clone()),
            ),
            SymbolicExpression::StorageVar(x) => SymbolicExpression::StorageVar(
                Box::new((**x).clone()),
            ),
            SymbolicExpression::MemoryVar(x) => SymbolicExpression::MemoryVar(
                Box::new((**x).clone()),
            ),
            SymbolicExpression::ReturnVar(p) => SymbolicExpression::ReturnVar(*p),
            SymbolicExpression::EnvVar(o) => SymbolicExpression::EnvVar(*o),
            SymbolicExpression::Unary(k, x) => SymbolicExpression::Unary(
                *k,
                Box::new((**x).clone()),
            ),
            SymbolicExpression::Binary(k, x, y) => SymbolicExpression::Binary(
                *k,
                Box::new((**x).clone()),
                Box::new((**y).clone()),
            ),
            SymbolicExpression::Ternary(k, x, y, z) => SymbolicExpression::Ternary(
                *k,
                Box::new((**x).clone()),
                Box::new((**y).clone()),
                Box::new((**z).clone()),
            ),
            SymbolicExpression::Opaque(p, s) => SymbolicExpression::Opaque(*p, *s),
            SymbolicExpression::Temp(i) => SymbolicExpression::Temp(*i),
        }
    }
}

/// Structural equality on expressions, usable from executable code.
pub fn expr_eq(a: &SymbolicExpression, b: &SymbolicExpression) -> (r: bool)
    ensures
        r == (a == b),
    decreases a,
{
    match (a, b) {
        (SymbolicExpression::Constant(x), SymbolicExpression::Constant(y)) => x == y,
        (SymbolicExpression::CalldataVar(x), SymbolicExpression::CalldataVar(y)) => expr_eq(x, y),
        (SymbolicExpression::StorageVar(x), SymbolicExpression::StorageVar(y)) => expr_eq(x, y),
        (SymbolicExpression::MemoryVar(x), SymbolicExpression::MemoryVar(y)) => expr_eq(x, y),
        (SymbolicExpression::ReturnVar(x), SymbolicExpression::ReturnVar(y)) => x == y,
        (SymbolicExpression::EnvVar(x), SymbolicExpression::EnvVar(y)) => x == y,
        (SymbolicExpression::Unary(k1, x1), SymbolicExpression::Unary(k2, x2)) => k1 == k2
            && expr_eq(x1, x2),
        (
            SymbolicExpression::Binary(k1, x1, y1),
            SymbolicExpression::Binary(k2, x2, y2),
        ) => k1 == k2 && expr_eq(x1, x2) && expr_eq(y1, y2),
        (
            SymbolicExpression::Ternary(k1, x1, y1, z1),
            SymbolicExpression::Ternary(k2, x2, y2, z2),
        ) => k1 == k2 && expr_eq(x1, x2) && expr_eq(y1, y2) && expr_eq(z1, z2),
        (SymbolicExpression::Opaque(p1, s1), SymbolicExpression::Opaque(p2, s2)) => p1 == p2 && s1
            == s2,
        (SymbolicExpression::Temp(x), SymbolicExpression::Temp(y)) => x == y,
        _ => false,
    }
}

/// The word for a boolean result: one for true, zero for false.
pub open spec fn spec_bool_word(b: bool) -> Word {
    if b {
        Word { hi: 0, lo: 1 }
    } else {
        spec_word_zero()
    }
}

pub fn bool_word(b: bool) -> (w: Word)
    ensures
        w == spec_bool_word(b),
{
    if b {
        Word { hi: 0, lo: 1 }
    } else {
        Word { hi: 0, lo: 0 }
    }
}

/// Constant folding of a binary operation on two known words. The first
/// operand is the one nearer the stack top. `None` means the fold is outside
/// the modeled fragment and the operation node is kept.
pub open spec fn spec_fold_binary(k: OpKind, a: Word, b: Word) -> Option<Word> {
    match k {
        OpKind::Add => {
            if a.lo <= u128::MAX - b.lo && a.hi <= u128::MAX - b.hi {
                Some(Word { hi: (a.hi + b.hi) as u128, lo: (a.lo + b.lo) as u128 })
            } else {
                None
            }
        },
        OpKind::Sub => {
            if a.hi > b.hi || (a.hi == b.hi && a.lo >= b.lo) {
                if a.lo >= b.lo {
                    Some(Word { hi: (a.hi - b.hi) as u128, lo: (a.lo - b.lo) as u128 })
                } else {
                    Some(
                        Word {
                            hi: (a.hi - b.hi - 1) as u128,
                            lo: ((u128::MAX - b.lo) + a.lo + 1) as u128,
                        },
                    )
                }
            } else {
                None
            }
        },
        OpKind::Mul => {
            if a.hi == 0 && b.hi == 0 && (b.lo == 0 || a.lo <= u128::MAX / b.lo) {
                Some(Word { hi: 0, lo: (a.lo * b.lo) as u128 })
            } else {
                None
            }
        },
        OpKind::Div => {
            if b.hi == 0 && b.lo == 0 {
                Some(spec_word_zero())
            } else if a.hi == 0 && b.hi == 0 {
                Some(Word { hi: 0, lo: a.lo / b.lo })
            } else {
                None
            }
        },
        OpKind::Mod => {
            if b.hi == 0 && b.lo == 0 {
                Some(spec_word_zero())
            } else if a.hi == 0 && b.hi == 0 {
                Some(Word { hi: 0, lo: a.lo % b.lo })
            } else {
                None
            }
        },
        OpKind::Eq => Some(spec_bool_word(a == b)),
        OpKind::Lt => Some(spec_bool_word(a.hi < b.hi || (a.hi == b.hi && a.lo < b.lo))),
        OpKind::Gt => Some(spec_bool_word(a.hi > b.hi || (a.hi == b.hi && a.lo > b.lo))),
        OpKind::And => Some(Word { hi: a.hi & b.hi, lo: a.lo & b.lo }),
        OpKind::Or => Some(Word { hi: a.hi | b.hi, lo: a.lo | b.lo }),
        OpKind::Xor => Some(Word { hi: a.hi ^ b.hi, lo: a.lo ^ b.lo }),
        OpKind::Shl => spec_fold_shl(a, b),
        OpKind::Shr => spec_fold_shr(a, b),
        _ => None,
    }
}

/// `b << a`, for a constant shift amount `a`.
pub open spec fn spec_fold_shl(a: Word, b: Word) -> Option<Word> {
    if a.hi != 0 {
        None
    } else if a.lo == 0 {
        Some(b)
    } else if a.lo < 128 {
        Some(
            Word {
                hi: ((b.hi << a.lo) | (b.lo >> ((128 - a.lo) as u128))) as u128,
                lo: (b.lo << a.lo) as u128,
            },
        )
    } else if a.lo < 256 {
        Some(Word { hi: (b.lo << ((a.lo - 128) as u128)) as u128, lo: 0 })
    } else {
        Some(spec_word_zero())
    }
}

/// `b >> a`, for a constant shift amount `a`.
pub open spec fn spec_fold_shr(a: Word, b: Word) -> Option<Word> {
    if a.hi != 0 {
        None
    } else if a.lo == 0 {
        Some(b)
    } else if a.lo < 128 {
        Some(
            Word {
                hi: (b.hi >> a.lo) as u128,
                lo: ((b.lo >> a.lo) | (b.hi << ((128 - a.lo) as u128))) as u128,
            },
        )
    } else if a.lo < 256 {
        Some(Word { hi: 0, lo: (b.hi >> ((a.lo - 128) as u128)) as u128 })
    } else {
        Some(spec_word_zero())
    }
}

/// Executable constant folding, pinned to `spec_fold_binary`.
pub fn fold_binary(k: OpKind, a: Word, b: Word) -> (r: Option<Word>)
    ensures
        r == spec_fold_binary(k, a, b),
{
    match k {
        OpKind::Add => {
            if a.lo <= u128::MAX - b.lo && a.hi <= u128::MAX - b.hi {
                Some(Word { hi: a.hi + b.hi, lo: a.lo + b.lo })
            } else {
                None
            }
        },
        OpKind::Sub => {
            if a.hi > b.hi || (a.hi == b.hi && a.lo >= b.lo) {
                if a.lo >= b.lo {
                    Some(Word { hi: a.hi - b.hi, lo: a.lo - b.lo })
                } else {
                    Some(Word { hi: a.hi - b.hi - 1, lo: (u128::MAX - b.lo) + a.lo + 1 })
                }
            } else {
                None
            }
        },
        OpKind::Mul => {
            if a.hi == 0 && b.hi == 0 && (b.lo == 0 || a.lo <= u128::MAX / b.lo) {
                proof {
                    if b.lo != 0 {
                        assert(a.lo * b.lo <= u128::MAX) by (nonlinear_arith)
                            requires
                                b.lo != 0,
                                a.lo <= u128::MAX as int / b.lo as int,
                        ;
                    }
                }
                Some(Word { hi: 0, lo: a.lo * b.lo })
            } else {
                None
            }
        },
        OpKind::Div => {
            if b.hi == 0 && b.lo == 0 {
                Some(Word { hi: 0, lo: 0 })
            } else if a.hi == 0 && b.hi == 0 {
                Some(Word { hi: 0, lo: a.lo / b.lo })
            } else {
                None
            }
        },
        OpKind::Mod => {
            if b.hi == 0 && b.lo == 0 {
                Some(Word { hi: 0, lo: 0 })
            } else if a.hi == 0 && b.hi == 0 {
                Some(Word { hi: 0, lo: a.lo % b.lo })
            } else {
                None
            }
        },
        OpKind::Eq => Some(bool_word(a == b)),
        OpKind::Lt => Some(bool_word(a.hi < b.hi || (a.hi == b.hi && a.lo < b.lo))),
        OpKind::Gt => Some(bool_word(a.hi > b.hi || (a.hi == b.hi && a.lo > b.lo))),
        OpKind::And => Some(Word { hi: a.hi & b.hi, lo: a.lo & b.lo }),
        OpKind::Or => Some(Word { hi: a.hi | b.hi, lo: a.lo | b.lo }),
        OpKind::Xor => Some(Word { hi: a.hi ^ b.hi, lo: a.lo ^ b.lo }),
        OpKind::Shl => {
            if a.hi != 0 {
                None
            } else if a.lo == 0 {
                Some(b)
            } else if a.lo < 128 {
                Some(
                    Word {
                        hi: (b.hi << a.lo) | (b.lo >> (128 - a.lo)),
                        lo: b.lo << a.lo,
                    },
                )
            } else if a.lo < 256 {
                Some(Word { hi: b.lo << (a.lo - 128), lo: 0 })
            } else {
                Some(Word { hi: 0, lo: 0 })
            }
        },
        OpKind::Shr => {
            if a.hi != 0 {
                None
            } else if a.lo == 0 {
                Some(b)
            } else if a.lo < 128 {
                Some(
                    Word {
                        hi: b.hi >> a.lo,
                        lo: (b.lo >> a.lo) | (b.hi << (128 - a.lo)),
                    },
                )
            } else if a.lo < 256 {
                Some(Word { hi: 0, lo: b.hi >> (a.lo - 128) })
            } else {
                Some(Word { hi: 0, lo: 0 })
            }
        },
        _ => None,
    }
}

/// Folding of a unary operation on a known word.
pub open spec fn spec_fold_unary(k: OpKind, a: Word) -> Option<Word> {
    match k {
        OpKind::IsZero => Some(spec_bool_word(a == spec_word_zero())),
        OpKind::Not => Some(Word { hi: !a.hi, lo: !a.lo }),
        _ => None,
    }
}

pub fn fold_unary(k: OpKind, a: Word) -> (r: Option<Word>)
    ensures
        r == spec_fold_unary(k, a),
{
    match k {
        OpKind::IsZero => Some(bool_word(a.hi == 0 && a.lo == 0)),
        OpKind::Not => Some(Word { hi: !a.hi, lo: !a.lo }),
        _ => None,
    }
}

/// The operation of an operation-class opcode.
pub open spec fn op_kind(op: u8) -> OpKind {
    if op == 0x01 {
        OpKind::Add
    } else if op == 0x02 {
        OpKind::Mul
    } else if op == 0x03 {
        OpKind::Sub
    } else if op == 0x04 {
        OpKind::Div
    } else if op == 0x05 {
        OpKind::Sdiv
    } else if op == 0x06 {
        OpKind::Mod
    } else if op == 0x07 {
        OpKind::Smod
    } else if op == 0x08 {
        OpKind::AddMod
    } else if op == 0x09 {
        OpKind::MulMod
    } else if op == 0x0a {
        OpKind::Exp
    } else if op == 0x0b {
        OpKind::SignExtend
    } else if op == 0x10 {
        OpKind::Lt
    } else if op == 0x11 {
        OpKind::Gt
    } else if op == 0x12 {
        OpKind::Slt
    } else if op == 0x13 {
        OpKind::Sgt
    } else if op == 0x14 {
        OpKind::Eq
    } else if op == 0x15 {
        OpKind::IsZero
    } else if op == 0x16 {
        OpKind::And
    } else if op == 0x17 {
        OpKind::Or
    } else if op == 0x18 {
        OpKind::Xor
    } else if op == 0x19 {
        OpKind::Not
    } else if op == 0x1a {
        OpKind::Byte
    } else if op == 0x1b {
        OpKind::Shl
    } else if op == 0x1c {
        OpKind::Shr
    } else if op == 0x1d {
        OpKind::Sar
    } else {
        OpKind::Hash
    }
}

pub fn op_kind_of(op: u8) -> (k: OpKind)
    ensures
        k == op_kind(op),
{
    if op == 0x01 {
        OpKind::Add
    } else if op == 0x02 {
        OpKind::Mul
    } else if op == 0x03 {
        OpKind::Sub
    } else if op == 0x04 {
        OpKind::Div
    } else if op == 0x05 {
        OpKind::Sdiv
    } else if op == 0x06 {
        OpKind::Mod
    } else if op == 0x07 {
        OpKind::Smod
    } else if op == 0x08 {
        OpKind::AddMod
    } else if op == 0x09 {
        OpKind::MulMod
    } else if op == 0x0a {
        OpKind::Exp
    } else if op == 0x0b {
        OpKind::SignExtend
    } else if op == 0x10 {
        OpKind::Lt
    } else if op == 0x11 {
        OpKind::Gt
    } else if op == 0x12 {
        OpKind::Slt
    } else if op == 0x13 {
        OpKind::Sgt
    } else if op == 0x14 {
        OpKind::Eq
    } else if op == 0x15 {
        OpKind::IsZero
    } else if op == 0x16 {
        OpKind::And
    } else if op == 0x17 {
        OpKind::Or
    } else if op == 0x18 {
        OpKind::Xor
    } else if op == 0x19 {
        OpKind::Not
    } else if op == 0x1a {
        OpKind::Byte
    } else if op == 0x1b {
        OpKind::Shl
    } else if op == 0x1c {
        OpKind::Shr
    } else if op == 0x1d {
        OpKind::Sar
    } else {
        OpKind::Hash
    }
}

} // verus!
