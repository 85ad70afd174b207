//! The target instruction set: operand widths, stack effects, and the
//! classification the decoder and the control-flow-graph builder rely on.

use vstd::prelude::*;

verus! {

pub const OP_STOP: u8 = 0x00;
pub const OP_ADD: u8 = 0x01;
pub const OP_MUL: u8 = 0x02;
pub const OP_SUB: u8 = 0x03;
pub const OP_DIV: u8 = 0x04;
pub const OP_EQ: u8 = 0x14;
pub const OP_ISZERO: u8 = 0x15;
pub const OP_AND: u8 = 0x16;
pub const OP_SHR: u8 = 0x1c;
pub const OP_SHA3: u8 = 0x20;
pub const OP_CALLDATALOAD: u8 = 0x35;
pub const OP_POP: u8 = 0x50;
pub const OP_MLOAD: u8 = 0x51;
pub const OP_MSTORE: u8 = 0x52;
pub const OP_MSTORE8: u8 = 0x53;
pub const OP_SLOAD: u8 = 0x54;
pub const OP_SSTORE: u8 = 0x55;
pub const OP_JUMP: u8 = 0x56;
pub const OP_JUMPI: u8 = 0x57;
pub const OP_JUMPDEST: u8 = 0x5b;
pub const OP_PUSH0: u8 = 0x5f;
pub const OP_PUSH1: u8 = 0x60;
pub const OP_PUSH32: u8 = 0x7f;
pub const OP_DUP1: u8 = 0x80;
pub const OP_DUP16: u8 = 0x8f;
pub const OP_SWAP1: u8 = 0x90;
pub const OP_SWAP16: u8 = 0x9f;
pub const OP_LOG0: u8 = 0xa0;
pub const OP_LOG4: u8 = 0xa4;
pub const OP_CREATE: u8 = 0xf0;
pub const OP_CALL: u8 = 0xf1;
pub const OP_CALLCODE: u8 = 0xf2;
pub const OP_RETURN: u8 = 0xf3;
pub const OP_DELEGATECALL: u8 = 0xf4;
pub const OP_CREATE2: u8 = 0xf5;
pub const OP_STATICCALL: u8 = 0xfa;
pub const OP_REVERT: u8 = 0xfd;
pub const OP_INVALID: u8 = 0xfe;
pub const OP_SELFDESTRUCT: u8 = 0xff;

/// Width in bytes of the immediate operand an opcode carries: push-class
/// opcodes carry 1 to 32 bytes, every other opcode none.
pub open spec fn push_width(op: u8) -> nat {
    if OP_PUSH1 <= op && op <= OP_PUSH32 {
        (op - 0x5f) as nat
    } else {
        0
    }
}

pub fn push_width_of(op: u8) -> (n: usize)
    ensures
        n == push_width(op),
{
    if OP_PUSH1 <= op && op <= OP_PUSH32 {
        (op - 0x5f) as usize
    } else {
        0
    }
}

/// True of opcodes the instruction set defines.
pub open spec fn is_defined(op: u8) -> bool {
    ||| op <= 0x0b
    ||| (0x10 <= op && op <= 0x1d)
    ||| op == OP_SHA3
    ||| (0x30 <= op && op <= 0x3f)
    ||| (0x40 <= op && op <= 0x48)
    ||| (0x50 <= op && op <= OP_JUMPDEST)
    ||| (OP_PUSH0 <= op && op <= OP_SWAP16)
    ||| (OP_LOG0 <= op && op <= OP_LOG4)
    ||| (OP_CREATE <= op && op <= OP_CREATE2)
    ||| op == OP_STATICCALL
    ||| op == OP_REVERT
    ||| op == OP_INVALID
    ||| op == OP_SELFDESTRUCT
}

pub fn is_defined_op(op: u8) -> (r: bool)
    ensures
        r == is_defined(op),
{
    op <= 0x0b || (0x10 <= op && op <= 0x1d) || op == OP_SHA3 || (0x30 <= op && op <= 0x3f)
        || (0x40 <= op && op <= 0x48) || (0x50 <= op && op <= OP_JUMPDEST)
        || (OP_PUSH0 <= op && op <= OP_SWAP16) || (OP_LOG0 <= op && op <= OP_LOG4)
        || (OP_CREATE <= op && op <= OP_CREATE2) || op == OP_STATICCALL || op == OP_REVERT
        || op == OP_INVALID || op == OP_SELFDESTRUCT
}

/// True of opcodes that end a basic block: halts, jumps, reverts, the
/// designated invalid opcode, and every undefined opcode (which halts).
pub open spec fn is_terminator(op: u8) -> bool {
    ||| op == OP_STOP
    ||| op == OP_JUMP
    ||| op == OP_JUMPI
    ||| op == OP_RETURN
    ||| op == OP_REVERT
    ||| op == OP_INVALID
    ||| op == OP_SELFDESTRUCT
    ||| !is_defined(op)
}

pub fn is_terminator_op(op: u8) -> (r: bool)
    ensures
        r == is_terminator(op),
{
    op == OP_STOP || op == OP_JUMP || op == OP_JUMPI || op == OP_RETURN || op == OP_REVERT
        || op == OP_INVALID || op == OP_SELFDESTRUCT || !is_defined_op(op)
}

/// How many stack slots an opcode pops.
pub open spec fn op_pops(op: u8) -> nat {
    if op == OP_STOP {
        0
    } else if 0x01 <= op && op <= 0x07 {
        2
    } else if op == 0x08 || op == 0x09 {
        3
    } else if op == 0x0a || op == 0x0b {
        2
    } else if 0x10 <= op && op <= 0x14 {
        2
    } else if op == OP_ISZERO {
        1
    } else if 0x16 <= op && op <= 0x18 {
        2
    } else if op == 0x19 {
        1
    } else if 0x1a <= op && op <= 0x1d {
        2
    } else if op == OP_SHA3 {
        2
    } else if op == 0x31 {
        1
    } else if op == OP_CALLDATALOAD {
        1
    } else if op == 0x37 {
        3
    } else if op == 0x39 {
        3
    } else if op == 0x3b {
        1
    } else if op == 0x3c {
        4
    } else if op == 0x3e {
        3
    } else if op == 0x3f {
        1
    } else if op == 0x40 {
        1
    } else if op == OP_POP {
        1
    } else if op == OP_MLOAD {
        1
    } else if op == OP_MSTORE || op == OP_MSTORE8 {
        2
    } else if op == OP_SLOAD {
        1
    } else if op == OP_SSTORE {
        2
    } else if op == OP_JUMP {
        1
    } else if op == OP_JUMPI {
        2
    } else if OP_DUP1 <= op && op <= OP_DUP16 {
        (op - 0x7f) as nat
    } else if OP_SWAP1 <= op && op <= OP_SWAP16 {
        (op - 0x8f + 1) as nat
    } else if OP_LOG0 <= op && op <= OP_LOG4 {
        (op - OP_LOG0 + 2) as nat
    } else if op == OP_CREATE {
        3
    } else if op == OP_CALL || op == OP_CALLCODE {
        7
    } else if op == OP_RETURN {
        2
    } else if op == OP_DELEGATECALL {
        6
    } else if op == OP_CREATE2 {
        4
    } else if op == OP_STATICCALL {
        6
    } else if op == OP_REVERT {
        2
    } else if op == OP_SELFDESTRUCT {
        1
    } else {
        0
    }
}

/// How many stack slots an opcode pushes.
pub open spec fn op_pushes(op: u8) -> nat {
    if 0x01 <= op && op <= 0x0b {
        1
    } else if 0x10 <= op && op <= 0x1d {
        1
    } else if op == OP_SHA3 {
        1
    } else if 0x30 <= op && op <= 0x3f && op != 0x37 && op != 0x39 && op != 0x3e {
        1
    } else if 0x40 <= op && op <= 0x48 {
        1
    } else if op == OP_MLOAD || op == OP_SLOAD {
        1
    } else if 0x58 <= op && op <= 0x5a {
        1
    } else if OP_PUSH0 <= op && op <= OP_PUSH32 {
        1
    } else if OP_DUP1 <= op && op <= OP_DUP16 {
        (op - 0x7f + 1) as nat
    } else if OP_SWAP1 <= op && op <= OP_SWAP16 {
        (op - 0x8f + 1) as nat
    } else if op == OP_CREATE || op == OP_CREATE2 {
        1
    } else if op == OP_CALL || op == OP_CALLCODE || op == OP_DELEGATECALL || op == OP_STATICCALL {
        1
    } else {
        0
    }
}

pub fn op_pops_of(op: u8) -> (n: usize)
    ensures
        n == op_pops(op),
{
    if op == OP_STOP {
        0
    } else if 0x01 <= op && op <= 0x07 {
        2
    } else if op == 0x08 || op == 0x09 {
        3
    } else if op == 0x0a || op == 0x0b {
        2
    } else if 0x10 <= op && op <= 0x14 {
        2
    } else if op == OP_ISZERO {
        1
    } else if 0x16 <= op && op <= 0x18 {
        2
    } else if op == 0x19 {
        1
    } else if 0x1a <= op && op <= 0x1d {
        2
    } else if op == OP_SHA3 {
        2
    } else if op == 0x31 {
        1
    } else if op == OP_CALLDATALOAD {
        1
    } else if op == 0x37 {
        3
    } else if op == 0x39 {
        3
    } else if op == 0x3b {
        1
    } else if op == 0x3c {
        4
    } else if op == 0x3e {
        3
    } else if op == 0x3f {
        1
    } else if op == 0x40 {
        1
    } else if op == OP_POP {
        1
    } else if op == OP_MLOAD {
        1
    } else if op == OP_MSTORE || op == OP_MSTORE8 {
        2
    } else if op == OP_SLOAD {
        1
    } else if op == OP_SSTORE {
        2
    } else if op == OP_JUMP {
        1
    } else if op == OP_JUMPI {
        2
    } else if OP_DUP1 <= op && op <= OP_DUP16 {
        (op - 0x7f) as usize
    } else if OP_SWAP1 <= op && op <= OP_SWAP16 {
        (op - 0x8f + 1) as usize
    } else if OP_LOG0 <= op && op <= OP_LOG4 {
        (op - OP_LOG0 + 2) as usize
    } else if op == OP_CREATE {
        3
    } else if op == OP_CALL || op == OP_CALLCODE {
        7
    } else if op == OP_RETURN {
        2
    } else if op == OP_DELEGATECALL {
        6
    } else if op == OP_CREATE2 {
        4
    } else if op == OP_STATICCALL {
        6
    } else if op == OP_REVERT {
        2
    } else if op == OP_SELFDESTRUCT {
        1
    } else {
        0
    }
}

pub fn op_pushes_of(op: u8) -> (n: usize)
    ensures
        n == op_pushes(op),
{
    if 0x01 <= op && op <= 0x0b {
        1
    } else if 0x10 <= op && op <= 0x1d {
        1
    } else if op == OP_SHA3 {
        1
    } else if 0x30 <= op && op <= 0x3f && op != 0x37 && op != 0x39 && op != 0x3e {
        1
    } else if 0x40 <= op && op <= 0x48 {
        1
    } else if op == OP_MLOAD || op == OP_SLOAD {
        1
    } else if 0x58 <= op && op <= 0x5a {
        1
    } else if OP_PUSH0 <= op && op <= OP_PUSH32 {
        1
    } else if OP_DUP1 <= op && op <= OP_DUP16 {
        (op - 0x7f + 1) as usize
    } else if OP_SWAP1 <= op && op <= OP_SWAP16 {
        (op - 0x8f + 1) as usize
    } else if op == OP_CREATE || op == OP_CREATE2 {
        1
    } else if op == OP_CALL || op == OP_CALLCODE || op == OP_DELEGATECALL || op == OP_STATICCALL {
        1
    } else {
        0
    }
}

/// True of the push-class opcodes, which place an immediate constant on the
/// stack.
pub open spec fn is_push(op: u8) -> bool {
    OP_PUSH0 <= op && op <= OP_PUSH32
}

pub fn is_push_op(op: u8) -> (r: bool)
    ensures
        r == is_push(op),
{
    OP_PUSH0 <= op && op <= OP_PUSH32
}

/// True of the opcodes the symbolic machine renders as an operation node:
/// arithmetic, comparison, bitwise, and the hash opcode.
pub open spec fn is_operation(op: u8) -> bool {
    (0x01 <= op && op <= 0x0b) || (0x10 <= op && op <= 0x1d) || op == OP_SHA3
}

pub fn is_operation_op(op: u8) -> (r: bool)
    ensures
        r == is_operation(op),
{
    (0x01 <= op && op <= 0x0b) || (0x10 <= op && op <= 0x1d) || op == OP_SHA3
}

/// True of the call-family opcodes, whose result is a fresh placeholder
/// variable tied to the call site.
pub open spec fn is_call_family(op: u8) -> bool {
    ||| op == OP_CREATE
    ||| op == OP_CALL
    ||| op == OP_CALLCODE
    ||| op == OP_DELEGATECALL
    ||| op == OP_CREATE2
    ||| op == OP_STATICCALL
}

pub fn is_call_family_op(op: u8) -> (r: bool)
    ensures
        r == is_call_family(op),
{
    op == OP_CREATE || op == OP_CALL || op == OP_CALLCODE || op == OP_DELEGATECALL
        || op == OP_CREATE2 || op == OP_STATICCALL
}

} // verus!
