//! The symbolic stack machine: abstract interpretation of one basic block.
//!
//! The machine runs over symbolic expressions, not concrete values. Memory
//! and storage are association lists from constant offsets to expressions;
//! a store at a symbolic offset conservatively forgets everything it might
//! overlap. Stack underflow and overflow are block-local failures: the block
//! becomes a terminal malformed node, never an abort of the whole analysis.

use vstd::prelude::*;
use vstd::pervasive::VecAdditionalExecFns;
use crate::word::{Word, word_from_bytes, word_from_be};
use crate::expr::{SymbolicExpression, OpKind, op_kind, op_kind_of, fold_binary, fold_unary, spec_fold_binary, spec_fold_unary};
use crate::decoder::{Instruction, InstrModel};
use crate::opcode::{
    is_terminator, is_defined, is_defined_op, is_push, is_push_op, is_operation, is_operation_op, op_pops,
    op_pushes, op_pops_of, op_pushes_of, is_call_family_op, OP_STOP, OP_CALLDATALOAD, OP_MLOAD,
    OP_MSTORE, OP_MSTORE8, OP_SLOAD, OP_SSTORE, OP_JUMP, OP_JUMPI, OP_DUP1, OP_DUP16, OP_SWAP1,
    OP_SWAP16, OP_LOG0, OP_LOG4, OP_RETURN, OP_REVERT, OP_INVALID, OP_SELFDESTRUCT,
};

verus! {

/// The bound on stack depth; deeper growth is a detectable failure.
pub const STACK_LIMIT: usize = 1024;

/// The abstract state at one program point: the symbolic stack and the
/// modeled fragments of memory and storage, keyed by constant offsets.
pub struct MachineState {
    pub stack: Vec<SymbolicExpression>,
    pub memory: Vec<(Word, SymbolicExpression)>,
    pub storage: Vec<(Word, SymbolicExpression)>,
}

/// The mathematical shape of a machine state.
pub ghost struct StateModel {
    pub stack: Seq<SymbolicExpression>,
    pub memory: Seq<(Word, SymbolicExpression)>,
    pub storage: Seq<(Word, SymbolicExpression)>,
}

impl View for MachineState {
    type V = StateModel;

    open spec fn view(&self) -> StateModel {
        StateModel { stack: self.stack@, memory: self.memory@, storage: self.storage@ }
    }
}

pub fn empty_state() -> (s: MachineState)
    ensures
        s@.stack.len() == 0,
        s@.memory.len() == 0,
        s@.storage.len() == 0,
{
    MachineState { stack: Vec::new(), memory: Vec::new(), storage: Vec::new() }
}

/// Clones a vector of expressions, element for element.
pub fn clone_exprs(v: &Vec<SymbolicExpression>) -> (r: Vec<SymbolicExpression>)
    ensures
        r@ == v@,
{
    let mut r: Vec<SymbolicExpression> = Vec::new();
    let mut i: usize = 0;
    while i < v.len()
        invariant
            i <= v@.len(),
            r@ == v@.subrange(0, i as int),
        decreases v@.len() - i,
    {
        r.push(v[i].clone());
        i = i + 1;
        proof {
            assert(r@ =~= v@.subrange(0, i as int));
        }
    }
    proof {
        assert(v@.subrange(0, v@.len() as int) =~= v@);
    }
    r
}

fn clone_pairs(v: &Vec<(Word, SymbolicExpression)>) -> (r: Vec<(Word, SymbolicExpression)>)
    ensures
        r@ == v@,
{
    let mut r: Vec<(Word, SymbolicExpression)> = Vec::new();
    let mut i: usize = 0;
    while i < v.len()
        invariant
            i <= v@.len(),
            r@ == v@.subrange(0, i as int),
        decreases v@.len() - i,
    {
        let p = &v[i];
        r.push((p.0, p.1.clone()));
        i = i + 1;
        proof {
            assert(r@ =~= v@.subrange(0, i as int));
        }
    }
    proof {
        assert(v@.subrange(0, v@.len() as int) =~= v@);
    }
    r
}

/// Clones a machine state; the clone has the same model.
pub fn clone_state(s: &MachineState) -> (r: MachineState)
    ensures
        r@ == s@,
{
    MachineState {
        stack: clone_exprs(&s.stack),
        memory: clone_pairs(&s.memory),
        storage: clone_pairs(&s.storage),
    }
}

/// One pseudocode-level side effect collected while interpreting a block.
#[derive(Debug, PartialEq, Eq)]
pub enum Statement {
    /// A store to memory: offset, value.
    MemoryWrite(SymbolicExpression, SymbolicExpression),
    /// A store to persistent storage: slot, value.
    StorageWrite(SymbolicExpression, SymbolicExpression),
    /// A call-family instruction: call site, opcode, popped arguments.
    CallEffect(usize, u8, Vec<SymbolicExpression>),
    /// A log instruction with its popped arguments.
    LogEffect(Vec<SymbolicExpression>),
    /// Definition of a hoisted temporary in decompiled output.
    Assign(usize, SymbolicExpression),
    /// A normal halt returning the memory range: offset, length.
    ReturnStmt(SymbolicExpression, SymbolicExpression),
    /// A revert returning the memory range: offset, length.
    RevertStmt(SymbolicExpression, SymbolicExpression),
    /// Self-destruction paying out to the popped beneficiary.
    SelfDestructStmt(SymbolicExpression),
    /// A plain halt.
    HaltStmt,
}

/// The mathematical shape of a statement.
pub ghost enum StmtModel {
    MemoryWrite(SymbolicExpression, SymbolicExpression),
    StorageWrite(SymbolicExpression, SymbolicExpression),
    CallEffect(usize, u8, Seq<SymbolicExpression>),
    LogEffect(Seq<SymbolicExpression>),
    Assign(usize, SymbolicExpression),
    ReturnStmt(SymbolicExpression, SymbolicExpression),
    RevertStmt(SymbolicExpression, SymbolicExpression),
    SelfDestructStmt(SymbolicExpression),
    HaltStmt,
}

impl View for Statement {
    type V = StmtModel;

    open spec fn view(&self) -> StmtModel {
        match self {
            Statement::MemoryWrite(a, b) => StmtModel::MemoryWrite(*a, *b),
            Statement::StorageWrite(a, b) => StmtModel::StorageWrite(*a, *b),
            Statement::CallEffect(pc, op, args) => StmtModel::CallEffect(*pc, *op, args@),
            Statement::LogEffect(args) => StmtModel::LogEffect(args@),
            Statement::Assign(i, e) => StmtModel::Assign(*i, *e),
            Statement::ReturnStmt(a, b) => StmtModel::ReturnStmt(*a, *b),
            Statement::RevertStmt(a, b) => StmtModel::RevertStmt(*a, *b),
            Statement::SelfDestructStmt(a) => StmtModel::SelfDestructStmt(*a),
            Statement::HaltStmt => StmtModel::HaltStmt,
        }
    }
}

impl Clone for Statement {
    /// A clone has the same model as the original.
    fn clone(&self) -> (res: Self)
        ensures
            res@ == self@,
    {
        match self {
            Statement::MemoryWrite(a, b) => Statement::MemoryWrite(a.clone(), b.clone()),
            Statement::StorageWrite(a, b) => Statement::StorageWrite(a.clone(), b.clone()),
            Statement::CallEffect(pc, op, args) => Statement::CallEffect(
                *pc,
                *op,
                clone_exprs(args),
            ),
            Statement::LogEffect(args) => Statement::LogEffect(clone_exprs(args)),
            Statement::Assign(i, e) => Statement::Assign(*i, e.clone()),
            Statement::ReturnStmt(a, b) => Statement::ReturnStmt(a.clone(), b.clone()),
            Statement::RevertStmt(a, b) => Statement::RevertStmt(a.clone(), b.clone()),
            Statement::SelfDestructStmt(a) => Statement::SelfDestructStmt(a.clone()),
            Statement::HaltStmt => Statement::HaltStmt,
        }
    }
}

/// True when `w` is at most `v` as a 256-bit value.
fn word_le(a: Word, b: Word) -> bool {
    a.hi < b.hi || (a.hi == b.hi && a.lo <= b.lo)
}

/// `w + d`, or `None` on 256-bit overflow.
fn word_add_small(w: Word, d: u128) -> Option<Word> {
    if w.lo <= u128::MAX - d {
        Some(Word { hi: w.hi, lo: w.lo + d })
    } else if w.hi < u128::MAX {
        Some(Word { hi: w.hi + 1, lo: w.lo - (u128::MAX - d) - 1 })
    } else {
        None
    }
}

/// True when the 32-byte regions at `a` and `b` cannot overlap.
fn regions_disjoint(a: Word, b: Word) -> bool {
    let a_end = word_add_small(a, 32);
    let b_end = word_add_small(b, 32);
    match (a_end, b_end) {
        (Some(ae), Some(be)) => word_le(ae, b) || word_le(be, a),
        _ => false,
    }
}

/// The entry for key `k`, if the list holds one.
fn assoc_lookup(entries: &Vec<(Word, SymbolicExpression)>, k: Word) -> Option<SymbolicExpression> {
    let mut i: usize = 0;
    while i < entries.len()
        decreases entries@.len() - i,
    {
        let p = &entries[i];
        if p.0 == k {
            return Some(p.1.clone());
        }
        i = i + 1;
    }
    None
}

/// The memory list after a 32-byte store at constant offset `w`: entries the
/// store might overlap are forgotten; `val` (if any) is recorded at `w`.
fn mem_after_store(
    entries: &Vec<(Word, SymbolicExpression)>,
    w: Word,
    val: Option<&SymbolicExpression>,
) -> Vec<(Word, SymbolicExpression)> {
    let mut kept: Vec<(Word, SymbolicExpression)> = Vec::new();
    let mut i: usize = 0;
    while i < entries.len()
        decreases entries@.len() - i,
    {
        let p = &entries[i];
        if regions_disjoint(p.0, w) {
            kept.push((p.0, p.1.clone()));
        }
        i = i + 1;
    }
    match val {
        Some(e) => {
            kept.push((w, e.clone()));
        },
        None => {},
    }
    kept
}

/// The storage list after a store to constant slot `w`.
fn storage_after_store(
    entries: &Vec<(Word, SymbolicExpression)>,
    w: Word,
    val: &SymbolicExpression,
) -> Vec<(Word, SymbolicExpression)> {
    let mut kept: Vec<(Word, SymbolicExpression)> = Vec::new();
    let mut i: usize = 0;
    while i < entries.len()
        decreases entries@.len() - i,
    {
        let p = &entries[i];
        if !(p.0 == w) {
            kept.push((p.0, p.1.clone()));
        }
        i = i + 1;
    }
    kept.push((w, val.clone()));
    kept
}

/// The constant a symbolic expression denotes, if it is a constant.
fn as_constant(e: &SymbolicExpression) -> (r: Option<Word>)
    ensures
        match r {
            Some(w) => e == SymbolicExpression::Constant(w),
            None => !(e is Constant),
        },
{
    match e {
        SymbolicExpression::Constant(w) => Some(*w),
        _ => None,
    }
}

/// True of an operation node with exactly this kind and operand.
pub open spec fn is_unary_node_of(e: SymbolicExpression, k: OpKind, a: SymbolicExpression) -> bool {
    e matches SymbolicExpression::Unary(k2, x) && k2 == k && *x == a
}

/// True of an operation node with exactly this kind and ordered operands.
pub open spec fn is_binary_node_of(
    e: SymbolicExpression,
    k: OpKind,
    a: SymbolicExpression,
    b: SymbolicExpression,
) -> bool {
    e matches SymbolicExpression::Binary(k2, x, y) && k2 == k && *x == a && *y == b
}

/// True of an operation node with exactly this kind and ordered operands.
pub open spec fn is_ternary_node_of(
    e: SymbolicExpression,
    k: OpKind,
    a: SymbolicExpression,
    b: SymbolicExpression,
    c: SymbolicExpression,
) -> bool {
    e matches SymbolicExpression::Ternary(k2, x, y, z) && k2 == k && *x == a && *y == b && *z == c
}

/// What a unary operation leaves on top of the stack: the folded constant
/// where the operand is a known word the fold covers, else the operation
/// node over the popped operand.
pub open spec fn operation_result_1(k: OpKind, a: SymbolicExpression, top: SymbolicExpression) -> bool {
    match a {
        SymbolicExpression::Constant(wa) => match spec_fold_unary(k, wa) {
            Some(f) => top == SymbolicExpression::Constant(f),
            None => is_unary_node_of(top, k, a),
        },
        _ => is_unary_node_of(top, k, a),
    }
}

/// What a binary operation leaves on top of the stack; the first operand is
/// the one popped first (nearer the top).
pub open spec fn operation_result_2(
    k: OpKind,
    a: SymbolicExpression,
    b: SymbolicExpression,
    top: SymbolicExpression,
) -> bool {
    match (a, b) {
        (SymbolicExpression::Constant(wa), SymbolicExpression::Constant(wb)) => match spec_fold_binary(k, wa, wb) {
            Some(f) => top == SymbolicExpression::Constant(f),
            None => is_binary_node_of(top, k, a, b),
        },
        _ => is_binary_node_of(top, k, a, b),
    }
}

/// The stack depth after the first `k` instructions of a block, run from
/// depth `d`, or `None` once a step underflows or overflows: the depth
/// discipline of the machine is a pure function of the entry depth.
pub open spec fn spec_depth_after(d: nat, instrs: Seq<InstrModel>, k: int) -> Option<nat>
    decreases k,
{
    if k <= 0 {
        Some(d)
    } else {
        match spec_depth_after(d, instrs, k - 1) {
            None => None,
            Some(cur) => {
                let op = instrs[k - 1].opcode;
                if cur < op_pops(op) || cur - op_pops(op) + op_pushes(op) > STACK_LIMIT as nat {
                    None
                } else {
                    Some((cur - op_pops(op) + op_pushes(op)) as nat)
                }
            },
        }
    }
}

/// Exactly when interpreting a block from entry depth `d` fails: a step of
/// the straight-line prefix underflows or overflows, or the terminator
/// lacks its operands. This is the §-local failure the machine isolates.
pub open spec fn spec_block_malformed(d: nat, instrs: Seq<InstrModel>) -> bool
    recommends
        instrs.len() >= 1,
{
    let n = instrs.len() as int;
    let last = instrs[n - 1].opcode;
    if is_terminator(last) {
        match spec_depth_after(d, instrs, n - 1) {
            None => true,
            Some(cur) => cur < op_pops(last),
        }
    } else {
        spec_depth_after(d, instrs, n) is None
    }
}

proof fn lemma_depth_none_sticks(d: nat, instrs: Seq<InstrModel>, k1: int, k2: int)
    requires
        0 <= k1 <= k2,
        spec_depth_after(d, instrs, k1) is None,
    ensures
        spec_depth_after(d, instrs, k2) is None,
    decreases k2 - k1,
{
    if k2 > k1 {
        lemma_depth_none_sticks(d, instrs, k1, k2 - 1);
    }
}

/// The result of one symbolic step: the next state with an optional rendered
/// side effect, or a block-local failure.
pub enum StepResult {
    Next(MachineState, Option<Statement>),
    Failure,
}

/// One symbolic step over a non-terminator instruction.
///
/// The step fails exactly on stack underflow (fewer operands than the opcode
/// pops) or overflow (growth past the depth bound). A push-class instruction
/// pushes precisely the constant its operand denotes and touches nothing
/// else; an operation-class instruction pushes precisely the folded
/// constant where its operands are known words the fold covers, else the
/// operation node over the popped operands, leaving the rest of the stack
/// unchanged; every step changes the depth by the opcode's declared effect.
pub fn step(state: MachineState, instr: &Instruction) -> (r: StepResult)
    requires
        !is_terminator(instr@.opcode),
    ensures
        (r is Failure <==> (state@.stack.len() < op_pops(instr@.opcode) || state@.stack.len()
            - op_pops(instr@.opcode) + op_pushes(instr@.opcode) > STACK_LIMIT as nat)),
        (r matches StepResult::Next(s2, _) ==> s2@.stack.len() == state@.stack.len() - op_pops(
            instr@.opcode,
        ) + op_pushes(instr@.opcode)),
        (is_push(instr@.opcode) ==> (r matches StepResult::Next(s2, st) ==> s2@.stack
            == state@.stack.push(SymbolicExpression::Constant(word_from_be(instr@.operand)))
            && st is None)),
        (is_operation(instr@.opcode) ==> (r matches StepResult::Next(s2, st) ==> ({
            let n = state@.stack.len() as int;
            let pops = op_pops(instr@.opcode) as int;
            let k = op_kind(instr@.opcode);
            &&& st is None
            &&& s2@.stack.take(n - pops) == state@.stack.take(n - pops)
            &&& (pops == 1 ==> operation_result_1(k, state@.stack[n - 1], s2@.stack.last()))
            &&& (pops == 2 ==> operation_result_2(
                k,
                state@.stack[n - 1],
                state@.stack[n - 2],
                s2@.stack.last(),
            ))
            &&& (pops == 3 ==> is_ternary_node_of(
                s2@.stack.last(),
                k,
                state@.stack[n - 1],
                state@.stack[n - 2],
                state@.stack[n - 3],
            ))
        }))),
{
    let op = instr.opcode;
    let pops = op_pops_of(op);
    let pushes = op_pushes_of(op);
    let len = state.stack.len();
    if len < pops {
        return StepResult::Failure;
    }
    assert(op_pushes(instr@.opcode) <= 17);
    if len - pops > STACK_LIMIT - pushes {
        return StepResult::Failure;
    }
    let mut state = state;
    if is_push_op(op) {
        let w = word_from_bytes(instr.operand.as_slice());
        state.stack.push(SymbolicExpression::Constant(w));
        StepResult::Next(state, None)
    } else if OP_DUP1 <= op && op <= OP_DUP16 {
        let n = (op - 0x7f) as usize;
        let e = state.stack[len - n].clone();
        state.stack.push(e);
        StepResult::Next(state, None)
    } else if OP_SWAP1 <= op && op <= OP_SWAP16 {
        let n = (op - 0x8f) as usize;
        let a = state.stack[len - 1].clone();
        let b = state.stack[len - 1 - n].clone();
        state.stack.set(len - 1, b);
        state.stack.set(len - 1 - n, a);
        StepResult::Next(state, None)
    } else if op == OP_CALLDATALOAD {
        let off = state.stack.pop().unwrap();
        state.stack.push(SymbolicExpression::CalldataVar(Box::new(off)));
        StepResult::Next(state, None)
    } else if op == OP_MLOAD {
        let off = state.stack.pop().unwrap();
        let cw = as_constant(&off);
        match cw {
            Some(w) => {
                match assoc_lookup(&state.memory, w) {
                    Some(e) => {
                        state.stack.push(e);
                    },
                    None => {
                        state.stack.push(SymbolicExpression::MemoryVar(Box::new(off)));
                    },
                }
            },
            None => {
                state.stack.push(SymbolicExpression::MemoryVar(Box::new(off)));
            },
        }
        StepResult::Next(state, None)
    } else if op == OP_MSTORE || op == OP_MSTORE8 {
        let off = state.stack.pop().unwrap();
        let val = state.stack.pop().unwrap();
        let stmt = Statement::MemoryWrite(off.clone(), val.clone());
        let cw = as_constant(&off);
        match cw {
            Some(w) => {
                let stored = if op == OP_MSTORE {
                    mem_after_store(&state.memory, w, Some(&val))
                } else {
                    mem_after_store(&state.memory, w, None)
                };
                state.memory = stored;
            },
            None => {
                state.memory.clear();
            },
        }
        StepResult::Next(state, Some(stmt))
    } else if op == OP_SLOAD {
        let slot = state.stack.pop().unwrap();
        let cw = as_constant(&slot);
        match cw {
            Some(w) => {
                match assoc_lookup(&state.storage, w) {
                    Some(e) => {
                        state.stack.push(e);
                    },
                    None => {
                        state.stack.push(SymbolicExpression::StorageVar(Box::new(slot)));
                    },
                }
            },
            None => {
                state.stack.push(SymbolicExpression::StorageVar(Box::new(slot)));
            },
        }
        StepResult::Next(state, None)
    } else if op == OP_SSTORE {
        let slot = state.stack.pop().unwrap();
        let val = state.stack.pop().unwrap();
        let stmt = Statement::StorageWrite(slot.clone(), val.clone());
        let cw = as_constant(&slot);
        match cw {
            Some(w) => {
                let stored = storage_after_store(&state.storage, w, &val);
                state.storage = stored;
            },
            None => {
                state.storage.clear();
            },
        }
        StepResult::Next(state, Some(stmt))
    } else if is_call_family_op(op) {
        let mut args: Vec<SymbolicExpression> = Vec::new();
        let mut j: usize = 0;
        while j < pops
            invariant
                j <= pops,
                pops <= len,
                state@.stack.len() == len - j,
            decreases pops - j,
        {
            args.push(state.stack.pop().unwrap());
            j = j + 1;
        }
        state.stack.push(SymbolicExpression::ReturnVar(instr.program_counter));
        StepResult::Next(state, Some(Statement::CallEffect(instr.program_counter, op, args)))
    } else if OP_LOG0 <= op && op <= OP_LOG4 {
        let mut args: Vec<SymbolicExpression> = Vec::new();
        let mut j: usize = 0;
        while j < pops
            invariant
                j <= pops,
                pops <= len,
                state@.stack.len() == len - j,
            decreases pops - j,
        {
            args.push(state.stack.pop().unwrap());
            j = j + 1;
        }
        StepResult::Next(state, Some(Statement::LogEffect(args)))
    } else if is_operation_op(op) {
        let kind = op_kind_of(op);
        if pops == 1 {
            let a = state.stack.pop().unwrap();
            let ca = as_constant(&a);
            let node = match ca {
                Some(w) => {
                    match fold_unary(kind, w) {
                        Some(f) => SymbolicExpression::Constant(f),
                        None => SymbolicExpression::Unary(kind, Box::new(a)),
                    }
                },
                None => SymbolicExpression::Unary(kind, Box::new(a)),
            };
            state.stack.push(node);
            StepResult::Next(state, None)
        } else if pops == 2 {
            let a = state.stack.pop().unwrap();
            let b = state.stack.pop().unwrap();
            let ca = as_constant(&a);
            let cb = as_constant(&b);
            let node = match (ca, cb) {
                (Some(wa), Some(wb)) => {
                    match fold_binary(kind, wa, wb) {
                        Some(f) => SymbolicExpression::Constant(f),
                        None => SymbolicExpression::Binary(kind, Box::new(a), Box::new(b)),
                    }
                },
                _ => SymbolicExpression::Binary(kind, Box::new(a), Box::new(b)),
            };
            state.stack.push(node);
            StepResult::Next(state, None)
        } else {
            assert(op_pops(instr@.opcode) == 3);
            let a = state.stack.pop().unwrap();
            let b = state.stack.pop().unwrap();
            let c = state.stack.pop().unwrap();
            state.stack.push(
                SymbolicExpression::Ternary(kind, Box::new(a), Box::new(b), Box::new(c)),
            );
            StepResult::Next(state, None)
        }
    } else {
        let mut j: usize = 0;
        while j < pops
            invariant
                j <= pops,
                pops <= len,
                state@.stack.len() == len - j,
            decreases pops - j,
        {
            let _ = state.stack.pop();
            j = j + 1;
        }
        if pushes == 1 {
            state.stack.push(SymbolicExpression::EnvVar(op));
        } else {
            assert(op_pushes(instr@.opcode) == 0);
        }
        StepResult::Next(state, None)
    }
}

/// How a basic block leaves: falling through, jumping to a popped target,
/// branching, or halting (with the popped operands of the halt).
pub enum ExitInfo {
    FallsThrough,
    Jump(SymbolicExpression),
    /// Target expression, then branch condition.
    JumpCond(SymbolicExpression, SymbolicExpression),
    Stop,
    /// Returned memory range: offset, length.
    ReturnData(SymbolicExpression, SymbolicExpression),
    /// Reverted memory range: offset, length.
    RevertData(SymbolicExpression, SymbolicExpression),
    InvalidHalt,
    SelfDestructHalt(SymbolicExpression),
}

/// The result of interpreting one basic block from a given entry state.
pub enum BlockOutcome {
    Done(MachineState, Vec<Statement>, ExitInfo),
    Malformed,
}

/// Interprets one basic block. The exit is classified exactly by the
/// block's last opcode; a jump whose target was pushed by the directly
/// preceding push instruction exits with precisely that constant target;
/// and the block fails exactly when `spec_block_malformed` says the depth
/// discipline fails from the entry depth.
pub fn analyze_block(entry: MachineState, instrs: &Vec<Instruction>) -> (r: BlockOutcome)
    requires
        instrs@.len() >= 1,
        forall|k: int| 0 <= k < instrs@.len() - 1 ==> !is_terminator(#[trigger] instrs@[k]@.opcode),
    ensures
        (r matches BlockOutcome::Done(_, _, exit) ==> {
            let last = instrs@[instrs@.len() - 1]@.opcode;
            &&& (last == OP_JUMP ==> exit is Jump)
            &&& (last == OP_JUMPI ==> exit is JumpCond)
            &&& (last == OP_STOP ==> exit is Stop)
            &&& (last == OP_RETURN ==> exit is ReturnData)
            &&& (last == OP_REVERT ==> exit is RevertData)
            &&& ((last == OP_INVALID || !is_defined(last)) ==> exit is InvalidHalt)
            &&& (last == OP_SELFDESTRUCT ==> exit is SelfDestructHalt)
            &&& (!is_terminator(last) ==> exit is FallsThrough)
        }),
        (instrs@.len() >= 2 && instrs@[instrs@.len() - 1]@.opcode == OP_JUMP && is_push(
            instrs@[instrs@.len() - 2]@.opcode,
        ) ==> (r matches BlockOutcome::Done(_, _, exit) ==> exit == ExitInfo::Jump(
            SymbolicExpression::Constant(word_from_be(instrs@[instrs@.len() - 2]@.operand)),
        ))),
        (instrs@.len() >= 2 && instrs@[instrs@.len() - 1]@.opcode == OP_JUMPI && is_push(
            instrs@[instrs@.len() - 2]@.opcode,
        ) ==> (r matches BlockOutcome::Done(_, _, exit) ==> (exit matches ExitInfo::JumpCond(
            t,
            _,
        ) ==> t == SymbolicExpression::Constant(
            word_from_be(instrs@[instrs@.len() - 2]@.operand),
        )))),
        (r is Malformed <==> spec_block_malformed(
            entry@.stack.len() as nat,
            crate::decoder::instr_models(instrs@),
        )),
        (entry@.stack.len() <= STACK_LIMIT ==> (r matches BlockOutcome::Done(s2, _, _) ==> s2@.stack.len()
            <= STACK_LIMIT as nat)),
{
    let n = instrs.len();
    let ghost m = crate::decoder::instr_models(instrs@);
    let ghost d0 = entry@.stack.len() as nat;
    let mut state = entry;
    let mut stmts: Vec<Statement> = Vec::new();
    let mut i: usize = 0;
    while i < n - 1
        invariant
            1 <= n,
            n == instrs@.len(),
            m == crate::decoder::instr_models(instrs@),
            d0 == entry@.stack.len() as nat,
            i <= n - 1,
            forall|k: int| 0 <= k < instrs@.len() - 1 ==> !is_terminator(
                #[trigger] instrs@[k]@.opcode,
            ),
            (i > 0 && is_push(instrs@[i - 1]@.opcode) ==> state@.stack.len() > 0
                && state@.stack.last() == SymbolicExpression::Constant(
                word_from_be(instrs@[i - 1]@.operand),
            )),
            spec_depth_after(d0, m, i as int) == Some(state@.stack.len() as nat),
            state@.stack.len() <= STACK_LIMIT || (i == 0 && state@.stack.len() == d0),
        decreases n - 1 - i,
    {
        let ins: &Instruction = &instrs[i];
        let ghost pre_len = state@.stack.len() as nat;
        let res = step(state, ins);
        match res {
            StepResult::Next(s2, st) => {
                state = s2;
                match st {
                    Some(stmt) => {
                        stmts.push(stmt);
                    },
                    None => {},
                }
            },
            StepResult::Failure => {
                proof {
                    assert(m[i as int] == instrs@[i as int]@);
                    assert(spec_depth_after(d0, m, i as int) == Some(pre_len));
                    assert(spec_depth_after(d0, m, i + 1) is None);
                    lemma_depth_none_sticks(d0, m, i + 1, m.len() - 1);
                    lemma_depth_none_sticks(d0, m, i + 1, m.len() as int);
                    assert(m[m.len() - 1] == instrs@[instrs@.len() - 1]@);
                    assert(spec_block_malformed(d0, m));
                }
                return BlockOutcome::Malformed;
            },
        }
        i = i + 1;
        proof {
            assert(m[i - 1] == instrs@[i - 1]@);
            assert(spec_depth_after(d0, m, i as int) == Some(state@.stack.len() as nat));
        }
    }
    let last: &Instruction = &instrs[n - 1];
    let op = last.opcode;
    proof {
        assert(m[n - 1] == instrs@[n - 1]@);
        assert(spec_depth_after(d0, m, n - 1) == Some(state@.stack.len() as nat));
        if is_terminator(op) {
            assert(spec_block_malformed(d0, m) <==> state@.stack.len() < op_pops(op));
        }
    }
    if op == OP_JUMP {
        if state.stack.len() < 1 {
            return BlockOutcome::Malformed;
        }
        let t = state.stack.pop().unwrap();
        BlockOutcome::Done(state, stmts, ExitInfo::Jump(t))
    } else if op == OP_JUMPI {
        if state.stack.len() < 2 {
            return BlockOutcome::Malformed;
        }
        let t = state.stack.pop().unwrap();
        let c = state.stack.pop().unwrap();
        BlockOutcome::Done(state, stmts, ExitInfo::JumpCond(t, c))
    } else if op == OP_STOP {
        let mut stmts = stmts;
        stmts.push(Statement::HaltStmt);
        BlockOutcome::Done(state, stmts, ExitInfo::Stop)
    } else if op == OP_RETURN {
        if state.stack.len() < 2 {
            return BlockOutcome::Malformed;
        }
        let off = state.stack.pop().unwrap();
        let sz = state.stack.pop().unwrap();
        let mut stmts = stmts;
        stmts.push(Statement::ReturnStmt(off.clone(), sz.clone()));
        BlockOutcome::Done(state, stmts, ExitInfo::ReturnData(off, sz))
    } else if op == OP_REVERT {
        if state.stack.len() < 2 {
            return BlockOutcome::Malformed;
        }
        let off = state.stack.pop().unwrap();
        let sz = state.stack.pop().unwrap();
        let mut stmts = stmts;
        stmts.push(Statement::RevertStmt(off.clone(), sz.clone()));
        BlockOutcome::Done(state, stmts, ExitInfo::RevertData(off, sz))
    } else if op == OP_INVALID || !is_defined_op(op) {
        let mut stmts = stmts;
        stmts.push(Statement::RevertStmt(
            SymbolicExpression::Constant(Word { hi: 0, lo: 0 }),
            SymbolicExpression::Constant(Word { hi: 0, lo: 0 }),
        ));
        BlockOutcome::Done(state, stmts, ExitInfo::InvalidHalt)
    } else if op == OP_SELFDESTRUCT {
        if state.stack.len() < 1 {
            return BlockOutcome::Malformed;
        }
        let a = state.stack.pop().unwrap();
        let mut stmts = stmts;
        stmts.push(Statement::SelfDestructStmt(a.clone()));
        BlockOutcome::Done(state, stmts, ExitInfo::SelfDestructHalt(a))
    } else {
        let res = step(state, last);
        match res {
            StepResult::Next(s2, st) => {
                let mut stmts = stmts;
                match st {
                    Some(stmt) => {
                        stmts.push(stmt);
                    },
                    None => {},
                }
                BlockOutcome::Done(s2, stmts, ExitInfo::FallsThrough)
            },
            StepResult::Failure => BlockOutcome::Malformed,
        }
    }
}

} // verus!
