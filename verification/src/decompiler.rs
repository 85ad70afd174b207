//! The decompiler: selector-dispatch detection and control-flow
//! structuring.
//!
//! Function boundaries come from the dispatch pattern at program start: a
//! selector-load prologue, then a chain of branches, each comparing the
//! first four bytes of calldata against a constant selector. The chain is
//! recognized on the decoded instructions themselves (`spec_dispatch_arms`),
//! so the named functions are pinned to the input bytes. Every dispatch arm
//! becomes a named function; the remainder is the anonymous fallback.
//! Region structuring is best effort: fallthrough chains become sequences,
//! resolved conditional branches become `if` statements, back edges become
//! explicit loop markers, and everything that cannot be structured stays
//! visible as a goto-style statement, never dropped. Repeated operation
//! subexpressions in a body are hoisted into named temporaries once they
//! are referenced at least the sharing threshold's number of times.

use vstd::prelude::*;
use vstd::pervasive::VecAdditionalExecFns;
use crate::word::{
    Word, spec_word_zero, word_zero, word_from_be, word_from_bytes, spec_word_to_usize,
    word_to_usize,
};
use crate::expr::{SymbolicExpression, expr_eq};
use crate::machine::Statement;
use crate::decoder::{Instruction, InstrModel, decode_from};
use crate::cfg::{
    BasicBlock, BlockModel, ControlFlowGraph, Edge, build_cfg, imodels, concat_all,
    lemma_concat_all_push, clone_instrs,
};
use crate::opcode::{
    is_push, is_push_op, OP_CALLDATALOAD, OP_SHR, OP_DIV, OP_DUP1, OP_EQ, OP_JUMPI,
};
use crate::calldata::{ArgumentType, ElemType};

verus! {

/// One structured pseudocode statement.
#[derive(Debug, PartialEq, Eq)]
pub enum StructuredStatement {
    /// A straight-line effect from the symbolic machine.
    Effect(Statement),
    /// A conditional region: condition, then-branch.
    IfThen(SymbolicExpression, Vec<StructuredStatement>),
    /// An explicit transfer the structurer chose not to inline.
    Goto(usize),
    /// A back edge: the loop returns to an earlier block.
    LoopBack(usize),
    /// A jump whose target static analysis could not resolve.
    UnresolvedJump,
    /// A block whose symbolic execution failed.
    MalformedBlock(usize),
}

/// One recovered function.
#[derive(Debug)]
pub struct DecompiledFunction {
    /// The four-byte dispatch selector, or `None` for the fallback.
    pub selector: Option<Word>,
    /// The program counter of the function's entry block.
    pub entry_pc: usize,
    /// Heuristically inferred parameter types.
    pub parameters: Vec<ArgumentType>,
    /// The structured body.
    pub body: Vec<StructuredStatement>,
}

/// A whole decompiled module: the named functions in dispatch order, then
/// one fallback.
#[derive(Debug)]
pub struct DecompiledModule {
    pub functions: Vec<DecompiledFunction>,
}

/// True when the decoded instructions open with the selector-load prologue
/// of a dispatcher: push zero, load the first calldata word, then isolate
/// its top four bytes by a right shift of 224 bits or a division by 2^224.
pub open spec fn spec_has_selector_prologue(instrs: Seq<InstrModel>) -> bool {
    &&& instrs.len() >= 4
    &&& is_push(instrs[0].opcode)
    &&& word_from_be(instrs[0].operand) == spec_word_zero()
    &&& instrs[1].opcode == OP_CALLDATALOAD
    &&& is_push(instrs[2].opcode)
    &&& ((instrs[3].opcode == OP_SHR && word_from_be(instrs[2].operand) == (Word {
        hi: 0,
        lo: 224,
    })) || (instrs[3].opcode == OP_DIV && word_from_be(instrs[2].operand) == (Word {
        hi: 0x1_0000_0000_0000_0000_0000_0000,
        lo: 0,
    })))
}

/// The dispatch arm that starts at instruction index `i`, if the five
/// instructions there have the arm shape: duplicate the selector, push a
/// constant, compare, push the target, branch. The arm is the compared
/// selector constant and the branch target.
pub open spec fn spec_arm_at(instrs: Seq<InstrModel>, i: int) -> Option<(Word, usize)> {
    if 0 <= i && i + 5 <= instrs.len() && instrs[i].opcode == OP_DUP1 && is_push(
        instrs[i + 1].opcode,
    ) && instrs[i + 2].opcode == OP_EQ && is_push(instrs[i + 3].opcode) && instrs[i + 4].opcode
        == OP_JUMPI {
        match spec_word_to_usize(word_from_be(instrs[i + 3].operand)) {
            Some(t) => Some((word_from_be(instrs[i + 1].operand), t)),
            None => None,
        }
    } else {
        None
    }
}

/// The dispatch arms of the chain that starts at instruction index `i`,
/// in order; the chain ends at the first instruction run that is not an arm.
pub open spec fn spec_arms_from(instrs: Seq<InstrModel>, i: int) -> Seq<(Word, usize)>
    decreases instrs.len() - i,
{
    if i < 0 || i + 5 > instrs.len() {
        Seq::empty()
    } else {
        match spec_arm_at(instrs, i) {
            Some(a) => seq![a] + spec_arms_from(instrs, i + 5),
            None => Seq::empty(),
        }
    }
}

/// The selector-dispatch arms of a decoded instruction sequence: the chain
/// of branches after the selector-load prologue at program start, each
/// comparing the first four bytes of calldata against a constant selector.
pub open spec fn spec_dispatch_arms(instrs: Seq<InstrModel>) -> Seq<(Word, usize)> {
    if spec_has_selector_prologue(instrs) {
        spec_arms_from(instrs, 4)
    } else {
        Seq::empty()
    }
}

/// The arm at index `i` of the flat instruction list, pinned to
/// `spec_arm_at`.
fn arm_at(flat: &Vec<Instruction>, i: usize) -> (r: Option<(Word, usize)>)
    ensures
        r == spec_arm_at(imodels(flat@), i as int),
{
    let ghost m = imodels(flat@);
    if i > flat.len() || flat.len() - i < 5 {
        return None;
    }
    proof {
        assert(m[i as int] == flat@[i as int]@);
        assert(m[i + 1] == flat@[i + 1]@);
        assert(m[i + 2] == flat@[i + 2]@);
        assert(m[i + 3] == flat@[i + 3]@);
        assert(m[i + 4] == flat@[i + 4]@);
    }
    if !(flat[i].opcode == OP_DUP1 && is_push_op(flat[i + 1].opcode) && flat[i + 2].opcode
        == OP_EQ && is_push_op(flat[i + 3].opcode) && flat[i + 4].opcode == OP_JUMPI) {
        return None;
    }
    let target_word = word_from_bytes(flat[i + 3].operand.as_slice());
    match word_to_usize(target_word) {
        Some(t) => {
            let sel = word_from_bytes(flat[i + 1].operand.as_slice());
            Some((sel, t))
        },
        None => None,
    }
}

/// The dispatch arms of the flat instruction list, pinned to
/// `spec_dispatch_arms`.
fn detect_arms(flat: &Vec<Instruction>) -> (r: Vec<(Word, usize)>)
    ensures
        r@ == spec_dispatch_arms(imodels(flat@)),
{
    let ghost m = imodels(flat@);
    if flat.len() < 4 {
        return Vec::new();
    }
    proof {
        assert(m[0] == flat@[0]@);
        assert(m[1] == flat@[1]@);
        assert(m[2] == flat@[2]@);
        assert(m[3] == flat@[3]@);
    }
    let zero_push = is_push_op(flat[0].opcode) && word_from_bytes(flat[0].operand.as_slice())
        == word_zero();
    let shift_form = flat[3].opcode == OP_SHR && word_from_bytes(flat[2].operand.as_slice())
        == (Word { hi: 0, lo: 224 });
    let div_form = flat[3].opcode == OP_DIV && word_from_bytes(flat[2].operand.as_slice())
        == (Word { hi: 0x1_0000_0000_0000_0000_0000_0000, lo: 0 });
    if !(zero_push && flat[1].opcode == OP_CALLDATALOAD && is_push_op(flat[2].opcode) && (
    shift_form || div_form)) {
        assert(!spec_has_selector_prologue(m));
        return Vec::new();
    }
    assert(spec_has_selector_prologue(m));
    let mut arms: Vec<(Word, usize)> = Vec::new();
    let mut i: usize = 4;
    proof {
        assert(arms@ + spec_arms_from(m, 4) =~= spec_arms_from(m, 4));
    }
    loop
        invariant
            m == imodels(flat@),
            spec_has_selector_prologue(m),
            4 <= i,
            arms@ + spec_arms_from(m, i as int) == spec_arms_from(m, 4),
        decreases m.len() + 5 - i,
    {
        if i > flat.len() || flat.len() - i < 5 {
            proof {
                assert(spec_arms_from(m, i as int) =~= Seq::<(Word, usize)>::empty());
                assert(arms@ + spec_arms_from(m, i as int) =~= arms@);
            }
            return arms;
        }
        match arm_at(flat, i) {
            Some(a) => {
                let ghost pre = arms@;
                arms.push(a);
                i = i + 5;
                proof {
                    assert(arms@ =~= pre.push(a));
                    assert(pre.push(a) + spec_arms_from(m, i as int) =~= pre + (seq![a]
                        + spec_arms_from(m, i as int)));
                }
            },
            None => {
                proof {
                    assert(spec_arms_from(m, i as int) =~= Seq::<(Word, usize)>::empty());
                    assert(arms@ + spec_arms_from(m, i as int) =~= arms@);
                }
                return arms;
            },
        }
    }
}

/// The concatenated instruction list of all blocks of a graph.
fn flatten_instructions(cfg: &ControlFlowGraph) -> (flat: Vec<Instruction>)
    ensures
        imodels(flat@) == concat_all(
            cfg.blocks@.map_values(|b: BasicBlock| b@).map_values(|mm: BlockModel| mm.instrs),
        ),
{
    let ghost bs = cfg.blocks@.map_values(|b: BasicBlock| b@).map_values(
        |mm: BlockModel| mm.instrs,
    );
    let mut flat: Vec<Instruction> = Vec::new();
    let mut bi: usize = 0;
    while bi < cfg.blocks.len()
        invariant
            bs == cfg.blocks@.map_values(|b: BasicBlock| b@).map_values(
                |mm: BlockModel| mm.instrs,
            ),
            bi <= cfg.blocks@.len(),
            imodels(flat@) == concat_all(bs.take(bi as int)),
        decreases cfg.blocks@.len() - bi,
    {
        let ghost pre = imodels(flat@);
        let mut piece = clone_instrs(&cfg.blocks[bi].instructions);
        flat.append(&mut piece);
        bi = bi + 1;
        proof {
            assert(imodels(flat@) =~= pre + bs[bi - 1]);
            assert(bs.take(bi as int) =~= bs.take(bi - 1).push(bs[bi - 1]));
            lemma_concat_all_push(bs.take(bi - 1), bs[bi - 1]);
        }
    }
    proof {
        assert(bs.take(bs.len() as int) =~= bs);
    }
    flat
}


/// The index of the block that starts at `pc`.
fn block_index_of(blocks: &Vec<BasicBlock>, pc: usize) -> (r: Option<usize>)
    ensures
        r matches Some(bi) ==> bi < blocks@.len() && blocks@[bi as int].start_pc == pc,
{
    let mut bi: usize = 0;
    while bi < blocks.len()
        decreases blocks@.len() - bi,
    {
        if blocks[bi].start_pc == pc {
            return Some(bi);
        }
        bi = bi + 1;
    }
    None
}

/// Structures the region reachable from block `bi`: inlines fallthrough
/// chains and forward branch targets, marks back edges as loops, and keeps
/// unresolved or revisited transfers as explicit statements.
fn structure_from(blocks: &Vec<BasicBlock>, bi: usize, visited: &mut Vec<bool>, fuel: usize) -> (r:
    Vec<StructuredStatement>)
    requires
        bi < blocks@.len(),
        old(visited)@.len() == blocks@.len(),
    ensures
        final(visited)@.len() == blocks@.len(),
        (fuel > 0 && !old(visited)@[bi as int] && blocks@[bi as int].malformed ==> r@.contains(
            StructuredStatement::MalformedBlock(blocks@[bi as int].start_pc),
        )),
        (fuel > 0 && !old(visited)@[bi as int] && !blocks@[bi as int].malformed
            && 1 <= blocks@[bi as int].exit_edges@.len() <= 2 && blocks@[bi as int].exit_edges@[0]
            is Unresolved ==> r@.contains(StructuredStatement::UnresolvedJump)),
    decreases fuel,
{
    let block = &blocks[bi];
    if fuel == 0 {
        return vec![StructuredStatement::Goto(block.start_pc)];
    }
    if visited[bi] {
        return vec![StructuredStatement::LoopBack(block.start_pc)];
    }
    visited.set(bi, true);
    let mut out: Vec<StructuredStatement> = Vec::new();
    let mut s: usize = 0;
    while s < block.statements.len()
        decreases block.statements@.len() - s,
    {
        out.push(StructuredStatement::Effect(block.statements[s].clone()));
        s = s + 1;
    }
    if block.malformed {
        out.push(StructuredStatement::MalformedBlock(block.start_pc));
        proof {
            assert(out@.last() == StructuredStatement::MalformedBlock(block.start_pc));
            assert(out@.contains(StructuredStatement::MalformedBlock(block.start_pc)));
        }
        return out;
    }
    let n_edges = block.exit_edges.len();
    if n_edges == 1 {
        match &block.exit_edges[0] {
            Edge::JumpTo(t) => {
                let t = *t;
                if t <= block.start_pc {
                    out.push(StructuredStatement::LoopBack(t));
                } else {
                    match block_index_of(blocks, t) {
                        Some(tj) => {
                            let mut sub = structure_from(blocks, tj, visited, fuel - 1);
                            out.append(&mut sub);
                        },
                        None => {
                            out.push(StructuredStatement::Goto(t));
                        },
                    }
                }
            },
            Edge::Fallthrough => {
                if bi < blocks.len() - 1 {
                    let mut sub = structure_from(blocks, bi + 1, visited, fuel - 1);
                    out.append(&mut sub);
                }
            },
            Edge::Unresolved => {
                out.push(StructuredStatement::UnresolvedJump);
                proof {
                    assert(out@.last() == StructuredStatement::UnresolvedJump);
                    assert(out@.contains(StructuredStatement::UnresolvedJump));
                }
            },
            _ => {},
        }
    } else if n_edges == 2 {
        let first_stmt: Option<StructuredStatement> = match &block.exit_edges[0] {
            Edge::JumpIf(t, c) => {
                let t = *t;
                let cond = c.clone();
                if t <= block.start_pc {
                    Some(
                        StructuredStatement::IfThen(
                            cond,
                            vec![StructuredStatement::LoopBack(t)],
                        ),
                    )
                } else {
                    match block_index_of(blocks, t) {
                        Some(tj) => {
                            let sub = structure_from(blocks, tj, visited, fuel - 1);
                            Some(StructuredStatement::IfThen(cond, sub))
                        },
                        None => Some(
                            StructuredStatement::IfThen(
                                cond,
                                vec![StructuredStatement::Goto(t)],
                            ),
                        ),
                    }
                }
            },
            Edge::Unresolved => Some(StructuredStatement::UnresolvedJump),
            _ => None,
        };
        match first_stmt {
            Some(st) => {
                out.push(st);
            },
            None => {},
        }
        proof {
            if blocks@[bi as int].exit_edges@[0] is Unresolved {
                assert(out@.last() == StructuredStatement::UnresolvedJump);
                assert(out@.contains(StructuredStatement::UnresolvedJump));
            }
        }
        let ghost pre_tail = out@;
        if bi < blocks.len() - 1 {
            let mut sub = structure_from(blocks, bi + 1, visited, fuel - 1);
            out.append(&mut sub);
        }
        proof {
            if pre_tail.contains(StructuredStatement::UnresolvedJump) {
                let w = choose|w: int|
                    0 <= w < pre_tail.len() && pre_tail[w]
                        == StructuredStatement::UnresolvedJump;
                assert(out@[w] == StructuredStatement::UnresolvedJump);
                assert(out@.contains(StructuredStatement::UnresolvedJump));
            }
        }
    }
    out
}

/// Collects the constant calldata word offsets read by an expression.
fn collect_calldata_offsets(e: &SymbolicExpression, acc: &mut Vec<usize>)
    decreases e,
{
    match e {
        SymbolicExpression::CalldataVar(off) => {
            match &**off {
                SymbolicExpression::Constant(w) => {
                    if w.hi == 0 && w.lo >= 4 && w.lo <= 4 + 32 * 64 {
                        let rel = (w.lo - 4) as usize;
                        if rel % 32 == 0 {
                            acc.push(rel / 32);
                        }
                    }
                },
                _ => {},
            }
            collect_calldata_offsets(off, acc);
        },
        SymbolicExpression::StorageVar(x) => collect_calldata_offsets(x, acc),
        SymbolicExpression::MemoryVar(x) => collect_calldata_offsets(x, acc),
        SymbolicExpression::Unary(_, x) => collect_calldata_offsets(x, acc),
        SymbolicExpression::Binary(_, x, y) => {
            collect_calldata_offsets(x, acc);
            collect_calldata_offsets(y, acc);
        },
        SymbolicExpression::Ternary(_, x, y, z) => {
            collect_calldata_offsets(x, acc);
            collect_calldata_offsets(y, acc);
            collect_calldata_offsets(z, acc);
        },
        _ => {},
    }
}

fn collect_stmt_offsets(st: &Statement, acc: &mut Vec<usize>) {
    match st {
        Statement::MemoryWrite(a, b) => {
            collect_calldata_offsets(a, acc);
            collect_calldata_offsets(b, acc);
        },
        Statement::StorageWrite(a, b) => {
            collect_calldata_offsets(a, acc);
            collect_calldata_offsets(b, acc);
        },
        Statement::CallEffect(_, _, args) => {
            let mut i: usize = 0;
            while i < args.len()
                decreases args@.len() - i,
            {
                collect_calldata_offsets(&args[i], acc);
                i = i + 1;
            }
        },
        Statement::LogEffect(args) => {
            let mut i: usize = 0;
            while i < args.len()
                decreases args@.len() - i,
            {
                collect_calldata_offsets(&args[i], acc);
                i = i + 1;
            }
        },
        Statement::Assign(_, e) => collect_calldata_offsets(e, acc),
        Statement::ReturnStmt(a, b) => {
            collect_calldata_offsets(a, acc);
            collect_calldata_offsets(b, acc);
        },
        Statement::RevertStmt(a, b) => {
            collect_calldata_offsets(a, acc);
            collect_calldata_offsets(b, acc);
        },
        Statement::SelfDestructStmt(a) => collect_calldata_offsets(a, acc),
        Statement::HaltStmt => {},
    }
}

/// Infers parameter types for a body: one 256-bit unsigned slot per
/// calldata word the body reads past the selector. Best effort only.
fn infer_parameters(body: &Vec<StructuredStatement>) -> Vec<ArgumentType> {
    let mut acc: Vec<usize> = Vec::new();
    let mut i: usize = 0;
    while i < body.len()
        decreases body@.len() - i,
    {
        match &body[i] {
            StructuredStatement::Effect(st) => collect_stmt_offsets(st, &mut acc),
            StructuredStatement::IfThen(c, _) => collect_calldata_offsets(c, &mut acc),
            _ => {},
        }
        i = i + 1;
    }
    let mut max_slot: usize = 0;
    let mut any = false;
    let mut j: usize = 0;
    while j < acc.len()
        decreases acc@.len() - j,
    {
        if acc[j] >= max_slot {
            max_slot = acc[j];
            any = true;
        }
        j = j + 1;
    }
    let mut params: Vec<ArgumentType> = Vec::new();
    if any {
        let mut k: usize = 0;
        let count = if max_slot < 64 {
            max_slot + 1
        } else {
            64
        };
        while k < count
            decreases count - k,
        {
            params.push(ArgumentType::Elementary(ElemType::Uint(256)));
            k = k + 1;
        }
    }
    params
}

/// The default sharing threshold for hoisting repeated subexpressions.
pub const HOIST_THRESHOLD: usize = 2;

/// True of expressions worth naming: operation nodes, not leaves.
fn is_hoistable(e: &SymbolicExpression) -> bool {
    match e {
        SymbolicExpression::Unary(_, _) => true,
        SymbolicExpression::Binary(_, _, _) => true,
        SymbolicExpression::Ternary(_, _, _, _) => true,
        _ => false,
    }
}

fn count_expr(e: &SymbolicExpression, acc: &mut Vec<(SymbolicExpression, usize)>)
    decreases e,
{
    if is_hoistable(e) {
        let mut i: usize = 0;
        let mut found = false;
        while i < acc.len()
            decreases acc@.len() - i,
        {
            if !found && expr_eq(&acc[i].0, e) {
                let c = acc[i].1;
                let cloned = acc[i].0.clone();
                if c < usize::MAX {
                    acc.set(i, (cloned, c + 1));
                }
                found = true;
            }
            i = i + 1;
        }
        if !found {
            acc.push((e.clone(), 1));
        }
    }
    match e {
        SymbolicExpression::CalldataVar(x) => count_expr(x, acc),
        SymbolicExpression::StorageVar(x) => count_expr(x, acc),
        SymbolicExpression::MemoryVar(x) => count_expr(x, acc),
        SymbolicExpression::Unary(_, x) => count_expr(x, acc),
        SymbolicExpression::Binary(_, x, y) => {
            count_expr(x, acc);
            count_expr(y, acc);
        },
        SymbolicExpression::Ternary(_, x, y, z) => {
            count_expr(x, acc);
            count_expr(y, acc);
            count_expr(z, acc);
        },
        _ => {},
    }
}

fn count_stmt(st: &Statement, acc: &mut Vec<(SymbolicExpression, usize)>) {
    match st {
        Statement::MemoryWrite(a, b) => {
            count_expr(a, acc);
            count_expr(b, acc);
        },
        Statement::StorageWrite(a, b) => {
            count_expr(a, acc);
            count_expr(b, acc);
        },
        Statement::CallEffect(_, _, args) => {
            let mut i: usize = 0;
            while i < args.len()
                decreases args@.len() - i,
            {
                count_expr(&args[i], acc);
                i = i + 1;
            }
        },
        Statement::LogEffect(args) => {
            let mut i: usize = 0;
            while i < args.len()
                decreases args@.len() - i,
            {
                count_expr(&args[i], acc);
                i = i + 1;
            }
        },
        Statement::Assign(_, e) => count_expr(e, acc),
        Statement::ReturnStmt(a, b) => {
            count_expr(a, acc);
            count_expr(b, acc);
        },
        Statement::RevertStmt(a, b) => {
            count_expr(a, acc);
            count_expr(b, acc);
        },
        Statement::SelfDestructStmt(a) => count_expr(a, acc),
        Statement::HaltStmt => {},
    }
}

/// Replaces every occurrence of a hoisted expression by its temporary.
fn substitute(e: &SymbolicExpression, temps: &Vec<SymbolicExpression>) -> (r: SymbolicExpression)
    decreases e,
{
    let mut i: usize = 0;
    while i < temps.len()
        decreases temps@.len() - i,
    {
        if expr_eq(&temps[i], e) {
            return SymbolicExpression::Temp(i);
        }
        i = i + 1;
    }
    match e {
        SymbolicExpression::CalldataVar(x) => SymbolicExpression::CalldataVar(
            Box::new(substitute(x, temps)),
        ),
        SymbolicExpression::StorageVar(x) => SymbolicExpression::StorageVar(
            Box::new(substitute(x, temps)),
        ),
        SymbolicExpression::MemoryVar(x) => SymbolicExpression::MemoryVar(
            Box::new(substitute(x, temps)),
        ),
        SymbolicExpression::Unary(k, x) => SymbolicExpression::Unary(
            *k,
            Box::new(substitute(x, temps)),
        ),
        SymbolicExpression::Binary(k, x, y) => SymbolicExpression::Binary(
            *k,
            Box::new(substitute(x, temps)),
            Box::new(substitute(y, temps)),
        ),
        SymbolicExpression::Ternary(k, x, y, z) => SymbolicExpression::Ternary(
            *k,
            Box::new(substitute(x, temps)),
            Box::new(substitute(y, temps)),
            Box::new(substitute(z, temps)),
        ),
        _ => e.clone(),
    }
}

fn substitute_stmt(st: &Statement, temps: &Vec<SymbolicExpression>) -> Statement {
    match st {
        Statement::MemoryWrite(a, b) => Statement::MemoryWrite(
            substitute(a, temps),
            substitute(b, temps),
        ),
        Statement::StorageWrite(a, b) => Statement::StorageWrite(
            substitute(a, temps),
            substitute(b, temps),
        ),
        Statement::CallEffect(pc, op, args) => {
            let mut out: Vec<SymbolicExpression> = Vec::new();
            let mut i: usize = 0;
            while i < args.len()
                decreases args@.len() - i,
            {
                out.push(substitute(&args[i], temps));
                i = i + 1;
            }
            Statement::CallEffect(*pc, *op, out)
        },
        Statement::LogEffect(args) => {
            let mut out: Vec<SymbolicExpression> = Vec::new();
            let mut i: usize = 0;
            while i < args.len()
                decreases args@.len() - i,
            {
                out.push(substitute(&args[i], temps));
                i = i + 1;
            }
            Statement::LogEffect(out)
        },
        Statement::Assign(i, e) => Statement::Assign(*i, substitute(e, temps)),
        Statement::ReturnStmt(a, b) => Statement::ReturnStmt(
            substitute(a, temps),
            substitute(b, temps),
        ),
        Statement::RevertStmt(a, b) => Statement::RevertStmt(
            substitute(a, temps),
            substitute(b, temps),
        ),
        Statement::SelfDestructStmt(a) => Statement::SelfDestructStmt(substitute(a, temps)),
        Statement::HaltStmt => Statement::HaltStmt,
    }
}

/// Hoists repeated operation subexpressions of the top-level effects of a
/// body into named temporaries, once referenced at least `threshold` times.
/// Deterministic: temporaries are numbered in first-occurrence order. Every
/// statement that is not a straight-line effect (gotos, loop markers,
/// unresolved and malformed markers, conditional regions) is kept as it is.
fn hoist_temps(body: Vec<StructuredStatement>, threshold: usize) -> (r: Vec<StructuredStatement>)
    ensures
        forall|j: int|
            0 <= j < body@.len() && !((#[trigger] body@[j]) is Effect) ==> r@.contains(
                body@[j],
            ),
{
    let ghost body0 = body@;
    let mut counts: Vec<(SymbolicExpression, usize)> = Vec::new();
    let mut i: usize = 0;
    while i < body.len()
        decreases body@.len() - i,
    {
        match &body[i] {
            StructuredStatement::Effect(st) => count_stmt(st, &mut counts),
            _ => {},
        }
        i = i + 1;
    }
    let mut temps: Vec<SymbolicExpression> = Vec::new();
    let mut j: usize = 0;
    while j < counts.len()
        decreases counts@.len() - j,
    {
        if counts[j].1 >= threshold && threshold > 0 {
            temps.push(counts[j].0.clone());
        }
        j = j + 1;
    }
    if temps.len() == 0 {
        proof {
            assert forall|j2: int|
                0 <= j2 < body0.len() && !((#[trigger] body0[j2]) is Effect) implies body0.contains(
                body0[j2],
            ) by {
                assert(body0[j2] == body0[j2]);
            }
        }
        return body;
    }
    let mut out: Vec<StructuredStatement> = Vec::new();
    let mut t: usize = 0;
    while t < temps.len()
        decreases temps@.len() - t,
    {
        out.push(
            StructuredStatement::Effect(Statement::Assign(t, temps[t].clone())),
        );
        t = t + 1;
    }
    let mut rev: Vec<StructuredStatement> = Vec::new();
    let mut rest = body;
    while rest.len() > 0
        invariant
            rest@ == body0.take(rest@.len() as int),
            rev@.len() + rest@.len() == body0.len(),
            forall|k: int|
                0 <= k < rev@.len() ==> #[trigger] rev@[k] == body0[body0.len() - 1 - k],
        decreases rest@.len(),
    {
        let ghost pre_rest = rest@;
        rev.push(rest.pop().unwrap());
        proof {
            assert(rest@ =~= body0.take(rest@.len() as int));
            assert(rev@.last() == pre_rest.last());
            assert(pre_rest.last() == body0[pre_rest.len() - 1]);
        }
    }
    let ghost total = body0.len();
    while rev.len() > 0
        invariant
            rev@.len() <= total == body0.len(),
            forall|k: int|
                0 <= k < rev@.len() ==> #[trigger] rev@[k] == body0[body0.len() - 1 - k],
            forall|j2: int|
                0 <= j2 < total - rev@.len() && !((#[trigger] body0[j2]) is Effect)
                    ==> out@.contains(body0[j2]),
        decreases rev@.len(),
    {
        let ghost p = total - rev@.len();
        let ghost pre_out = out@;
        let st = rev.pop().unwrap();
        proof {
            assert(st == body0[p as int]);
        }
        match st {
            StructuredStatement::Effect(s) => {
                out.push(StructuredStatement::Effect(substitute_stmt(&s, &temps)));
            },
            other => {
                out.push(other);
            },
        }
        proof {
            assert forall|j2: int|
                0 <= j2 < total - rev@.len() && !((#[trigger] body0[j2]) is Effect) implies out@.contains(
                body0[j2],
            ) by {
                if j2 < p {
                    let w = choose|w: int| 0 <= w < pre_out.len() && pre_out[w] == body0[j2];
                    assert(out@[w] == body0[j2]);
                } else {
                    assert(j2 == p);
                    assert(!(body0[p as int] is Effect));
                    assert(out@.last() == body0[p as int]);
                }
            }
        }
    }
    out
}

/// Builds the structured, hoisted body for the region entered at `pc`, or
/// a single explicit transfer when no block starts there.
fn body_for(cfg: &ControlFlowGraph, pc: usize) -> Vec<StructuredStatement> {
    match block_index_of(&cfg.blocks, pc) {
        Some(ei) => {
            let mut visited: Vec<bool> = Vec::new();
            let mut v: usize = 0;
            while v < cfg.blocks.len()
                invariant
                    visited@.len() == v,
                    v <= cfg.blocks@.len(),
                decreases cfg.blocks@.len() - v,
            {
                visited.push(false);
                v = v + 1;
            }
            let raw = structure_from(&cfg.blocks, ei, &mut visited, cfg.blocks.len());
            hoist_temps(raw, HOIST_THRESHOLD)
        },
        None => vec![StructuredStatement::Goto(pc)],
    }
}

/// Decompiles a recovered control-flow graph: one named function per arm
/// of the selector-dispatch chain of its instructions, in chain order, then
/// exactly one fallback. A malformed program-start block stays visible as
/// an explicit marker in the fallback body.
pub fn decompile_cfg(cfg: &ControlFlowGraph) -> (m: DecompiledModule)
    ensures
        ({
            let arms = spec_dispatch_arms(
                concat_all(
                    cfg.blocks@.map_values(|b: BasicBlock| b@).map_values(
                        |mm: BlockModel| mm.instrs,
                    ),
                ),
            );
            &&& m.functions@.len() == arms.len() + 1
            &&& (forall|i: int|
                0 <= i < arms.len() ==> ((#[trigger] m.functions@[i]).selector == Some(
                    arms[i].0,
                ) && m.functions@[i].entry_pc == arms[i].1))
            &&& m.functions@[arms.len() as int].selector is None
        }),
        (cfg.blocks@.len() > 0 && cfg.blocks@[0].malformed ==> m.functions@[m.functions@.len()
            - 1].body@.contains(StructuredStatement::MalformedBlock(cfg.blocks@[0].start_pc))),
{
    let flat = flatten_instructions(cfg);
    let arms = detect_arms(&flat);
    let ghost arms_spec = spec_dispatch_arms(imodels(flat@));
    let mut functions: Vec<DecompiledFunction> = Vec::new();
    let mut ai: usize = 0;
    while ai < arms.len()
        invariant
            arms@ == arms_spec,
            ai <= arms@.len(),
            functions@.len() == ai,
            forall|i: int|
                0 <= i < ai ==> ((#[trigger] functions@[i]).selector == Some(arms_spec[i].0)
                    && functions@[i].entry_pc == arms_spec[i].1),
        decreases arms@.len() - ai,
    {
        let (sel, target) = arms[ai];
        let body = body_for(cfg, target);
        let parameters = infer_parameters(&body);
        functions.push(
            DecompiledFunction { selector: Some(sel), entry_pc: target, parameters, body },
        );
        ai = ai + 1;
    }
    let fallback_body = if cfg.blocks.len() > 0 {
        let mut visited: Vec<bool> = Vec::new();
        let mut v: usize = 0;
        while v < cfg.blocks.len()
            invariant
                visited@.len() == v,
                v <= cfg.blocks@.len(),
                forall|j2: int| 0 <= j2 < v ==> (#[trigger] visited@[j2]) == false,
            decreases cfg.blocks@.len() - v,
        {
            visited.push(false);
            v = v + 1;
        }
        let raw = structure_from(&cfg.blocks, 0, &mut visited, cfg.blocks.len());
        let hoisted = hoist_temps(raw, HOIST_THRESHOLD);
        proof {
            if cfg.blocks@[0].malformed {
                let marker = StructuredStatement::MalformedBlock(cfg.blocks@[0].start_pc);
                assert(hoisted@.contains(marker)) by {
                    let w = choose|w: int| 0 <= w < raw@.len() && raw@[w] == marker;
                    assert(!(raw@[w] is Effect));
                }
            }
        }
        hoisted
    } else {
        Vec::new()
    };
    let fb_params = infer_parameters(&fallback_body);
    functions.push(
        DecompiledFunction {
            selector: None,
            entry_pc: 0,
            parameters: fb_params,
            body: fallback_body,
        },
    );
    proof {
        if cfg.blocks@.len() > 0 && cfg.blocks@[0].malformed {
            assert(functions@.last().body@.contains(
                StructuredStatement::MalformedBlock(cfg.blocks@[0].start_pc),
            ));
        }
    }
    DecompiledModule { functions }
}

/// Decompiles raw bytecode. Never fails: the named functions are exactly
/// the arms of the selector-dispatch chain of the decoded instructions, in
/// chain order, each carrying its compared selector constant and branch
/// target, and the anonymous fallback comes last.
pub fn decompile(bytecode: &Vec<u8>) -> (m: DecompiledModule)
    ensures
        ({
            let arms = spec_dispatch_arms(decode_from(bytecode@, 0));
            &&& m.functions@.len() == arms.len() + 1
            &&& (forall|i: int|
                0 <= i < arms.len() ==> ((#[trigger] m.functions@[i]).selector == Some(
                    arms[i].0,
                ) && m.functions@[i].entry_pc == arms[i].1))
            &&& m.functions@[arms.len() as int].selector is None
        }),
{
    let cfg = build_cfg(bytecode);
    proof {
        let bs = cfg.blocks@.map_values(|b: BasicBlock| b@).map_values(
            |mm: BlockModel| mm.instrs,
        );
        assert(concat_all(bs) == decode_from(bytecode@, 0));
    }
    decompile_cfg(&cfg)
}

/// Equal inputs are dispatched equally: the named-function list of a
/// decompilation is a function of the input bytes alone.
pub proof fn lemma_dispatch_deterministic(
    b1: Seq<u8>,
    b2: Seq<u8>,
    a1: Seq<(Word, usize)>,
    a2: Seq<(Word, usize)>,
)
    requires
        b1 == b2,
        a1 == spec_dispatch_arms(decode_from(b1, 0)),
        a2 == spec_dispatch_arms(decode_from(b2, 0)),
    ensures
        a1 == a2,
{
}

} // verus!