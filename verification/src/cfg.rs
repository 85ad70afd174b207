//! The control-flow-graph builder.
//!
//! Instructions are partitioned into basic blocks (a block starts at program
//! start or a jump-destination marker and ends at a terminator or the end of
//! the bytecode), then a work-list fixed point interprets each reachable
//! block symbolically, merging stack states at join points by widening
//! unequal slots to opaque values. Every block carries an explicit visit
//! budget, so the fixed point terminates on any input, cyclic bytecode
//! included; the loop's `decreases` measure is the proof.

use vstd::prelude::*;
use vstd::pervasive::VecAdditionalExecFns;
use crate::decoder::{Instruction, InstrModel, disassemble, decode_from};
use crate::machine::{
    MachineState, Statement, BlockOutcome, ExitInfo, analyze_block, empty_state, clone_state,
    spec_block_malformed, STACK_LIMIT,
};
use crate::expr::{SymbolicExpression, expr_eq};
use crate::opcode::{
    is_terminator, is_terminator_op, is_defined, is_push, OP_JUMPDEST, OP_JUMP, OP_JUMPI, OP_STOP,
    OP_RETURN, OP_REVERT, OP_INVALID, OP_SELFDESTRUCT,
};
use crate::word::{word_from_be, spec_word_to_usize, word_to_usize};

verus! {

/// One exit edge of a basic block. Targets that static analysis cannot
/// resolve are kept as explicit `Unresolved` edges, never dropped.
#[derive(Debug, PartialEq, Eq)]
pub enum Edge {
    Fallthrough,
    JumpTo(usize),
    /// Resolved conditional branch: target, condition.
    JumpIf(usize, SymbolicExpression),
    Unresolved,
    Halt,
    Revert,
}

impl Clone for Edge {
    /// A clone is equal to the original.
    fn clone(&self) -> (res: Self)
        ensures
            res == self,
    {
        match self {
            Edge::Fallthrough => Edge::Fallthrough,
            Edge::JumpTo(t) => Edge::JumpTo(*t),
            Edge::JumpIf(t, c) => Edge::JumpIf(*t, c.clone()),
            Edge::Unresolved => Edge::Unresolved,
            Edge::Halt => Edge::Halt,
            Edge::Revert => Edge::Revert,
        }
    }
}

/// A basic block: a maximal straight-line instruction run with one entry.
#[derive(Debug)]
pub struct BasicBlock {
    pub start_pc: usize,
    pub end_pc: usize,
    pub instructions: Vec<Instruction>,
    pub entry_stack_depth: usize,
    pub exit_edges: Vec<Edge>,
    pub statements: Vec<Statement>,
    pub malformed: bool,
}

/// The mathematical shape of a basic block.
pub ghost struct BlockModel {
    pub start_pc: nat,
    pub end_pc: nat,
    pub instrs: Seq<InstrModel>,
    pub entry_depth: nat,
    pub edges: Seq<Edge>,
    pub malformed: bool,
}

impl View for BasicBlock {
    type V = BlockModel;

    open spec fn view(&self) -> BlockModel {
        BlockModel {
            start_pc: self.start_pc as nat,
            end_pc: self.end_pc as nat,
            instrs: self.instructions@.map_values(|i: Instruction| i@),
            entry_depth: self.entry_stack_depth as nat,
            edges: self.exit_edges@,
            malformed: self.malformed,
        }
    }
}

/// The recovered control-flow graph: blocks keyed by start program counter,
/// plus the start counters of blocks whose symbolic execution failed.
#[derive(Debug)]
pub struct ControlFlowGraph {
    pub blocks: Vec<BasicBlock>,
    pub malformed_pcs: Vec<usize>,
}

pub open spec fn imodels(v: Seq<Instruction>) -> Seq<InstrModel> {
    crate::decoder::instr_models(v)
}

pub open spec fn block_models(bs: Seq<Vec<Instruction>>) -> Seq<Seq<InstrModel>> {
    bs.map_values(|b: Vec<Instruction>| imodels(b@))
}

/// Concatenation of a sequence of instruction sequences.
pub open spec fn concat_all(bs: Seq<Seq<InstrModel>>) -> Seq<InstrModel>
    decreases bs.len(),
{
    if bs.len() == 0 {
        Seq::empty()
    } else {
        bs.first() + concat_all(bs.drop_first())
    }
}

pub(crate) proof fn lemma_concat_all_push(bs: Seq<Seq<InstrModel>>, x: Seq<InstrModel>)
    ensures
        concat_all(bs.push(x)) == concat_all(bs) + x,
    decreases bs.len(),
{
    if bs.len() == 0 {
        assert(bs.push(x).drop_first() =~= Seq::<Seq<InstrModel>>::empty());
        assert(bs.push(x).first() == x);
        assert(concat_all(bs.push(x)) == x + concat_all(Seq::<Seq<InstrModel>>::empty()));
        assert(x + Seq::<InstrModel>::empty() =~= Seq::<InstrModel>::empty() + x);
    } else {
        assert(bs.push(x).drop_first() =~= bs.drop_first().push(x));
        lemma_concat_all_push(bs.drop_first(), x);
        assert(bs.first() + (concat_all(bs.drop_first()) + x) =~= (bs.first() + concat_all(
            bs.drop_first(),
        )) + x);
    }
}

/// Well-formedness of a block partition: blocks are nonempty; every block
/// but the first starts at a jump-destination marker or follows a
/// terminator; and no block continues past a marker or a terminator.
pub open spec fn wf_blocks(bs: Seq<Seq<InstrModel>>) -> bool {
    &&& (forall|bi: int| 0 <= bi < bs.len() ==> #[trigger] bs[bi].len() >= 1)
    &&& (forall|bi: int|
        1 <= bi < bs.len() ==> (#[trigger] bs[bi][0].opcode == OP_JUMPDEST || is_terminator(
            bs[bi - 1][bs[bi - 1].len() - 1].opcode,
        )))
    &&& (forall|bi: int, k: int|
        0 <= bi < bs.len() && 1 <= k < bs[bi].len() ==> #[trigger] bs[bi][k].opcode
            != OP_JUMPDEST)
    &&& (forall|bi: int, k: int|
        0 <= bi < bs.len() && 0 <= k < bs[bi].len() - 1 ==> !is_terminator(
            #[trigger] bs[bi][k].opcode,
        ))
}

proof fn lemma_wf_drop_first(bs: Seq<Seq<InstrModel>>)
    requires
        wf_blocks(bs),
        bs.len() >= 1,
    ensures
        wf_blocks(bs.drop_first()),
{
    let rest = bs.drop_first();
    assert forall|bi: int| 0 <= bi < rest.len() implies #[trigger] rest[bi].len() >= 1 by {
        assert(rest[bi] == bs[bi + 1]);
    }
    assert forall|bi: int|
        1 <= bi < rest.len() implies (#[trigger] rest[bi][0].opcode == OP_JUMPDEST
            || is_terminator(rest[bi - 1][rest[bi - 1].len() - 1].opcode)) by {
        assert(rest[bi] == bs[bi + 1]);
        assert(rest[bi - 1] == bs[bi]);
    }
    assert forall|bi: int, k: int|
        0 <= bi < rest.len() && 1 <= k < rest[bi].len() implies #[trigger] rest[bi][k].opcode
            != OP_JUMPDEST by {
        assert(rest[bi] == bs[bi + 1]);
        assert(bs[bi + 1][k].opcode != OP_JUMPDEST);
    }
    assert forall|bi: int, k: int|
        0 <= bi < rest.len() && 0 <= k < rest[bi].len() - 1 implies !is_terminator(
            #[trigger] rest[bi][k].opcode,
        ) by {
        assert(rest[bi] == bs[bi + 1]);
        assert(!is_terminator(bs[bi + 1][k].opcode));
    }
}

proof fn lemma_concat_first_block(bs: Seq<Seq<InstrModel>>)
    requires
        wf_blocks(bs),
        bs.len() >= 1,
    ensures
        concat_all(bs).len() >= bs[0].len(),
        bs[0] == concat_all(bs).subrange(0, bs[0].len() as int),
        concat_all(bs.drop_first()) == concat_all(bs).skip(bs[0].len() as int),
        bs.len() >= 2 ==> concat_all(bs).len() > bs[0].len(),
{
    let whole = concat_all(bs);
    let l = bs[0].len() as int;
    assert(whole == bs[0] + concat_all(bs.drop_first()));
    assert(bs[0] =~= whole.subrange(0, l));
    assert(concat_all(bs.drop_first()) =~= whole.skip(l));
    if bs.len() >= 2 {
        assert(bs.drop_first().len() >= 1);
        assert(concat_all(bs.drop_first()) == bs.drop_first()[0] + concat_all(
            bs.drop_first().drop_first(),
        ));
        assert(bs.drop_first()[0].len() >= 1);
    }
}

/// The block partition is unique: two well-formed partitions of the same
/// instruction sequence are the same sequence of blocks. Together with the
/// builder's postcondition this pins the block structure of the recovered
/// graph as a function of the input bytes alone.
pub proof fn lemma_partition_unique(bs1: Seq<Seq<InstrModel>>, bs2: Seq<Seq<InstrModel>>)
    requires
        wf_blocks(bs1),
        wf_blocks(bs2),
        concat_all(bs1) == concat_all(bs2),
    ensures
        bs1 == bs2,
    decreases bs1.len(),
{
    let whole = concat_all(bs1);
    if bs1.len() == 0 {
        if bs2.len() >= 1 {
            lemma_concat_first_block(bs2);
            assert(bs2[0].len() >= 1);
            assert(false);
        }
        assert(bs1 =~= bs2);
    } else if bs2.len() == 0 {
        lemma_concat_first_block(bs1);
        assert(false);
    } else {
        lemma_concat_first_block(bs1);
        lemma_concat_first_block(bs2);
        let l1 = bs1[0].len() as int;
        let l2 = bs2[0].len() as int;
        lemma_first_not_shorter(bs1, bs2);
        lemma_first_not_shorter(bs2, bs1);
        assert(l1 == l2);
        assert(bs1[0] == bs2[0]);
        lemma_wf_drop_first(bs1);
        lemma_wf_drop_first(bs2);
        lemma_partition_unique(bs1.drop_first(), bs2.drop_first());
        assert(bs1 =~= bs2) by {
            assert(bs1.len() == bs2.len());
            assert forall|bi: int| 0 <= bi < bs1.len() implies bs1[bi] == bs2[bi] by {
                if bi >= 1 {
                    assert(bs1.drop_first()[bi - 1] == bs2.drop_first()[bi - 1]);
                    assert(bs1[bi] == bs1.drop_first()[bi - 1]);
                    assert(bs2[bi] == bs2.drop_first()[bi - 1]);
                }
            }
        }
    }
}

/// A first block cannot be shorter than the other partition's: the
/// boundary after it would fall inside that block, against its maximality.
proof fn lemma_first_not_shorter(short: Seq<Seq<InstrModel>>, long: Seq<Seq<InstrModel>>)
    requires
        wf_blocks(short),
        wf_blocks(long),
        short.len() >= 1,
        long.len() >= 1,
        concat_all(short) == concat_all(long),
    ensures
        short[0].len() >= long[0].len(),
{
    if short[0].len() < long[0].len() {
        let whole = concat_all(short);
        lemma_concat_first_block(short);
        lemma_concat_first_block(long);
        let l = short[0].len() as int;
        // The boundary at `l` is strictly inside `long[0]`, so `short` must
        // have a second block, and its start is a leader.
        assert(whole.len() > l);
        assert(short.len() >= 2) by {
            if short.len() == 1 {
                assert(concat_all(short.drop_first()) =~= Seq::<InstrModel>::empty());
                assert(whole.len() == l);
            }
        }
        lemma_wf_drop_first(short);
        lemma_concat_first_block(short.drop_first());
        let second = short.drop_first()[0];
        assert(second == short[1]);
        assert(second[0] == concat_all(short.drop_first())[0]);
        assert(second[0] == whole[l]);
        assert(short[0][l - 1] == whole[l - 1]);
        // Leader condition at the boundary, from `short`.
        assert(short[1][0].opcode == OP_JUMPDEST || is_terminator(
            short[0][short[0].len() - 1].opcode,
        ));
        // Interior of `long[0]` at the same position: no marker, no terminator.
        assert(long[0][l] == whole[l]);
        assert(long[0][l - 1] == whole[l - 1]);
        assert(long[0][l].opcode != OP_JUMPDEST);
        assert(!is_terminator(long[0][l - 1].opcode));
        assert(false);
    }
}

/// Equal inputs give equal block structure: any two well-formed partitions
/// of the decodings of the same bytes coincide, so the graph builder's
/// block structure is a function of the input alone.
pub proof fn lemma_cfg_blocks_deterministic(
    b1: Seq<u8>,
    b2: Seq<u8>,
    bs1: Seq<Seq<InstrModel>>,
    bs2: Seq<Seq<InstrModel>>,
)
    requires
        b1 == b2,
        wf_blocks(bs1),
        wf_blocks(bs2),
        concat_all(bs1) == decode_from(b1, 0),
        concat_all(bs2) == decode_from(b2, 0),
    ensures
        bs1 == bs2,
{
    lemma_partition_unique(bs1, bs2);
}

/// Splits a decoded instruction sequence into basic blocks.
fn split_blocks(instrs: &Vec<Instruction>) -> (blocks: Vec<Vec<Instruction>>)
    ensures
        concat_all(block_models(blocks@)) == imodels(instrs@),
        wf_blocks(block_models(blocks@)),
{
    let n = instrs.len();
    let mut blocks: Vec<Vec<Instruction>> = Vec::new();
    let mut cur: Vec<Instruction> = Vec::new();
    let mut i: usize = 0;
    while i < n
        invariant
            n == instrs@.len(),
            i <= n,
            i == 0 ==> blocks@.len() == 0 && cur@.len() == 0,
            i > 0 ==> cur@.len() >= 1,
            cur@.len() <= i,
            concat_all(block_models(blocks@)) + imodels(cur@) == imodels(instrs@).subrange(
                0,
                i as int,
            ),
            imodels(cur@) == imodels(instrs@).subrange(i - cur@.len(), i as int),
            wf_blocks(block_models(blocks@)),
            (blocks@.len() >= 1 && cur@.len() >= 1 ==> (imodels(cur@)[0].opcode == OP_JUMPDEST
                || is_terminator(
                block_models(blocks@).last()[block_models(blocks@).last().len() - 1].opcode,
            ))),
            (forall|k: int|
                1 <= k < cur@.len() ==> #[trigger] imodels(cur@)[k].opcode != OP_JUMPDEST),
            (forall|k: int|
                0 <= k < cur@.len() - 1 ==> !is_terminator(#[trigger] imodels(cur@)[k].opcode)),
        decreases n - i,
    {
        let ins: &Instruction = &instrs[i];
        if i > 0 && (ins.opcode == OP_JUMPDEST || is_terminator_op(instrs[i - 1].opcode)) {
            let ghost old_blocks = blocks@;
            let ghost old_cur = cur;
            blocks.push(cur);
            cur = Vec::new();
            proof {
                assert(blocks@ =~= old_blocks.push(old_cur));
                assert(block_models(blocks@) =~= block_models(old_blocks).push(imodels(old_cur@)));
                lemma_concat_all_push(block_models(old_blocks), imodels(old_cur@));
                let nbs = block_models(blocks@);
                let obs = block_models(old_blocks);
                let nb = imodels(old_cur@);
                assert(nbs == obs.push(nb));
                assert forall|b2: int| 0 <= b2 < nbs.len() implies #[trigger] nbs[b2].len()
                    >= 1 by {
                    if b2 < obs.len() {
                        assert(nbs[b2] == obs[b2]);
                    } else {
                        assert(nbs[b2] == nb);
                    }
                }
                assert forall|b2: int|
                    1 <= b2 < nbs.len() implies (#[trigger] nbs[b2][0].opcode == OP_JUMPDEST
                        || is_terminator(nbs[b2 - 1][nbs[b2 - 1].len() - 1].opcode)) by {
                    if b2 < obs.len() {
                        assert(nbs[b2] == obs[b2]);
                        assert(nbs[b2 - 1] == obs[b2 - 1]);
                    } else {
                        assert(nbs[b2] == nb);
                        if b2 >= 1 {
                            assert(nbs[b2 - 1] == obs[b2 - 1]);
                        }
                    }
                }
                assert forall|b2: int, k: int|
                    0 <= b2 < nbs.len() && 1 <= k < nbs[b2].len() implies #[trigger] nbs[b2][k].opcode
                        != OP_JUMPDEST by {
                    if b2 < obs.len() {
                        assert(nbs[b2] == obs[b2]);
                    } else {
                        assert(nbs[b2] == nb);
                    }
                }
                assert forall|b2: int, k: int|
                    0 <= b2 < nbs.len() && 0 <= k < nbs[b2].len() - 1 implies !is_terminator(
                        #[trigger] nbs[b2][k].opcode,
                    ) by {
                    if b2 < obs.len() {
                        assert(nbs[b2] == obs[b2]);
                    } else {
                        assert(nbs[b2] == nb);
                    }
                }
                assert(wf_blocks(nbs));
            }
        }
        let ghost pre_cur = cur@;
        cur.push(ins.clone());
        i = i + 1;
        proof {
            assert(imodels(cur@) =~= imodels(pre_cur).push(instrs@[i - 1]@));
            assert(imodels(instrs@).subrange(0, i as int) =~= imodels(instrs@).subrange(
                0,
                i - 1,
            ).push(instrs@[i - 1]@));
            assert(concat_all(block_models(blocks@)) + imodels(cur@) =~= imodels(
                instrs@,
            ).subrange(0, i as int));
            assert(imodels(cur@) =~= imodels(instrs@).subrange(i - cur@.len(), i as int));
            assert forall|k: int|
                1 <= k < cur@.len() implies #[trigger] imodels(cur@)[k].opcode
                    != OP_JUMPDEST by {
                if k < pre_cur.len() as int {
                    assert(imodels(cur@)[k] == imodels(pre_cur)[k]);
                } else {
                    assert(imodels(cur@)[k] == instrs@[i - 1]@);
                }
            }
            assert forall|k: int|
                0 <= k < cur@.len() - 1 implies !is_terminator(
                    #[trigger] imodels(cur@)[k].opcode,
                ) by {
                assert(imodels(cur@)[k] == imodels(pre_cur)[k]);
                if k == pre_cur.len() - 1 {
                    assert(imodels(pre_cur)[k] == imodels(instrs@)[i - 2]);
                    assert(imodels(instrs@)[i - 2] == instrs@[i - 2]@);
                }
            }
        }
    }
    if cur.len() > 0 {
        let ghost old_blocks = blocks@;
        let ghost old_cur = cur;
        blocks.push(cur);
        proof {
            assert(blocks@ =~= old_blocks.push(old_cur));
            assert(block_models(blocks@) =~= block_models(old_blocks).push(imodels(old_cur@)));
            lemma_concat_all_push(block_models(old_blocks), imodels(old_cur@));
        }
    }
    proof {
        assert(imodels(instrs@).subrange(0, instrs@.len() as int) =~= imodels(instrs@));
        if instrs@.len() == 0 {
            assert(concat_all(block_models(blocks@)) =~= imodels(instrs@));
        }
    }
    blocks
}

/// True when some block starts at program counter `t` with the
/// jump-destination marker: the only legal resolved jump targets.
pub open spec fn is_jd_target(bs: Seq<Seq<InstrModel>>, t: nat) -> bool {
    exists|bj: int|
        0 <= bj < bs.len() && #[trigger] bs[bj].len() > 0 && bs[bj][0].pc == t && bs[bj][0].opcode
            == OP_JUMPDEST
}

/// Static resolution of a popped jump-target expression: the target program
/// counter, if the expression is a constant that names a jump destination.
pub open spec fn spec_resolve(e: SymbolicExpression, bs: Seq<Seq<InstrModel>>) -> Option<usize> {
    match e {
        SymbolicExpression::Constant(w) => match spec_word_to_usize(w) {
            Some(t) => if is_jd_target(bs, t as nat) {
                Some(t)
            } else {
                None
            },
            None => None,
        },
        _ => None,
    }
}

/// Soundness of one edge: a resolved target names an existing block that
/// begins on a jump-destination marker.
pub open spec fn edge_sound(e: Edge, bs: Seq<Seq<InstrModel>>) -> bool {
    match e {
        Edge::JumpTo(t) => is_jd_target(bs, t as nat),
        Edge::JumpIf(t, _) => is_jd_target(bs, t as nat),
        _ => true,
    }
}

/// The exit-edge shape a block's last opcode dictates.
pub open spec fn edges_shape(b: Seq<InstrModel>, edges: Seq<Edge>, has_next: bool) -> bool
    recommends
        b.len() >= 1,
{
    let last = b[b.len() - 1].opcode;
    if last == OP_JUMP {
        edges.len() == 1 && (edges[0] is JumpTo || edges[0] is Unresolved)
    } else if last == OP_JUMPI {
        edges.len() == 2 && (edges[0] is JumpIf || edges[0] is Unresolved) && edges[1]
            == Edge::Fallthrough
    } else if last == OP_STOP || last == OP_RETURN || last == OP_SELFDESTRUCT {
        edges.len() == 1 && edges[0] == Edge::Halt
    } else if last == OP_REVERT || last == OP_INVALID || !is_defined(last) {
        edges.len() == 1 && edges[0] == Edge::Revert
    } else {
        edges.len() == 1 && edges[0] == (if has_next {
            Edge::Fallthrough
        } else {
            Edge::Halt
        })
    }
}

/// A jump whose target was pushed directly before it resolves exactly as
/// the pushed constant dictates.
pub open spec fn push_jump_pinned(
    b: Seq<InstrModel>,
    edges: Seq<Edge>,
    bs: Seq<Seq<InstrModel>>,
) -> bool {
    (b.len() >= 2 && b[b.len() - 1].opcode == OP_JUMP && is_push(b[b.len() - 2].opcode)
        && edges.len() >= 1) ==> (match spec_resolve(
        SymbolicExpression::Constant(word_from_be(b[b.len() - 2].operand)),
        bs,
    ) {
        Some(t) => edges[0] == Edge::JumpTo(t),
        None => edges[0] == Edge::Unresolved,
    })
}

/// All edge facts for one block: a malformed block is terminal (no edges);
/// any other block's edges have the dictated shape, are sound, and resolve
/// pushed jump targets exactly.
pub open spec fn block_edges_ok(
    b: Seq<InstrModel>,
    edges: Seq<Edge>,
    malformed: bool,
    has_next: bool,
    bs: Seq<Seq<InstrModel>>,
) -> bool {
    if malformed {
        edges.len() == 0
    } else {
        &&& edges_shape(b, edges, has_next)
        &&& (forall|k: int| 0 <= k < edges.len() ==> edge_sound(#[trigger] edges[k], bs))
        &&& push_jump_pinned(b, edges, bs)
    }
}

/// Finds the block starting at `t` on a jump-destination marker.
fn find_jd_block(blocks_instr: &Vec<Vec<Instruction>>, t: usize) -> (r: Option<usize>)
    ensures
        match r {
            Some(bj) => bj < blocks_instr@.len() && block_models(blocks_instr@)[bj as int].len()
                > 0 && block_models(blocks_instr@)[bj as int][0].pc == t as nat && block_models(
                blocks_instr@,
            )[bj as int][0].opcode == OP_JUMPDEST,
            None => !is_jd_target(block_models(blocks_instr@), t as nat),
        },
{
    let ghost bs = block_models(blocks_instr@);
    let mut bj: usize = 0;
    while bj < blocks_instr.len()
        invariant
            bs == block_models(blocks_instr@),
            bj <= blocks_instr@.len(),
            forall|j: int|
                0 <= j < bj ==> !(#[trigger] bs[j].len() > 0 && bs[j][0].pc == t as nat
                    && bs[j][0].opcode == OP_JUMPDEST),
        decreases blocks_instr@.len() - bj,
    {
        let b = &blocks_instr[bj];
        if b.len() > 0 {
            let first: &Instruction = &b[0];
            if first.program_counter == t && first.opcode == OP_JUMPDEST {
                return Some(bj);
            }
        }
        bj = bj + 1;
    }
    None
}

/// The edges for one block exit, with the index of the resolved jump
/// successor (if any) and whether control can also fall through.
struct ResolvedExit {
    edges: Vec<Edge>,
    jump_succ: Option<usize>,
    falls: bool,
}

fn resolve_exit(exit: ExitInfo, blocks_instr: &Vec<Vec<Instruction>>, has_next: bool) -> (r:
    ResolvedExit)
    ensures
        ({
            let bs = block_models(blocks_instr@);
            &&& (exit matches ExitInfo::Jump(e) ==> r.edges@ == (match spec_resolve(e, bs) {
                Some(t) => seq![Edge::JumpTo(t)],
                None => seq![Edge::Unresolved],
            }))
            &&& (exit matches ExitInfo::JumpCond(e, c) ==> r.edges@ == (match spec_resolve(
                e,
                bs,
            ) {
                Some(t) => seq![Edge::JumpIf(t, c), Edge::Fallthrough],
                None => seq![Edge::Unresolved, Edge::Fallthrough],
            }))
            &&& ((exit is Stop || exit is ReturnData || exit is SelfDestructHalt) ==> r.edges@
                == seq![Edge::Halt])
            &&& ((exit is RevertData || exit is InvalidHalt) ==> r.edges@ == seq![Edge::Revert])
            &&& (exit is FallsThrough ==> r.edges@ == seq![
                if has_next {
                    Edge::Fallthrough
                } else {
                    Edge::Halt
                },
            ])
            &&& (r.jump_succ matches Some(bj) ==> bj < blocks_instr@.len())
            &&& (r.falls <==> (exit is FallsThrough || exit is JumpCond))
        }),
{
    match exit {
        ExitInfo::Jump(e) => {
            let cw = match &e {
                SymbolicExpression::Constant(w) => Some(*w),
                _ => None,
            };
            match cw {
                Some(w) => match word_to_usize(w) {
                    Some(t) => match find_jd_block(blocks_instr, t) {
                        Some(bj) => ResolvedExit {
                            edges: vec![Edge::JumpTo(t)],
                            jump_succ: Some(bj),
                            falls: false,
                        },
                        None => ResolvedExit {
                            edges: vec![Edge::Unresolved],
                            jump_succ: None,
                            falls: false,
                        },
                    },
                    None => ResolvedExit {
                        edges: vec![Edge::Unresolved],
                        jump_succ: None,
                        falls: false,
                    },
                },
                None => ResolvedExit {
                    edges: vec![Edge::Unresolved],
                    jump_succ: None,
                    falls: false,
                },
            }
        },
        ExitInfo::JumpCond(e, c) => {
            let cw = match &e {
                SymbolicExpression::Constant(w) => Some(*w),
                _ => None,
            };
            match cw {
                Some(w) => match word_to_usize(w) {
                    Some(t) => match find_jd_block(blocks_instr, t) {
                        Some(bj) => ResolvedExit {
                            edges: vec![Edge::JumpIf(t, c), Edge::Fallthrough],
                            jump_succ: Some(bj),
                            falls: true,
                        },
                        None => ResolvedExit {
                            edges: vec![Edge::Unresolved, Edge::Fallthrough],
                            jump_succ: None,
                            falls: true,
                        },
                    },
                    None => ResolvedExit {
                        edges: vec![Edge::Unresolved, Edge::Fallthrough],
                        jump_succ: None,
                        falls: true,
                    },
                },
                None => ResolvedExit {
                    edges: vec![Edge::Unresolved, Edge::Fallthrough],
                    jump_succ: None,
                    falls: true,
                },
            }
        },
        ExitInfo::Stop => ResolvedExit { edges: vec![Edge::Halt], jump_succ: None, falls: false },
        ExitInfo::ReturnData(_, _) => ResolvedExit {
            edges: vec![Edge::Halt],
            jump_succ: None,
            falls: false,
        },
        ExitInfo::SelfDestructHalt(_) => ResolvedExit {
            edges: vec![Edge::Halt],
            jump_succ: None,
            falls: false,
        },
        ExitInfo::RevertData(_, _) => ResolvedExit {
            edges: vec![Edge::Revert],
            jump_succ: None,
            falls: false,
        },
        ExitInfo::InvalidHalt => ResolvedExit {
            edges: vec![Edge::Revert],
            jump_succ: None,
            falls: false,
        },
        ExitInfo::FallsThrough => {
            if has_next {
                ResolvedExit { edges: vec![Edge::Fallthrough], jump_succ: None, falls: true }
            } else {
                ResolvedExit { edges: vec![Edge::Halt], jump_succ: None, falls: true }
            }
        },
    }
}

/// What one interpretation of one block produced.
struct BlockReport {
    edges: Vec<Edge>,
    statements: Vec<Statement>,
    malformed: bool,
    jump_succ: Option<usize>,
    falls: bool,
    out_state: MachineState,
}

/// Interprets block `bi` from `entry` and resolves its exit edges.
fn process_block(blocks_instr: &Vec<Vec<Instruction>>, bi: usize, entry: MachineState) -> (r:
    BlockReport)
    requires
        bi < blocks_instr@.len(),
        wf_blocks(block_models(blocks_instr@)),
    ensures
        block_edges_ok(
            block_models(blocks_instr@)[bi as int],
            r.edges@,
            r.malformed,
            bi + 1 < blocks_instr@.len(),
            block_models(blocks_instr@),
        ),
        (r.jump_succ matches Some(bj) ==> bj < blocks_instr@.len()),
        r.malformed == spec_block_malformed(
            entry@.stack.len() as nat,
            block_models(blocks_instr@)[bi as int],
        ),
        (entry@.stack.len() <= STACK_LIMIT ==> r.out_state@.stack.len() <= STACK_LIMIT as nat),
{
    let ghost bs = block_models(blocks_instr@);
    let b: &Vec<Instruction> = &blocks_instr[bi];
    proof {
        assert(bs[bi as int] == imodels(b@));
        assert(bs[bi as int].len() >= 1);
    }
    assert(b@.len() >= 1);
    proof {
        assert forall|k: int| 0 <= k < b@.len() - 1 implies !is_terminator(
            #[trigger] b@[k]@.opcode,
        ) by {
            assert(bs[bi as int].len() == b@.len());
            assert(bs[bi as int][k] == b@[k]@);
            assert(!is_terminator(bs[bi as int][k].opcode));
        }
    }
    let outcome = analyze_block(entry, b);
    match outcome {
        BlockOutcome::Malformed => BlockReport {
            edges: Vec::new(),
            statements: Vec::new(),
            malformed: true,
            jump_succ: None,
            falls: false,
            out_state: empty_state(),
        },
        BlockOutcome::Done(out_state, statements, exit) => {
            let has_next = bi < blocks_instr.len() - 1;
            let resolved = resolve_exit(exit, blocks_instr, has_next);
            BlockReport {
                edges: resolved.edges,
                statements,
                malformed: false,
                jump_succ: resolved.jump_succ,
                falls: resolved.falls,
                out_state,
            }
        },
    }
}

/// Widening merge of two entry states at a join: slots that agree are kept,
/// slots that differ become opaque values tagged by the join and slot; the
/// merge is idempotent, which bounds the fixed point.
fn merge_states(old_state: &MachineState, new_state: &MachineState, pc: usize) -> (r: MachineState)
    ensures
        r@.stack.len() == old_state@.stack.len(),
{
    let n = old_state.stack.len();
    if n != new_state.stack.len() {
        return clone_state(old_state);
    }
    let mut stack: Vec<SymbolicExpression> = Vec::new();
    let mut i: usize = 0;
    while i < n
        invariant
            n == old_state.stack@.len(),
            n == new_state.stack@.len(),
            i <= n,
            stack@.len() == i,
        decreases n - i,
    {
        if expr_eq(&old_state.stack[i], &new_state.stack[i]) {
            stack.push(old_state.stack[i].clone());
        } else {
            stack.push(SymbolicExpression::Opaque(pc, i));
        }
        i = i + 1;
    }
    MachineState { stack, memory: Vec::new(), storage: Vec::new() }
}

/// Sum of the remaining visit budgets.
pub open spec fn sum_budgets(s: Seq<usize>) -> nat
    decreases s.len(),
{
    if s.len() == 0 {
        0
    } else {
        (sum_budgets(s.drop_last()) + s.last()) as nat
    }
}

proof fn lemma_sum_update(s: Seq<usize>, i: int, v: usize)
    requires
        0 <= i < s.len(),
        v <= s[i],
    ensures
        sum_budgets(s.update(i, v)) == sum_budgets(s) - (s[i] - v),
    decreases s.len(),
{
    if i == s.len() - 1 {
        assert(s.update(i, v).drop_last() =~= s.drop_last());
        assert(s.update(i, v).last() == v);
    } else {
        assert(s.update(i, v).drop_last() =~= s.drop_last().update(i, v));
        assert(s.update(i, v).last() == s.last());
        lemma_sum_update(s.drop_last(), i, v);
    }
}

/// Clones a vector of instructions; the models are unchanged.
pub(crate) fn clone_instrs(v: &Vec<Instruction>) -> (r: Vec<Instruction>)
    ensures
        imodels(r@) == imodels(v@),
{
    let mut r: Vec<Instruction> = Vec::new();
    let mut i: usize = 0;
    while i < v.len()
        invariant
            i <= v@.len(),
            imodels(r@) == imodels(v@).subrange(0, i as int),
        decreases v@.len() - i,
    {
        let c = v[i].clone();
        let ghost prev = r@;
        r.push(c);
        i = i + 1;
        proof {
            assert(imodels(r@) =~= imodels(prev).push(v@[i - 1]@));
            assert(imodels(v@).subrange(0, i as int) =~= imodels(v@).subrange(0, i - 1).push(
                v@[i - 1]@,
            ));
        }
    }
    proof {
        assert(imodels(v@).subrange(0, v@.len() as int) =~= imodels(v@));
    }
    r
}

fn clone_edges(v: &Vec<Edge>) -> (r: Vec<Edge>)
    ensures
        r@ == v@,
{
    let mut r: Vec<Edge> = Vec::new();
    let mut i: usize = 0;
    while i < v.len()
        invariant
            i <= v@.len(),
            r@ == v@.subrange(0, i as int),
        decreases v@.len() - i,
    {
        r.push(v[i].clone());
        i = i + 1;
        proof {
            assert(r@ =~= v@.subrange(0, i as int));
        }
    }
    proof {
        assert(v@.subrange(0, v@.len() as int) =~= v@);
    }
    r
}

fn clone_stmts(v: &Vec<Statement>) -> Vec<Statement> {
    let mut r: Vec<Statement> = Vec::new();
    let mut i: usize = 0;
    while i < v.len()
        decreases v@.len() - i,
    {
        r.push(v[i].clone());
        i = i + 1;
    }
    r
}

/// The start counters of the malformed blocks, in block order.
pub open spec fn malformed_starts(ms: Seq<BlockModel>) -> Seq<nat>
    decreases ms.len(),
{
    if ms.len() == 0 {
        Seq::empty()
    } else {
        let rest = malformed_starts(ms.drop_last());
        if ms.last().malformed {
            rest.push(ms.last().start_pc)
        } else {
            rest
        }
    }
}

/// Builds the control-flow graph of a raw byte string. Never fails.
///
/// The blocks partition the decoded instruction sequence exactly (every
/// instruction is in exactly one block, in order), block boundaries follow
/// the partition discipline, and every block's exit edges have the shape its
/// last opcode dictates, name only real jump-destination blocks, and resolve
/// directly pushed jump targets exactly. A block is malformed precisely
/// when the machine's depth discipline fails on it from its recorded entry
/// depth; malformed blocks are terminal and listed by start counter; entry
/// depths never exceed the stack bound, and the program-start block always
/// enters on an empty stack. The work-list fixed point carries an explicit
/// decreasing measure, so graph construction terminates on any finite input,
/// cyclic control flow included.
#[verifier::rlimit(80)]
pub fn build_cfg(bytecode: &Vec<u8>) -> (cfg: ControlFlowGraph)
    ensures
        ({
            let ms = cfg.blocks@.map_values(|b: BasicBlock| b@);
            let bs = ms.map_values(|m: BlockModel| m.instrs);
            &&& concat_all(bs) == decode_from(bytecode@, 0)
            &&& wf_blocks(bs)
            &&& (forall|bi: int|
                0 <= bi < ms.len() ==> (#[trigger] ms[bi].start_pc == bs[bi][0].pc
                    && ms[bi].end_pc == bs[bi][bs[bi].len() - 1].pc))
            &&& (forall|bi: int|
                0 <= bi < ms.len() ==> block_edges_ok(
                    bs[bi],
                    (#[trigger] ms[bi]).edges,
                    ms[bi].malformed,
                    bi + 1 < ms.len(),
                    bs,
                ))
            &&& (forall|bi: int|
                0 <= bi < ms.len() ==> ((#[trigger] ms[bi]).malformed <==> spec_block_malformed(
                    ms[bi].entry_depth,
                    bs[bi],
                )))
            &&& (forall|bi: int|
                0 <= bi < ms.len() ==> (#[trigger] ms[bi]).entry_depth <= STACK_LIMIT as nat)
            &&& (ms.len() > 0 ==> ms[0].entry_depth == 0)
            &&& cfg.malformed_pcs@.map_values(|p: usize| p as nat) == malformed_starts(ms)
        }),
{
    let listing = disassemble(bytecode);
    let blocks_instr = split_blocks(&listing.instructions);
    let ghost bs = block_models(blocks_instr@);
    let n = blocks_instr.len();

    let mut edges_v: Vec<Vec<Edge>> = Vec::new();
    let mut stmts_v: Vec<Vec<Statement>> = Vec::new();
    let mut malformed_v: Vec<bool> = Vec::new();
    let mut depths_v: Vec<usize> = Vec::new();
    let mut bi: usize = 0;
    while bi < n
        invariant
            n == blocks_instr@.len(),
            bs == block_models(blocks_instr@),
            wf_blocks(bs),
            bi <= n,
            edges_v@.len() == bi,
            stmts_v@.len() == bi,
            malformed_v@.len() == bi,
            depths_v@.len() == bi,
            forall|j: int|
                0 <= j < bi ==> block_edges_ok(
                    bs[j],
                    (#[trigger] edges_v@[j])@,
                    malformed_v@[j],
                    j + 1 < n,
                    bs,
                ),
            forall|j: int|
                0 <= j < bi ==> (#[trigger] malformed_v@[j] == spec_block_malformed(
                    depths_v@[j] as nat,
                    bs[j],
                )),
            forall|j: int| 0 <= j < bi ==> #[trigger] depths_v@[j] == 0,
        decreases n - bi,
    {
        let rep = process_block(&blocks_instr, bi, empty_state());
        edges_v.push(rep.edges);
        stmts_v.push(rep.statements);
        malformed_v.push(rep.malformed);
        depths_v.push(0);
        bi = bi + 1;
    }

    let mut entry_states: Vec<Option<MachineState>> = Vec::new();
    let mut budgets: Vec<usize> = Vec::new();
    let mut j: usize = 0;
    while j < n
        invariant
            j <= n,
            entry_states@.len() == j,
            budgets@.len() == j,
            forall|j2: int| 0 <= j2 < j ==> (#[trigger] entry_states@[j2]) is None,
        decreases n - j,
    {
        entry_states.push(None);
        budgets.push(2);
        j = j + 1;
    }

    let mut worklist: Vec<(usize, MachineState)> = Vec::new();
    if n > 0 {
        worklist.push((0, empty_state()));
        proof {
            assert(worklist@[0].1@.stack.len() == 0);
        }
    }
    while worklist.len() > 0
        invariant
            n == blocks_instr@.len(),
            bs == block_models(blocks_instr@),
            wf_blocks(bs),
            edges_v@.len() == n,
            stmts_v@.len() == n,
            malformed_v@.len() == n,
            depths_v@.len() == n,
            entry_states@.len() == n,
            budgets@.len() == n,
            forall|j2: int| 0 <= j2 < worklist@.len() ==> (#[trigger] worklist@[j2]).0 < n,
            forall|j2: int|
                0 <= j2 < worklist@.len() ==> (#[trigger] worklist@[j2]).1@.stack.len()
                    <= STACK_LIMIT,
            forall|j2: int|
                0 <= j2 < n ==> block_edges_ok(
                    bs[j2],
                    (#[trigger] edges_v@[j2])@,
                    malformed_v@[j2],
                    j2 + 1 < n,
                    bs,
                ),
            forall|j2: int|
                0 <= j2 < n ==> (#[trigger] malformed_v@[j2] == spec_block_malformed(
                    depths_v@[j2] as nat,
                    bs[j2],
                )),
            forall|j2: int| 0 <= j2 < n ==> #[trigger] depths_v@[j2] <= STACK_LIMIT,
            n > 0 ==> depths_v@[0] == 0,
            n > 0 ==> (entry_states@[0] matches Some(s) ==> s@.stack.len() == 0),
            forall|j2: int|
                0 <= j2 < n ==> ((#[trigger] entry_states@[j2]) matches Some(s)
                    ==> s@.stack.len() <= STACK_LIMIT),
        decreases 3 * sum_budgets(budgets@) + worklist@.len(),
    {
        let ghost pre_measure = 3 * sum_budgets(budgets@) + worklist@.len();
        let item = worklist.pop().unwrap();
        let bi2 = item.0;
        let incoming = item.1;
        if budgets[bi2] > 0 {
            let ghost pre_budgets = budgets@;
            let old_budget = budgets[bi2];
            budgets.set(bi2, old_budget - 1);
            proof {
                lemma_sum_update(pre_budgets, bi2 as int, (old_budget - 1) as usize);
            }
            assert(blocks_instr@[bi2 as int]@.len() >= 1) by {
                assert(bs[bi2 as int].len() >= 1);
            }
            let join_pc = blocks_instr[bi2][0].program_counter;
            let merged = match &entry_states[bi2] {
                Some(old_entry) => merge_states(old_entry, &incoming, join_pc),
                None => {
                    if bi2 == 0 {
                        // The program-start block always enters on an empty stack.
                        empty_state()
                    } else {
                        incoming
                    }
                },
            };
            let depth = merged.stack.len();
            let stored = clone_state(&merged);
            entry_states.set(bi2, Some(stored));
            depths_v.set(bi2, depth);
            let rep = process_block(&blocks_instr, bi2, merged);
            edges_v.set(bi2, rep.edges);
            stmts_v.set(bi2, rep.statements);
            malformed_v.set(bi2, rep.malformed);
            match rep.jump_succ {
                Some(bj) => {
                    worklist.push((bj, clone_state(&rep.out_state)));
                },
                None => {},
            }
            if rep.falls && bi2 + 1 < n {
                worklist.push((bi2 + 1, rep.out_state));
            }
            assert(3 * sum_budgets(budgets@) + worklist@.len() < pre_measure);
        }
    }

    let mut blocks: Vec<BasicBlock> = Vec::new();
    let mut k: usize = 0;
    while k < n
        invariant
            n == blocks_instr@.len(),
            bs == block_models(blocks_instr@),
            wf_blocks(bs),
            edges_v@.len() == n,
            stmts_v@.len() == n,
            malformed_v@.len() == n,
            depths_v@.len() == n,
            forall|j2: int|
                0 <= j2 < n ==> block_edges_ok(
                    bs[j2],
                    (#[trigger] edges_v@[j2])@,
                    malformed_v@[j2],
                    j2 + 1 < n,
                    bs,
                ),
            forall|j2: int|
                0 <= j2 < n ==> (#[trigger] malformed_v@[j2] == spec_block_malformed(
                    depths_v@[j2] as nat,
                    bs[j2],
                )),
            forall|j2: int| 0 <= j2 < n ==> #[trigger] depths_v@[j2] <= STACK_LIMIT,
            n > 0 ==> depths_v@[0] == 0,
            k <= n,
            blocks@.len() == k,
            forall|j2: int|
                0 <= j2 < k ==> ((#[trigger] blocks@[j2])@.instrs == bs[j2] && blocks@[j2]@.edges
                    == edges_v@[j2]@ && blocks@[j2]@.malformed == malformed_v@[j2]
                    && blocks@[j2]@.start_pc == bs[j2][0].pc && blocks@[j2]@.end_pc
                    == bs[j2][bs[j2].len() - 1].pc && blocks@[j2]@.entry_depth == depths_v@[j2]
                    as nat),
        decreases n - k,
    {
        let binstr = &blocks_instr[k];
        assert(bs[k as int].len() >= 1);
        assert(binstr@.len() >= 1);
        let start_pc = binstr[0].program_counter;
        let end_pc = binstr[binstr.len() - 1].program_counter;
        let block = BasicBlock {
            start_pc,
            end_pc,
            instructions: clone_instrs(binstr),
            entry_stack_depth: depths_v[k],
            exit_edges: clone_edges(&edges_v[k]),
            statements: clone_stmts(&stmts_v[k]),
            malformed: malformed_v[k],
        };
        blocks.push(block);
        k = k + 1;
    }

    let mut malformed_pcs: Vec<usize> = Vec::new();
    let mut m: usize = 0;
    while m < blocks.len()
        invariant
            m <= blocks@.len(),
            malformed_pcs@.map_values(|p: usize| p as nat) == malformed_starts(
                blocks@.subrange(0, m as int).map_values(|b: BasicBlock| b@),
            ),
        decreases blocks@.len() - m,
    {
        let ghost pre = blocks@.subrange(0, m as int).map_values(|b: BasicBlock| b@);
        if blocks[m].malformed {
            malformed_pcs.push(blocks[m].start_pc);
        }
        m = m + 1;
        proof {
            let cur = blocks@.subrange(0, m as int).map_values(|b: BasicBlock| b@);
            assert(cur.drop_last() =~= pre);
            assert(cur.last() == blocks@[m - 1]@);
            assert(malformed_pcs@.map_values(|p: usize| p as nat) =~= malformed_starts(cur));
        }
    }
    proof {
        assert(blocks@.subrange(0, blocks@.len() as int) =~= blocks@);
        let ms = blocks@.map_values(|b: BasicBlock| b@);
        let bs2 = ms.map_values(|mm: BlockModel| mm.instrs);
        assert(bs2 =~~= bs);
    }
    ControlFlowGraph { blocks, malformed_pcs }
}

} // verus!
