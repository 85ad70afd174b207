//! The instruction decoder: one linear walk over the raw byte string.
//!
//! Decoding never fails: a push operand cut short by the end of the input is
//! clamped to the bytes that remain, and undefined opcodes become ordinary
//! instructions that later analysis treats as halting. The whole result is
//! pinned to the spec function `decode_from`.

use vstd::prelude::*;
use crate::opcode::{push_width, push_width_of, OP_JUMPDEST};

verus! {

/// One decoded instruction: opcode, immediate operand (empty when the opcode
/// carries none), and the program counter of its first byte.
#[derive(Debug)]
pub struct Instruction {
    pub program_counter: usize,
    pub opcode: u8,
    pub operand: Vec<u8>,
}

impl Clone for Instruction {
    /// A clone has the same model as the original.
    fn clone(&self) -> (res: Self)
        ensures
            res@ == self@,
    {
        Instruction {
            program_counter: self.program_counter,
            opcode: self.opcode,
            operand: copy_all(&self.operand),
        }
    }
}

/// Copies a byte vector.
pub(crate) fn copy_all(bytes: &Vec<u8>) -> (v: Vec<u8>)
    ensures
        v@ == bytes@,
{
    let mut v: Vec<u8> = Vec::new();
    let mut i: usize = 0;
    while i < bytes.len()
        invariant
            i <= bytes@.len(),
            v@ == bytes@.subrange(0, i as int),
        decreases bytes@.len() - i,
    {
        v.push(bytes[i]);
        i = i + 1;
        proof {
            assert(v@ =~= bytes@.subrange(0, i as int));
        }
    }
    proof {
        assert(bytes@.subrange(0, bytes@.len() as int) =~= bytes@);
    }
    v
}

/// The mathematical shape of an instruction.
pub ghost struct InstrModel {
    pub pc: nat,
    pub opcode: u8,
    pub operand: Seq<u8>,
}

impl View for Instruction {
    type V = InstrModel;

    open spec fn view(&self) -> InstrModel {
        InstrModel { pc: self.program_counter as nat, opcode: self.opcode, operand: self.operand@ }
    }
}

/// The models of a sequence of decoded instructions.
pub open spec fn instr_models(v: Seq<Instruction>) -> Seq<InstrModel> {
    v.map_values(|i: Instruction| i@)
}

/// Position just past the instruction that starts at `pc`: the opcode byte
/// plus its operand, clamped to the end of the input.
pub open spec fn instr_end(bytes: Seq<u8>, pc: nat) -> nat
    recommends
        pc < bytes.len(),
{
    if pc + 1 + push_width(bytes[pc as int]) <= bytes.len() {
        pc + 1 + push_width(bytes[pc as int])
    } else {
        bytes.len() as nat
    }
}

/// The instruction sequence decoded from position `pc` to the end.
pub open spec fn decode_from(bytes: Seq<u8>, pc: nat) -> Seq<InstrModel>
    decreases bytes.len() - pc,
{
    if pc >= bytes.len() {
        Seq::empty()
    } else {
        let end = instr_end(bytes, pc);
        seq![
            InstrModel {
                pc: pc,
                opcode: bytes[pc as int],
                operand: bytes.subrange(pc as int + 1, end as int),
            }
        ] + decode_from(bytes, end)
    }
}

/// The program counters that hold the jump-destination marker, in order.
pub open spec fn jumpdests_of(instrs: Seq<InstrModel>) -> Seq<nat>
    decreases instrs.len(),
{
    if instrs.len() == 0 {
        Seq::empty()
    } else {
        let rest = jumpdests_of(instrs.drop_last());
        if instrs.last().opcode == OP_JUMPDEST {
            rest.push(instrs.last().pc)
        } else {
            rest
        }
    }
}

/// A full disassembly: the decoded instructions and the set of valid
/// jump-destination program counters, each in increasing order.
#[derive(Clone, Debug)]
pub struct AssemblyListing {
    pub instructions: Vec<Instruction>,
    pub jump_destinations: Vec<usize>,
}

/// Copies `bytes[start..end]` into a fresh vector.
fn copy_range(bytes: &Vec<u8>, start: usize, end: usize) -> (v: Vec<u8>)
    requires
        start <= end,
        end <= bytes@.len(),
    ensures
        v@ == bytes@.subrange(start as int, end as int),
{
    let mut v: Vec<u8> = Vec::new();
    let mut i: usize = start;
    while i < end
        invariant
            start <= i <= end,
            end <= bytes@.len(),
            v@ == bytes@.subrange(start as int, i as int),
        decreases end - i,
    {
        v.push(bytes[i]);
        i = i + 1;
        proof {
            assert(v@ =~= bytes@.subrange(start as int, i as int));
        }
    }
    v
}

/// Disassembles a raw byte string. Never fails: the result is exactly the
/// decoding that `decode_from` describes, and the listed jump destinations
/// are exactly the program counters of the jump-destination markers.
pub fn disassemble(bytecode: &Vec<u8>) -> (r: AssemblyListing)
    ensures
        r.instructions@.map_values(|i: Instruction| i@) == decode_from(bytecode@, 0),
        r.jump_destinations@.map_values(|p: usize| p as nat) == jumpdests_of(
            decode_from(bytecode@, 0),
        ),
{
    let ghost whole = decode_from(bytecode@, 0);
    let mut instructions: Vec<Instruction> = Vec::new();
    let mut jump_destinations: Vec<usize> = Vec::new();
    let mut pc: usize = 0;
    while pc < bytecode.len()
        invariant
            pc <= bytecode@.len(),
            whole == decode_from(bytecode@, 0),
            instructions@.map_values(|i: Instruction| i@) + decode_from(bytecode@, pc as nat)
                == whole,
            jump_destinations@.map_values(|p: usize| p as nat) == jumpdests_of(
                instructions@.map_values(|i: Instruction| i@),
            ),
        decreases bytecode@.len() - pc,
    {
        let op = bytecode[pc];
        let width = push_width_of(op);
        let avail = bytecode.len() - (pc + 1);
        let take = if width <= avail {
            width
        } else {
            avail
        };
        let end = pc + 1 + take;
        assert(end == instr_end(bytecode@, pc as nat));
        let operand = copy_range(bytecode, pc + 1, end);
        let instr = Instruction { program_counter: pc, opcode: op, operand };
        let ghost prev = instructions@.map_values(|i: Instruction| i@);
        instructions.push(instr);
        proof {
            assert(instructions@.map_values(|i: Instruction| i@) =~= prev.push(instr@));
            assert(decode_from(bytecode@, pc as nat) == seq![instr@] + decode_from(
                bytecode@,
                end as nat,
            ));
            assert(prev.push(instr@) + decode_from(bytecode@, end as nat) =~= prev + decode_from(
                bytecode@,
                pc as nat,
            ));
            assert(prev.push(instr@).drop_last() =~= prev);
        }
        if op == OP_JUMPDEST {
            let ghost prev_jd = jump_destinations@.map_values(|p: usize| p as nat);
            jump_destinations.push(pc);
            proof {
                assert(jump_destinations@.map_values(|p: usize| p as nat) =~= prev_jd.push(
                    pc as nat,
                ));
            }
        }
        pc = end;
    }
    proof {
        assert(decode_from(bytecode@, pc as nat) =~= Seq::<InstrModel>::empty());
        assert(instructions@.map_values(|i: Instruction| i@) + Seq::<InstrModel>::empty()
            =~= instructions@.map_values(|i: Instruction| i@));
    }
    AssemblyListing { instructions, jump_destinations }
}

/// Any byte string that is exactly one instruction (one opcode byte and at
/// most its declared operand) decodes to exactly one instruction, and its
/// program counter is zero.
pub proof fn lemma_single_instruction_decodes_alone(bytes: Seq<u8>)
    requires
        1 <= bytes.len(),
        bytes.len() <= 1 + push_width(bytes[0]),
    ensures
        decode_from(bytes, 0).len() == 1,
        decode_from(bytes, 0)[0].pc == 0,
        decode_from(bytes, 0)[0].opcode == bytes[0],
        decode_from(bytes, 0)[0].operand == bytes.subrange(1, bytes.len() as int),
{
    let end = instr_end(bytes, 0);
    assert(end == bytes.len());
    assert(decode_from(bytes, end) =~= Seq::<InstrModel>::empty());
}

/// Equal inputs decode equally: the decoding is a function of the bytes
/// alone, so the disassembler is deterministic.
pub proof fn lemma_disassemble_deterministic(
    b1: Seq<u8>,
    b2: Seq<u8>,
    r1: Seq<InstrModel>,
    r2: Seq<InstrModel>,
)
    requires
        b1 == b2,
        r1 == decode_from(b1, 0),
        r2 == decode_from(b2, 0),
    ensures
        r1 == r2,
{
}

} // verus!
