use heimdall::cfg::{build_cfg, Edge};
use heimdall::decoder::disassemble;
use heimdall::decompiler::{decompile, StructuredStatement};
use heimdall::word::Word;

fn word(lo: u128) -> Word {
    Word { hi: 0, lo }
}

#[test]
fn single_plain_instruction_decodes_alone() {
    let bytes: Vec<u8> = vec![0x01];
    let listing = disassemble(&bytes);
    assert_eq!(listing.instructions.len(), 1);
    assert_eq!(listing.instructions[0].program_counter, 0);
    assert_eq!(listing.instructions[0].opcode, 0x01);
    assert!(listing.instructions[0].operand.is_empty());
}

#[test]
fn single_push_instruction_decodes_alone() {
    let bytes: Vec<u8> = vec![0x60, 0x05];
    let listing = disassemble(&bytes);
    assert_eq!(listing.instructions.len(), 1);
    assert_eq!(listing.instructions[0].program_counter, 0);
    assert_eq!(listing.instructions[0].opcode, 0x60);
    assert_eq!(listing.instructions[0].operand, vec![0x05]);
}

#[test]
fn truncated_push_operand_is_clamped() {
    // PUSH3 with only one operand byte left: still one instruction.
    let bytes: Vec<u8> = vec![0x62, 0x01];
    let listing = disassemble(&bytes);
    assert_eq!(listing.instructions.len(), 1);
    assert_eq!(listing.instructions[0].program_counter, 0);
    assert_eq!(listing.instructions[0].operand, vec![0x01]);
}

#[test]
fn disassemble_reports_jump_destinations() {
    // PUSH1 0x03; JUMP; JUMPDEST; STOP
    let bytes: Vec<u8> = vec![0x60, 0x03, 0x56, 0x5b, 0x00];
    let listing = disassemble(&bytes);
    assert_eq!(listing.jump_destinations, vec![3]);
    let pcs: Vec<usize> = listing.instructions.iter().map(|i| i.program_counter).collect();
    assert_eq!(pcs, vec![0, 2, 3, 4]);
}

#[test]
fn empty_input_gives_empty_listing() {
    let bytes: Vec<u8> = Vec::new();
    let listing = disassemble(&bytes);
    assert!(listing.instructions.is_empty());
    assert!(listing.jump_destinations.is_empty());
    let cfg = build_cfg(&bytes);
    assert!(cfg.blocks.is_empty());
}

#[test]
fn blocks_partition_covers_every_instruction_once() {
    // PUSH1 3; JUMP; JUMPDEST; PUSH1 0; PUSH1 0; RETURN
    let bytes: Vec<u8> = vec![0x60, 0x03, 0x56, 0x5b, 0x60, 0x00, 0x60, 0x00, 0xf3];
    let listing = disassemble(&bytes);
    let cfg = build_cfg(&bytes);
    let mut covered: Vec<usize> = Vec::new();
    for b in &cfg.blocks {
        for i in &b.instructions {
            covered.push(i.program_counter);
        }
    }
    let expected: Vec<usize> = listing.instructions.iter().map(|i| i.program_counter).collect();
    assert_eq!(covered, expected);
    for b in &cfg.blocks {
        assert!(!b.instructions.is_empty());
        assert_eq!(b.start_pc, b.instructions[0].program_counter);
        assert_eq!(b.end_pc, b.instructions[b.instructions.len() - 1].program_counter);
    }
}

#[test]
fn direct_push_jump_resolves() {
    // PUSH1 3; JUMP; JUMPDEST; STOP
    let bytes: Vec<u8> = vec![0x60, 0x03, 0x56, 0x5b, 0x00];
    let cfg = build_cfg(&bytes);
    assert_eq!(cfg.blocks.len(), 2);
    assert_eq!(cfg.blocks[0].exit_edges, vec![Edge::JumpTo(3)]);
    assert_eq!(cfg.blocks[1].exit_edges, vec![Edge::Halt]);
    assert!(cfg.malformed_pcs.is_empty());
}

#[test]
fn computed_jump_target_is_folded_and_resolved() {
    // PUSH1 3; PUSH1 4; ADD; JUMP; STOP; JUMPDEST; STOP -> target 3 + 4 == 7
    let bytes: Vec<u8> = vec![0x60, 0x03, 0x60, 0x04, 0x01, 0x56, 0x00, 0x5b, 0x00];
    let cfg = build_cfg(&bytes);
    assert_eq!(cfg.blocks[0].exit_edges, vec![Edge::JumpTo(7)]);
}

#[test]
fn jump_to_non_destination_stays_unresolved() {
    // PUSH1 4; JUMP; STOP; STOP: 4 is past the end, no marker there.
    let bytes: Vec<u8> = vec![0x60, 0x04, 0x56, 0x00, 0x00];
    let cfg = build_cfg(&bytes);
    assert_eq!(cfg.blocks[0].exit_edges, vec![Edge::Unresolved]);
}

#[test]
fn cyclic_bytecode_terminates_with_back_edge() {
    // JUMPDEST; PUSH1 0; JUMP: an endless loop back to address zero.
    let bytes: Vec<u8> = vec![0x5b, 0x60, 0x00, 0x56];
    let cfg = build_cfg(&bytes);
    assert_eq!(cfg.blocks.len(), 1);
    assert_eq!(cfg.blocks[0].exit_edges, vec![Edge::JumpTo(0)]);
}

#[test]
fn stack_underflow_marks_block_malformed() {
    // ADD on an empty stack, then STOP.
    let bytes: Vec<u8> = vec![0x01, 0x00];
    let cfg = build_cfg(&bytes);
    assert_eq!(cfg.malformed_pcs, vec![0]);
    assert_eq!(cfg.blocks.len(), 1);
    assert!(cfg.blocks[0].malformed);
    assert!(cfg.blocks[0].exit_edges.is_empty());
}

#[test]
fn revert_and_undefined_opcodes_end_blocks() {
    // PUSH1 0; PUSH1 0; REVERT
    let bytes: Vec<u8> = vec![0x60, 0x00, 0x60, 0x00, 0xfd];
    let cfg = build_cfg(&bytes);
    assert_eq!(cfg.blocks[0].exit_edges, vec![Edge::Revert]);
    // An undefined opcode halts exceptionally.
    let bytes2: Vec<u8> = vec![0x0c];
    let cfg2 = build_cfg(&bytes2);
    assert_eq!(cfg2.blocks[0].exit_edges, vec![Edge::Revert]);
}

#[test]
fn conditional_branch_has_branch_and_fallthrough() {
    // PUSH1 1; PUSH1 6; JUMPI; STOP; JUMPDEST; STOP
    let bytes: Vec<u8> = vec![0x60, 0x01, 0x60, 0x06, 0x57, 0x00, 0x5b, 0x00];
    let cfg = build_cfg(&bytes);
    assert_eq!(cfg.blocks[0].exit_edges.len(), 2);
    match &cfg.blocks[0].exit_edges[0] {
        Edge::JumpIf(t, _) => assert_eq!(*t, 6),
        other => panic!("expected a resolved branch, got {:?}", other),
    }
    assert_eq!(cfg.blocks[0].exit_edges[1], Edge::Fallthrough);
}

fn dispatcher_bytecode() -> Vec<u8> {
    // A two-arm selector dispatcher:
    //   PUSH1 0; CALLDATALOAD; PUSH1 0xE0; SHR
    //   DUP1; PUSH4 0xAAAAAAAA; EQ; PUSH1 27; JUMPI
    //   DUP1; PUSH4 0xBBBBBBBB; EQ; PUSH1 29; JUMPI
    //   STOP
    //   JUMPDEST; STOP      (27)
    //   JUMPDEST; STOP      (29)
    vec![
        0x60, 0x00, 0x35, 0x60, 0xe0, 0x1c, 0x80, 0x63, 0xaa, 0xaa, 0xaa, 0xaa, 0x14, 0x60, 27,
        0x57, 0x80, 0x63, 0xbb, 0xbb, 0xbb, 0xbb, 0x14, 0x60, 29, 0x57, 0x00, 0x5b, 0x00, 0x5b,
        0x00,
    ]
}

#[test]
fn selector_dispatch_yields_two_named_functions_and_fallback() {
    let bytes = dispatcher_bytecode();
    let module = decompile(&bytes);
    assert_eq!(module.functions.len(), 3);
    assert_eq!(module.functions[0].selector, Some(word(0xaaaaaaaa)));
    assert_eq!(module.functions[0].entry_pc, 27);
    assert_eq!(module.functions[1].selector, Some(word(0xbbbbbbbb)));
    assert_eq!(module.functions[1].entry_pc, 29);
    assert_eq!(module.functions[2].selector, None);
}

#[test]
fn decompile_plain_code_gives_only_fallback() {
    let bytes: Vec<u8> = vec![0x60, 0x00, 0x60, 0x00, 0xf3];
    let module = decompile(&bytes);
    assert_eq!(module.functions.len(), 1);
    assert_eq!(module.functions[0].selector, None);
    assert!(!module.functions[0].body.is_empty());
}

#[test]
fn pipeline_is_deterministic_on_identical_input() {
    let bytes = dispatcher_bytecode();
    let l1 = format!("{:?}", disassemble(&bytes));
    let l2 = format!("{:?}", disassemble(&bytes));
    assert_eq!(l1, l2);
    let c1 = format!("{:?}", build_cfg(&bytes));
    let c2 = format!("{:?}", build_cfg(&bytes));
    assert_eq!(c1, c2);
    let d1 = format!("{:?}", decompile(&bytes));
    let d2 = format!("{:?}", decompile(&bytes));
    assert_eq!(d1, d2);
}

#[test]
fn entry_stack_depth_of_dispatch_arm_blocks() {
    let bytes = dispatcher_bytecode();
    let cfg = build_cfg(&bytes);
    // The program-start block takes an empty stack.
    assert_eq!(cfg.blocks[0].entry_stack_depth, 0);
}

#[test]
fn join_point_merges_two_entry_stacks() {
    // Two paths each push one (different) value and meet at address 13:
    //   PUSH1 1; PUSH1 10; JUMPI
    //   PUSH1 42; PUSH1 13; JUMP
    //   JUMPDEST; PUSH1 7
    //   JUMPDEST; STOP
    let bytes: Vec<u8> = vec![
        0x60, 0x01, 0x60, 0x0a, 0x57, 0x60, 0x2a, 0x60, 0x0d, 0x56, 0x5b, 0x60, 0x07, 0x5b, 0x00,
    ];
    let cfg = build_cfg(&bytes);
    assert_eq!(cfg.blocks.len(), 4);
    assert_eq!(cfg.blocks[1].exit_edges, vec![Edge::JumpTo(13)]);
    assert_eq!(cfg.blocks[2].exit_edges, vec![Edge::Fallthrough]);
    // The join block sees a one-deep stack from both sides.
    assert_eq!(cfg.blocks[3].start_pc, 13);
    assert_eq!(cfg.blocks[3].entry_stack_depth, 1);
    assert_eq!(cfg.blocks[3].exit_edges, vec![Edge::Halt]);
}

#[test]
fn repeated_subexpression_is_hoisted() {
    // The same sum is stored to two memory slots:
    //   PUSH1 0; CALLDATALOAD; PUSH1 1; ADD; DUP1
    //   PUSH1 0; MSTORE; PUSH1 32; MSTORE; STOP
    let bytes: Vec<u8> = vec![
        0x60, 0x00, 0x35, 0x60, 0x01, 0x01, 0x80, 0x60, 0x00, 0x52, 0x60, 0x20, 0x52, 0x00,
    ];
    let module = decompile(&bytes);
    let body = &module.functions[0].body;
    let rendered = format!("{:?}", body);
    assert!(rendered.contains("Assign(0"));
    assert!(rendered.contains("Temp(0)"));
}

#[test]
fn malformed_block_stays_visible_in_decompiled_output() {
    // ADD on an empty stack: the program-start block is malformed and its
    // marker must survive into the fallback body.
    let bytes: Vec<u8> = vec![0x01, 0x00];
    let module = decompile(&bytes);
    let fallback = &module.functions[module.functions.len() - 1];
    assert!(fallback.body.contains(&StructuredStatement::MalformedBlock(0)));
}

#[test]
fn unresolved_jump_stays_visible_in_decompiled_output() {
    // PUSH1 4; JUMP with no marker at 4: the jump stays explicit.
    let bytes: Vec<u8> = vec![0x60, 0x04, 0x56, 0x00, 0x00];
    let module = decompile(&bytes);
    let fallback = &module.functions[module.functions.len() - 1];
    assert!(fallback.body.contains(&StructuredStatement::UnresolvedJump));
}
