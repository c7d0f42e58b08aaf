use load_dll::block_finder::Block;
use load_dll::block_writer::{BlockWriter, BlockWriterError};
use load_dll::decoded::{Decoded, IllegalOp, InstructionDecoder};
use load_dll::emit::emit_instruction;

fn program(len: usize, code: &[(usize, u32, usize, Decoded)]) -> (Vec<u8>, Vec<Decoded>) {
    let mut mem = vec![0u8; len];
    let mut decoded = vec![Decoded::Illegal(IllegalOp { ins: 0 }); len];
    for &(addr, ins, width, d) in code {
        let bytes = ins.to_le_bytes();
        mem[addr..addr + width].copy_from_slice(&bytes[..width]);
        decoded[addr] = d;
    }
    (mem, decoded)
}

const PREAMBLE: &str = "#![no_std]\nuse arviss::HandleRv32i;\nuse arviss::platforms::basic::*;\nuse arviss::decoding::Reg;\ntype Cpu = Rv32iCpu::<BasicMem>;\n";

fn straight_line() -> (Vec<u8>, Vec<Decoded>) {
    let d = InstructionDecoder;
    program(
        12,
        &[(0, 0x0050_0093, 4, d.addi(1, 0, 5)), (4, 0x0030_8113, 4, d.addi(2, 1, 3)), (8, 0x0010_0073, 4, d.ebreak())],
    )
}

const STRAIGHT_LINE_BLOCK: &str = "\n#[no_mangle]\npub extern \"C\" fn block_00000000_0000000c(cpu: &mut Cpu) {\n    // 00000000 00500093\n    cpu.wx(Reg::RA, cpu.rx(Reg::ZERO).wrapping_add(0x00000005));\n    // 00000004 00308113\n    cpu.wx(Reg::SP, cpu.rx(Reg::RA).wrapping_add(0x00000003));\n    // 00000008 00100073\n    cpu.handle_ebreak();\n    cpu.set_next_pc(0x0000000c);\n}\n";

#[test]
fn straight_line_block_commits_its_end() {
    let (mem, dec) = straight_line();
    let writer = BlockWriter::new(&mem, &dec);
    let text = writer.write_block(&Block { start: 0, end: 12 }).unwrap();
    assert_eq!(text, STRAIGHT_LINE_BLOCK);
}

#[test]
fn jump_sets_next_pc_itself() {
    let d = InstructionDecoder;
    let (mem, dec) = program(12, &[(0, 0x0080_006f, 4, d.jal(0, 8)), (8, 0x0010_0073, 4, d.ebreak())]);
    let writer = BlockWriter::new(&mem, &dec);
    let text = writer.write_block(&Block { start: 0, end: 4 }).unwrap();
    assert_eq!(
        text,
        "\n#[no_mangle]\npub extern \"C\" fn block_00000000_00000004(cpu: &mut Cpu) {\n    // 00000000 0080006f\n    cpu.wx(Reg::ZERO, 0x00000004);\n    cpu.set_next_pc(0x00000008);\n}\n"
    );
}

#[test]
fn branch_resolves_both_targets() {
    let d = InstructionDecoder;
    let (mem, dec) = program(16, &[(4, 0x0000_0463, 4, d.bne(1, 2, 8))]);
    let writer = BlockWriter::new(&mem, &dec);
    let text = writer.write_block(&Block { start: 4, end: 8 }).unwrap();
    assert_eq!(
        text,
        "\n#[no_mangle]\npub extern \"C\" fn block_00000004_00000008(cpu: &mut Cpu) {\n    // 00000004 00000463\n    if cpu.rx(Reg::RA) != cpu.rx(Reg::SP) {\n        cpu.set_next_pc(0x0000000c);\n    } else {\n        cpu.set_next_pc(0x00000008);\n    }\n}\n"
    );
}

#[test]
fn compressed_instructions_are_expanded() {
    let d = InstructionDecoder;
    let (mem, dec) = program(4, &[(0, 0x0085, 2, d.c_addi(1, 1)), (2, 0x9002, 2, d.c_ebreak())]);
    let writer = BlockWriter::new(&mem, &dec);
    let text = writer.write_block(&Block { start: 0, end: 4 }).unwrap();
    assert_eq!(
        text,
        "\n#[no_mangle]\npub extern \"C\" fn block_00000000_00000004(cpu: &mut Cpu) {\n    // 00000000     0085\n    cpu.wx(Reg::RA, cpu.rx(Reg::RA).wrapping_add(0x00000001));\n    // 00000002     9002\n    cpu.handle_ebreak();\n    cpu.set_next_pc(0x00000004);\n}\n"
    );
}

#[test]
fn compressed_jump_and_link_links_past_itself() {
    let d = InstructionDecoder;
    let code = emit_instruction(&d.c_jal(0x10), 0x20, 0x22);
    assert_eq!(code, "    cpu.wx(Reg::RA, 0x00000022);\n    cpu.set_next_pc(0x00000030);\n");
}

#[test]
fn auipc_is_resolved_at_translation_time() {
    let d = InstructionDecoder;
    let code = emit_instruction(&d.auipc(5, 0x1000), 0x40, 0x44);
    assert_eq!(code, "    cpu.wx(Reg::T0, 0x00001040);\n");
}

#[test]
fn indirect_jump_masks_low_bit() {
    let d = InstructionDecoder;
    let code = emit_instruction(&d.jalr(1, 10, 4), 0x8, 0xc);
    assert_eq!(
        code,
        "    let target = cpu.rx(Reg::A0).wrapping_add(0x00000004) & !1;\n    cpu.wx(Reg::RA, 0x0000000c);\n    cpu.set_next_pc(target);\n"
    );
}

#[test]
fn loads_and_stores_forward_faults() {
    let d = InstructionDecoder;
    assert_eq!(
        emit_instruction(&d.lw(8, 2, 12), 0, 4),
        "    match cpu.read32(cpu.rx(Reg::SP).wrapping_add(0x0000000c)) {\n        Ok(v) => cpu.wx(Reg::S0, v),\n        Err(address) => cpu.handle_trap(TrapCause::LoadAccessFault(address)),\n    }\n"
    );
    assert_eq!(
        emit_instruction(&d.sb(2, 9, 1), 0, 4),
        "    if let Err(address) = cpu.write8(cpu.rx(Reg::SP).wrapping_add(0x00000001), cpu.rx(Reg::S1) as u8) {\n        cpu.handle_trap(TrapCause::StoreAccessFault(address));\n    }\n"
    );
}

#[test]
fn nop_and_fence_emit_nothing() {
    let d = InstructionDecoder;
    assert_eq!(emit_instruction(&d.c_nop(0), 0, 2), "");
    assert_eq!(emit_instruction(&d.fence(0, 0, 0), 0, 4), "");
}

#[test]
fn write_blocks_starts_with_preamble() {
    let (mem, dec) = straight_line();
    let writer = BlockWriter::new(&mem, &dec);
    assert_eq!(writer.begin(), PREAMBLE);
    let text = writer.write_blocks(&vec![Block { start: 0, end: 12 }]).unwrap();
    assert_eq!(text, format!("{PREAMBLE}{STRAIGHT_LINE_BLOCK}"));
}

#[test]
fn unreadable_block_fails() {
    let (mem, dec) = straight_line();
    let writer = BlockWriter::new(&mem, &dec);
    assert_eq!(
        writer.write_block(&Block { start: 8, end: 16 }),
        Err(BlockWriterError::ReadFailed { addr: 12 })
    );
    assert_eq!(
        writer.write_blocks(&vec![Block { start: 0, end: 12 }, Block { start: 11, end: 12 }]),
        Err(BlockWriterError::ReadFailed { addr: 11 })
    );
}
