use load_dll::block_finder::{Block, BlockFinder, BlockFinderError};
use load_dll::decoded::{Decoded, IllegalOp, InstructionDecoder};
use load_dll::read_instruction::read_instruction;

const EBREAK: u32 = 0x0010_0073;

/// An image holding `code`, each entry an address, an encoding and its width,
/// with the decoded form of each instruction at its address.
fn program(len: usize, code: &[(usize, u32, usize, Decoded)]) -> (Vec<u8>, Vec<Decoded>) {
    let mut mem = vec![0u8; len];
    let mut decoded = vec![Decoded::Illegal(IllegalOp { ins: 0 }); len];
    for &(addr, ins, width, d) in code {
        let bytes = ins.to_le_bytes();
        mem[addr..addr + width].copy_from_slice(&bytes[..width]);
        decoded[addr] = d;
    }
    (mem, decoded)
}

fn blocks(mem: &[u8], decoded: &[Decoded]) -> Result<Vec<Block>, BlockFinderError> {
    let mut finder = BlockFinder::with_mem(mem, decoded);
    finder.find_blocks(0)
}

fn b(start: u32, end: u32) -> Block {
    Block { start, end }
}

fn check_invariants(found: &[Block]) {
    for (i, x) in found.iter().enumerate() {
        assert!(x.end != 0 && x.end > x.start);
        for (j, y) in found.iter().enumerate() {
            if i < j {
                assert!(x.start < y.start);
            }
            if i != j {
                assert!(x.start != y.start);
                assert!(x.end <= y.start || y.end <= x.start);
            }
        }
    }
}

#[test]
fn straight_line() {
    let d = InstructionDecoder;
    let (mem, dec) = program(
        12,
        &[(0, 0x0050_0093, 4, d.addi(1, 0, 5)), (4, 0x0030_8113, 4, d.addi(2, 1, 3)), (8, EBREAK, 4, d.ebreak())],
    );
    let found = blocks(&mem, &dec).unwrap();
    assert_eq!(found, vec![b(0, 12)]);
    check_invariants(&found);
}

#[test]
fn forward_branch() {
    let d = InstructionDecoder;
    let (mem, dec) = program(
        16,
        &[
            (0, 0x0000_0463, 4, d.beq(0, 0, 8)),
            (4, 0x0010_0093, 4, d.addi(1, 0, 1)),
            (8, 0x0020_0113, 4, d.addi(2, 0, 2)),
            (12, EBREAK, 4, d.ebreak()),
        ],
    );
    let found = blocks(&mem, &dec).unwrap();
    assert_eq!(found, vec![b(0, 4), b(4, 8), b(8, 16)]);
    check_invariants(&found);
}

#[test]
fn unconditional_jump_skips_dead_code() {
    let d = InstructionDecoder;
    let (mem, dec) = program(
        12,
        &[(0, 0x0080_006f, 4, d.jal(0, 8)), (4, 0x0010_0093, 4, d.addi(1, 0, 1)), (8, EBREAK, 4, d.ebreak())],
    );
    let found = blocks(&mem, &dec).unwrap();
    assert_eq!(found, vec![b(0, 4), b(8, 12)]);
    check_invariants(&found);
}

#[test]
fn indirect_jump_starts_block_at_fall_through() {
    let d = InstructionDecoder;
    let (mem, dec) = program(
        24,
        &[
            (0, 0x0100_0093, 4, d.addi(1, 0, 16)),
            (4, 0x0000_8067, 4, d.jalr(0, 1, 0)),
            (8, 0x0070_0113, 4, d.addi(2, 0, 7)),
            (12, EBREAK, 4, d.ebreak()),
            (16, 0x0090_0193, 4, d.addi(3, 0, 9)),
            (20, EBREAK, 4, d.ebreak()),
        ],
    );
    let found = blocks(&mem, &dec).unwrap();
    assert_eq!(found, vec![b(0, 8), b(8, 16), b(16, 24)]);
    check_invariants(&found);
}

#[test]
fn later_jump_splits_scanned_block() {
    let d = InstructionDecoder;
    let (mem, dec) = program(
        16,
        &[
            (0, 0x0010_0093, 4, d.addi(1, 0, 1)),
            (4, 0x0080_006f, 4, d.jal(0, 8)),
            (8, EBREAK, 4, d.ebreak()),
            (12, 0xff9f_f06f, 4, d.jal(0, 0xffff_fff8)),
        ],
    );
    let found = blocks(&mem, &dec).unwrap();
    assert_eq!(found, vec![b(0, 4), b(4, 8), b(12, 16)]);
    check_invariants(&found);
}

#[test]
fn start_at_existing_end_does_not_split() {
    let d = InstructionDecoder;
    let (mem, dec) = program(
        12,
        &[(0, 0x0080_006f, 4, d.jal(0, 8)), (4, EBREAK, 4, d.ebreak()), (8, 0xffdf_f06f, 4, d.jal(0, 0xffff_fffc))],
    );
    let found = blocks(&mem, &dec).unwrap();
    assert_eq!(found, vec![b(0, 4), b(4, 8), b(8, 12)]);
    check_invariants(&found);
}

#[test]
fn compressed_mix() {
    let d = InstructionDecoder;
    let (mem, dec) = program(
        8,
        &[(0, 0x0085, 2, d.c_addi(1, 1)), (2, 0x0020_0113, 4, d.addi(2, 0, 2)), (6, 0x9002, 2, d.c_ebreak())],
    );
    let found = blocks(&mem, &dec).unwrap();
    assert_eq!(found, vec![b(0, 8)]);
    check_invariants(&found);
}

#[test]
fn compressed_instruction_in_last_two_bytes() {
    let d = InstructionDecoder;
    let (mem, dec) = program(6, &[(0, 0x0010_0093, 4, d.addi(1, 0, 1)), (4, 0x9002, 2, d.c_ebreak())]);
    assert_eq!(read_instruction(&mem, 4), Ok(0x9002));
    let found = blocks(&mem, &dec).unwrap();
    assert_eq!(found, vec![b(0, 6)]);
}

#[test]
fn branch_target_outside_image_is_dropped() {
    let d = InstructionDecoder;
    let (mem, dec) = program(8, &[(0, 0x0400_0063, 4, d.beq(0, 0, 64)), (4, EBREAK, 4, d.ebreak())]);
    let found = blocks(&mem, &dec).unwrap();
    assert_eq!(found, vec![b(0, 4), b(4, 8)]);
}

#[test]
fn block_running_off_the_image_ends_there() {
    let d = InstructionDecoder;
    let (mem, dec) = program(8, &[(0, 0x0010_0093, 4, d.addi(1, 0, 1)), (4, 0x0020_0113, 4, d.addi(2, 0, 2))]);
    let found = blocks(&mem, &dec).unwrap();
    assert_eq!(found, vec![b(0, 8)]);
}

#[test]
fn entry_outside_image_finds_nothing() {
    let (mem, dec) = program(4, &[]);
    let mut finder = BlockFinder::with_mem(&mem, &dec);
    assert_eq!(finder.find_blocks(8).unwrap(), vec![]);
}

#[test]
fn read_failure_is_reported() {
    let d = InstructionDecoder;
    let (mem, dec) = program(5, &[(0, 0x0010_0093, 4, d.addi(1, 0, 1))]);
    let err = blocks(&mem, &dec).unwrap_err();
    assert_eq!(err, BlockFinderError::MemoryReadFailed { addr: 4 });
    assert_eq!(err.message(), "memory read failed at 0x00000004");
}

#[test]
fn missing_decoding_is_a_read_failure() {
    let d = InstructionDecoder;
    let (mem, dec) = program(8, &[(0, 0x0010_0093, 4, d.addi(1, 0, 1)), (4, EBREAK, 4, d.ebreak())]);
    let err = blocks(&mem, &dec[..4]).unwrap_err();
    assert_eq!(err, BlockFinderError::MemoryReadFailed { addr: 4 });
}

#[test]
fn read_instruction_widths() {
    let mem = [0x93u8, 0x00, 0x50, 0x00, 0x02, 0x90, 0x01];
    assert_eq!(read_instruction(&mem, 0), Ok(0x0050_0093));
    assert_eq!(read_instruction(&mem, 3), Ok(0x0190_0200));
    assert_eq!(read_instruction(&mem, 4), Ok(0x9002));
    assert_eq!(read_instruction(&mem, 5), Ok(0x0190));
    assert_eq!(read_instruction(&mem, 6), Err(6));
    assert_eq!(read_instruction(&mem, 100), Err(100));
    assert_eq!(read_instruction(&[], 0), Err(0));
}
