use load_dll::block_finder::BlockFinderError;
use load_dll::decoded::{
    AluFunc, AluOp, BranchFunc, BranchOp, Decoded, IllegalOp, InstructionDecoder, JalFunc, JalOp, JalrFunc, JalrOp, LoadFunc,
    LoadOp, StoreFunc, StoreOp,
};
use load_dll::decoding_compiler::{DecodingCompiler, Instruction};

fn program(len: usize, code: &[(usize, u32, usize, Decoded)]) -> (Vec<u8>, Vec<Decoded>) {
    let mut mem = vec![0u8; len];
    let mut decoded = vec![Decoded::Illegal(IllegalOp { ins: 0 }); len];
    for &(addr, ins, width, d) in code {
        let bytes = ins.to_le_bytes();
        mem[addr..addr + width].copy_from_slice(&bytes[..width]);
        decoded[addr] = d;
    }
    (mem, decoded)
}

#[test]
fn compressed_forms_expand_to_base_instructions() {
    let d = InstructionDecoder;
    assert_eq!(d.c_mv(5, 6), Decoded::Alu(AluOp { func: AluFunc::Add, rd: 5, rs1: 0, rs2: 6 }));
    assert_eq!(d.c_jal(0x20), Decoded::Jal(JalOp { func: JalFunc::CJal, rd: 1, jimm: 0x20 }));
    assert_eq!(d.c_j(0x20), Decoded::Jal(JalOp { func: JalFunc::CJal, rd: 0, jimm: 0x20 }));
    assert_eq!(d.c_beqz(9, 6), Decoded::Branch(BranchOp { func: BranchFunc::Beq, rs1: 9, rs2: 0, bimm: 6 }));
    assert_eq!(d.c_jalr(7), Decoded::Jalr(JalrOp { func: JalrFunc::CJalr, rd: 1, rs1: 7, iimm: 0 }));
    assert_eq!(d.c_lwsp(3, 8), Decoded::Load(LoadOp { func: LoadFunc::Lw, rd: 3, rs1: 2, iimm: 8 }));
    assert_eq!(d.c_swsp(3, 8), Decoded::Store(StoreOp { func: StoreFunc::Sw, rs1: 2, rs2: 3, simm: 8 }));
    assert_eq!(d.c_ebreak(), Decoded::Ebreak);
    assert_eq!(d.illegal(0xdead), Decoded::Illegal(IllegalOp { ins: 0xdead }));
}

#[test]
fn decoding_compiler_decodes_each_block() {
    let d = InstructionDecoder;
    let (mem, dec) = program(
        16,
        &[
            (0, 0x0000_0463, 4, d.beq(0, 0, 8)),
            (4, 0x0010_0093, 4, d.addi(1, 0, 1)),
            (8, 0x0020_0113, 4, d.addi(2, 0, 2)),
            (12, 0x0010_0073, 4, d.ebreak()),
        ],
    );
    let mut compiler = DecodingCompiler::new();
    compiler.compile(&mem, &dec).unwrap();
    assert_eq!(compiler.get(0).unwrap(), &vec![Instruction { decoded: d.beq(0, 0, 8), next_pc: 4 }]);
    assert_eq!(compiler.get(4).unwrap(), &vec![Instruction { decoded: d.addi(1, 0, 1), next_pc: 8 }]);
    assert_eq!(
        compiler.get(8).unwrap(),
        &vec![
            Instruction { decoded: d.addi(2, 0, 2), next_pc: 12 },
            Instruction { decoded: d.ebreak(), next_pc: 16 }
        ]
    );
    assert!(compiler.get(12).is_none());
}

#[test]
fn decoding_compiler_reports_read_failure() {
    let d = InstructionDecoder;
    let (mem, dec) = program(5, &[(0, 0x0010_0093, 4, d.addi(1, 0, 1))]);
    let mut compiler = DecodingCompiler::new();
    assert_eq!(compiler.compile(&mem, &dec), Err(BlockFinderError::MemoryReadFailed { addr: 4 }));
}
