use vstd::prelude::*;

verus! {

/// Index of the hard-wired zero register.
pub const ZERO: u8 = 0;

/// Index of the return-address register.
pub const RA: u8 = 1;

/// Index of the stack-pointer register.
pub const SP: u8 = 2;

/// An instruction that the decoder did not recognise.
#[derive(Clone, Copy, Debug, PartialEq, Eq, Structural)]
pub struct IllegalOp {
    pub ins: u32,
}

#[derive(Clone, Copy, Debug, PartialEq, Eq, Structural)]
pub enum BranchFunc {
    Beq,
    Bne,
    Blt,
    Bge,
    Bltu,
    Bgeu,
}

/// A conditional branch; `bimm` is the offset from the branch's own address.
#[derive(Clone, Copy, Debug, PartialEq, Eq, Structural)]
pub struct BranchOp {
    pub func: BranchFunc,
    pub rs1: u8,
    pub rs2: u8,
    pub bimm: u32,
}

#[derive(Clone, Copy, Debug, PartialEq, Eq, Structural)]
pub enum LoadFunc {
    Lb,
    Lh,
    Lw,
    Lbu,
    Lhu,
}

#[derive(Clone, Copy, Debug, PartialEq, Eq, Structural)]
pub struct LoadOp {
    pub func: LoadFunc,
    pub rd: u8,
    pub rs1: u8,
    pub iimm: u32,
}

#[derive(Clone, Copy, Debug, PartialEq, Eq, Structural)]
pub enum AluImmFunc {
    Addi,
    Slti,
    Sltiu,
    Xori,
    Ori,
    Andi,
}

#[derive(Clone, Copy, Debug, PartialEq, Eq, Structural)]
pub struct AluImmOp {
    pub func: AluImmFunc,
    pub rd: u8,
    pub rs1: u8,
    pub iimm: u32,
}

#[derive(Clone, Copy, Debug, PartialEq, Eq, Structural)]
pub enum JalrFunc {
    Jalr,
    CJr,
    CJalr,
}

/// An indirect jump: the target is `(x[rs1] + iimm) & !1`.
#[derive(Clone, Copy, Debug, PartialEq, Eq, Structural)]
pub struct JalrOp {
    pub func: JalrFunc,
    pub rd: u8,
    pub rs1: u8,
    pub iimm: u32,
}

#[derive(Clone, Copy, Debug, PartialEq, Eq, Structural)]
pub enum StoreFunc {
    Sb,
    Sh,
    Sw,
}

#[derive(Clone, Copy, Debug, PartialEq, Eq, Structural)]
pub struct StoreOp {
    pub func: StoreFunc,
    pub rs1: u8,
    pub rs2: u8,
    pub simm: u32,
}

#[derive(Clone, Copy, Debug, PartialEq, Eq, Structural)]
pub struct AuipcOp {
    pub rd: u8,
    pub uimm: u32,
}

#[derive(Clone, Copy, Debug, PartialEq, Eq, Structural)]
pub struct LuiOp {
    pub rd: u8,
    pub uimm: u32,
}

#[derive(Clone, Copy, Debug, PartialEq, Eq, Structural)]
pub enum JalFunc {
    Jal,
    CJal,
}

/// A direct jump to the jump's own address plus `jimm`.
#[derive(Clone, Copy, Debug, PartialEq, Eq, Structural)]
pub struct JalOp {
    pub func: JalFunc,
    pub rd: u8,
    pub jimm: u32,
}

#[derive(Clone, Copy, Debug, PartialEq, Eq, Structural)]
pub enum AluFunc {
    Add,
    Sub,
    Slt,
    Sltu,
    Xor,
    Or,
    And,
}

#[derive(Clone, Copy, Debug, PartialEq, Eq, Structural)]
pub struct AluOp {
    pub func: AluFunc,
    pub rd: u8,
    pub rs1: u8,
    pub rs2: u8,
}

#[derive(Clone, Copy, Debug, PartialEq, Eq, Structural)]
pub enum ShiftFunc {
    Sll,
    Srl,
    Sra,
}

#[derive(Clone, Copy, Debug, PartialEq, Eq, Structural)]
pub struct ShiftOp {
    pub func: ShiftFunc,
    pub rd: u8,
    pub rs1: u8,
    pub rs2: u8,
}

#[derive(Clone, Copy, Debug, PartialEq, Eq, Structural)]
pub enum ShiftImmFunc {
    Slli,
    Srli,
    Srai,
}

#[derive(Clone, Copy, Debug, PartialEq, Eq, Structural)]
pub struct ShiftImmOp {
    pub func: ShiftImmFunc,
    pub rd: u8,
    pub rs1: u8,
    pub shamt: u32,
}

/// One decoded instruction. Compressed encodings are expanded to the base
/// instruction with the same effect; registers are given by index.
#[derive(Clone, Copy, Debug, PartialEq, Eq, Structural)]
pub enum Decoded {
    Illegal(IllegalOp),
    Branch(BranchOp),
    Load(LoadOp),
    AluImmediate(AluImmOp),
    Shift(ShiftOp),
    Jalr(JalrOp),
    Store(StoreOp),
    Auipc(AuipcOp),
    Lui(LuiOp),
    Jal(JalOp),
    Alu(AluOp),
    ShiftImm(ShiftImmOp),
    Fence,
    Ecall,
    Ebreak,
    Nop,
}

/// Builds a `Decoded` from the operands that an instruction decoder extracts,
/// with one method per base or compressed opcode.
pub struct InstructionDecoder;

impl InstructionDecoder {
    pub fn illegal(&self, ins: u32) -> (d: Decoded)
        ensures
            d == (Decoded::Illegal(IllegalOp { ins })),
    {
        Decoded::Illegal(IllegalOp { ins })
    }

    pub fn beq(&self, rs1: u8, rs2: u8, bimm: u32) -> (d: Decoded)
        ensures
            d == (Decoded::Branch(BranchOp { func: BranchFunc::Beq, rs1, rs2, bimm })),
    {
        Decoded::Branch(BranchOp { func: BranchFunc::Beq, rs1, rs2, bimm })
    }

    pub fn bne(&self, rs1: u8, rs2: u8, bimm: u32) -> (d: Decoded)
        ensures
            d == (Decoded::Branch(BranchOp { func: BranchFunc::Bne, rs1, rs2, bimm })),
    {
        Decoded::Branch(BranchOp { func: BranchFunc::Bne, rs1, rs2, bimm })
    }

    pub fn blt(&self, rs1: u8, rs2: u8, bimm: u32) -> (d: Decoded)
        ensures
            d == (Decoded::Branch(BranchOp { func: BranchFunc::Blt, rs1, rs2, bimm })),
    {
        Decoded::Branch(BranchOp { func: BranchFunc::Blt, rs1, rs2, bimm })
    }

    pub fn bge(&self, rs1: u8, rs2: u8, bimm: u32) -> (d: Decoded)
        ensures
            d == (Decoded::Branch(BranchOp { func: BranchFunc::Bge, rs1, rs2, bimm })),
    {
        Decoded::Branch(BranchOp { func: BranchFunc::Bge, rs1, rs2, bimm })
    }

    pub fn bltu(&self, rs1: u8, rs2: u8, bimm: u32) -> (d: Decoded)
        ensures
            d == (Decoded::Branch(BranchOp { func: BranchFunc::Bltu, rs1, rs2, bimm })),
    {
        Decoded::Branch(BranchOp { func: BranchFunc::Bltu, rs1, rs2, bimm })
    }

    pub fn bgeu(&self, rs1: u8, rs2: u8, bimm: u32) -> (d: Decoded)
        ensures
            d == (Decoded::Branch(BranchOp { func: BranchFunc::Bgeu, rs1, rs2, bimm })),
    {
        Decoded::Branch(BranchOp { func: BranchFunc::Bgeu, rs1, rs2, bimm })
    }

    pub fn lb(&self, rd: u8, rs1: u8, iimm: u32) -> (d: Decoded)
        ensures
            d == (Decoded::Load(LoadOp { func: LoadFunc::Lb, rd, rs1, iimm })),
    {
        Decoded::Load(LoadOp { func: LoadFunc::Lb, rd, rs1, iimm })
    }

    pub fn lh(&self, rd: u8, rs1: u8, iimm: u32) -> (d: Decoded)
        ensures
            d == (Decoded::Load(LoadOp { func: LoadFunc::Lh, rd, rs1, iimm })),
    {
        Decoded::Load(LoadOp { func: LoadFunc::Lh, rd, rs1, iimm })
    }

    pub fn lw(&self, rd: u8, rs1: u8, iimm: u32) -> (d: Decoded)
        ensures
            d == (Decoded::Load(LoadOp { func: LoadFunc::Lw, rd, rs1, iimm })),
    {
        Decoded::Load(LoadOp { func: LoadFunc::Lw, rd, rs1, iimm })
    }

    pub fn lbu(&self, rd: u8, rs1: u8, iimm: u32) -> (d: Decoded)
        ensures
            d == (Decoded::Load(LoadOp { func: LoadFunc::Lbu, rd, rs1, iimm })),
    {
        Decoded::Load(LoadOp { func: LoadFunc::Lbu, rd, rs1, iimm })
    }

    pub fn lhu(&self, rd: u8, rs1: u8, iimm: u32) -> (d: Decoded)
        ensures
            d == (Decoded::Load(LoadOp { func: LoadFunc::Lhu, rd, rs1, iimm })),
    {
        Decoded::Load(LoadOp { func: LoadFunc::Lhu, rd, rs1, iimm })
    }

    pub fn addi(&self, rd: u8, rs1: u8, iimm: u32) -> (d: Decoded)
        ensures
            d == (Decoded::AluImmediate(AluImmOp { func: AluImmFunc::Addi, rd, rs1, iimm })),
    {
        Decoded::AluImmediate(AluImmOp { func: AluImmFunc::Addi, rd, rs1, iimm })
    }

    pub fn slti(&self, rd: u8, rs1: u8, iimm: u32) -> (d: Decoded)
        ensures
            d == (Decoded::AluImmediate(AluImmOp { func: AluImmFunc::Slti, rd, rs1, iimm })),
    {
        Decoded::AluImmediate(AluImmOp { func: AluImmFunc::Slti, rd, rs1, iimm })
    }

    pub fn sltiu(&self, rd: u8, rs1: u8, iimm: u32) -> (d: Decoded)
        ensures
            d == (Decoded::AluImmediate(AluImmOp { func: AluImmFunc::Sltiu, rd, rs1, iimm })),
    {
        Decoded::AluImmediate(AluImmOp { func: AluImmFunc::Sltiu, rd, rs1, iimm })
    }

    pub fn xori(&self, rd: u8, rs1: u8, iimm: u32) -> (d: Decoded)
        ensures
            d == (Decoded::AluImmediate(AluImmOp { func: AluImmFunc::Xori, rd, rs1, iimm })),
    {
        Decoded::AluImmediate(AluImmOp { func: AluImmFunc::Xori, rd, rs1, iimm })
    }

    pub fn ori(&self, rd: u8, rs1: u8, iimm: u32) -> (d: Decoded)
        ensures
            d == (Decoded::AluImmediate(AluImmOp { func: AluImmFunc::Ori, rd, rs1, iimm })),
    {
        Decoded::AluImmediate(AluImmOp { func: AluImmFunc::Ori, rd, rs1, iimm })
    }

    pub fn andi(&self, rd: u8, rs1: u8, iimm: u32) -> (d: Decoded)
        ensures
            d == (Decoded::AluImmediate(AluImmOp { func: AluImmFunc::Andi, rd, rs1, iimm })),
    {
        Decoded::AluImmediate(AluImmOp { func: AluImmFunc::Andi, rd, rs1, iimm })
    }

    pub fn jalr(&self, rd: u8, rs1: u8, iimm: u32) -> (d: Decoded)
        ensures
            d == (Decoded::Jalr(JalrOp { func: JalrFunc::Jalr, rd, rs1, iimm })),
    {
        Decoded::Jalr(JalrOp { func: JalrFunc::Jalr, rd, rs1, iimm })
    }

    pub fn sb(&self, rs1: u8, rs2: u8, simm: u32) -> (d: Decoded)
        ensures
            d == (Decoded::Store(StoreOp { func: StoreFunc::Sb, rs1, rs2, simm })),
    {
        Decoded::Store(StoreOp { func: StoreFunc::Sb, rs1, rs2, simm })
    }

    pub fn sh(&self, rs1: u8, rs2: u8, simm: u32) -> (d: Decoded)
        ensures
            d == (Decoded::Store(StoreOp { func: StoreFunc::Sh, rs1, rs2, simm })),
    {
        Decoded::Store(StoreOp { func: StoreFunc::Sh, rs1, rs2, simm })
    }

    pub fn sw(&self, rs1: u8, rs2: u8, simm: u32) -> (d: Decoded)
        ensures
            d == (Decoded::Store(StoreOp { func: StoreFunc::Sw, rs1, rs2, simm })),
    {
        Decoded::Store(StoreOp { func: StoreFunc::Sw, rs1, rs2, simm })
    }

    pub fn auipc(&self, rd: u8, uimm: u32) -> (d: Decoded)
        ensures
            d == (Decoded::Auipc(AuipcOp { rd, uimm })),
    {
        Decoded::Auipc(AuipcOp { rd, uimm })
    }

    pub fn lui(&self, rd: u8, uimm: u32) -> (d: Decoded)
        ensures
            d == (Decoded::Lui(LuiOp { rd, uimm })),
    {
        Decoded::Lui(LuiOp { rd, uimm })
    }

    pub fn jal(&self, rd: u8, jimm: u32) -> (d: Decoded)
        ensures
            d == (Decoded::Jal(JalOp { func: JalFunc::Jal, rd, jimm })),
    {
        Decoded::Jal(JalOp { func: JalFunc::Jal, rd, jimm })
    }

    pub fn add(&self, rd: u8, rs1: u8, rs2: u8) -> (d: Decoded)
        ensures
            d == (Decoded::Alu(AluOp { func: AluFunc::Add, rd, rs1, rs2 })),
    {
        Decoded::Alu(AluOp { func: AluFunc::Add, rd, rs1, rs2 })
    }

    pub fn sub(&self, rd: u8, rs1: u8, rs2: u8) -> (d: Decoded)
        ensures
            d == (Decoded::Alu(AluOp { func: AluFunc::Sub, rd, rs1, rs2 })),
    {
        Decoded::Alu(AluOp { func: AluFunc::Sub, rd, rs1, rs2 })
    }

    pub fn slt(&self, rd: u8, rs1: u8, rs2: u8) -> (d: Decoded)
        ensures
            d == (Decoded::Alu(AluOp { func: AluFunc::Slt, rd, rs1, rs2 })),
    {
        Decoded::Alu(AluOp { func: AluFunc::Slt, rd, rs1, rs2 })
    }

    pub fn sltu(&self, rd: u8, rs1: u8, rs2: u8) -> (d: Decoded)
        ensures
            d == (Decoded::Alu(AluOp { func: AluFunc::Sltu, rd, rs1, rs2 })),
    {
        Decoded::Alu(AluOp { func: AluFunc::Sltu, rd, rs1, rs2 })
    }

    pub fn xor(&self, rd: u8, rs1: u8, rs2: u8) -> (d: Decoded)
        ensures
            d == (Decoded::Alu(AluOp { func: AluFunc::Xor, rd, rs1, rs2 })),
    {
        Decoded::Alu(AluOp { func: AluFunc::Xor, rd, rs1, rs2 })
    }

    pub fn or(&self, rd: u8, rs1: u8, rs2: u8) -> (d: Decoded)
        ensures
            d == (Decoded::Alu(AluOp { func: AluFunc::Or, rd, rs1, rs2 })),
    {
        Decoded::Alu(AluOp { func: AluFunc::Or, rd, rs1, rs2 })
    }

    pub fn and(&self, rd: u8, rs1: u8, rs2: u8) -> (d: Decoded)
        ensures
            d == (Decoded::Alu(AluOp { func: AluFunc::And, rd, rs1, rs2 })),
    {
        Decoded::Alu(AluOp { func: AluFunc::And, rd, rs1, rs2 })
    }

    pub fn sll(&self, rd: u8, rs1: u8, rs2: u8) -> (d: Decoded)
        ensures
            d == (Decoded::Shift(ShiftOp { func: ShiftFunc::Sll, rd, rs1, rs2 })),
    {
        Decoded::Shift(ShiftOp { func: ShiftFunc::Sll, rd, rs1, rs2 })
    }

    pub fn srl(&self, rd: u8, rs1: u8, rs2: u8) -> (d: Decoded)
        ensures
            d == (Decoded::Shift(ShiftOp { func: ShiftFunc::Srl, rd, rs1, rs2 })),
    {
        Decoded::Shift(ShiftOp { func: ShiftFunc::Srl, rd, rs1, rs2 })
    }

    pub fn sra(&self, rd: u8, rs1: u8, rs2: u8) -> (d: Decoded)
        ensures
            d == (Decoded::Shift(ShiftOp { func: ShiftFunc::Sra, rd, rs1, rs2 })),
    {
        Decoded::Shift(ShiftOp { func: ShiftFunc::Sra, rd, rs1, rs2 })
    }

    pub fn slli(&self, rd: u8, rs1: u8, shamt: u32) -> (d: Decoded)
        ensures
            d == (Decoded::ShiftImm(ShiftImmOp { func: ShiftImmFunc::Slli, rd, rs1, shamt })),
    {
        Decoded::ShiftImm(ShiftImmOp { func: ShiftImmFunc::Slli, rd, rs1, shamt })
    }

    pub fn srli(&self, rd: u8, rs1: u8, shamt: u32) -> (d: Decoded)
        ensures
            d == (Decoded::ShiftImm(ShiftImmOp { func: ShiftImmFunc::Srli, rd, rs1, shamt })),
    {
        Decoded::ShiftImm(ShiftImmOp { func: ShiftImmFunc::Srli, rd, rs1, shamt })
    }

    pub fn srai(&self, rd: u8, rs1: u8, shamt: u32) -> (d: Decoded)
        ensures
            d == (Decoded::ShiftImm(ShiftImmOp { func: ShiftImmFunc::Srai, rd, rs1, shamt })),
    {
        Decoded::ShiftImm(ShiftImmOp { func: ShiftImmFunc::Srai, rd, rs1, shamt })
    }

    pub fn fence(&self, _fm: u32, _rd: u8, _rs1: u8) -> (d: Decoded)
        ensures
            d == Decoded::Fence,
    {
        Decoded::Fence
    }

    pub fn ecall(&self) -> (d: Decoded)
        ensures
            d == Decoded::Ecall,
    {
        Decoded::Ecall
    }

    pub fn ebreak(&self) -> (d: Decoded)
        ensures
            d == Decoded::Ebreak,
    {
        Decoded::Ebreak
    }

    pub fn c_addi4spn(&self, rdp: u8, imm: u32) -> (d: Decoded)
        ensures
            d == (Decoded::AluImmediate(AluImmOp { func: AluImmFunc::Addi, rd: rdp, rs1: SP, iimm: imm })),
    {
        Decoded::AluImmediate(AluImmOp { func: AluImmFunc::Addi, rd: rdp, rs1: SP, iimm: imm })
    }

    pub fn c_lw(&self, rdp: u8, rs1p: u8, imm: u32) -> (d: Decoded)
        ensures
            d == (Decoded::Load(LoadOp { func: LoadFunc::Lw, rd: rdp, rs1: rs1p, iimm: imm })),
    {
        Decoded::Load(LoadOp { func: LoadFunc::Lw, rd: rdp, rs1: rs1p, iimm: imm })
    }

    pub fn c_sw(&self, rs1p: u8, rs2p: u8, imm: u32) -> (d: Decoded)
        ensures
            d == (Decoded::Store(StoreOp { func: StoreFunc::Sw, rs1: rs1p, rs2: rs2p, simm: imm })),
    {
        Decoded::Store(StoreOp { func: StoreFunc::Sw, rs1: rs1p, rs2: rs2p, simm: imm })
    }

    pub fn c_sub(&self, rdrs1p: u8, rs2p: u8) -> (d: Decoded)
        ensures
            d == (Decoded::Alu(AluOp { func: AluFunc::Sub, rd: rdrs1p, rs1: rdrs1p, rs2: rs2p })),
    {
        Decoded::Alu(AluOp { func: AluFunc::Sub, rd: rdrs1p, rs1: rdrs1p, rs2: rs2p })
    }

    pub fn c_xor(&self, rdrs1p: u8, rs2p: u8) -> (d: Decoded)
        ensures
            d == (Decoded::Alu(AluOp { func: AluFunc::Xor, rd: rdrs1p, rs1: rdrs1p, rs2: rs2p })),
    {
        Decoded::Alu(AluOp { func: AluFunc::Xor, rd: rdrs1p, rs1: rdrs1p, rs2: rs2p })
    }

    pub fn c_or(&self, rdrs1p: u8, rs2p: u8) -> (d: Decoded)
        ensures
            d == (Decoded::Alu(AluOp { func: AluFunc::Or, rd: rdrs1p, rs1: rdrs1p, rs2: rs2p })),
    {
        Decoded::Alu(AluOp { func: AluFunc::Or, rd: rdrs1p, rs1: rdrs1p, rs2: rs2p })
    }

    pub fn c_and(&self, rdrs1p: u8, rs2p: u8) -> (d: Decoded)
        ensures
            d == (Decoded::Alu(AluOp { func: AluFunc::And, rd: rdrs1p, rs1: rdrs1p, rs2: rs2p })),
    {
        Decoded::Alu(AluOp { func: AluFunc::And, rd: rdrs1p, rs1: rdrs1p, rs2: rs2p })
    }

    pub fn c_nop(&self, _imm: u32) -> (d: Decoded)
        ensures
            d == Decoded::Nop,
    {
        Decoded::Nop
    }

    pub fn c_addi16sp(&self, imm: u32) -> (d: Decoded)
        ensures
            d == (Decoded::AluImmediate(AluImmOp { func: AluImmFunc::Addi, rd: SP, rs1: SP, iimm: imm })),
    {
        Decoded::AluImmediate(AluImmOp { func: AluImmFunc::Addi, rd: SP, rs1: SP, iimm: imm })
    }

    pub fn c_andi(&self, rsrs1p: u8, imm: u32) -> (d: Decoded)
        ensures
            d == (Decoded::AluImmediate(AluImmOp { func: AluImmFunc::Andi, rd: rsrs1p, rs1: rsrs1p, iimm: imm })),
    {
        Decoded::AluImmediate(AluImmOp { func: AluImmFunc::Andi, rd: rsrs1p, rs1: rsrs1p, iimm: imm })
    }

    pub fn c_addi(&self, rdrs1n0: u8, imm: u32) -> (d: Decoded)
        ensures
            d == (Decoded::AluImmediate(AluImmOp { func: AluImmFunc::Addi, rd: rdrs1n0, rs1: rdrs1n0, iimm: imm })),
    {
        Decoded::AluImmediate(AluImmOp { func: AluImmFunc::Addi, rd: rdrs1n0, rs1: rdrs1n0, iimm: imm })
    }

    pub fn c_li(&self, rd: u8, imm: u32) -> (d: Decoded)
        ensures
            d == (Decoded::AluImmediate(AluImmOp { func: AluImmFunc::Addi, rd, rs1: ZERO, iimm: imm })),
    {
        Decoded::AluImmediate(AluImmOp { func: AluImmFunc::Addi, rd, rs1: ZERO, iimm: imm })
    }

    pub fn c_lui(&self, rdn2: u8, imm: u32) -> (d: Decoded)
        ensures
            d == (Decoded::Lui(LuiOp { rd: rdn2, uimm: imm })),
    {
        Decoded::Lui(LuiOp { rd: rdn2, uimm: imm })
    }

    pub fn c_j(&self, imm: u32) -> (d: Decoded)
        ensures
            d == (Decoded::Jal(JalOp { func: JalFunc::CJal, rd: ZERO, jimm: imm })),
    {
        Decoded::Jal(JalOp { func: JalFunc::CJal, rd: ZERO, jimm: imm })
    }

    pub fn c_beqz(&self, rs1p: u8, imm: u32) -> (d: Decoded)
        ensures
            d == (Decoded::Branch(BranchOp { func: BranchFunc::Beq, rs1: rs1p, rs2: ZERO, bimm: imm })),
    {
        Decoded::Branch(BranchOp { func: BranchFunc::Beq, rs1: rs1p, rs2: ZERO, bimm: imm })
    }

    pub fn c_bnez(&self, rs1p: u8, imm: u32) -> (d: Decoded)
        ensures
            d == (Decoded::Branch(BranchOp { func: BranchFunc::Bne, rs1: rs1p, rs2: ZERO, bimm: imm })),
    {
        Decoded::Branch(BranchOp { func: BranchFunc::Bne, rs1: rs1p, rs2: ZERO, bimm: imm })
    }

    pub fn c_jr(&self, rs1n0: u8) -> (d: Decoded)
        ensures
            d == (Decoded::Jalr(JalrOp { func: JalrFunc::CJr, rd: ZERO, rs1: rs1n0, iimm: 0 })),
    {
        Decoded::Jalr(JalrOp { func: JalrFunc::CJr, rd: ZERO, rs1: rs1n0, iimm: 0 })
    }

    pub fn c_jalr(&self, rs1n0: u8) -> (d: Decoded)
        ensures
            d == (Decoded::Jalr(JalrOp { func: JalrFunc::CJalr, rd: RA, rs1: rs1n0, iimm: 0 })),
    {
        Decoded::Jalr(JalrOp { func: JalrFunc::CJalr, rd: RA, rs1: rs1n0, iimm: 0 })
    }

    pub fn c_ebreak(&self) -> (d: Decoded)
        ensures
            d == Decoded::Ebreak,
    {
        Decoded::Ebreak
    }

    pub fn c_mv(&self, rd: u8, rs2n0: u8) -> (d: Decoded)
        ensures
            d == (Decoded::Alu(AluOp { func: AluFunc::Add, rd, rs1: ZERO, rs2: rs2n0 })),
    {
        Decoded::Alu(AluOp { func: AluFunc::Add, rd, rs1: ZERO, rs2: rs2n0 })
    }

    pub fn c_add(&self, rdrs1: u8, rs2n0: u8) -> (d: Decoded)
        ensures
            d == (Decoded::Alu(AluOp { func: AluFunc::Add, rd: rdrs1, rs1: rdrs1, rs2: rs2n0 })),
    {
        Decoded::Alu(AluOp { func: AluFunc::Add, rd: rdrs1, rs1: rdrs1, rs2: rs2n0 })
    }

    pub fn c_lwsp(&self, rdn0: u8, imm: u32) -> (d: Decoded)
        ensures
            d == (Decoded::Load(LoadOp { func: LoadFunc::Lw, rd: rdn0, rs1: SP, iimm: imm })),
    {
        Decoded::Load(LoadOp { func: LoadFunc::Lw, rd: rdn0, rs1: SP, iimm: imm })
    }

    pub fn c_swsp(&self, rs2: u8, imm: u32) -> (d: Decoded)
        ensures
            d == (Decoded::Store(StoreOp { func: StoreFunc::Sw, rs1: SP, rs2, simm: imm })),
    {
        Decoded::Store(StoreOp { func: StoreFunc::Sw, rs1: SP, rs2, simm: imm })
    }

    pub fn c_jal(&self, imm: u32) -> (d: Decoded)
        ensures
            d == (Decoded::Jal(JalOp { func: JalFunc::CJal, rd: RA, jimm: imm })),
    {
        Decoded::Jal(JalOp { func: JalFunc::CJal, rd: RA, jimm: imm })
    }

    pub fn c_srli(&self, rdrs1p: u8, imm: u32) -> (d: Decoded)
        ensures
            d == (Decoded::ShiftImm(ShiftImmOp { func: ShiftImmFunc::Srli, rd: rdrs1p, rs1: rdrs1p, shamt: imm })),
    {
        Decoded::ShiftImm(ShiftImmOp { func: ShiftImmFunc::Srli, rd: rdrs1p, rs1: rdrs1p, shamt: imm })
    }

    pub fn c_srai(&self, rdrs1p: u8, imm: u32) -> (d: Decoded)
        ensures
            d == (Decoded::ShiftImm(ShiftImmOp { func: ShiftImmFunc::Srai, rd: rdrs1p, rs1: rdrs1p, shamt: imm })),
    {
        Decoded::ShiftImm(ShiftImmOp { func: ShiftImmFunc::Srai, rd: rdrs1p, rs1: rdrs1p, shamt: imm })
    }

    pub fn c_slli(&self, rdrs1n0: u8, imm: u32) -> (d: Decoded)
        ensures
            d == (Decoded::ShiftImm(ShiftImmOp { func: ShiftImmFunc::Slli, rd: rdrs1n0, rs1: rdrs1n0, shamt: imm })),
    {
        Decoded::ShiftImm(ShiftImmOp { func: ShiftImmFunc::Slli, rd: rdrs1n0, rs1: rdrs1n0, shamt: imm })
    }
}

} // verus!
