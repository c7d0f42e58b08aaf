use vstd::prelude::*;
use vstd::wrapping::u32_specs;

use crate::decoded::{Decoded, AluFunc, AluImmFunc, BranchFunc, LoadFunc, ShiftFunc, ShiftImmFunc, StoreFunc};
use crate::hex::{hex8, push_hex8};
use crate::read_instruction::Address;

verus! {

/// The runtime's name for the register given by the low five bits of `r`.
pub open spec fn reg_name(r: u8) -> Seq<char> {
    match r % 32 {
        0 => "ZERO"@,
        1 => "RA"@,
        2 => "SP"@,
        3 => "GP"@,
        4 => "TP"@,
        5 => "T0"@,
        6 => "T1"@,
        7 => "T2"@,
        8 => "S0"@,
        9 => "S1"@,
        10 => "A0"@,
        11 => "A1"@,
        12 => "A2"@,
        13 => "A3"@,
        14 => "A4"@,
        15 => "A5"@,
        16 => "A6"@,
        17 => "A7"@,
        18 => "S2"@,
        19 => "S3"@,
        20 => "S4"@,
        21 => "S5"@,
        22 => "S6"@,
        23 => "S7"@,
        24 => "S8"@,
        25 => "S9"@,
        26 => "S10"@,
        27 => "S11"@,
        28 => "T3"@,
        29 => "T4"@,
        30 => "T5"@,
        _ => "T6"@,
    }
}

fn reg_str(r: u8) -> (s: &'static str)
    ensures
        s@ == reg_name(r),
{
    match r % 32 {
        0 => "ZERO",
        1 => "RA",
        2 => "SP",
        3 => "GP",
        4 => "TP",
        5 => "T0",
        6 => "T1",
        7 => "T2",
        8 => "S0",
        9 => "S1",
        10 => "A0",
        11 => "A1",
        12 => "A2",
        13 => "A3",
        14 => "A4",
        15 => "A5",
        16 => "A6",
        17 => "A7",
        18 => "S2",
        19 => "S3",
        20 => "S4",
        21 => "S5",
        22 => "S6",
        23 => "S7",
        24 => "S8",
        25 => "S9",
        26 => "S10",
        27 => "S11",
        28 => "T3",
        29 => "T4",
        30 => "T5",
        _ => "T6",
    }
}

/// The statements that carry out `d`, the instruction at `pc`, where `next` is
/// the address of the instruction after it. Addresses that are known here,
/// branch and jump targets and the value of AUIPC, are written as literals.
pub open spec fn instruction_code(d: Decoded, pc: Address, next: Address) -> Seq<char> {
    match d {
        Decoded::Branch(op) => match op.func {
            BranchFunc::Beq => "    if cpu.rx(Reg::"@ + reg_name(op.rs1) + ") == cpu.rx(Reg::"@ + reg_name(op.rs2) + ") {\n        cpu.set_next_pc(0x"@ + hex8(u32_specs::wrapping_add(pc, op.bimm)) + ");\n    } else {\n        cpu.set_next_pc(0x"@ + hex8(next) + ");\n    }\n"@,
            BranchFunc::Bne => "    if cpu.rx(Reg::"@ + reg_name(op.rs1) + ") != cpu.rx(Reg::"@ + reg_name(op.rs2) + ") {\n        cpu.set_next_pc(0x"@ + hex8(u32_specs::wrapping_add(pc, op.bimm)) + ");\n    } else {\n        cpu.set_next_pc(0x"@ + hex8(next) + ");\n    }\n"@,
            BranchFunc::Blt => "    if (cpu.rx(Reg::"@ + reg_name(op.rs1) + ") as i32) < (cpu.rx(Reg::"@ + reg_name(op.rs2) + ") as i32) {\n        cpu.set_next_pc(0x"@ + hex8(u32_specs::wrapping_add(pc, op.bimm)) + ");\n    } else {\n        cpu.set_next_pc(0x"@ + hex8(next) + ");\n    }\n"@,
            BranchFunc::Bge => "    if (cpu.rx(Reg::"@ + reg_name(op.rs1) + ") as i32) >= (cpu.rx(Reg::"@ + reg_name(op.rs2) + ") as i32) {\n        cpu.set_next_pc(0x"@ + hex8(u32_specs::wrapping_add(pc, op.bimm)) + ");\n    } else {\n        cpu.set_next_pc(0x"@ + hex8(next) + ");\n    }\n"@,
            BranchFunc::Bltu => "    if cpu.rx(Reg::"@ + reg_name(op.rs1) + ") < cpu.rx(Reg::"@ + reg_name(op.rs2) + ") {\n        cpu.set_next_pc(0x"@ + hex8(u32_specs::wrapping_add(pc, op.bimm)) + ");\n    } else {\n        cpu.set_next_pc(0x"@ + hex8(next) + ");\n    }\n"@,
            BranchFunc::Bgeu => "    if cpu.rx(Reg::"@ + reg_name(op.rs1) + ") >= cpu.rx(Reg::"@ + reg_name(op.rs2) + ") {\n        cpu.set_next_pc(0x"@ + hex8(u32_specs::wrapping_add(pc, op.bimm)) + ");\n    } else {\n        cpu.set_next_pc(0x"@ + hex8(next) + ");\n    }\n"@,
        },
        Decoded::Load(op) => match op.func {
            LoadFunc::Lb => "    match cpu.read8(cpu.rx(Reg::"@ + reg_name(op.rs1) + ").wrapping_add(0x"@ + hex8(op.iimm) + ")) {\n        Ok(v) => cpu.wx(Reg::"@ + reg_name(op.rd) + ", ((v as i8) as i32) as u32),\n        Err(address) => cpu.handle_trap(TrapCause::LoadAccessFault(address)),\n    }\n"@,
            LoadFunc::Lh => "    match cpu.read16(cpu.rx(Reg::"@ + reg_name(op.rs1) + ").wrapping_add(0x"@ + hex8(op.iimm) + ")) {\n        Ok(v) => cpu.wx(Reg::"@ + reg_name(op.rd) + ", ((v as i16) as i32) as u32),\n        Err(address) => cpu.handle_trap(TrapCause::LoadAccessFault(address)),\n    }\n"@,
            LoadFunc::Lw => "    match cpu.read32(cpu.rx(Reg::"@ + reg_name(op.rs1) + ").wrapping_add(0x"@ + hex8(op.iimm) + ")) {\n        Ok(v) => cpu.wx(Reg::"@ + reg_name(op.rd) + ", v),\n        Err(address) => cpu.handle_trap(TrapCause::LoadAccessFault(address)),\n    }\n"@,
            LoadFunc::Lbu => "    match cpu.read8(cpu.rx(Reg::"@ + reg_name(op.rs1) + ").wrapping_add(0x"@ + hex8(op.iimm) + ")) {\n        Ok(v) => cpu.wx(Reg::"@ + reg_name(op.rd) + ", v as u32),\n        Err(address) => cpu.handle_trap(TrapCause::LoadAccessFault(address)),\n    }\n"@,
            LoadFunc::Lhu => "    match cpu.read16(cpu.rx(Reg::"@ + reg_name(op.rs1) + ").wrapping_add(0x"@ + hex8(op.iimm) + ")) {\n        Ok(v) => cpu.wx(Reg::"@ + reg_name(op.rd) + ", v as u32),\n        Err(address) => cpu.handle_trap(TrapCause::LoadAccessFault(address)),\n    }\n"@,
        },
        Decoded::AluImmediate(op) => match op.func {
            AluImmFunc::Addi => "    cpu.wx(Reg::"@ + reg_name(op.rd) + ", cpu.rx(Reg::"@ + reg_name(op.rs1) + ").wrapping_add(0x"@ + hex8(op.iimm) + "));\n"@,
            AluImmFunc::Slti => "    cpu.wx(Reg::"@ + reg_name(op.rd) + ", if (cpu.rx(Reg::"@ + reg_name(op.rs1) + ") as i32) < (0x"@ + hex8(op.iimm) + " as i32) { 1 } else { 0 });\n"@,
            AluImmFunc::Sltiu => "    cpu.wx(Reg::"@ + reg_name(op.rd) + ", if cpu.rx(Reg::"@ + reg_name(op.rs1) + ") < 0x"@ + hex8(op.iimm) + " { 1 } else { 0 });\n"@,
            AluImmFunc::Xori => "    cpu.wx(Reg::"@ + reg_name(op.rd) + ", cpu.rx(Reg::"@ + reg_name(op.rs1) + ") ^ 0x"@ + hex8(op.iimm) + ");\n"@,
            AluImmFunc::Ori => "    cpu.wx(Reg::"@ + reg_name(op.rd) + ", cpu.rx(Reg::"@ + reg_name(op.rs1) + ") | 0x"@ + hex8(op.iimm) + ");\n"@,
            AluImmFunc::Andi => "    cpu.wx(Reg::"@ + reg_name(op.rd) + ", cpu.rx(Reg::"@ + reg_name(op.rs1) + ") & 0x"@ + hex8(op.iimm) + ");\n"@,
        },
        Decoded::Shift(op) => match op.func {
            ShiftFunc::Sll => "    cpu.wx(Reg::"@ + reg_name(op.rd) + ", cpu.rx(Reg::"@ + reg_name(op.rs1) + ") << (cpu.rx(Reg::"@ + reg_name(op.rs2) + ") % 32));\n"@,
            ShiftFunc::Srl => "    cpu.wx(Reg::"@ + reg_name(op.rd) + ", cpu.rx(Reg::"@ + reg_name(op.rs1) + ") >> (cpu.rx(Reg::"@ + reg_name(op.rs2) + ") % 32));\n"@,
            ShiftFunc::Sra => "    cpu.wx(Reg::"@ + reg_name(op.rd) + ", ((cpu.rx(Reg::"@ + reg_name(op.rs1) + ") as i32) >> (cpu.rx(Reg::"@ + reg_name(op.rs2) + ") % 32)) as u32);\n"@,
        },
        Decoded::Jalr(op) => "    let target = cpu.rx(Reg::"@ + reg_name(op.rs1) + ").wrapping_add(0x"@ + hex8(op.iimm) + ") & !1;\n    cpu.wx(Reg::"@ + reg_name(op.rd) + ", 0x"@ + hex8(next) + ");\n    cpu.set_next_pc(target);\n"@,
        Decoded::Store(op) => match op.func {
            StoreFunc::Sb => "    if let Err(address) = cpu.write8(cpu.rx(Reg::"@ + reg_name(op.rs1) + ").wrapping_add(0x"@ + hex8(op.simm) + "), cpu.rx(Reg::"@ + reg_name(op.rs2) + ") as u8) {\n        cpu.handle_trap(TrapCause::StoreAccessFault(address));\n    }\n"@,
            StoreFunc::Sh => "    if let Err(address) = cpu.write16(cpu.rx(Reg::"@ + reg_name(op.rs1) + ").wrapping_add(0x"@ + hex8(op.simm) + "), cpu.rx(Reg::"@ + reg_name(op.rs2) + ") as u16) {\n        cpu.handle_trap(TrapCause::StoreAccessFault(address));\n    }\n"@,
            StoreFunc::Sw => "    if let Err(address) = cpu.write32(cpu.rx(Reg::"@ + reg_name(op.rs1) + ").wrapping_add(0x"@ + hex8(op.simm) + "), cpu.rx(Reg::"@ + reg_name(op.rs2) + ")) {\n        cpu.handle_trap(TrapCause::StoreAccessFault(address));\n    }\n"@,
        },
        Decoded::Auipc(op) => "    cpu.wx(Reg::"@ + reg_name(op.rd) + ", 0x"@ + hex8(u32_specs::wrapping_add(pc, op.uimm)) + ");\n"@,
        Decoded::Lui(op) => "    cpu.wx(Reg::"@ + reg_name(op.rd) + ", 0x"@ + hex8(op.uimm) + ");\n"@,
        Decoded::Jal(op) => "    cpu.wx(Reg::"@ + reg_name(op.rd) + ", 0x"@ + hex8(next) + ");\n    cpu.set_next_pc(0x"@ + hex8(u32_specs::wrapping_add(pc, op.jimm)) + ");\n"@,
        Decoded::Alu(op) => match op.func {
            AluFunc::Add => "    cpu.wx(Reg::"@ + reg_name(op.rd) + ", cpu.rx(Reg::"@ + reg_name(op.rs1) + ").wrapping_add(cpu.rx(Reg::"@ + reg_name(op.rs2) + ")));\n"@,
            AluFunc::Sub => "    cpu.wx(Reg::"@ + reg_name(op.rd) + ", cpu.rx(Reg::"@ + reg_name(op.rs1) + ").wrapping_sub(cpu.rx(Reg::"@ + reg_name(op.rs2) + ")));\n"@,
            AluFunc::Slt => "    cpu.wx(Reg::"@ + reg_name(op.rd) + ", if (cpu.rx(Reg::"@ + reg_name(op.rs1) + ") as i32) < (cpu.rx(Reg::"@ + reg_name(op.rs2) + ") as i32) { 1 } else { 0 });\n"@,
            AluFunc::Sltu => "    cpu.wx(Reg::"@ + reg_name(op.rd) + ", if cpu.rx(Reg::"@ + reg_name(op.rs1) + ") < cpu.rx(Reg::"@ + reg_name(op.rs2) + ") { 1 } else { 0 });\n"@,
            AluFunc::Xor => "    cpu.wx(Reg::"@ + reg_name(op.rd) + ", cpu.rx(Reg::"@ + reg_name(op.rs1) + ") ^ cpu.rx(Reg::"@ + reg_name(op.rs2) + "));\n"@,
            AluFunc::Or => "    cpu.wx(Reg::"@ + reg_name(op.rd) + ", cpu.rx(Reg::"@ + reg_name(op.rs1) + ") | cpu.rx(Reg::"@ + reg_name(op.rs2) + "));\n"@,
            AluFunc::And => "    cpu.wx(Reg::"@ + reg_name(op.rd) + ", cpu.rx(Reg::"@ + reg_name(op.rs1) + ") & cpu.rx(Reg::"@ + reg_name(op.rs2) + "));\n"@,
        },
        Decoded::ShiftImm(op) => match op.func {
            ShiftImmFunc::Slli => "    cpu.wx(Reg::"@ + reg_name(op.rd) + ", cpu.rx(Reg::"@ + reg_name(op.rs1) + ") << 0x"@ + hex8(op.shamt) + ");\n"@,
            ShiftImmFunc::Srli => "    cpu.wx(Reg::"@ + reg_name(op.rd) + ", cpu.rx(Reg::"@ + reg_name(op.rs1) + ") >> 0x"@ + hex8(op.shamt) + ");\n"@,
            ShiftImmFunc::Srai => "    cpu.wx(Reg::"@ + reg_name(op.rd) + ", (cpu.rx(Reg::"@ + reg_name(op.rs1) + ") as i32 >> 0x"@ + hex8(op.shamt) + ") as u32);\n"@,
        },
        Decoded::Illegal(op) => "    cpu.handle_trap(TrapCause::IllegalInstruction(0x"@ + hex8(op.ins) + "));\n"@,
        Decoded::Ecall => "    cpu.handle_ecall();\n"@,
        Decoded::Ebreak => "    cpu.handle_ebreak();\n"@,
        Decoded::Fence | Decoded::Nop => Seq::empty(),
    }
}

/// Whether the code for `d` sets the next program counter itself.
pub open spec fn sets_next_pc(d: Decoded) -> bool {
    match d {
        Decoded::Branch(_) | Decoded::Jal(_) | Decoded::Jalr(_) => true,
        _ => false,
    }
}

/// Emits the statements that carry out `d`, the instruction at `pc`, where
/// `next` is the address of the instruction after it.
pub fn emit_instruction(d: &Decoded, pc: Address, next: Address) -> (s: String)
    ensures
        s@ == instruction_code(*d, pc, next),
{
    match *d {
        Decoded::Branch(op) => match op.func {
            BranchFunc::Beq => {
                let mut s = String::from_str("    if cpu.rx(Reg::");
                s.append(reg_str(op.rs1));
                s.append(") == cpu.rx(Reg::");
                s.append(reg_str(op.rs2));
                s.append(") {\n        cpu.set_next_pc(0x");
                push_hex8(&mut s, pc.wrapping_add(op.bimm));
                s.append(");\n    } else {\n        cpu.set_next_pc(0x");
                push_hex8(&mut s, next);
                s.append(");\n    }\n");
                s
            },
            BranchFunc::Bne => {
                let mut s = String::from_str("    if cpu.rx(Reg::");
                s.append(reg_str(op.rs1));
                s.append(") != cpu.rx(Reg::");
                s.append(reg_str(op.rs2));
                s.append(") {\n        cpu.set_next_pc(0x");
                push_hex8(&mut s, pc.wrapping_add(op.bimm));
                s.append(");\n    } else {\n        cpu.set_next_pc(0x");
                push_hex8(&mut s, next);
                s.append(");\n    }\n");
                s
            },
            BranchFunc::Blt => {
                let mut s = String::from_str("    if (cpu.rx(Reg::");
                s.append(reg_str(op.rs1));
                s.append(") as i32) < (cpu.rx(Reg::");
                s.append(reg_str(op.rs2));
                s.append(") as i32) {\n        cpu.set_next_pc(0x");
                push_hex8(&mut s, pc.wrapping_add(op.bimm));
                s.append(");\n    } else {\n        cpu.set_next_pc(0x");
                push_hex8(&mut s, next);
                s.append(");\n    }\n");
                s
            },
            BranchFunc::Bge => {
                let mut s = String::from_str("    if (cpu.rx(Reg::");
                s.append(reg_str(op.rs1));
                s.append(") as i32) >= (cpu.rx(Reg::");
                s.append(reg_str(op.rs2));
                s.append(") as i32) {\n        cpu.set_next_pc(0x");
                push_hex8(&mut s, pc.wrapping_add(op.bimm));
                s.append(");\n    } else {\n        cpu.set_next_pc(0x");
                push_hex8(&mut s, next);
                s.append(");\n    }\n");
                s
            },
            BranchFunc::Bltu => {
                let mut s = String::from_str("    if cpu.rx(Reg::");
                s.append(reg_str(op.rs1));
                s.append(") < cpu.rx(Reg::");
                s.append(reg_str(op.rs2));
                s.append(") {\n        cpu.set_next_pc(0x");
                push_hex8(&mut s, pc.wrapping_add(op.bimm));
                s.append(");\n    } else {\n        cpu.set_next_pc(0x");
                push_hex8(&mut s, next);
                s.append(");\n    }\n");
                s
            },
            BranchFunc::Bgeu => {
                let mut s = String::from_str("    if cpu.rx(Reg::");
                s.append(reg_str(op.rs1));
                s.append(") >= cpu.rx(Reg::");
                s.append(reg_str(op.rs2));
                s.append(") {\n        cpu.set_next_pc(0x");
                push_hex8(&mut s, pc.wrapping_add(op.bimm));
                s.append(");\n    } else {\n        cpu.set_next_pc(0x");
                push_hex8(&mut s, next);
                s.append(");\n    }\n");
                s
            },
        },
        Decoded::Load(op) => match op.func {
            LoadFunc::Lb => {
                let mut s = String::from_str("    match cpu.read8(cpu.rx(Reg::");
                s.append(reg_str(op.rs1));
                s.append(").wrapping_add(0x");
                push_hex8(&mut s, op.iimm);
                s.append(")) {\n        Ok(v) => cpu.wx(Reg::");
                s.append(reg_str(op.rd));
                s.append(", ((v as i8) as i32) as u32),\n        Err(address) => cpu.handle_trap(TrapCause::LoadAccessFault(address)),\n    }\n");
                s
            },
            LoadFunc::Lh => {
                let mut s = String::from_str("    match cpu.read16(cpu.rx(Reg::");
                s.append(reg_str(op.rs1));
                s.append(").wrapping_add(0x");
                push_hex8(&mut s, op.iimm);
                s.append(")) {\n        Ok(v) => cpu.wx(Reg::");
                s.append(reg_str(op.rd));
                s.append(", ((v as i16) as i32) as u32),\n        Err(address) => cpu.handle_trap(TrapCause::LoadAccessFault(address)),\n    }\n");
                s
            },
            LoadFunc::Lw => {
                let mut s = String::from_str("    match cpu.read32(cpu.rx(Reg::");
                s.append(reg_str(op.rs1));
                s.append(").wrapping_add(0x");
                push_hex8(&mut s, op.iimm);
                s.append(")) {\n        Ok(v) => cpu.wx(Reg::");
                s.append(reg_str(op.rd));
                s.append(", v),\n        Err(address) => cpu.handle_trap(TrapCause::LoadAccessFault(address)),\n    }\n");
                s
            },
            LoadFunc::Lbu => {
                let mut s = String::from_str("    match cpu.read8(cpu.rx(Reg::");
                s.append(reg_str(op.rs1));
                s.append(").wrapping_add(0x");
                push_hex8(&mut s, op.iimm);
                s.append(")) {\n        Ok(v) => cpu.wx(Reg::");
                s.append(reg_str(op.rd));
                s.append(", v as u32),\n        Err(address) => cpu.handle_trap(TrapCause::LoadAccessFault(address)),\n    }\n");
                s
            },
            LoadFunc::Lhu => {
                let mut s = String::from_str("    match cpu.read16(cpu.rx(Reg::");
                s.append(reg_str(op.rs1));
                s.append(").wrapping_add(0x");
                push_hex8(&mut s, op.iimm);
                s.append(")) {\n        Ok(v) => cpu.wx(Reg::");
                s.append(reg_str(op.rd));
                s.append(", v as u32),\n        Err(address) => cpu.handle_trap(TrapCause::LoadAccessFault(address)),\n    }\n");
                s
            },
        },
        Decoded::AluImmediate(op) => match op.func {
            AluImmFunc::Addi => {
                let mut s = String::from_str("    cpu.wx(Reg::");
                s.append(reg_str(op.rd));
                s.append(", cpu.rx(Reg::");
                s.append(reg_str(op.rs1));
                s.append(").wrapping_add(0x");
                push_hex8(&mut s, op.iimm);
                s.append("));\n");
                s
            },
            AluImmFunc::Slti => {
                let mut s = String::from_str("    cpu.wx(Reg::");
                s.append(reg_str(op.rd));
                s.append(", if (cpu.rx(Reg::");
                s.append(reg_str(op.rs1));
                s.append(") as i32) < (0x");
                push_hex8(&mut s, op.iimm);
                s.append(" as i32) { 1 } else { 0 });\n");
                s
            },
            AluImmFunc::Sltiu => {
                let mut s = String::from_str("    cpu.wx(Reg::");
                s.append(reg_str(op.rd));
                s.append(", if cpu.rx(Reg::");
                s.append(reg_str(op.rs1));
                s.append(") < 0x");
                push_hex8(&mut s, op.iimm);
                s.append(" { 1 } else { 0 });\n");
                s
            },
            AluImmFunc::Xori => {
                let mut s = String::from_str("    cpu.wx(Reg::");
                s.append(reg_str(op.rd));
                s.append(", cpu.rx(Reg::");
                s.append(reg_str(op.rs1));
                s.append(") ^ 0x");
                push_hex8(&mut s, op.iimm);
                s.append(");\n");
                s
            },
            AluImmFunc::Ori => {
                let mut s = String::from_str("    cpu.wx(Reg::");
                s.append(reg_str(op.rd));
                s.append(", cpu.rx(Reg::");
                s.append(reg_str(op.rs1));
                s.append(") | 0x");
                push_hex8(&mut s, op.iimm);
                s.append(");\n");
                s
            },
            AluImmFunc::Andi => {
                let mut s = String::from_str("    cpu.wx(Reg::");
                s.append(reg_str(op.rd));
                s.append(", cpu.rx(Reg::");
                s.append(reg_str(op.rs1));
                s.append(") & 0x");
                push_hex8(&mut s, op.iimm);
                s.append(");\n");
                s
            },
        },
        Decoded::Shift(op) => match op.func {
            ShiftFunc::Sll => {
                let mut s = String::from_str("    cpu.wx(Reg::");
                s.append(reg_str(op.rd));
                s.append(", cpu.rx(Reg::");
                s.append(reg_str(op.rs1));
                s.append(") << (cpu.rx(Reg::");
                s.append(reg_str(op.rs2));
                s.append(") % 32));\n");
                s
            },
            ShiftFunc::Srl => {
                let mut s = String::from_str("    cpu.wx(Reg::");
                s.append(reg_str(op.rd));
                s.append(", cpu.rx(Reg::");
                s.append(reg_str(op.rs1));
                s.append(") >> (cpu.rx(Reg::");
                s.append(reg_str(op.rs2));
                s.append(") % 32));\n");
                s
            },
            ShiftFunc::Sra => {
                let mut s = String::from_str("    cpu.wx(Reg::");
                s.append(reg_str(op.rd));
                s.append(", ((cpu.rx(Reg::");
                s.append(reg_str(op.rs1));
                s.append(") as i32) >> (cpu.rx(Reg::");
                s.append(reg_str(op.rs2));
                s.append(") % 32)) as u32);\n");
                s
            },
        },
        Decoded::Jalr(op) => {
            let mut s = String::from_str("    let target = cpu.rx(Reg::");
            s.append(reg_str(op.rs1));
            s.append(").wrapping_add(0x");
            push_hex8(&mut s, op.iimm);
            s.append(") & !1;\n    cpu.wx(Reg::");
            s.append(reg_str(op.rd));
            s.append(", 0x");
            push_hex8(&mut s, next);
            s.append(");\n    cpu.set_next_pc(target);\n");
            s
        },
        Decoded::Store(op) => match op.func {
            StoreFunc::Sb => {
                let mut s = String::from_str("    if let Err(address) = cpu.write8(cpu.rx(Reg::");
                s.append(reg_str(op.rs1));
                s.append(").wrapping_add(0x");
                push_hex8(&mut s, op.simm);
                s.append("), cpu.rx(Reg::");
                s.append(reg_str(op.rs2));
                s.append(") as u8) {\n        cpu.handle_trap(TrapCause::StoreAccessFault(address));\n    }\n");
                s
            },
            StoreFunc::Sh => {
                let mut s = String::from_str("    if let Err(address) = cpu.write16(cpu.rx(Reg::");
                s.append(reg_str(op.rs1));
                s.append(").wrapping_add(0x");
                push_hex8(&mut s, op.simm);
                s.append("), cpu.rx(Reg::");
                s.append(reg_str(op.rs2));
                s.append(") as u16) {\n        cpu.handle_trap(TrapCause::StoreAccessFault(address));\n    }\n");
                s
            },
            StoreFunc::Sw => {
                let mut s = String::from_str("    if let Err(address) = cpu.write32(cpu.rx(Reg::");
                s.append(reg_str(op.rs1));
                s.append(").wrapping_add(0x");
                push_hex8(&mut s, op.simm);
                s.append("), cpu.rx(Reg::");
                s.append(reg_str(op.rs2));
                s.append(")) {\n        cpu.handle_trap(TrapCause::StoreAccessFault(address));\n    }\n");
                s
            },
        },
        Decoded::Auipc(op) => {
            let mut s = String::from_str("    cpu.wx(Reg::");
            s.append(reg_str(op.rd));
            s.append(", 0x");
            push_hex8(&mut s, pc.wrapping_add(op.uimm));
            s.append(");\n");
            s
        },
        Decoded::Lui(op) => {
            let mut s = String::from_str("    cpu.wx(Reg::");
            s.append(reg_str(op.rd));
            s.append(", 0x");
            push_hex8(&mut s, op.uimm);
            s.append(");\n");
            s
        },
        Decoded::Jal(op) => {
            let mut s = String::from_str("    cpu.wx(Reg::");
            s.append(reg_str(op.rd));
            s.append(", 0x");
            push_hex8(&mut s, next);
            s.append(");\n    cpu.set_next_pc(0x");
            push_hex8(&mut s, pc.wrapping_add(op.jimm));
            s.append(");\n");
            s
        },
        Decoded::Alu(op) => match op.func {
            AluFunc::Add => {
                let mut s = String::from_str("    cpu.wx(Reg::");
                s.append(reg_str(op.rd));
                s.append(", cpu.rx(Reg::");
                s.append(reg_str(op.rs1));
                s.append(").wrapping_add(cpu.rx(Reg::");
                s.append(reg_str(op.rs2));
                s.append(")));\n");
                s
            },
            AluFunc::Sub => {
                let mut s = String::from_str("    cpu.wx(Reg::");
                s.append(reg_str(op.rd));
                s.append(", cpu.rx(Reg::");
                s.append(reg_str(op.rs1));
                s.append(").wrapping_sub(cpu.rx(Reg::");
                s.append(reg_str(op.rs2));
                s.append(")));\n");
                s
            },
            AluFunc::Slt => {
                let mut s = String::from_str("    cpu.wx(Reg::");
                s.append(reg_str(op.rd));
                s.append(", if (cpu.rx(Reg::");
                s.append(reg_str(op.rs1));
                s.append(") as i32) < (cpu.rx(Reg::");
                s.append(reg_str(op.rs2));
                s.append(") as i32) { 1 } else { 0 });\n");
                s
            },
            AluFunc::Sltu => {
                let mut s = String::from_str("    cpu.wx(Reg::");
                s.append(reg_str(op.rd));
                s.append(", if cpu.rx(Reg::");
                s.append(reg_str(op.rs1));
                s.append(") < cpu.rx(Reg::");
                s.append(reg_str(op.rs2));
                s.append(") { 1 } else { 0 });\n");
                s
            },
            AluFunc::Xor => {
                let mut s = String::from_str("    cpu.wx(Reg::");
                s.append(reg_str(op.rd));
                s.append(", cpu.rx(Reg::");
                s.append(reg_str(op.rs1));
                s.append(") ^ cpu.rx(Reg::");
                s.append(reg_str(op.rs2));
                s.append("));\n");
                s
            },
            AluFunc::Or => {
                let mut s = String::from_str("    cpu.wx(Reg::");
                s.append(reg_str(op.rd));
                s.append(", cpu.rx(Reg::");
                s.append(reg_str(op.rs1));
                s.append(") | cpu.rx(Reg::");
                s.append(reg_str(op.rs2));
                s.append("));\n");
                s
            },
            AluFunc::And => {
                let mut s = String::from_str("    cpu.wx(Reg::");
                s.append(reg_str(op.rd));
                s.append(", cpu.rx(Reg::");
                s.append(reg_str(op.rs1));
                s.append(") & cpu.rx(Reg::");
                s.append(reg_str(op.rs2));
                s.append("));\n");
                s
            },
        },
        Decoded::ShiftImm(op) => match op.func {
            ShiftImmFunc::Slli => {
                let mut s = String::from_str("    cpu.wx(Reg::");
                s.append(reg_str(op.rd));
                s.append(", cpu.rx(Reg::");
                s.append(reg_str(op.rs1));
                s.append(") << 0x");
                push_hex8(&mut s, op.shamt);
                s.append(");\n");
                s
            },
            ShiftImmFunc::Srli => {
                let mut s = String::from_str("    cpu.wx(Reg::");
                s.append(reg_str(op.rd));
                s.append(", cpu.rx(Reg::");
                s.append(reg_str(op.rs1));
                s.append(") >> 0x");
                push_hex8(&mut s, op.shamt);
                s.append(");\n");
                s
            },
            ShiftImmFunc::Srai => {
                let mut s = String::from_str("    cpu.wx(Reg::");
                s.append(reg_str(op.rd));
                s.append(", (cpu.rx(Reg::");
                s.append(reg_str(op.rs1));
                s.append(") as i32 >> 0x");
                push_hex8(&mut s, op.shamt);
                s.append(") as u32);\n");
                s
            },
        },
        Decoded::Illegal(op) => {
            let mut s = String::from_str("    cpu.handle_trap(TrapCause::IllegalInstruction(0x");
            push_hex8(&mut s, op.ins);
            s.append("));\n");
            s
        },
        Decoded::Ecall => {
            let mut s = String::from_str("    cpu.handle_ecall();\n");
            s
        },
        Decoded::Ebreak => {
            let mut s = String::from_str("    cpu.handle_ebreak();\n");
            s
        },
        Decoded::Fence | Decoded::Nop => String::new(),
    }
}

} // verus!
