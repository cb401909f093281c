//! The instruction set: the 16-bit opcode grammar and the decoder.

use vstd::prelude::*;

verus! {

/// A decoded instruction, one variant per opcode pattern, carrying only the
/// operands that the instruction needs.  Register operands are the nybble at
/// bits 8-11 ("x") and the nybble at bits 4-7 ("y"); byte immediates are the
/// low byte; address operands are the low 12 bits.
#[derive(Debug, Clone, Copy, PartialEq, Eq, Structural)]
pub enum Instruction {
    CLS(),
    RET(),
    JP(u16),
    CALL(u16),
    SEVXB(usize, u8),
    SNEVXB(usize, u8),
    SEVXY(usize, usize),
    LDVXB(usize, u8),
    ADDVXB(usize, u8),
    LDVXY(usize, usize),
    ORVXY(usize, usize),
    ANDVXY(usize, usize),
    XORVXY(usize, usize),
    ADDVXY(usize, usize),
    SUBVXY(usize, usize),
    SHR(usize),
    SUBNVXY(usize, usize),
    SHL(usize),
    SNEVXY(usize, usize),
    LDI(u16),
    JR(u16),
    RND(usize, u8),
    DRAW(usize, usize, u8),
    SKP(usize),
    SKNP(usize),
    LDVXDT(usize),
    LDVXK(usize),
    LDDTVX(usize),
    LDSTVX(usize),
    ADDIVX(usize),
    LDFVX(usize),
    LDB(usize),
    LDIVX(usize),
    LDVXI(usize),
}

/// An opcode that matches no known instruction pattern; carries the raw
/// opcode for diagnostics.
#[derive(Debug, Clone, Copy, PartialEq, Eq, Structural)]
pub struct DecodeError {
    pub opcode: u16,
}

/// Nybble `n` (0 = lowest, 3 = highest) of `value`.
pub open spec fn spec_nybble(value: u16, n: u8) -> u8
    recommends
        n < 4,
{
    ((value >> ((4 * n) as u16)) & 0x0F) as u8
}

/// Get the nybble `n` from `value`.
pub fn nybble(value: u16, n: u8) -> (r: u8)
    requires
        n < 4,
    ensures
        r == spec_nybble(value, n),
        r < 16,
{
    let shift: u16 = 4 * (n as u16);
    let r = ((value >> shift) & 0x0F) as u8;
    proof {
        assert(((value >> shift) & 0x0F) < 16) by (bit_vector);
    }
    r
}

/// Split a byte into its decimal digits: hundreds, tens, ones.
pub fn bcd(value: u8) -> (r: (u8, u8, u8))
    ensures
        r.0 == value / 100,
        r.1 == (value / 10) % 10,
        r.2 == value % 10,
        r.0 < 10 && r.1 < 10 && r.2 < 10,
{
    let mut dec = value;
    let o = dec % 10;
    dec /= 10;
    let t = dec % 10;
    dec /= 10;
    let h = dec % 10;
    (h, t, o)
}

/// The full opcode grammar: which instruction, if any, a 16-bit opcode
/// denotes.  Dispatch is by the top nybble, with further dispatch by the low
/// nybble or low byte for the opcode families led by 0x0, 0x8, 0xE and 0xF.
pub open spec fn spec_decode(op: u16) -> Option<Instruction> {
    let x = spec_nybble(op, 2) as usize;
    let y = spec_nybble(op, 1) as usize;
    let kk = (op & 0x00FF) as u8;
    let addr = op & 0x0FFF;
    let t = spec_nybble(op, 3);
    if t == 0x0 {
        if op == 0x00E0 {
            Some(Instruction::CLS())
        } else if op == 0x00EE {
            Some(Instruction::RET())
        } else {
            None
        }
    } else if t == 0x1 {
        Some(Instruction::JP(addr))
    } else if t == 0x2 {
        Some(Instruction::CALL(addr))
    } else if t == 0x3 {
        Some(Instruction::SEVXB(x, kk))
    } else if t == 0x4 {
        Some(Instruction::SNEVXB(x, kk))
    } else if t == 0x5 {
        Some(Instruction::SEVXY(x, y))
    } else if t == 0x6 {
        Some(Instruction::LDVXB(x, kk))
    } else if t == 0x7 {
        Some(Instruction::ADDVXB(x, kk))
    } else if t == 0x8 {
        let low = spec_nybble(op, 0);
        if low == 0x0 {
            Some(Instruction::LDVXY(x, y))
        } else if low == 0x1 {
            Some(Instruction::ORVXY(x, y))
        } else if low == 0x2 {
            Some(Instruction::ANDVXY(x, y))
        } else if low == 0x3 {
            Some(Instruction::XORVXY(x, y))
        } else if low == 0x4 {
            Some(Instruction::ADDVXY(x, y))
        } else if low == 0x5 {
            Some(Instruction::SUBVXY(x, y))
        } else if low == 0x6 {
            Some(Instruction::SHR(x))
        } else if low == 0x7 {
            Some(Instruction::SUBNVXY(x, y))
        } else if low == 0xE {
            Some(Instruction::SHL(x))
        } else {
            None
        }
    } else if t == 0x9 {
        Some(Instruction::SNEVXY(x, y))
    } else if t == 0xA {
        Some(Instruction::LDI(addr))
    } else if t == 0xB {
        Some(Instruction::JR(addr))
    } else if t == 0xC {
        Some(Instruction::RND(x, kk))
    } else if t == 0xD {
        Some(Instruction::DRAW(x, y, (op & 0x000F) as u8))
    } else if t == 0xE {
        if kk == 0x9E {
            Some(Instruction::SKP(x))
        } else if kk == 0xA1 {
            Some(Instruction::SKNP(x))
        } else {
            None
        }
    } else if t == 0xF {
        if kk == 0x07 {
            Some(Instruction::LDVXDT(x))
        } else if kk == 0x0A {
            Some(Instruction::LDVXK(x))
        } else if kk == 0x15 {
            Some(Instruction::LDDTVX(x))
        } else if kk == 0x18 {
            Some(Instruction::LDSTVX(x))
        } else if kk == 0x1E {
            Some(Instruction::ADDIVX(x))
        } else if kk == 0x29 {
            Some(Instruction::LDFVX(x))
        } else if kk == 0x33 {
            Some(Instruction::LDB(x))
        } else if kk == 0x55 {
            Some(Instruction::LDIVX(x))
        } else if kk == 0x65 {
            Some(Instruction::LDVXI(x))
        } else {
            None
        }
    } else {
        None
    }
}

/// Register and operand ranges that every decoded instruction satisfies.
pub open spec fn instr_wf(instr: Instruction) -> bool {
    match instr {
        Instruction::CLS() => true,
        Instruction::RET() => true,
        Instruction::JP(a) => a < 0x1000,
        Instruction::CALL(a) => a < 0x1000,
        Instruction::SEVXB(x, _) => x < 16,
        Instruction::SNEVXB(x, _) => x < 16,
        Instruction::SEVXY(x, y) => x < 16 && y < 16,
        Instruction::LDVXB(x, _) => x < 16,
        Instruction::ADDVXB(x, _) => x < 16,
        Instruction::LDVXY(x, y) => x < 16 && y < 16,
        Instruction::ORVXY(x, y) => x < 16 && y < 16,
        Instruction::ANDVXY(x, y) => x < 16 && y < 16,
        Instruction::XORVXY(x, y) => x < 16 && y < 16,
        Instruction::ADDVXY(x, y) => x < 16 && y < 16,
        Instruction::SUBVXY(x, y) => x < 16 && y < 16,
        Instruction::SHR(x) => x < 16,
        Instruction::SUBNVXY(x, y) => x < 16 && y < 16,
        Instruction::SHL(x) => x < 16,
        Instruction::SNEVXY(x, y) => x < 16 && y < 16,
        Instruction::LDI(a) => a < 0x1000,
        Instruction::JR(a) => a < 0x1000,
        Instruction::RND(x, _) => x < 16,
        Instruction::DRAW(x, y, n) => x < 16 && y < 16 && n < 16,
        Instruction::SKP(x) => x < 16,
        Instruction::SKNP(x) => x < 16,
        Instruction::LDVXDT(x) => x < 16,
        Instruction::LDVXK(x) => x < 16,
        Instruction::LDDTVX(x) => x < 16,
        Instruction::LDSTVX(x) => x < 16,
        Instruction::ADDIVX(x) => x < 16,
        Instruction::LDFVX(x) => x < 16,
        Instruction::LDB(x) => x < 16,
        Instruction::LDIVX(x) => x < 16,
        Instruction::LDVXI(x) => x < 16,
    }
}

/// Map an opcode to its instruction, or to a `DecodeError` carrying the
/// opcode when it matches no pattern of the grammar.
pub fn decode(op: u16) -> (r: Result<Instruction, DecodeError>)
    ensures
        match r {
            Ok(instr) => spec_decode(op) == Some(instr) && instr_wf(instr),
            Err(e) => spec_decode(op) is None && e.opcode == op,
        },
{
    let x = nybble(op, 2) as usize;
    let y = nybble(op, 1) as usize;
    let kk = (op & 0x00FF) as u8;
    let addr = op & 0x0FFF;
    let t = nybble(op, 3);
    proof {
        assert((op & 0x0FFF) < 0x1000) by (bit_vector);
        assert((op & 0x000F) < 0x10) by (bit_vector);
    }
    if t == 0x0 {
        if op == 0x00E0 {
            Ok(Instruction::CLS())
        } else if op == 0x00EE {
            Ok(Instruction::RET())
        } else {
            Err(DecodeError { opcode: op })
        }
    } else if t == 0x1 {
        Ok(Instruction::JP(addr))
    } else if t == 0x2 {
        Ok(Instruction::CALL(addr))
    } else if t == 0x3 {
        Ok(Instruction::SEVXB(x, kk))
    } else if t == 0x4 {
        Ok(Instruction::SNEVXB(x, kk))
    } else if t == 0x5 {
        Ok(Instruction::SEVXY(x, y))
    } else if t == 0x6 {
        Ok(Instruction::LDVXB(x, kk))
    } else if t == 0x7 {
        Ok(Instruction::ADDVXB(x, kk))
    } else if t == 0x8 {
        let low = nybble(op, 0);
        if low == 0x0 {
            Ok(Instruction::LDVXY(x, y))
        } else if low == 0x1 {
            Ok(Instruction::ORVXY(x, y))
        } else if low == 0x2 {
            Ok(Instruction::ANDVXY(x, y))
        } else if low == 0x3 {
            Ok(Instruction::XORVXY(x, y))
        } else if low == 0x4 {
            Ok(Instruction::ADDVXY(x, y))
        } else if low == 0x5 {
            Ok(Instruction::SUBVXY(x, y))
        } else if low == 0x6 {
            Ok(Instruction::SHR(x))
        } else if low == 0x7 {
            Ok(Instruction::SUBNVXY(x, y))
        } else if low == 0xE {
            Ok(Instruction::SHL(x))
        } else {
            Err(DecodeError { opcode: op })
        }
    } else if t == 0x9 {
        Ok(Instruction::SNEVXY(x, y))
    } else if t == 0xA {
        Ok(Instruction::LDI(addr))
    } else if t == 0xB {
        Ok(Instruction::JR(addr))
    } else if t == 0xC {
        Ok(Instruction::RND(x, kk))
    } else if t == 0xD {
        Ok(Instruction::DRAW(x, y, (op & 0x000F) as u8))
    } else if t == 0xE {
        if kk == 0x9E {
            Ok(Instruction::SKP(x))
        } else if kk == 0xA1 {
            Ok(Instruction::SKNP(x))
        } else {
            Err(DecodeError { opcode: op })
        }
    } else if t == 0xF {
        if kk == 0x07 {
            Ok(Instruction::LDVXDT(x))
        } else if kk == 0x0A {
            Ok(Instruction::LDVXK(x))
        } else if kk == 0x15 {
            Ok(Instruction::LDDTVX(x))
        } else if kk == 0x18 {
            Ok(Instruction::LDSTVX(x))
        } else if kk == 0x1E {
            Ok(Instruction::ADDIVX(x))
        } else if kk == 0x29 {
            Ok(Instruction::LDFVX(x))
        } else if kk == 0x33 {
            Ok(Instruction::LDB(x))
        } else if kk == 0x55 {
            Ok(Instruction::LDIVX(x))
        } else if kk == 0x65 {
            Ok(Instruction::LDVXI(x))
        } else {
            Err(DecodeError { opcode: op })
        }
    } else {
        Err(DecodeError { opcode: op })
    }
}

} // verus!
