//! The mathematical model of the machine: an abstract view of all machine
//! state, and the exact effect of every instruction on it.

use vstd::prelude::*;

use crate::insn::{spec_decode, DecodeError, Instruction};

verus! {

pub const MEMORY_SIZE: usize = 4096;

pub const STACK_SIZE: usize = 16;

pub const NUM_REGISTERS: usize = 16;

pub const NUM_KEYS: usize = 16;

pub const DISPLAY_WIDTH: usize = 64;

pub const DISPLAY_HEIGHT: usize = 32;

pub const FRAMEBUFFER_SIZE: usize = 3 * DISPLAY_WIDTH * DISPLAY_HEIGHT;

pub const PROGRAM_START_ADDRESS: u16 = 0x200;

/// Abstract view of the whole machine state.
#[verifier::ext_equal]
pub ghost struct MachineView {
    pub mem: Seq<u8>,
    pub stack: Seq<u16>,
    pub pc: u16,
    pub sp: u8,
    pub i: u16,
    pub v: Seq<u8>,
    pub dt: u8,
    pub st: u8,
    pub keys: Seq<bool>,
    pub fb: Seq<u8>,
}

/// Byte offset of pixel (x, y) in the RGB framebuffer.
pub open spec fn spec_pixel_index(x: int, y: int) -> int {
    y * (64 * 3) + x * 3
}

/// Whether pixel (x, y) is lit.
pub open spec fn pixel_on(fb: Seq<u8>, x: int, y: int) -> bool {
    fb[spec_pixel_index(x, y)] == 255
}

/// The three bytes of one pixel are equal and either 0x00 or 0xFF.
pub open spec fn pixel_bytes_ok(fb: Seq<u8>, x: int, y: int) -> bool {
    let j = spec_pixel_index(x, y);
    &&& (fb[j] == 0 || fb[j] == 255)
    &&& fb[j + 1] == fb[j]
    &&& fb[j + 2] == fb[j]
}

/// Framebuffer well-formedness: fixed size, monochrome RGB triples.
pub open spec fn fb_wf(fb: Seq<u8>) -> bool {
    &&& fb.len() == FRAMEBUFFER_SIZE
    &&& forall|x: int, y: int|
        0 <= x < DISPLAY_WIDTH && 0 <= y < DISPLAY_HEIGHT ==> #[trigger] pixel_bytes_ok(fb, x, y)
}

/// An all-dark framebuffer.
pub open spec fn blank_fb() -> Seq<u8> {
    Seq::new(FRAMEBUFFER_SIZE as nat, |j: int| 0u8)
}

/// The three framebuffer bytes of an in-range pixel lie inside the buffer.
pub proof fn lemma_pixel_index_bounds(x: int, y: int)
    requires
        0 <= x < DISPLAY_WIDTH,
        0 <= y < DISPLAY_HEIGHT,
    ensures
        0 <= spec_pixel_index(x, y),
        spec_pixel_index(x, y) + 2 < FRAMEBUFFER_SIZE,
{
    assert(0 <= y * (64 * 3) + x * 3 && y * (64 * 3) + x * 3 + 2 < 6144) by (nonlinear_arith)
        requires
            0 <= x < 64,
            0 <= y < 32,
    ;
}

/// Distinct pixels occupy disjoint byte triples of the framebuffer.
pub proof fn lemma_pixel_index_disjoint(x1: int, y1: int, x2: int, y2: int)
    requires
        0 <= x1 < DISPLAY_WIDTH,
        0 <= y1 < DISPLAY_HEIGHT,
        0 <= x2 < DISPLAY_WIDTH,
        0 <= y2 < DISPLAY_HEIGHT,
        !(x1 == x2 && y1 == y2),
    ensures
        spec_pixel_index(x1, y1) + 2 < spec_pixel_index(x2, y2) || spec_pixel_index(x2, y2) + 2
            < spec_pixel_index(x1, y1),
{
    assert((y1 * (64 * 3) + x1 * 3) + 2 < (y2 * (64 * 3) + x2 * 3) || (y2 * (64 * 3) + x2 * 3) + 2
        < (y1 * (64 * 3) + x1 * 3)) by (nonlinear_arith)
        requires
            0 <= x1 < 64,
            0 <= y1 < 32,
            0 <= x2 < 64,
            0 <= y2 < 32,
            !(x1 == x2 && y1 == y2),
    ;
}

pub proof fn lemma_blank_fb_wf()
    ensures
        fb_wf(blank_fb()),
{
    assert forall|x: int, y: int|
        0 <= x < DISPLAY_WIDTH && 0 <= y < DISPLAY_HEIGHT implies #[trigger] pixel_bytes_ok(
        blank_fb(),
        x,
        y,
    ) by {
        assert(FRAMEBUFFER_SIZE == 6144);
        assert(0 <= y * (64 * 3) + x * 3 && y * (64 * 3) + x * 3 + 2 < 6144) by (nonlinear_arith)
            requires
                0 <= x < 64,
                0 <= y < 32,
        ;
        assert(0 <= spec_pixel_index(x, y) && spec_pixel_index(x, y) + 2 < FRAMEBUFFER_SIZE);
    }
}

impl MachineView {
    /// Well-formedness of the machine state.
    pub open spec fn wf(self) -> bool {
        &&& self.mem.len() == MEMORY_SIZE
        &&& self.stack.len() == STACK_SIZE
        &&& self.v.len() == NUM_REGISTERS
        &&& self.keys.len() == NUM_KEYS
        &&& self.sp <= STACK_SIZE
        &&& fb_wf(self.fb)
    }
}

/// The machine with general register `x` set to `val`.
pub open spec fn with_reg(m: MachineView, x: int, val: u8) -> MachineView {
    MachineView { v: m.v.update(x, val), ..m }
}

/// The machine after a conditional skip: the program counter advances over
/// one further 2-byte instruction exactly when `cond` holds.
pub open spec fn skipped(m: MachineView, cond: bool) -> MachineView {
    if cond {
        MachineView { pc: (m.pc + 2) as u16, ..m }
    } else {
        m
    }
}

/// Bit `c` (0 = leftmost, most significant) of a sprite row byte.
pub open spec fn sprite_bit(b: u8, c: int) -> bool
    recommends
        0 <= c < 8,
{
    (b >> ((7 - c) as u8)) & 1 == 1
}

/// Whether the sprite of `n` rows at memory address `m.i`, drawn at origin
/// (x0, y0), has a set bit landing on pixel (px, py); coordinates wrap
/// modulo the display size per pixel.
pub open spec fn sprite_covers(m: MachineView, x0: int, y0: int, n: int, px: int, py: int) -> bool {
    exists|r: int, c: int|
        0 <= r < n && 0 <= c < 8 && (y0 + r) % (DISPLAY_HEIGHT as int) == py && (x0 + c) % (
        DISPLAY_WIDTH as int) == px && #[trigger] sprite_bit(m.mem[m.i + r], c)
}

/// Whether drawing the sprite turns some lit pixel off (a collision).
pub open spec fn draw_collision(m: MachineView, x0: int, y0: int, n: int) -> bool {
    exists|px: int, py: int|
        0 <= px < DISPLAY_WIDTH && 0 <= py < DISPLAY_HEIGHT && #[trigger] sprite_covers(
            m,
            x0,
            y0,
            n,
            px,
            py,
        ) && pixel_on(m.fb, px, py)
}

/// The effect of the draw instruction: every pixel the sprite covers with a
/// set bit is toggled, every other pixel is unchanged, and the flag register
/// records whether any pixel went from on to off.
pub open spec fn draw_rel(pre: MachineView, x: int, y: int, n: int, post: MachineView) -> bool {
    let x0 = pre.v[x] as int;
    let y0 = pre.v[y] as int;
    &&& post.mem == pre.mem
    &&& post.stack == pre.stack
    &&& post.pc == pre.pc
    &&& post.sp == pre.sp
    &&& post.i == pre.i
    &&& post.dt == pre.dt
    &&& post.st == pre.st
    &&& post.keys == pre.keys
    &&& post.v == pre.v.update(15, if draw_collision(pre, x0, y0, n) { 1u8 } else { 0u8 })
    &&& fb_wf(post.fb)
    &&& forall|px: int, py: int|
        0 <= px < DISPLAY_WIDTH && 0 <= py < DISPLAY_HEIGHT ==> (#[trigger] pixel_on(
            post.fb,
            px,
            py,
        ) == (pixel_on(pre.fb, px, py) != sprite_covers(pre, x0, y0, n, px, py)))
}

/// Memory after storing registers V0..Vx inclusive at addresses i..i+x.
pub open spec fn mem_with_regs(m: MachineView, x: int) -> Seq<u8> {
    Seq::new(m.mem.len(), |a: int| if m.i <= a <= m.i + x { m.v[a - m.i] } else { m.mem[a] })
}

/// Registers after loading V0..Vx inclusive from addresses i..i+x.
pub open spec fn regs_from_mem(m: MachineView, x: int) -> Seq<u8> {
    Seq::new(m.v.len(), |j: int| if j <= x { m.mem[m.i + j] } else { m.v[j] })
}

/// The exact effect of one instruction on the machine state, given that
/// `exec_error` reports no failure for it.  The wait-for-key and random
/// instructions admit every possible supplied key or random byte; all other
/// instructions are deterministic.
pub open spec fn executes_to(pre: MachineView, instr: Instruction, post: MachineView) -> bool {
    match instr {
        Instruction::CLS() => post == MachineView { fb: blank_fb(), ..pre },
        Instruction::RET() => post == MachineView {
            pc: pre.stack[pre.sp - 1],
            sp: (pre.sp - 1) as u8,
            ..pre
        },
        Instruction::JP(addr) => post == MachineView { pc: addr, ..pre },
        Instruction::CALL(addr) => post == MachineView {
            stack: pre.stack.update(pre.sp as int, pre.pc),
            sp: (pre.sp + 1) as u8,
            pc: addr,
            ..pre
        },
        Instruction::SEVXB(x, kk) => post == skipped(pre, pre.v[x as int] == kk),
        Instruction::SNEVXB(x, kk) => post == skipped(pre, pre.v[x as int] != kk),
        Instruction::SEVXY(x, y) => post == skipped(pre, pre.v[x as int] == pre.v[y as int]),
        Instruction::LDVXB(x, kk) => post == with_reg(pre, x as int, kk),
        Instruction::ADDVXB(x, kk) => post == with_reg(
            pre,
            x as int,
            ((pre.v[x as int] + kk) % 256) as u8,
        ),
        Instruction::LDVXY(x, y) => post == with_reg(pre, x as int, pre.v[y as int]),
        Instruction::ORVXY(x, y) => post == with_reg(
            pre,
            x as int,
            pre.v[x as int] | pre.v[y as int],
        ),
        Instruction::ANDVXY(x, y) => post == with_reg(
            pre,
            x as int,
            pre.v[x as int] & pre.v[y as int],
        ),
        Instruction::XORVXY(x, y) => post == with_reg(
            pre,
            x as int,
            pre.v[x as int] ^ pre.v[y as int],
        ),
        Instruction::ADDVXY(x, y) => {
            // The sum is formed first, then the carry flag is written, then
            // the truncated sum, so the store wins when x is the flag register.
            let sum = pre.v[x as int] + pre.v[y as int];
            let flagged = with_reg(pre, 15, if sum >= 256 { 1u8 } else { 0u8 });
            post == with_reg(flagged, x as int, (sum % 256) as u8)
        },
        Instruction::SUBVXY(x, y) => {
            // The borrow flag is written before the operands are re-read for
            // the wrapping subtraction, so the flag write is visible to the
            // subtraction when x or y is the flag register.
            let flagged = with_reg(
                pre,
                15,
                if pre.v[x as int] > pre.v[y as int] { 1u8 } else { 0u8 },
            );
            post == with_reg(
                flagged,
                x as int,
                ((flagged.v[x as int] + 256 - flagged.v[y as int]) % 256) as u8,
            )
        },
        Instruction::SHR(x) => {
            let flagged = with_reg(pre, 15, pre.v[x as int] & 1);
            post == with_reg(flagged, x as int, flagged.v[x as int] >> 1u8)
        },
        Instruction::SUBNVXY(x, y) => {
            let flagged = with_reg(
                pre,
                15,
                if pre.v[y as int] > pre.v[x as int] { 1u8 } else { 0u8 },
            );
            post == with_reg(
                flagged,
                x as int,
                ((flagged.v[y as int] + 256 - flagged.v[x as int]) % 256) as u8,
            )
        },
        Instruction::SHL(x) => {
            let flagged = with_reg(pre, 15, (pre.v[x as int] & 0x80) >> 7u8);
            post == with_reg(flagged, x as int, (flagged.v[x as int] * 2 % 256) as u8)
        },
        Instruction::SNEVXY(x, y) => post == skipped(pre, pre.v[x as int] != pre.v[y as int]),
        Instruction::LDI(addr) => post == MachineView { i: addr, ..pre },
        Instruction::JR(addr) => post == MachineView { pc: (addr + pre.v[0]) as u16, ..pre },
        Instruction::RND(x, kk) => exists|rb: u8| post == with_reg(pre, x as int, kk & rb),
        Instruction::DRAW(x, y, n) => draw_rel(pre, x as int, y as int, n as int, post),
        Instruction::SKP(x) => post == skipped(pre, pre.keys[pre.v[x as int] as int]),
        Instruction::SKNP(x) => post == skipped(pre, !pre.keys[pre.v[x as int] as int]),
        Instruction::LDVXDT(x) => post == with_reg(pre, x as int, pre.dt),
        Instruction::LDVXK(x) => exists|k: u8| post == with_reg(pre, x as int, k),
        Instruction::LDDTVX(x) => post == MachineView { dt: pre.v[x as int], ..pre },
        Instruction::LDSTVX(x) => post == MachineView { st: pre.v[x as int], ..pre },
        Instruction::ADDIVX(x) => post == MachineView {
            i: ((pre.i + pre.v[x as int]) % 0x10000) as u16,
            ..pre
        },
        Instruction::LDFVX(x) => post == MachineView { i: (5 * pre.v[x as int]) as u16, ..pre },
        Instruction::LDB(x) => {
            let val = pre.v[x as int];
            post == MachineView {
                mem: pre.mem.update(pre.i as int, (val / 100) as u8).update(
                    pre.i + 1,
                    ((val / 10) % 10) as u8,
                ).update(pre.i + 2, (val % 10) as u8),
                ..pre
            }
        },
        Instruction::LDIVX(x) => post == MachineView { mem: mem_with_regs(pre, x as int), ..pre },
        Instruction::LDVXI(x) => post == MachineView { v: regs_from_mem(pre, x as int), ..pre },
    }
}

/// Whether executing the instruction notifies the display listener.
pub open spec fn spec_notifies(instr: Instruction) -> bool {
    instr == Instruction::CLS() || instr matches Instruction::DRAW(_, _, _)
}

/// A failure while stepping: decoding failed, or a malformed program asked
/// for an access outside the machine's fixed arrays.
#[derive(Debug, Clone, Copy, PartialEq, Eq, Structural)]
pub enum StepError {
    /// The fetched opcode matches no instruction pattern.
    Decode(DecodeError),
    /// The program counter does not address two bytes of memory.
    FetchOutOfBounds { pc: u16 },
    /// RET with an empty call stack.
    StackUnderflow,
    /// CALL with all 16 stack slots in use.
    StackOverflow,
    /// A sprite, BCD or bulk-transfer access past the end of memory,
    /// starting at address `addr`.
    MemoryOutOfBounds { addr: u16 },
    /// SKP/SKNP on a register value that is not a key index.
    KeyOutOfRange { key: u8 },
}

/// A program too large to fit in memory above the program start address.
#[derive(Debug, Clone, Copy, PartialEq, Eq, Structural)]
pub struct LoadError {
    pub rom_len: usize,
}

/// The bounds failure, if any, that executing `instr` in state `pre`
/// reports; `None` exactly when the instruction executes.
pub open spec fn exec_error(pre: MachineView, instr: Instruction) -> Option<StepError> {
    match instr {
        Instruction::RET() => if pre.sp == 0 {
            Some(StepError::StackUnderflow)
        } else {
            None
        },
        Instruction::CALL(_) => if pre.sp >= STACK_SIZE {
            Some(StepError::StackOverflow)
        } else {
            None
        },
        Instruction::DRAW(_, _, n) => if pre.i + n > MEMORY_SIZE {
            Some(StepError::MemoryOutOfBounds { addr: pre.i })
        } else {
            None
        },
        Instruction::SKP(x) => if pre.v[x as int] >= NUM_KEYS {
            Some(StepError::KeyOutOfRange { key: pre.v[x as int] })
        } else {
            None
        },
        Instruction::SKNP(x) => if pre.v[x as int] >= NUM_KEYS {
            Some(StepError::KeyOutOfRange { key: pre.v[x as int] })
        } else {
            None
        },
        Instruction::LDB(_) => if pre.i + 2 >= MEMORY_SIZE {
            Some(StepError::MemoryOutOfBounds { addr: pre.i })
        } else {
            None
        },
        Instruction::LDIVX(x) => if pre.i + x >= MEMORY_SIZE {
            Some(StepError::MemoryOutOfBounds { addr: pre.i })
        } else {
            None
        },
        Instruction::LDVXI(x) => if pre.i + x >= MEMORY_SIZE {
            Some(StepError::MemoryOutOfBounds { addr: pre.i })
        } else {
            None
        },
        _ => None,
    }
}

/// The big-endian 16-bit word at the program counter.
pub open spec fn spec_fetch_word(m: MachineView) -> u16 {
    ((m.mem[m.pc as int] as u16) << 8u16) | (m.mem[m.pc as int + 1] as u16)
}

/// One successful fetch-decode-execute cycle from `pre` to `post`.
pub open spec fn vm_cycle(pre: MachineView, post: MachineView) -> bool {
    &&& pre.pc + 1 < MEMORY_SIZE
    &&& {
        let fetched = MachineView { pc: (pre.pc + 2) as u16, ..pre };
        match spec_decode(spec_fetch_word(pre)) {
            Some(instr) => exec_error(fetched, instr) is None && executes_to(fetched, instr, post),
            None => false,
        }
    }
}

/// A fetch-decode-execute cycle from `pre` that fails with error `e`,
/// leaving the machine in state `post`: the state is unchanged on a fetch
/// failure and keeps only the advanced program counter otherwise.
pub open spec fn vm_cycle_err(pre: MachineView, post: MachineView, e: StepError) -> bool {
    if pre.pc + 1 >= MEMORY_SIZE {
        e == (StepError::FetchOutOfBounds { pc: pre.pc }) && post == pre
    } else {
        let fetched = MachineView { pc: (pre.pc + 2) as u16, ..pre };
        match spec_decode(spec_fetch_word(pre)) {
            Some(instr) => exec_error(fetched, instr) == Some(e) && post == fetched,
            None => e == StepError::Decode(DecodeError { opcode: spec_fetch_word(pre) }) && post
                == fetched,
        }
    }
}

/// Exactly `n` successful cycles from `pre` to `post`.
pub open spec fn vm_runs(pre: MachineView, post: MachineView, n: nat) -> bool
    decreases n,
{
    if n == 0 {
        post == pre
    } else {
        exists|mid: MachineView| vm_runs(pre, mid, (n - 1) as nat) && vm_cycle(mid, post)
    }
}

/// One 60 Hz timer tick: both timers count down and saturate at zero.
pub open spec fn spec_tick(m: MachineView) -> MachineView {
    MachineView {
        dt: if m.dt > 0 {
            (m.dt - 1) as u8
        } else {
            0
        },
        st: if m.st > 0 {
            (m.st - 1) as u8
        } else {
            0
        },
        ..m
    }
}

/// `n` consecutive timer ticks.
pub open spec fn spec_tick_n(m: MachineView, n: nat) -> MachineView
    decreases n,
{
    if n == 0 {
        m
    } else {
        spec_tick(spec_tick_n(m, (n - 1) as nat))
    }
}

/// One timed fetch-decode-execute cycle: the timers tick first when the
/// 60 Hz interval has elapsed, which depends on the wall clock.
pub open spec fn chip8_cycle(pre: MachineView, post: MachineView) -> bool {
    exists|t: MachineView| (t == pre || t == spec_tick(pre)) && #[trigger] vm_cycle(t, post)
}

/// A timed cycle from `pre` that fails with error `e`, leaving state `post`.
pub open spec fn chip8_cycle_err(pre: MachineView, post: MachineView, e: StepError) -> bool {
    exists|t: MachineView| (t == pre || t == spec_tick(pre)) && #[trigger] vm_cycle_err(t, post, e)
}

/// Exactly `n` successful timed cycles from `pre` to `post`.
pub open spec fn chip8_runs(pre: MachineView, post: MachineView, n: nat) -> bool
    decreases n,
{
    if n == 0 {
        post == pre
    } else {
        exists|mid: MachineView| chip8_runs(pre, mid, (n - 1) as nat) && chip8_cycle(mid, post)
    }
}

} // verus!
