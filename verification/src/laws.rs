//! Laws of the machine: properties that relate several operations, stated
//! over the model and proved once and for all.

use vstd::prelude::*;

use crate::insn::{spec_decode, Instruction};
use crate::state::{
    draw_collision, draw_rel, executes_to, pixel_on, skipped, spec_fetch_word, spec_tick_n,
    sprite_covers, vm_cycle, with_reg, MachineView, DISPLAY_HEIGHT, DISPLAY_WIDTH, NUM_REGISTERS,
};

verus! {

/// The conditional-skip instructions.
pub open spec fn is_skip(instr: Instruction) -> bool {
    match instr {
        Instruction::SEVXB(_, _) => true,
        Instruction::SNEVXB(_, _) => true,
        Instruction::SEVXY(_, _) => true,
        Instruction::SNEVXY(_, _) => true,
        Instruction::SKP(_) => true,
        Instruction::SKNP(_) => true,
        _ => false,
    }
}

/// The condition under which a conditional-skip instruction skips.
pub open spec fn skip_condition(m: MachineView, instr: Instruction) -> bool {
    match instr {
        Instruction::SEVXB(x, kk) => m.v[x as int] == kk,
        Instruction::SNEVXB(x, kk) => m.v[x as int] != kk,
        Instruction::SEVXY(x, y) => m.v[x as int] == m.v[y as int],
        Instruction::SNEVXY(x, y) => m.v[x as int] != m.v[y as int],
        Instruction::SKP(x) => m.keys[m.v[x as int] as int],
        Instruction::SKNP(x) => !m.keys[m.v[x as int] as int],
        _ => false,
    }
}

/// A machine cycle whose instruction is a conditional skip advances the
/// program counter by exactly 4 (the fetch plus one skipped 2-byte
/// instruction) when the condition holds, and by exactly 2 otherwise.
pub proof fn lemma_skip_advances_pc(pre: MachineView, post: MachineView)
    requires
        pre.wf(),
        vm_cycle(pre, post),
        spec_decode(spec_fetch_word(pre)) is Some,
        is_skip(spec_decode(spec_fetch_word(pre)).unwrap()),
    ensures
        post.pc == pre.pc + if skip_condition(pre, spec_decode(spec_fetch_word(pre)).unwrap()) {
            4int
        } else {
            2int
        },
{
    let instr = spec_decode(spec_fetch_word(pre)).unwrap();
    let fetched = MachineView { pc: (pre.pc + 2) as u16, ..pre };
    assert(executes_to(fetched, instr, post));
    match instr {
        Instruction::SEVXB(x, kk) => {
            assert(post == skipped(fetched, fetched.v[x as int] == kk));
        },
        Instruction::SNEVXB(x, kk) => {
            assert(post == skipped(fetched, fetched.v[x as int] != kk));
        },
        Instruction::SEVXY(x, y) => {
            assert(post == skipped(fetched, fetched.v[x as int] == fetched.v[y as int]));
        },
        Instruction::SNEVXY(x, y) => {
            assert(post == skipped(fetched, fetched.v[x as int] != fetched.v[y as int]));
        },
        Instruction::SKP(x) => {
            assert(post == skipped(fetched, fetched.keys[fetched.v[x as int] as int]));
        },
        Instruction::SKNP(x) => {
            assert(post == skipped(fetched, !fetched.keys[fetched.v[x as int] as int]));
        },
        _ => {},
    }
}

/// Whatever key code the wait-for-key strategy supplies is stored verbatim
/// in the destination register, and nothing else changes; conversely, every
/// outcome the instruction admits stores some key code that way.
pub proof fn lemma_key_wait_stores_verbatim(pre: MachineView, x: usize, k: u8)
    requires
        pre.wf(),
        x < NUM_REGISTERS,
    ensures
        executes_to(pre, Instruction::LDVXK(x), with_reg(pre, x as int, k)),
        forall|post: MachineView|
            #[trigger] executes_to(pre, Instruction::LDVXK(x), post) ==> exists|kk: u8|
                post == with_reg(pre, x as int, kk),
{
}

/// The timers saturate: after `n` ticks a timer holds its old value less
/// `n`, and zero once `n` reaches it; it never wraps around.
pub proof fn lemma_timers_never_underflow(m: MachineView, n: nat)
    ensures
        spec_tick_n(m, n).dt == if n >= m.dt {
            0u8
        } else {
            (m.dt - n) as u8
        },
        spec_tick_n(m, n).st == if n >= m.st {
            0u8
        } else {
            (m.st - n) as u8
        },
    decreases n,
{
    if n > 0 {
        lemma_timers_never_underflow(m, (n - 1) as nat);
    }
}

/// Sprite coverage depends only on memory and the index register.
proof fn lemma_covers_same(m1: MachineView, m2: MachineView, x0: int, y0: int, n: int)
    requires
        m1.mem == m2.mem,
        m1.i == m2.i,
    ensures
        forall|px: int, py: int|
            #[trigger] sprite_covers(m1, x0, y0, n, px, py) == sprite_covers(
                m2,
                x0,
                y0,
                n,
                px,
                py,
            ),
{
    assert forall|px: int, py: int| #[trigger]
        sprite_covers(m1, x0, y0, n, px, py) == sprite_covers(m2, x0, y0, n, px, py) by {
        if sprite_covers(m1, x0, y0, n, px, py) {
            let (r, c): (int, int) = choose|r: int, c: int|
                0 <= r < n && 0 <= c < 8 && (y0 + r) % (DISPLAY_HEIGHT as int) == py && (x0 + c) % (
                DISPLAY_WIDTH as int) == px && #[trigger] crate::state::sprite_bit(
                    m1.mem[m1.i + r],
                    c,
                );
            assert(sprite_covers(m2, x0, y0, n, px, py));
        }
        if sprite_covers(m2, x0, y0, n, px, py) {
            let (r, c): (int, int) = choose|r: int, c: int|
                0 <= r < n && 0 <= c < 8 && (y0 + r) % (DISPLAY_HEIGHT as int) == py && (x0 + c) % (
                DISPLAY_WIDTH as int) == px && #[trigger] crate::state::sprite_bit(
                    m2.mem[m2.i + r],
                    c,
                );
            assert(sprite_covers(m1, x0, y0, n, px, py));
        }
    }
}

/// Two back-to-back draws of the same sprite at the same coordinates cancel:
/// every pixel is restored, since XOR of the same bits twice is the
/// identity.  And whenever the first draw lit some covered pixel (one that
/// was dark before), the second draw turns it off again and so reports a
/// collision.  The flag register itself is excluded as a coordinate
/// register: the first draw overwrites it, which would move the second
/// sprite.
pub proof fn lemma_double_draw_erases(
    pre: MachineView,
    x: usize,
    y: usize,
    n: u8,
    mid: MachineView,
    post: MachineView,
)
    requires
        pre.wf(),
        x < NUM_REGISTERS,
        y < NUM_REGISTERS,
        x != 15,
        y != 15,
        draw_rel(pre, x as int, y as int, n as int, mid),
        draw_rel(mid, x as int, y as int, n as int, post),
    ensures
        forall|px: int, py: int|
            0 <= px < DISPLAY_WIDTH && 0 <= py < DISPLAY_HEIGHT ==> #[trigger] pixel_on(
                post.fb,
                px,
                py,
            ) == pixel_on(pre.fb, px, py),
        (exists|px: int, py: int|
            0 <= px < DISPLAY_WIDTH && 0 <= py < DISPLAY_HEIGHT && #[trigger] sprite_covers(
                pre,
                pre.v[x as int] as int,
                pre.v[y as int] as int,
                n as int,
                px,
                py,
            ) && !pixel_on(pre.fb, px, py)) ==> post.v[15] == 1,
{
    let x0 = pre.v[x as int] as int;
    let y0 = pre.v[y as int] as int;
    assert(mid.v[x as int] == pre.v[x as int] && mid.v[y as int] == pre.v[y as int]);
    lemma_covers_same(pre, mid, x0, y0, n as int);
    assert forall|px: int, py: int|
        0 <= px < DISPLAY_WIDTH && 0 <= py < DISPLAY_HEIGHT implies #[trigger] pixel_on(
        post.fb,
        px,
        py,
    ) == pixel_on(pre.fb, px, py) by {
        assert(pixel_on(mid.fb, px, py) == (pixel_on(pre.fb, px, py) != sprite_covers(
            pre,
            x0,
            y0,
            n as int,
            px,
            py,
        )));
        assert(pixel_on(post.fb, px, py) == (pixel_on(mid.fb, px, py) != sprite_covers(
            mid,
            x0,
            y0,
            n as int,
            px,
            py,
        )));
    }
    if exists|px: int, py: int|
        0 <= px < DISPLAY_WIDTH && 0 <= py < DISPLAY_HEIGHT && #[trigger] sprite_covers(
            pre,
            x0,
            y0,
            n as int,
            px,
            py,
        ) && !pixel_on(pre.fb, px, py) {
        let (px, py): (int, int) = choose|px: int, py: int|
            0 <= px < DISPLAY_WIDTH && 0 <= py < DISPLAY_HEIGHT && #[trigger] sprite_covers(
                pre,
                x0,
                y0,
                n as int,
                px,
                py,
            ) && !pixel_on(pre.fb, px, py);
        assert(pixel_on(mid.fb, px, py));
        assert(sprite_covers(mid, x0, y0, n as int, px, py));
        assert(draw_collision(mid, x0, y0, n as int));
        assert(post.v == mid.v.update(15, 1u8));
    }
}

} // verus!
