//! The core virtual machine: all machine state, and the fetch-decode-execute
//! engine, verified against the model in `state`.

use vstd::prelude::*;

use crate::insn::{decode, Instruction};
use crate::state::{
    blank_fb, draw_collision, draw_rel, exec_error, executes_to, mem_with_regs, pixel_bytes_ok,
    pixel_on, regs_from_mem, skipped, spec_fetch_word, spec_notifies, spec_pixel_index, sprite_bit,
    sprite_covers, vm_cycle, vm_cycle_err, vm_runs, with_reg, LoadError, MachineView, StepError,
    DISPLAY_HEIGHT, DISPLAY_WIDTH, FRAMEBUFFER_SIZE, MEMORY_SIZE, NUM_KEYS, NUM_REGISTERS,
    PROGRAM_START_ADDRESS, STACK_SIZE,
};
use crate::KeyWaitHandler;

verus! {

/// Relies on rand::random: a value drawn from the thread-local generator's
/// uniform distribution.  Nothing is promised of the result.
pub assume_specification<T>[ rand::random::<T> ]() -> (r: T)
    where
        rand::distr::StandardUniform: rand::distr::Distribution<T>,
;

/// The 80-byte font sprite table: 16 glyphs of 5 rows each, one glyph per
/// hex digit, resident at addresses 0x000..0x050.
pub open spec fn spec_font() -> Seq<u8> {
    seq![
        0xF0u8, 0x90, 0x90, 0x90, 0xF0,
        0x20, 0x60, 0x20, 0x20, 0x70,
        0xF0, 0x10, 0xF0, 0x80, 0xF0,
        0xF0, 0x10, 0xF0, 0x10, 0xF0,
        0x90, 0x90, 0xF0, 0x10, 0x10,
        0xF0, 0x80, 0xF0, 0x10, 0xF0,
        0xF0, 0x80, 0xF0, 0x90, 0xF0,
        0xF0, 0x10, 0x20, 0x40, 0x40,
        0xF0, 0x90, 0xF0, 0x90, 0xF0,
        0xF0, 0x90, 0xF0, 0x10, 0xF0,
        0xF0, 0x90, 0xF0, 0x90, 0x90,
        0xE0, 0x90, 0xE0, 0x90, 0xE0,
        0xF0, 0x80, 0x80, 0x80, 0xF0,
        0xE0, 0x90, 0x90, 0x90, 0xE0,
        0xF0, 0x80, 0xF0, 0x80, 0xF0,
        0xF0, 0x80, 0xF0, 0x80, 0x80,
    ]
}

/// The machine state at construction: zeroed memory holding only the font
/// table, program counter at the program start address, everything else zero.
pub open spec fn spec_initial() -> MachineView {
    MachineView {
        mem: Seq::new(
            MEMORY_SIZE as nat,
            |a: int| if 0 <= a < 80 { spec_font()[a] } else { 0u8 },
        ),
        stack: Seq::new(STACK_SIZE as nat, |j: int| 0u16),
        pc: PROGRAM_START_ADDRESS,
        sp: 0,
        i: 0,
        v: Seq::new(NUM_REGISTERS as nat, |j: int| 0u8),
        dt: 0,
        st: 0,
        keys: Seq::new(NUM_KEYS as nat, |j: int| false),
        fb: blank_fb(),
    }
}

/// The virtual machine: fixed memory, sixteen registers, a call stack, two
/// timers, a key matrix, a monochrome framebuffer exposed as RGB bytes, and
/// the injected strategy for the blocking wait-for-key instruction.
pub struct VirtualMachine {
    memory: Vec<u8>,
    stack: Vec<u16>,
    pc: u16,
    sp: u8,
    i: u16,
    v: Vec<u8>,
    dt: u8,
    st: u8,
    keys: Vec<bool>,
    key_wait: Box<dyn KeyWaitHandler>,
    display_memory: Vec<u8>,
}

impl View for VirtualMachine {
    type V = MachineView;

    closed spec fn view(&self) -> MachineView {
        MachineView {
            mem: self.memory@,
            stack: self.stack@,
            pc: self.pc,
            sp: self.sp,
            i: self.i,
            v: self.v@,
            dt: self.dt,
            st: self.st,
            keys: self.keys@,
            fb: self.display_memory@,
        }
    }
}

/// The default wait-for-key strategy: report key 0 immediately.
struct DefaultKeyWait;

impl KeyWaitHandler for DefaultKeyWait {
    fn wait_key(&mut self) -> u8 {
        0
    }
}

impl VirtualMachine {
    /// Construct the machine in its initial state.
    pub fn new() -> (vm: VirtualMachine)
        ensures
            vm@.wf(),
            vm@ == spec_initial(),
    {
        let mut vm = VirtualMachine {
            memory: vec![0u8; MEMORY_SIZE],
            stack: vec![0u16; STACK_SIZE],
            pc: PROGRAM_START_ADDRESS,
            sp: 0,
            i: 0,
            v: vec![0u8; NUM_REGISTERS],
            dt: 0,
            st: 0,
            keys: vec![false; NUM_KEYS],
            key_wait: Box::new(DefaultKeyWait),
            display_memory: vec![0u8; FRAMEBUFFER_SIZE],
        };
        vm.load_font();
        proof {
            crate::state::lemma_blank_fb_wf();
            assert(vm@ =~= spec_initial());
        }
        vm
    }

    /// Copy the font sprite table to the bottom of memory.
    fn load_font(&mut self)
        requires
            old(self)@.mem.len() == MEMORY_SIZE,
        ensures
            final(self)@ == (MachineView { mem: final(self)@.mem, ..old(self)@ }),
            final(self)@.mem.len() == MEMORY_SIZE,
            forall|a: int|
                0 <= a < MEMORY_SIZE ==> #[trigger] final(self)@.mem[a] == if 0 <= a < 80 {
                    spec_font()[a]
                } else {
                    old(self)@.mem[a]
                },
    {
        let fonts: Vec<u8> = vec![
            0xF0u8, 0x90, 0x90, 0x90, 0xF0,
            0x20, 0x60, 0x20, 0x20, 0x70,
            0xF0, 0x10, 0xF0, 0x80, 0xF0,
            0xF0, 0x10, 0xF0, 0x10, 0xF0,
            0x90, 0x90, 0xF0, 0x10, 0x10,
            0xF0, 0x80, 0xF0, 0x10, 0xF0,
            0xF0, 0x80, 0xF0, 0x90, 0xF0,
            0xF0, 0x10, 0x20, 0x40, 0x40,
            0xF0, 0x90, 0xF0, 0x90, 0xF0,
            0xF0, 0x90, 0xF0, 0x10, 0xF0,
            0xF0, 0x90, 0xF0, 0x90, 0x90,
            0xE0, 0x90, 0xE0, 0x90, 0xE0,
            0xF0, 0x80, 0x80, 0x80, 0xF0,
            0xE0, 0x90, 0x90, 0x90, 0xE0,
            0xF0, 0x80, 0xF0, 0x80, 0xF0,
            0xF0, 0x80, 0xF0, 0x80, 0x80,
        ];
        proof {
            assert(fonts@ =~= spec_font());
        }
        let mut j: usize = 0;
        while j < 80
            invariant
                0 <= j <= 80,
                fonts@ == spec_font(),
                self@ == (MachineView { mem: self@.mem, ..old(self)@ }),
                self@.mem.len() == MEMORY_SIZE,
                forall|a: int|
                    0 <= a < MEMORY_SIZE ==> #[trigger] self@.mem[a] == if 0 <= a < j {
                        spec_font()[a]
                    } else {
                        old(self)@.mem[a]
                    },
            decreases 80 - j,
        {
            self.memory.set(j, fonts[j]);
            j += 1;
        }
    }

    /// Copy a program into memory starting at the program start address;
    /// programs that do not fit above it are rejected unchanged.
    pub fn load_memory(&mut self, memory: Vec<u8>) -> (r: Result<(), LoadError>)
        requires
            old(self)@.wf(),
        ensures
            final(self)@.wf(),
            match r {
                Ok(()) => memory@.len() <= MEMORY_SIZE - PROGRAM_START_ADDRESS && final(self)@ == (
                MachineView { mem: final(self)@.mem, ..old(self)@ }) && final(self)@.mem.len()
                    == MEMORY_SIZE && (forall|a: int|
                    0 <= a < MEMORY_SIZE ==> #[trigger] final(self)@.mem[a]
                        == if PROGRAM_START_ADDRESS <= a < PROGRAM_START_ADDRESS + memory@.len() {
                        memory@[a - PROGRAM_START_ADDRESS]
                    } else {
                        old(self)@.mem[a]
                    }),
                Err(e) => memory@.len() > MEMORY_SIZE - PROGRAM_START_ADDRESS && final(self)@ == old(
                    self,
                )@ && e == (LoadError { rom_len: memory@.len() as usize }),
            },
    {
        if memory.len() > MEMORY_SIZE - (PROGRAM_START_ADDRESS as usize) {
            return Err(LoadError { rom_len: memory.len() });
        }
        let offset = PROGRAM_START_ADDRESS as usize;
        let mut j: usize = 0;
        while j < memory.len()
            invariant
                0 <= j <= memory@.len(),
                offset == PROGRAM_START_ADDRESS,
                memory@.len() <= MEMORY_SIZE - PROGRAM_START_ADDRESS,
                self@ == (MachineView { mem: self@.mem, ..old(self)@ }),
                self@.mem.len() == MEMORY_SIZE,
                forall|a: int|
                    0 <= a < MEMORY_SIZE ==> #[trigger] self@.mem[a] == if PROGRAM_START_ADDRESS
                        <= a < PROGRAM_START_ADDRESS + j {
                        memory@[a - PROGRAM_START_ADDRESS]
                    } else {
                        old(self)@.mem[a]
                    },
            decreases memory@.len() - j,
        {
            self.memory.set(offset + j, memory[j]);
            j += 1;
        }
        Ok(())
    }

    /// Record a key transition in the key matrix.
    pub fn key(&mut self, k: u8, val: bool)
        requires
            old(self)@.wf(),
            k < NUM_KEYS,
        ensures
            final(self)@.wf(),
            final(self)@ == (MachineView { keys: old(self)@.keys.update(k as int, val), ..old(
                self,
            )@ }),
    {
        self.keys.set(k as usize, val);
        proof {
            assert(final(self)@ =~= (MachineView {
                keys: old(self)@.keys.update(k as int, val),
                ..old(self)@
            }));
        }
    }

    /// Install the strategy used by the blocking wait-for-key instruction.
    pub fn set_key_wait(&mut self, key_wait: Box<dyn KeyWaitHandler>)
        ensures
            final(self)@ == old(self)@,
    {
        self.key_wait = key_wait;
    }

    /// General register Vx.
    pub fn get_register(&self, x: usize) -> (r: u8)
        requires
            self@.wf(),
            x < NUM_REGISTERS,
        ensures
            r == self@.v[x as int],
    {
        self.v[x]
    }

    /// The program counter.
    pub fn get_pc(&self) -> (r: u16)
        ensures
            r == self@.pc,
    {
        self.pc
    }

    /// The stack pointer.
    pub fn get_sp(&self) -> (r: u8)
        ensures
            r == self@.sp,
    {
        self.sp
    }

    /// Stack slot `i`.
    pub fn get_stack(&self, i: usize) -> (r: u16)
        requires
            self@.wf(),
            i < STACK_SIZE,
        ensures
            r == self@.stack[i as int],
    {
        self.stack[i]
    }

    /// The index register.
    pub fn get_i(&self) -> (r: u16)
        ensures
            r == self@.i,
    {
        self.i
    }

    /// The delay timer.
    pub fn get_dt(&self) -> (r: u8)
        ensures
            r == self@.dt,
    {
        self.dt
    }

    /// The sound timer.
    pub fn get_st(&self) -> (r: u8)
        ensures
            r == self@.st,
    {
        self.st
    }

    /// The raw RGB framebuffer, three identical bytes per pixel.
    pub fn get_display_memory(&self) -> (r: &Vec<u8>)
        ensures
            r@ == self@.fb,
    {
        &self.display_memory
    }

    /// The RGB bytes of pixel (x, y).
    pub fn get_pixel(&self, x: usize, y: usize) -> (r: (u8, u8, u8))
        requires
            self@.wf(),
            x < DISPLAY_WIDTH,
            y < DISPLAY_HEIGHT,
        ensures
            r.0 == self@.fb[spec_pixel_index(x as int, y as int)],
            r.1 == self@.fb[spec_pixel_index(x as int, y as int) + 1],
            r.2 == self@.fb[spec_pixel_index(x as int, y as int) + 2],
    {
        let index = self.pixel_index(x, y);
        (self.display_memory[index], self.display_memory[index + 1], self.display_memory[index + 2])
    }

    /// Byte offset of pixel (x, y) in the framebuffer.
    fn pixel_index(&self, x: usize, y: usize) -> (r: usize)
        requires
            x < DISPLAY_WIDTH,
            y < DISPLAY_HEIGHT,
        ensures
            r == spec_pixel_index(x as int, y as int),
            r + 2 < FRAMEBUFFER_SIZE,
    {
        proof {
            crate::state::lemma_pixel_index_bounds(x as int, y as int);
        }
        (y * (DISPLAY_WIDTH * 3)) + (x * 3)
    }

    /// Whether pixel (x, y) is lit.
    fn is_pixel_set(&self, x: usize, y: usize) -> (r: bool)
        requires
            self@.wf(),
            x < DISPLAY_WIDTH,
            y < DISPLAY_HEIGHT,
        ensures
            r == pixel_on(self@.fb, x as int, y as int),
    {
        let index = self.pixel_index(x, y);
        self.display_memory[index] == 255
    }

    /// Write pixel (x, y), leaving every other pixel as it was.
    fn set_pixel(&mut self, x: usize, y: usize, is_on: bool)
        requires
            old(self)@.wf(),
            x < DISPLAY_WIDTH,
            y < DISPLAY_HEIGHT,
        ensures
            final(self)@.wf(),
            final(self)@ == (MachineView { fb: final(self)@.fb, ..old(self)@ }),
            pixel_on(final(self)@.fb, x as int, y as int) == is_on,
            forall|qx: int, qy: int|
                0 <= qx < DISPLAY_WIDTH && 0 <= qy < DISPLAY_HEIGHT && !(qx == x && qy == y)
                    ==> #[trigger] pixel_on(final(self)@.fb, qx, qy) == pixel_on(
                    old(self)@.fb,
                    qx,
                    qy,
                ),
    {
        let index = self.pixel_index(x, y);
        let value: u8 = if is_on {
            255
        } else {
            0
        };
        self.display_memory.set(index, value);
        self.display_memory.set(index + 1, value);
        self.display_memory.set(index + 2, value);
        proof {
            let xi = x as int;
            let yi = y as int;
            assert forall|qx: int, qy: int|
                0 <= qx < DISPLAY_WIDTH && 0 <= qy < DISPLAY_HEIGHT && !(qx == xi && qy
                    == yi) implies #[trigger] pixel_on(self@.fb, qx, qy) == pixel_on(
                old(self)@.fb,
                qx,
                qy,
            ) by {
                crate::state::lemma_pixel_index_disjoint(qx, qy, xi, yi);
                crate::state::lemma_pixel_index_bounds(qx, qy);
            }
            assert forall|qx: int, qy: int|
                0 <= qx < DISPLAY_WIDTH && 0 <= qy < DISPLAY_HEIGHT implies #[trigger] pixel_bytes_ok(
                self@.fb,
                qx,
                qy,
            ) by {
                if qx == xi && qy == yi {
                    assert(pixel_bytes_ok(self@.fb, qx, qy));
                } else {
                    crate::state::lemma_pixel_index_disjoint(qx, qy, xi, yi);
                    crate::state::lemma_pixel_index_bounds(qx, qy);
                    assert(pixel_bytes_ok(old(self)@.fb, qx, qy));
                }
            }
        }
    }

    /// Turn every pixel of the display off.
    fn clear_display(&mut self)
        requires
            old(self)@.wf(),
        ensures
            final(self)@.wf(),
            final(self)@ == (MachineView { fb: blank_fb(), ..old(self)@ }),
    {
        let mut j: usize = 0;
        while j < FRAMEBUFFER_SIZE
            invariant
                j <= FRAMEBUFFER_SIZE,
                self@ == (MachineView { fb: self@.fb, ..old(self)@ }),
                self@.fb.len() == FRAMEBUFFER_SIZE,
                forall|a: int| 0 <= a < j ==> self@.fb[a] == 0,
            decreases FRAMEBUFFER_SIZE - j,
        {
            self.display_memory.set(j, 0);
            j += 1;
        }
        proof {
            crate::state::lemma_blank_fb_wf();
            assert(self@.fb =~= blank_fb());
            assert(self@ =~= (MachineView { fb: blank_fb(), ..old(self)@ }));
        }
    }

    /// Read the big-endian opcode at the program counter and advance it; a
    /// program counter that does not address two bytes of memory is
    /// reported without any state change.
    pub(crate) fn fetch(&mut self) -> (r: Result<u16, StepError>)
        requires
            old(self)@.wf(),
        ensures
            final(self)@.wf(),
            match r {
                Ok(op) => old(self)@.pc + 1 < MEMORY_SIZE && final(self)@ == (MachineView {
                    pc: (old(self)@.pc + 2) as u16,
                    ..old(self)@
                }) && op == spec_fetch_word(old(self)@),
                Err(e) => old(self)@.pc + 1 >= MEMORY_SIZE && final(self)@ == old(self)@ && e == (
                StepError::FetchOutOfBounds { pc: old(self)@.pc }),
            },
    {
        if (self.pc as usize) + 1 >= MEMORY_SIZE {
            return Err(StepError::FetchOutOfBounds { pc: self.pc });
        }
        let msb = self.memory[self.pc as usize];
        let lsb = self.memory[(self.pc + 1) as usize];
        self.pc = self.pc + 2;
        let opcode: u16 = ((msb as u16) << 8u16) | (lsb as u16);
        proof {
            assert(self@ =~= (MachineView { pc: (old(self)@.pc + 2) as u16, ..old(self)@ }));
        }
        Ok(opcode)
    }

    /// Run up to `steps` fetch-decode-execute cycles, stopping at the first
    /// failure with the machine as the failing cycle left it.
    pub fn step(&mut self, steps: u32) -> (r: Result<(), StepError>)
        requires
            old(self)@.wf(),
        ensures
            final(self)@.wf(),
            match r {
                Ok(()) => vm_runs(old(self)@, final(self)@, steps as nat),
                Err(e) => exists|k: nat, mid: MachineView|
                    k < steps && #[trigger] vm_runs(old(self)@, mid, k) && vm_cycle_err(
                        mid,
                        final(self)@,
                        e,
                    ),
            },
    {
        let mut done: u32 = 0;
        while done < steps
            invariant
                done <= steps,
                self@.wf(),
                vm_runs(old(self)@, self@, done as nat),
            decreases steps - done,
        {
            let ghost pre_cycle = self@;
            let op = match self.fetch() {
                Ok(op) => op,
                Err(e) => {
                    proof {
                        assert(vm_cycle_err(pre_cycle, self@, e));
                    }
                    return Err(e);
                },
            };
            let instr = match decode(op) {
                Ok(instr) => instr,
                Err(de) => {
                    let e = StepError::Decode(de);
                    proof {
                        assert(vm_cycle_err(pre_cycle, self@, e));
                    }
                    return Err(e);
                },
            };
            match self.execute(instr) {
                Ok(_disp) => {
                    proof {
                        assert(vm_cycle(pre_cycle, self@));
                        let n1 = done as nat + 1;
                        assert((n1 - 1) as nat == done as nat);
                        assert(vm_runs(old(self)@, self@, n1));
                    }
                },
                Err(e) => {
                    proof {
                        assert(vm_cycle_err(pre_cycle, self@, e));
                    }
                    return Err(e);
                },
            }
            done += 1;
        }
        Ok(())
    }

    /// One 60 Hz timer tick: both timers count down, saturating at zero.
    pub(crate) fn tick_timers(&mut self)
        requires
            old(self)@.wf(),
        ensures
            final(self)@.wf(),
            final(self)@ == crate::state::spec_tick(old(self)@),
    {
        if self.dt > 0 {
            self.dt = self.dt - 1;
        }
        if self.st > 0 {
            self.st = self.st - 1;
        }
        proof {
            assert(self@ =~= crate::state::spec_tick(old(self)@));
        }
    }

    /// Store the key code supplied by the wait-for-key strategy into Vx.
    fn store_waited_key(&mut self, x: usize, k: u8)
        requires
            old(self)@.wf(),
            x < NUM_REGISTERS,
        ensures
            final(self)@.wf(),
            final(self)@ == with_reg(old(self)@, x as int, k),
    {
        self.v.set(x, k);
        proof {
            assert(self@ =~= with_reg(old(self)@, x as int, k));
        }
    }

    /// Store a random byte masked with `kk` into Vx.
    fn store_masked_random(&mut self, x: usize, kk: u8, rb: u8)
        requires
            old(self)@.wf(),
            x < NUM_REGISTERS,
        ensures
            final(self)@.wf(),
            final(self)@ == with_reg(old(self)@, x as int, kk & rb),
    {
        self.v.set(x, kk & rb);
        proof {
            assert(self@ =~= with_reg(old(self)@, x as int, kk & rb));
        }
    }

    /// Apply one decoded instruction to the machine state.  The result says
    /// whether the display changed; a bounds failure of a malformed program
    /// is reported with the state unchanged.
    pub(crate) fn execute(&mut self, instr: Instruction) -> (r: Result<bool, StepError>)
        requires
            old(self)@.wf(),
            crate::insn::instr_wf(instr),
            old(self)@.pc <= MEMORY_SIZE,
        ensures
            final(self)@.wf(),
            match r {
                Ok(disp) => exec_error(old(self)@, instr) is None && executes_to(
                    old(self)@,
                    instr,
                    final(self)@,
                ) && disp == spec_notifies(instr),
                Err(e) => exec_error(old(self)@, instr) == Some(e) && final(self)@ == old(self)@,
            },
    {
        match instr {
            Instruction::CLS() => {
                self.clear_display();
                Ok(true)
            },
            Instruction::RET() => {
                if self.sp == 0 {
                    return Err(StepError::StackUnderflow);
                }
                self.sp = self.sp - 1;
                self.pc = self.stack[self.sp as usize];
                proof {
                    assert(self@ =~= (MachineView {
                        pc: old(self)@.stack[old(self)@.sp - 1],
                        sp: (old(self)@.sp - 1) as u8,
                        ..old(self)@
                    }));
                }
                Ok(false)
            },
            Instruction::JP(addr) => {
                self.pc = addr;
                proof {
                    assert(self@ =~= (MachineView { pc: addr, ..old(self)@ }));
                }
                Ok(false)
            },
            Instruction::CALL(addr) => {
                if self.sp as usize >= STACK_SIZE {
                    return Err(StepError::StackOverflow);
                }
                self.stack.set(self.sp as usize, self.pc);
                self.sp = self.sp + 1;
                self.pc = addr;
                proof {
                    assert(self@ =~= (MachineView {
                        stack: old(self)@.stack.update(old(self)@.sp as int, old(self)@.pc),
                        sp: (old(self)@.sp + 1) as u8,
                        pc: addr,
                        ..old(self)@
                    }));
                }
                Ok(false)
            },
            Instruction::SEVXB(x, kk) => {
                if self.v[x] == kk {
                    self.pc = self.pc + 2;
                }
                proof {
                    assert(self@ =~= skipped(old(self)@, old(self)@.v[x as int] == kk));
                }
                Ok(false)
            },
            Instruction::SNEVXB(x, kk) => {
                if self.v[x] != kk {
                    self.pc = self.pc + 2;
                }
                proof {
                    assert(self@ =~= skipped(old(self)@, old(self)@.v[x as int] != kk));
                }
                Ok(false)
            },
            Instruction::SEVXY(x, y) => {
                if self.v[x] == self.v[y] {
                    self.pc = self.pc + 2;
                }
                proof {
                    assert(self@ =~= skipped(
                        old(self)@,
                        old(self)@.v[x as int] == old(self)@.v[y as int],
                    ));
                }
                Ok(false)
            },
            Instruction::LDVXB(x, kk) => {
                self.v.set(x, kk);
                proof {
                    assert(self@ =~= with_reg(old(self)@, x as int, kk));
                }
                Ok(false)
            },
            Instruction::ADDVXB(x, kk) => {
                let val = ((self.v[x] as u16 + kk as u16) % 256) as u8;
                self.v.set(x, val);
                proof {
                    assert(self@ =~= with_reg(
                        old(self)@,
                        x as int,
                        ((old(self)@.v[x as int] + kk) % 256) as u8,
                    ));
                }
                Ok(false)
            },
            Instruction::LDVXY(x, y) => {
                let val = self.v[y];
                self.v.set(x, val);
                proof {
                    assert(self@ =~= with_reg(old(self)@, x as int, old(self)@.v[y as int]));
                }
                Ok(false)
            },
            Instruction::ORVXY(x, y) => {
                let val = self.v[x] | self.v[y];
                self.v.set(x, val);
                proof {
                    assert(self@ =~= with_reg(
                        old(self)@,
                        x as int,
                        old(self)@.v[x as int] | old(self)@.v[y as int],
                    ));
                }
                Ok(false)
            },
            Instruction::ANDVXY(x, y) => {
                let val = self.v[x] & self.v[y];
                self.v.set(x, val);
                proof {
                    assert(self@ =~= with_reg(
                        old(self)@,
                        x as int,
                        old(self)@.v[x as int] & old(self)@.v[y as int],
                    ));
                }
                Ok(false)
            },
            Instruction::XORVXY(x, y) => {
                let val = self.v[x] ^ self.v[y];
                self.v.set(x, val);
                proof {
                    assert(self@ =~= with_reg(
                        old(self)@,
                        x as int,
                        old(self)@.v[x as int] ^ old(self)@.v[y as int],
                    ));
                }
                Ok(false)
            },
            Instruction::ADDVXY(x, y) => {
                let sum: u16 = self.v[x] as u16 + self.v[y] as u16;
                let flag: u8 = if sum >= 256 {
                    1
                } else {
                    0
                };
                self.v.set(0xF, flag);
                self.v.set(x, (sum % 256) as u8);
                proof {
                    let pre = old(self)@;
                    let s = pre.v[x as int] + pre.v[y as int];
                    let flagged = with_reg(
                        pre,
                        15,
                        if s >= 256 {
                            1u8
                        } else {
                            0u8
                        },
                    );
                    assert(self@ =~= with_reg(flagged, x as int, (s % 256) as u8));
                }
                Ok(false)
            },
            Instruction::SUBVXY(x, y) => {
                let flag: u8 = if self.v[x] > self.v[y] {
                    1
                } else {
                    0
                };
                self.v.set(0xF, flag);
                let val = ((self.v[x] as u16 + 256 - self.v[y] as u16) % 256) as u8;
                self.v.set(x, val);
                proof {
                    let pre = old(self)@;
                    let flagged = with_reg(
                        pre,
                        15,
                        if pre.v[x as int] > pre.v[y as int] {
                            1u8
                        } else {
                            0u8
                        },
                    );
                    assert(self@ =~= with_reg(
                        flagged,
                        x as int,
                        ((flagged.v[x as int] + 256 - flagged.v[y as int]) % 256) as u8,
                    ));
                }
                Ok(false)
            },
            Instruction::SHR(x) => {
                let flag: u8 = self.v[x] & 0x01;
                self.v.set(0xF, flag);
                let val = self.v[x] >> 1u8;
                self.v.set(x, val);
                proof {
                    let pre = old(self)@;
                    let flagged = with_reg(pre, 15, pre.v[x as int] & 1);
                    assert(self@ =~= with_reg(flagged, x as int, flagged.v[x as int] >> 1u8));
                }
                Ok(false)
            },
            Instruction::SUBNVXY(x, y) => {
                let flag: u8 = if self.v[y] > self.v[x] {
                    1
                } else {
                    0
                };
                self.v.set(0xF, flag);
                let val = ((self.v[y] as u16 + 256 - self.v[x] as u16) % 256) as u8;
                self.v.set(x, val);
                proof {
                    let pre = old(self)@;
                    let flagged = with_reg(
                        pre,
                        15,
                        if pre.v[y as int] > pre.v[x as int] {
                            1u8
                        } else {
                            0u8
                        },
                    );
                    assert(self@ =~= with_reg(
                        flagged,
                        x as int,
                        ((flagged.v[y as int] + 256 - flagged.v[x as int]) % 256) as u8,
                    ));
                }
                Ok(false)
            },
            Instruction::SHL(x) => {
                let flag: u8 = (self.v[x] & 0x80) >> 7u8;
                self.v.set(0xF, flag);
                let val = ((self.v[x] as u16 * 2) % 256) as u8;
                self.v.set(x, val);
                proof {
                    let pre = old(self)@;
                    let flagged = with_reg(pre, 15, (pre.v[x as int] & 0x80) >> 7u8);
                    assert(self@ =~= with_reg(
                        flagged,
                        x as int,
                        (flagged.v[x as int] * 2 % 256) as u8,
                    ));
                }
                Ok(false)
            },
            Instruction::SNEVXY(x, y) => {
                if self.v[x] != self.v[y] {
                    self.pc = self.pc + 2;
                }
                proof {
                    assert(self@ =~= skipped(
                        old(self)@,
                        old(self)@.v[x as int] != old(self)@.v[y as int],
                    ));
                }
                Ok(false)
            },
            Instruction::LDI(addr) => {
                self.i = addr;
                proof {
                    assert(self@ =~= (MachineView { i: addr, ..old(self)@ }));
                }
                Ok(false)
            },
            Instruction::JR(addr) => {
                self.pc = addr + self.v[0] as u16;
                proof {
                    assert(self@ =~= (MachineView {
                        pc: (addr + old(self)@.v[0]) as u16,
                        ..old(self)@
                    }));
                }
                Ok(false)
            },
            Instruction::RND(x, kk) => {
                let rb: u8 = rand::random();
                self.store_masked_random(x, kk, rb);
                proof {
                    assert(executes_to(old(self)@, instr, self@));
                }
                Ok(false)
            },
            Instruction::DRAW(x, y, n) => {
                if self.i as usize + n as usize > MEMORY_SIZE {
                    return Err(StepError::MemoryOutOfBounds { addr: self.i });
                }
                self.draw(x, y, n as usize);
                Ok(true)
            },
            Instruction::SKP(x) => {
                let k = self.v[x];
                if k as usize >= NUM_KEYS {
                    return Err(StepError::KeyOutOfRange { key: k });
                }
                if self.keys[k as usize] {
                    self.pc = self.pc + 2;
                }
                proof {
                    assert(self@ =~= skipped(
                        old(self)@,
                        old(self)@.keys[old(self)@.v[x as int] as int],
                    ));
                }
                Ok(false)
            },
            Instruction::SKNP(x) => {
                let k = self.v[x];
                if k as usize >= NUM_KEYS {
                    return Err(StepError::KeyOutOfRange { key: k });
                }
                if !self.keys[k as usize] {
                    self.pc = self.pc + 2;
                }
                proof {
                    assert(self@ =~= skipped(
                        old(self)@,
                        !old(self)@.keys[old(self)@.v[x as int] as int],
                    ));
                }
                Ok(false)
            },
            Instruction::LDVXDT(x) => {
                let val = self.dt;
                self.v.set(x, val);
                proof {
                    assert(self@ =~= with_reg(old(self)@, x as int, old(self)@.dt));
                }
                Ok(false)
            },
            Instruction::LDVXK(x) => {
                let k = self.key_wait.wait_key();
                self.store_waited_key(x, k);
                proof {
                    assert(executes_to(old(self)@, instr, self@));
                }
                Ok(false)
            },
            Instruction::LDDTVX(x) => {
                self.dt = self.v[x];
                proof {
                    assert(self@ =~= (MachineView { dt: old(self)@.v[x as int], ..old(self)@ }));
                }
                Ok(false)
            },
            Instruction::LDSTVX(x) => {
                self.st = self.v[x];
                proof {
                    assert(self@ =~= (MachineView { st: old(self)@.v[x as int], ..old(self)@ }));
                }
                Ok(false)
            },
            Instruction::ADDIVX(x) => {
                let val = ((self.i as u32 + self.v[x] as u32) % 0x10000) as u16;
                self.i = val;
                proof {
                    assert(self@ =~= (MachineView {
                        i: ((old(self)@.i + old(self)@.v[x as int]) % 0x10000) as u16,
                        ..old(self)@
                    }));
                }
                Ok(false)
            },
            Instruction::LDFVX(x) => {
                self.i = 5 * self.v[x] as u16;
                proof {
                    assert(self@ =~= (MachineView {
                        i: (5 * old(self)@.v[x as int]) as u16,
                        ..old(self)@
                    }));
                }
                Ok(false)
            },
            Instruction::LDB(x) => {
                if self.i as usize + 2 >= MEMORY_SIZE {
                    return Err(StepError::MemoryOutOfBounds { addr: self.i });
                }
                let (h, t, o) = crate::insn::bcd(self.v[x]);
                let base = self.i as usize;
                self.memory.set(base, h);
                self.memory.set(base + 1, t);
                self.memory.set(base + 2, o);
                proof {
                    let pre = old(self)@;
                    let val = pre.v[x as int];
                    assert(self@ =~= (MachineView {
                        mem: pre.mem.update(pre.i as int, (val / 100) as u8).update(
                            pre.i + 1,
                            ((val / 10) % 10) as u8,
                        ).update(pre.i + 2, (val % 10) as u8),
                        ..pre
                    }));
                }
                Ok(false)
            },
            Instruction::LDIVX(x) => {
                if self.i as usize + x >= MEMORY_SIZE {
                    return Err(StepError::MemoryOutOfBounds { addr: self.i });
                }
                let base = self.i as usize;
                let mut j: usize = 0;
                while j < x + 1
                    invariant
                        old(self)@.wf(),
                        j <= x + 1,
                        x < NUM_REGISTERS,
                        base == old(self)@.i,
                        base + x < MEMORY_SIZE,
                        self@ == (MachineView { mem: self@.mem, ..old(self)@ }),
                        self@.mem.len() == MEMORY_SIZE,
                        forall|a: int|
                            0 <= a < MEMORY_SIZE ==> #[trigger] self@.mem[a] == if base <= a < base
                                + j {
                                old(self)@.v[a - base]
                            } else {
                                old(self)@.mem[a]
                            },
                    decreases x + 1 - j,
                {
                    let val = self.v[j];
                    self.memory.set(base + j, val);
                    j += 1;
                }
                proof {
                    assert(self@.mem =~= mem_with_regs(old(self)@, x as int));
                    assert(self@ =~= (MachineView {
                        mem: mem_with_regs(old(self)@, x as int),
                        ..old(self)@
                    }));
                }
                Ok(false)
            },
            Instruction::LDVXI(x) => {
                if self.i as usize + x >= MEMORY_SIZE {
                    return Err(StepError::MemoryOutOfBounds { addr: self.i });
                }
                let base = self.i as usize;
                let mut j: usize = 0;
                while j < x + 1
                    invariant
                        old(self)@.wf(),
                        j <= x + 1,
                        x < NUM_REGISTERS,
                        base == old(self)@.i,
                        base + x < MEMORY_SIZE,
                        self@ == (MachineView { v: self@.v, ..old(self)@ }),
                        self@.v.len() == NUM_REGISTERS,
                        forall|q: int|
                            0 <= q < NUM_REGISTERS ==> #[trigger] self@.v[q] == if q < j {
                                old(self)@.mem[base + q]
                            } else {
                                old(self)@.v[q]
                            },
                    decreases x + 1 - j,
                {
                    let val = self.memory[base + j];
                    self.v.set(j, val);
                    j += 1;
                }
                proof {
                    assert(self@.v =~= regs_from_mem(old(self)@, x as int));
                    assert(self@ =~= (MachineView {
                        v: regs_from_mem(old(self)@, x as int),
                        ..old(self)@
                    }));
                }
                Ok(false)
            },
        }
    }

    /// XOR-blit the `n`-row sprite at memory address `i` onto the display at
    /// (Vx, Vy), wrapping each pixel around the display edges, and record in
    /// the flag register whether any pixel was turned off.
    fn draw(&mut self, x: usize, y: usize, n: usize)
        requires
            old(self)@.wf(),
            x < NUM_REGISTERS,
            y < NUM_REGISTERS,
            n < 16,
            old(self)@.i + n <= MEMORY_SIZE,
        ensures
            final(self)@.wf(),
            draw_rel(old(self)@, x as int, y as int, n as int, final(self)@),
    {
        let ghost pre = old(self)@;
        let ghost x0 = pre.v[x as int] as int;
        let ghost y0 = pre.v[y as int] as int;
        let start_address = self.i as usize;
        let vx = self.v[x] as usize;
        let vy = self.v[y] as usize;
        let mut collision = false;
        proof {
            lemma_covers_empty(pre, x0, y0);
        }
        let mut r: usize = 0;
        while r < n
            invariant
                r <= n,
                n < 16,
                pre == old(self)@,
                pre.wf(),
                pre.i + n <= MEMORY_SIZE,
                start_address == pre.i,
                vx == pre.v[x as int],
                vy == pre.v[y as int],
                x0 == vx,
                y0 == vy,
                self@.wf(),
                self@ == (MachineView { fb: self@.fb, ..pre }),
                collision == coll_upto(pre, x0, y0, r as int, 0),
                forall|px: int, py: int|
                    0 <= px < DISPLAY_WIDTH && 0 <= py < DISPLAY_HEIGHT
                        ==> #[trigger] pixel_on(self@.fb, px, py) == (pixel_on(pre.fb, px, py)
                        != covers_upto(pre, x0, y0, r as int, 0, px, py)),
            decreases n - r,
        {
            let byte = self.memory[start_address + r];
            let pixel_y = (vy + r) % DISPLAY_HEIGHT;
            let mut c: usize = 0;
            while c < 8
                invariant
                    c <= 8,
                    r < n,
                    n < 16,
                    pre == old(self)@,
                    pre.wf(),
                    pre.i + n <= MEMORY_SIZE,
                    start_address == pre.i,
                    vx == pre.v[x as int],
                    vy == pre.v[y as int],
                    x0 == vx,
                    y0 == vy,
                    byte == pre.mem[pre.i + r],
                    pixel_y == (y0 + r) % (DISPLAY_HEIGHT as int),
                    pixel_y < DISPLAY_HEIGHT,
                    self@.wf(),
                    self@ == (MachineView { fb: self@.fb, ..pre }),
                    collision == coll_upto(pre, x0, y0, r as int, c as int),
                    forall|px: int, py: int|
                        0 <= px < DISPLAY_WIDTH && 0 <= py < DISPLAY_HEIGHT
                            ==> #[trigger] pixel_on(self@.fb, px, py) == (pixel_on(pre.fb, px, py)
                            != covers_upto(pre, x0, y0, r as int, c as int, px, py)),
                decreases 8 - c,
            {
                let pixel_x = (vx + c) % DISPLAY_WIDTH;
                let state = (byte >> ((7 - c) as u8)) & 1 == 1;
                let prev_state = self.is_pixel_set(pixel_x, pixel_y);
                proof {
                    assert(state == sprite_bit(pre.mem[pre.i + r as int], c as int));
                    lemma_target_fresh(pre, x0, y0, r as int, c as int);
                    assert(prev_state == pixel_on(pre.fb, pixel_x as int, pixel_y as int));
                }
                if state && prev_state {
                    collision = true;
                }
                let ghost fb_before = self@.fb;
                self.set_pixel(pixel_x, pixel_y, state != prev_state);
                proof {
                    lemma_covers_step(pre, x0, y0, r as int, c as int);
                    lemma_coll_step(pre, x0, y0, r as int, c as int);
                    let tx = (x0 + c) % (DISPLAY_WIDTH as int);
                    let ty = (y0 + r) % (DISPLAY_HEIGHT as int);
                    assert(tx == pixel_x && ty == pixel_y);
                    assert forall|px: int, py: int|
                        0 <= px < DISPLAY_WIDTH && 0 <= py
                            < DISPLAY_HEIGHT implies #[trigger] pixel_on(self@.fb, px, py) == (
                    pixel_on(pre.fb, px, py) != covers_upto(
                        pre,
                        x0,
                        y0,
                        r as int,
                        c as int + 1,
                        px,
                        py,
                    )) by {
                        if px == tx && py == ty {
                            assert(covers_upto(pre, x0, y0, r as int, c as int + 1, px, py)
                                == state);
                        } else {
                            assert(pixel_on(self@.fb, px, py) == pixel_on(fb_before, px, py));
                            assert(covers_upto(pre, x0, y0, r as int, c as int + 1, px, py)
                                == covers_upto(pre, x0, y0, r as int, c as int, px, py));
                        }
                    }
                }
                c += 1;
            }
            proof {
                lemma_covers_row(pre, x0, y0, r as int);
                lemma_coll_row(pre, x0, y0, r as int);
            }
            r += 1;
        }
        let flag: u8 = if collision {
            1
        } else {
            0
        };
        self.v.set(0xF, flag);
        proof {
            lemma_covers_full(pre, x0, y0, n as int);
            assert(self@.v =~= pre.v.update(
                15,
                if draw_collision(pre, x0, y0, n as int) {
                    1u8
                } else {
                    0u8
                },
            ));
        }
    }
}

/// Lexicographic order on the (row, column) scan of a sprite.
spec fn lex_before(r: int, c: int, rl: int, cl: int) -> bool {
    r < rl || (r == rl && c < cl)
}

/// Like `sprite_covers`, but over only the sprite cells scanned strictly
/// before row `rl`, column `cl`.
spec fn covers_upto(m: MachineView, x0: int, y0: int, rl: int, cl: int, px: int, py: int) -> bool {
    exists|r: int, c: int|
        0 <= r && 0 <= c < 8 && lex_before(r, c, rl, cl) && (y0 + r) % (DISPLAY_HEIGHT as int) == py
            && (x0 + c) % (DISPLAY_WIDTH as int) == px && #[trigger] sprite_bit(m.mem[m.i + r], c)
}

/// Whether some pixel scanned strictly before row `rl`, column `cl` was lit
/// before the draw and is covered by a set sprite bit.
spec fn coll_upto(m: MachineView, x0: int, y0: int, rl: int, cl: int) -> bool {
    exists|px: int, py: int|
        0 <= px < DISPLAY_WIDTH && 0 <= py < DISPLAY_HEIGHT && #[trigger] covers_upto(
            m,
            x0,
            y0,
            rl,
            cl,
            px,
            py,
        ) && pixel_on(m.fb, px, py)
}

/// Two offsets below the modulus that wrap a common base to the same
/// residue are equal.
proof fn lemma_wrap_inj(base: int, a: int, b: int, m: int)
    requires
        0 < m,
        0 <= base,
        0 <= a < m,
        0 <= b < m,
        (base + a) % m == (base + b) % m,
    ensures
        a == b,
{
    let xa = base + a;
    let xb = base + b;
    vstd::arithmetic::div_mod::lemma_fundamental_div_mod(xa, m);
    vstd::arithmetic::div_mod::lemma_fundamental_div_mod(xb, m);
    let qa = xa / m;
    let qb = xb / m;
    assert(a - b == m * (qa - qb)) by (nonlinear_arith)
        requires
            xa == m * qa + xa % m,
            xb == m * qb + xb % m,
            xa % m == xb % m,
            xa == base + a,
            xb == base + b,
    ;
    if qa > qb {
        assert(m * (qa - qb) >= m) by (nonlinear_arith)
            requires
                0 < m,
                qa - qb >= 1,
        ;
    } else if qa < qb {
        assert(m * (qa - qb) <= -m) by (nonlinear_arith)
            requires
                0 < m,
                qa - qb <= -1,
        ;
    }
}

/// Nothing scanned before (0, 0) covers any pixel.
proof fn lemma_covers_empty(m: MachineView, x0: int, y0: int)
    ensures
        forall|px: int, py: int| !(#[trigger] covers_upto(m, x0, y0, 0, 0, px, py)),
        !coll_upto(m, x0, y0, 0, 0),
{
    assert forall|px: int, py: int| !(#[trigger] covers_upto(m, x0, y0, 0, 0, px, py)) by {
        if covers_upto(m, x0, y0, 0, 0, px, py) {
            let (r, c): (int, int) = choose|r: int, c: int|
                0 <= r && 0 <= c < 8 && lex_before(r, c, 0, 0) && (y0 + r) % (
                DISPLAY_HEIGHT as int) == py && (x0 + c) % (DISPLAY_WIDTH as int) == px
                    && #[trigger] sprite_bit(m.mem[m.i + r], c);
            assert(false);
        }
    }
}

/// The sprite cell at (r, c) lands on a pixel that no cell scanned before
/// it lands on.
proof fn lemma_target_fresh(m: MachineView, x0: int, y0: int, r: int, c: int)
    requires
        0 <= x0,
        0 <= y0,
        0 <= r < 32,
        0 <= c < 8,
    ensures
        !covers_upto(
            m,
            x0,
            y0,
            r,
            c,
            (x0 + c) % (DISPLAY_WIDTH as int),
            (y0 + r) % (DISPLAY_HEIGHT as int),
        ),
{
    let px = (x0 + c) % (DISPLAY_WIDTH as int);
    let py = (y0 + r) % (DISPLAY_HEIGHT as int);
    if covers_upto(m, x0, y0, r, c, px, py) {
        let (r2, c2): (int, int) = choose|r2: int, c2: int|
            0 <= r2 && 0 <= c2 < 8 && lex_before(r2, c2, r, c) && (y0 + r2) % (
            DISPLAY_HEIGHT as int) == py && (x0 + c2) % (DISPLAY_WIDTH as int) == px
                && #[trigger] sprite_bit(m.mem[m.i + r2], c2);
        lemma_wrap_inj(y0, r2, r, DISPLAY_HEIGHT as int);
        lemma_wrap_inj(x0, c2, c, DISPLAY_WIDTH as int);
        assert(false);
    }
}

/// Scanning one more sprite cell extends the covered pixels by exactly that
/// cell's landing pixel, when its bit is set.
proof fn lemma_covers_step(m: MachineView, x0: int, y0: int, r: int, c: int)
    requires
        0 <= x0,
        0 <= y0,
        0 <= r,
        0 <= c < 8,
    ensures
        forall|px: int, py: int|
            #[trigger] covers_upto(m, x0, y0, r, c + 1, px, py) == (covers_upto(
                m,
                x0,
                y0,
                r,
                c,
                px,
                py,
            ) || (px == (x0 + c) % (DISPLAY_WIDTH as int) && py == (y0 + r) % (
            DISPLAY_HEIGHT as int) && sprite_bit(m.mem[m.i + r], c))),
{
    assert forall|px: int, py: int| #[trigger]
        covers_upto(m, x0, y0, r, c + 1, px, py) == (covers_upto(m, x0, y0, r, c, px, py) || (px == (
        x0 + c) % (DISPLAY_WIDTH as int) && py == (y0 + r) % (DISPLAY_HEIGHT as int) && sprite_bit(
            m.mem[m.i + r],
            c,
        ))) by {
        if covers_upto(m, x0, y0, r, c + 1, px, py) {
            let (r2, c2): (int, int) = choose|r2: int, c2: int|
                0 <= r2 && 0 <= c2 < 8 && lex_before(r2, c2, r, c + 1) && (y0 + r2) % (
                DISPLAY_HEIGHT as int) == py && (x0 + c2) % (DISPLAY_WIDTH as int) == px
                    && #[trigger] sprite_bit(m.mem[m.i + r2], c2);
            if lex_before(r2, c2, r, c) {
                assert(covers_upto(m, x0, y0, r, c, px, py));
            }
        }
        if covers_upto(m, x0, y0, r, c, px, py) {
            let (r2, c2): (int, int) = choose|r2: int, c2: int|
                0 <= r2 && 0 <= c2 < 8 && lex_before(r2, c2, r, c) && (y0 + r2) % (
                DISPLAY_HEIGHT as int) == py && (x0 + c2) % (DISPLAY_WIDTH as int) == px
                    && #[trigger] sprite_bit(m.mem[m.i + r2], c2);
            assert(lex_before(r2, c2, r, c + 1));
            assert(covers_upto(m, x0, y0, r, c + 1, px, py));
        }
        if px == (x0 + c) % (DISPLAY_WIDTH as int) && py == (y0 + r) % (DISPLAY_HEIGHT as int)
            && sprite_bit(m.mem[m.i + r], c) {
            assert(lex_before(r, c, r, c + 1));
            assert(covers_upto(m, x0, y0, r, c + 1, px, py));
        }
    }
}

/// The collision seen after scanning one more cell: the collision so far,
/// or that cell's set bit landing on a lit pixel.
proof fn lemma_coll_step(m: MachineView, x0: int, y0: int, r: int, c: int)
    requires
        0 <= x0,
        0 <= y0,
        0 <= r,
        0 <= c < 8,
    ensures
        coll_upto(m, x0, y0, r, c + 1) == (coll_upto(m, x0, y0, r, c) || (sprite_bit(
            m.mem[m.i + r],
            c,
        ) && pixel_on(m.fb, (x0 + c) % (DISPLAY_WIDTH as int), (y0 + r) % (DISPLAY_HEIGHT as int)))),
{
    lemma_covers_step(m, x0, y0, r, c);
    let tx = (x0 + c) % (DISPLAY_WIDTH as int);
    let ty = (y0 + r) % (DISPLAY_HEIGHT as int);
    vstd::arithmetic::div_mod::lemma_mod_bound(x0 + c, DISPLAY_WIDTH as int);
    vstd::arithmetic::div_mod::lemma_mod_bound(y0 + r, DISPLAY_HEIGHT as int);
    if coll_upto(m, x0, y0, r, c + 1) {
        let (px, py): (int, int) = choose|px: int, py: int|
            0 <= px < DISPLAY_WIDTH && 0 <= py < DISPLAY_HEIGHT && #[trigger] covers_upto(
                m,
                x0,
                y0,
                r,
                c + 1,
                px,
                py,
            ) && pixel_on(m.fb, px, py);
        if covers_upto(m, x0, y0, r, c, px, py) {
            assert(coll_upto(m, x0, y0, r, c));
        }
    }
    if coll_upto(m, x0, y0, r, c) {
        let (px, py): (int, int) = choose|px: int, py: int|
            0 <= px < DISPLAY_WIDTH && 0 <= py < DISPLAY_HEIGHT && #[trigger] covers_upto(
                m,
                x0,
                y0,
                r,
                c,
                px,
                py,
            ) && pixel_on(m.fb, px, py);
        assert(covers_upto(m, x0, y0, r, c + 1, px, py));
        assert(coll_upto(m, x0, y0, r, c + 1));
    }
    if sprite_bit(m.mem[m.i + r], c) && pixel_on(m.fb, tx, ty) {
        assert(covers_upto(m, x0, y0, r, c + 1, tx, ty));
        assert(coll_upto(m, x0, y0, r, c + 1));
    }
}

/// Finishing a row's eight cells is the same as starting the next row.
proof fn lemma_covers_row(m: MachineView, x0: int, y0: int, r: int)
    requires
        0 <= r,
    ensures
        forall|px: int, py: int|
            #[trigger] covers_upto(m, x0, y0, r, 8, px, py) == covers_upto(
                m,
                x0,
                y0,
                r + 1,
                0,
                px,
                py,
            ),
{
    assert forall|px: int, py: int| #[trigger]
        covers_upto(m, x0, y0, r, 8, px, py) == covers_upto(m, x0, y0, r + 1, 0, px, py) by {
        if covers_upto(m, x0, y0, r, 8, px, py) {
            let (r2, c2): (int, int) = choose|r2: int, c2: int|
                0 <= r2 && 0 <= c2 < 8 && lex_before(r2, c2, r, 8) && (y0 + r2) % (
                DISPLAY_HEIGHT as int) == py && (x0 + c2) % (DISPLAY_WIDTH as int) == px
                    && #[trigger] sprite_bit(m.mem[m.i + r2], c2);
            assert(lex_before(r2, c2, r + 1, 0));
            assert(covers_upto(m, x0, y0, r + 1, 0, px, py));
        }
        if covers_upto(m, x0, y0, r + 1, 0, px, py) {
            let (r2, c2): (int, int) = choose|r2: int, c2: int|
                0 <= r2 && 0 <= c2 < 8 && lex_before(r2, c2, r + 1, 0) && (y0 + r2) % (
                DISPLAY_HEIGHT as int) == py && (x0 + c2) % (DISPLAY_WIDTH as int) == px
                    && #[trigger] sprite_bit(m.mem[m.i + r2], c2);
            assert(lex_before(r2, c2, r, 8));
            assert(covers_upto(m, x0, y0, r, 8, px, py));
        }
    }
}

/// The collision after a row's eight cells equals the collision at the
/// start of the next row.
proof fn lemma_coll_row(m: MachineView, x0: int, y0: int, r: int)
    requires
        0 <= r,
    ensures
        coll_upto(m, x0, y0, r, 8) == coll_upto(m, x0, y0, r + 1, 0),
{
    lemma_covers_row(m, x0, y0, r);
    if coll_upto(m, x0, y0, r, 8) {
        let (px, py): (int, int) = choose|px: int, py: int|
            0 <= px < DISPLAY_WIDTH && 0 <= py < DISPLAY_HEIGHT && #[trigger] covers_upto(
                m,
                x0,
                y0,
                r,
                8,
                px,
                py,
            ) && pixel_on(m.fb, px, py);
        assert(covers_upto(m, x0, y0, r + 1, 0, px, py));
        assert(coll_upto(m, x0, y0, r + 1, 0));
    }
    if coll_upto(m, x0, y0, r + 1, 0) {
        let (px, py): (int, int) = choose|px: int, py: int|
            0 <= px < DISPLAY_WIDTH && 0 <= py < DISPLAY_HEIGHT && #[trigger] covers_upto(
                m,
                x0,
                y0,
                r + 1,
                0,
                px,
                py,
            ) && pixel_on(m.fb, px, py);
        assert(covers_upto(m, x0, y0, r, 8, px, py));
        assert(coll_upto(m, x0, y0, r, 8));
    }
}

/// Having scanned all `n` rows, the covered pixels are exactly those the
/// whole sprite covers, and the collision is exactly the draw collision.
proof fn lemma_covers_full(m: MachineView, x0: int, y0: int, n: int)
    requires
        0 <= n,
    ensures
        forall|px: int, py: int|
            #[trigger] covers_upto(m, x0, y0, n, 0, px, py) == sprite_covers(
                m,
                x0,
                y0,
                n,
                px,
                py,
            ),
        coll_upto(m, x0, y0, n, 0) == draw_collision(m, x0, y0, n),
{
    assert forall|px: int, py: int| #[trigger]
        covers_upto(m, x0, y0, n, 0, px, py) == sprite_covers(m, x0, y0, n, px, py) by {
        if covers_upto(m, x0, y0, n, 0, px, py) {
            let (r2, c2): (int, int) = choose|r2: int, c2: int|
                0 <= r2 && 0 <= c2 < 8 && lex_before(r2, c2, n, 0) && (y0 + r2) % (
                DISPLAY_HEIGHT as int) == py && (x0 + c2) % (DISPLAY_WIDTH as int) == px
                    && #[trigger] sprite_bit(m.mem[m.i + r2], c2);
            assert(sprite_covers(m, x0, y0, n, px, py));
        }
        if sprite_covers(m, x0, y0, n, px, py) {
            let (r2, c2): (int, int) = choose|r2: int, c2: int|
                0 <= r2 < n && 0 <= c2 < 8 && (y0 + r2) % (DISPLAY_HEIGHT as int) == py && (x0 + c2)
                    % (DISPLAY_WIDTH as int) == px && #[trigger] sprite_bit(m.mem[m.i + r2], c2);
            assert(lex_before(r2, c2, n, 0));
            assert(covers_upto(m, x0, y0, n, 0, px, py));
        }
    }
    if coll_upto(m, x0, y0, n, 0) {
        let (px, py): (int, int) = choose|px: int, py: int|
            0 <= px < DISPLAY_WIDTH && 0 <= py < DISPLAY_HEIGHT && #[trigger] covers_upto(
                m,
                x0,
                y0,
                n,
                0,
                px,
                py,
            ) && pixel_on(m.fb, px, py);
        assert(sprite_covers(m, x0, y0, n, px, py));
        assert(draw_collision(m, x0, y0, n));
    }
    if draw_collision(m, x0, y0, n) {
        let (px, py): (int, int) = choose|px: int, py: int|
            0 <= px < DISPLAY_WIDTH && 0 <= py < DISPLAY_HEIGHT && #[trigger] sprite_covers(
                m,
                x0,
                y0,
                n,
                px,
                py,
            ) && pixel_on(m.fb, px, py);
        assert(covers_upto(m, x0, y0, n, 0, px, py));
        assert(coll_upto(m, x0, y0, n, 0));
    }
}

} // verus!
