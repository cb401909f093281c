//! The full machine: the core engine together with 60 Hz timer pacing and
//! the display-update notification hook.

use vstd::prelude::*;

use crate::insn::decode;
use crate::state::{
    chip8_cycle, chip8_cycle_err, chip8_runs, spec_pixel_index, spec_tick, vm_cycle, vm_cycle_err,
    LoadError, MachineView, StepError, DISPLAY_HEIGHT, DISPLAY_WIDTH, MEMORY_SIZE, NUM_KEYS,
    NUM_REGISTERS, STACK_SIZE,
};
use crate::vm::VirtualMachine;
use crate::{Clock, DisplayUpdateHandler, KeyWaitHandler};

verus! {

/// Nanoseconds between timer ticks: the timers run at 60 Hz.
pub const TICK_INTERVAL_NANOS: u64 = 16_666_667;

/// Relies on std::time::SystemTime::now, read as nanoseconds since the
/// epoch; nothing is promised of the value.
#[verifier::external_body]
fn system_now_nanos() -> u64 {
    match std::time::SystemTime::now().duration_since(std::time::UNIX_EPOCH) {
        Ok(d) => d.as_nanos() as u64,
        Err(_) => 0,
    }
}

/// The wall clock, read through the standard library.
pub struct SystemClock;

impl Clock for SystemClock {
    fn now_nanos(&mut self) -> u64 {
        system_now_nanos()
    }
}

/// The virtual machine together with its wall-clock timer pacing and the
/// renderer notification hook.
pub struct Chip8 {
    core: VirtualMachine,
    last_tick_nanos: u64,
    clock: Box<dyn Clock>,
    on_display_update: Option<Box<dyn DisplayUpdateHandler>>,
}

impl View for Chip8 {
    type V = MachineView;

    closed spec fn view(&self) -> MachineView {
        self.core@
    }
}

impl Chip8 {
    /// Construct the machine in its initial state, paced by the wall clock.
    pub fn new() -> (vm: Chip8)
        ensures
            vm@.wf(),
            vm@ == crate::vm::spec_initial(),
    {
        let mut clock: Box<dyn Clock> = Box::new(SystemClock);
        let last_tick_nanos = clock.now_nanos();
        Chip8 { core: VirtualMachine::new(), last_tick_nanos, clock, on_display_update: None }
    }

    /// Run up to `steps` machine cycles; one call of the caller's main loop.
    pub fn update(&mut self, steps: u32) -> (r: Result<(), StepError>)
        requires
            old(self)@.wf(),
        ensures
            final(self)@.wf(),
            match r {
                Ok(()) => chip8_runs(old(self)@, final(self)@, steps as nat),
                Err(e) => exists|k: nat, mid: MachineView|
                    k < steps && #[trigger] chip8_runs(old(self)@, mid, k) && chip8_cycle_err(
                        mid,
                        final(self)@,
                        e,
                    ),
            },
    {
        self.step(steps)
    }

    /// Run up to `steps` fetch-decode-execute cycles, ticking the timers
    /// once per cycle whenever the 60 Hz interval has elapsed, and stopping
    /// at the first failure with the machine as the failing cycle left it.
    pub fn step(&mut self, steps: u32) -> (r: Result<(), StepError>)
        requires
            old(self)@.wf(),
        ensures
            final(self)@.wf(),
            match r {
                Ok(()) => chip8_runs(old(self)@, final(self)@, steps as nat),
                Err(e) => exists|k: nat, mid: MachineView|
                    k < steps && #[trigger] chip8_runs(old(self)@, mid, k) && chip8_cycle_err(
                        mid,
                        final(self)@,
                        e,
                    ),
            },
    {
        let mut done: u32 = 0;
        while done < steps
            invariant
                done <= steps,
                self@.wf(),
                chip8_runs(old(self)@, self@, done as nat),
            decreases steps - done,
        {
            let ghost pre_cycle = self@;
            self.update_timers();
            let ghost ticked = self@;
            let op = match self.core.fetch() {
                Ok(op) => op,
                Err(e) => {
                    proof {
                        assert(vm_cycle_err(ticked, self@, e));
                        assert(chip8_cycle_err(pre_cycle, self@, e));
                    }
                    return Err(e);
                },
            };
            let instr = match decode(op) {
                Ok(instr) => instr,
                Err(de) => {
                    let e = StepError::Decode(de);
                    proof {
                        assert(vm_cycle_err(ticked, self@, e));
                        assert(chip8_cycle_err(pre_cycle, self@, e));
                    }
                    return Err(e);
                },
            };
            match self.core.execute(instr) {
                Ok(disp) => {
                    proof {
                        assert(vm_cycle(ticked, self@));
                        assert(chip8_cycle(pre_cycle, self@));
                        let n1 = done as nat + 1;
                        assert((n1 - 1) as nat == done as nat);
                        assert(chip8_runs(old(self)@, self@, n1));
                    }
                    if disp {
                        self.notify_display_update();
                    }
                },
                Err(e) => {
                    proof {
                        assert(vm_cycle_err(ticked, self@, e));
                        assert(chip8_cycle_err(pre_cycle, self@, e));
                    }
                    return Err(e);
                },
            }
            done += 1;
        }
        Ok(())
    }

    /// Invoke the renderer's notification hook, if one is installed.
    fn notify_display_update(&mut self)
        ensures
            final(self)@ == old(self)@,
    {
        match &mut self.on_display_update {
            Some(handler) => handler.display_updated(),
            None => {},
        }
    }

    /// Tick the timers when the 60 Hz interval has elapsed on the injected
    /// clock; whether it has depends on the wall clock, so the state either
    /// stays as it is or advances by exactly one tick.
    fn update_timers(&mut self)
        requires
            old(self)@.wf(),
        ensures
            final(self)@.wf(),
            final(self)@ == old(self)@ || final(self)@ == spec_tick(old(self)@),
    {
        let now = self.clock.now_nanos();
        if now >= self.last_tick_nanos {
            let elapsed = now - self.last_tick_nanos;
            if elapsed >= TICK_INTERVAL_NANOS {
                self.core.tick_timers();
                self.last_tick_nanos = now;
            }
        }
    }

    /// Copy a program into memory starting at the program start address;
    /// programs that do not fit above it are rejected unchanged.
    pub fn load_memory(&mut self, memory: Vec<u8>) -> (r: Result<(), LoadError>)
        requires
            old(self)@.wf(),
        ensures
            final(self)@.wf(),
            match r {
                Ok(()) => memory@.len() <= MEMORY_SIZE - crate::state::PROGRAM_START_ADDRESS
                    && final(self)@ == (MachineView { mem: final(self)@.mem, ..old(self)@ })
                    && final(self)@.mem.len() == MEMORY_SIZE && (forall|a: int|
                    0 <= a < MEMORY_SIZE ==> #[trigger] final(self)@.mem[a]
                        == if crate::state::PROGRAM_START_ADDRESS <= a
                        < crate::state::PROGRAM_START_ADDRESS + memory@.len() {
                        memory@[a - crate::state::PROGRAM_START_ADDRESS]
                    } else {
                        old(self)@.mem[a]
                    }),
                Err(e) => memory@.len() > MEMORY_SIZE - crate::state::PROGRAM_START_ADDRESS
                    && final(self)@ == old(self)@ && e == (LoadError {
                    rom_len: memory@.len() as usize,
                }),
            },
    {
        self.core.load_memory(memory)
    }

    /// Record a key transition in the key matrix.
    pub fn key(&mut self, k: u8, val: bool)
        requires
            old(self)@.wf(),
            k < NUM_KEYS,
        ensures
            final(self)@.wf(),
            final(self)@ == (MachineView { keys: old(self)@.keys.update(k as int, val), ..old(
                self,
            )@ }),
    {
        self.core.key(k, val)
    }

    /// Install the strategy used by the blocking wait-for-key instruction.
    pub fn set_key_wait(&mut self, key_wait: Box<dyn KeyWaitHandler>)
        ensures
            final(self)@ == old(self)@,
    {
        self.core.set_key_wait(key_wait)
    }

    /// Install the notification hook invoked when the framebuffer changes.
    pub fn set_on_display_update(&mut self, on_display_update: Box<dyn DisplayUpdateHandler>)
        ensures
            final(self)@ == old(self)@,
    {
        self.on_display_update = Some(on_display_update);
    }

    /// Install the time source that paces the timers.
    pub fn set_clock(&mut self, clock: Box<dyn Clock>)
        ensures
            final(self)@ == old(self)@,
    {
        self.clock = clock;
    }

    /// General register Vx.
    pub fn get_register(&self, x: usize) -> (r: u8)
        requires
            self@.wf(),
            x < NUM_REGISTERS,
        ensures
            r == self@.v[x as int],
    {
        self.core.get_register(x)
    }

    /// The program counter.
    pub fn get_pc(&self) -> (r: u16)
        ensures
            r == self@.pc,
    {
        self.core.get_pc()
    }

    /// The stack pointer.
    pub fn get_sp(&self) -> (r: u8)
        ensures
            r == self@.sp,
    {
        self.core.get_sp()
    }

    /// Stack slot `i`.
    pub fn get_stack(&self, i: usize) -> (r: u16)
        requires
            self@.wf(),
            i < STACK_SIZE,
        ensures
            r == self@.stack[i as int],
    {
        self.core.get_stack(i)
    }

    /// The index register.
    pub fn get_i(&self) -> (r: u16)
        ensures
            r == self@.i,
    {
        self.core.get_i()
    }

    /// The delay timer.
    pub fn get_dt(&self) -> (r: u8)
        ensures
            r == self@.dt,
    {
        self.core.get_dt()
    }

    /// The sound timer.
    pub fn get_st(&self) -> (r: u8)
        ensures
            r == self@.st,
    {
        self.core.get_st()
    }

    /// The raw RGB framebuffer, three identical bytes per pixel.
    pub fn get_display_memory(&self) -> (r: &Vec<u8>)
        ensures
            r@ == self@.fb,
    {
        self.core.get_display_memory()
    }

    /// The RGB bytes of pixel (x, y).
    pub fn get_pixel(&self, x: usize, y: usize) -> (r: (u8, u8, u8))
        requires
            self@.wf(),
            x < DISPLAY_WIDTH,
            y < DISPLAY_HEIGHT,
        ensures
            r.0 == self@.fb[spec_pixel_index(x as int, y as int)],
            r.1 == self@.fb[spec_pixel_index(x as int, y as int) + 1],
            r.2 == self@.fb[spec_pixel_index(x as int, y as int) + 2],
    {
        self.core.get_pixel(x, y)
    }
}

} // verus!
