use std::cell::Cell;
use std::rc::Rc;

use libchip8::{version, Chip8, Clock, DisplayUpdateHandler, StepError, VirtualMachine};

/// A clock that never advances, so the timers never tick.
struct FrozenClock;

impl Clock for FrozenClock {
    fn now_nanos(&mut self) -> u64 {
        0
    }
}

/// A clock that jumps a full second on every reading, so the timers tick on
/// every cycle.
struct TickingClock {
    t: u64,
}

impl Clock for TickingClock {
    fn now_nanos(&mut self) -> u64 {
        self.t += 1_000_000_000;
        self.t
    }
}

/// Counts display-update notifications.
struct CountingDisplay(Rc<Cell<u32>>);

impl DisplayUpdateHandler for CountingDisplay {
    fn display_updated(&mut self) {
        self.0.set(self.0.get() + 1);
    }
}

#[test]
fn test_version() {
    assert_eq!(version(), "0.1.0");
}

#[test]
fn test_decode_error_carries_opcode() {
    let mut vm = VirtualMachine::new();
    vm.load_memory(vec![0xFF, 0xFF]).unwrap();

    match vm.step(1) {
        Err(StepError::Decode(e)) => assert_eq!(e.opcode, 0xFFFF),
        r => panic!("expected a decode error, got {:?}", r),
    }
    // The program counter has already advanced past the bad opcode.
    assert_eq!(vm.get_pc(), 0x202);
}

#[test]
fn test_stack_underflow() {
    let mut vm = VirtualMachine::new();
    vm.load_memory(vec![0x00, 0xEE]).unwrap();

    assert!(matches!(vm.step(1), Err(StepError::StackUnderflow)));
}

#[test]
fn test_stack_overflow() {
    let mut vm = VirtualMachine::new();
    // CALL 0x200 calls itself forever; the 17th call cannot be pushed.
    vm.load_memory(vec![0x22, 0x00]).unwrap();

    vm.step(16).unwrap();
    assert_eq!(vm.get_sp(), 16);
    assert!(matches!(vm.step(1), Err(StepError::StackOverflow)));
    assert_eq!(vm.get_sp(), 16);
}

#[test]
fn test_fetch_out_of_bounds() {
    let mut vm = VirtualMachine::new();
    vm.load_memory(vec![0x1F, 0xFF]).unwrap();

    vm.step(1).unwrap();
    assert_eq!(vm.get_pc(), 0xFFF);
    assert!(matches!(vm.step(1), Err(StepError::FetchOutOfBounds { pc: 0xFFF })));
    assert_eq!(vm.get_pc(), 0xFFF);
}

#[test]
fn test_memory_out_of_bounds() {
    let mut vm = VirtualMachine::new();
    let program = vec![
        0xAF, 0xFF, // LD I, $FFF
        0xF0, 0x33, // LD B, V0: would write $FFF..$1001
    ];
    vm.load_memory(program).unwrap();

    assert!(matches!(vm.step(2), Err(StepError::MemoryOutOfBounds { addr: 0xFFF })));
}

#[test]
fn test_key_out_of_range() {
    let mut vm = VirtualMachine::new();
    let program = vec![
        0x60, 0xFF, // LD V0, $FF
        0xE0, 0x9E, // SKP V0: $FF is no key index
    ];
    vm.load_memory(program).unwrap();

    assert!(matches!(vm.step(2), Err(StepError::KeyOutOfRange { key: 0xFF })));
}

#[test]
fn test_load_memory_rejects_oversized_program() {
    let mut vm = VirtualMachine::new();

    let err = vm.load_memory(vec![0u8; 3585]).unwrap_err();
    assert_eq!(err.rom_len, 3585);
    // The rejected program left no trace.
    assert_eq!(vm.get_pc(), 0x200);
}

#[test]
fn test_load_memory_accepts_largest_program() {
    let mut vm = VirtualMachine::new();
    assert!(vm.load_memory(vec![0u8; 3584]).is_ok());
}

#[test]
fn test_load_memory_accepts_empty_program() {
    let mut vm = VirtualMachine::new();
    assert!(vm.load_memory(Vec::new()).is_ok());
}

#[test]
fn test_jump_is_absolute_after_one_step() {
    let mut vm = VirtualMachine::new();
    vm.load_memory(vec![0x14, 0x50]).unwrap();

    vm.step(1).unwrap();
    assert_eq!(vm.get_pc(), 0x450);
    // The next fetch reads zero bytes at the target and fails to decode,
    // leaving the counter advanced by one instruction.
    assert!(vm.step(1).is_err());
    assert_eq!(vm.get_pc(), 0x452);
}

#[test]
fn test_call_pushes_return_address() {
    let mut vm = VirtualMachine::new();
    vm.load_memory(vec![0x22, 0x50]).unwrap();

    vm.step(1).unwrap();
    assert_eq!(vm.get_pc(), 0x250);
    assert_eq!(vm.get_sp(), 1);
    assert_eq!(vm.get_stack(0), 0x202);
}

#[test]
fn test_call_then_ret_restores_pc() {
    let mut vm = VirtualMachine::new();
    let program = vec![
        0x22, 0x04, // 0x200: CALL $204
        0xFF, 0xFF, // 0x202: stop
        0x00, 0xEE, // 0x204: RET
    ];
    vm.load_memory(program).unwrap();

    vm.step(2).unwrap();
    assert_eq!(vm.get_pc(), 0x202);
    assert_eq!(vm.get_sp(), 0);
}

#[test]
fn test_bcd_and_inclusive_load() {
    let mut vm = VirtualMachine::new();
    let program = vec![
        0x60, 0xEA, // LD V0, 234
        0xA3, 0x00, // LD I, $300
        0xF0, 0x33, // LD B, V0: 2, 3, 4 at $300..$303
        0xF2, 0x65, // LD V0..V2, [I]
    ];
    vm.load_memory(program).unwrap();

    vm.step(4).unwrap();
    assert_eq!(vm.get_register(0), 2);
    assert_eq!(vm.get_register(1), 3);
    assert_eq!(vm.get_register(2), 4);
    assert_eq!(vm.get_i(), 0x300);
}

#[test]
fn test_bulk_store_is_inclusive() {
    let mut vm = VirtualMachine::new();
    let program = vec![
        0x60, 0x0A, // LD V0, 10
        0x61, 0x14, // LD V1, 20
        0x62, 0x1E, // LD V2, 30
        0xA4, 0x00, // LD I, $400
        0xF2, 0x55, // LD [I], V0..V2
        0x60, 0x00, // LD V0, 0
        0x61, 0x00, // LD V1, 0
        0x62, 0x00, // LD V2, 0
        0xF2, 0x65, // LD V0..V2, [I]
    ];
    vm.load_memory(program).unwrap();

    vm.step(9).unwrap();
    assert_eq!(vm.get_register(0), 10);
    assert_eq!(vm.get_register(1), 20);
    assert_eq!(vm.get_register(2), 30);
}

#[test]
fn test_random_masked_with_zero() {
    let mut vm = VirtualMachine::new();
    let program = vec![
        0x60, 0xFF, // LD V0, $FF
        0xC0, 0x00, // RND V0, $00: whatever is drawn, the mask zeroes it
    ];
    vm.load_memory(program).unwrap();

    vm.step(2).unwrap();
    assert_eq!(vm.get_register(0), 0);
}

#[test]
fn test_draw_lights_pixels_and_double_draw_erases() {
    let mut vm = VirtualMachine::new();
    // I = 0 addresses the font glyph for 0, whose top row is $F0.
    let program = vec![
        0xD0, 0x15, // DRW V0, V1, 5 at (0, 0)
        0xD0, 0x15, // the same draw again
    ];
    vm.load_memory(program).unwrap();

    vm.step(1).unwrap();
    assert_eq!(vm.get_pixel(0, 0), (255, 255, 255));
    assert_eq!(vm.get_pixel(3, 0), (255, 255, 255));
    assert_eq!(vm.get_pixel(4, 0), (0, 0, 0));
    assert_eq!(vm.get_register(15), 0);

    vm.step(1).unwrap();
    assert_eq!(vm.get_register(15), 1);
    for b in vm.get_display_memory() {
        assert_eq!(*b, 0);
    }
}

#[test]
fn test_draw_wraps_around_the_display() {
    let mut vm = VirtualMachine::new();
    let program = vec![
        0x60, 0x3E, // LD V0, 62
        0x61, 0x1F, // LD V1, 31
        0xD0, 0x12, // DRW V0, V1, 2 at (62, 31): wraps both edges
    ];
    vm.load_memory(program).unwrap();

    vm.step(3).unwrap();
    // Row 0 of glyph 0 is $F0: four set bits from (62, 31) wrapping to x=1.
    assert_eq!(vm.get_pixel(62, 31), (255, 255, 255));
    assert_eq!(vm.get_pixel(63, 31), (255, 255, 255));
    assert_eq!(vm.get_pixel(0, 31), (255, 255, 255));
    assert_eq!(vm.get_pixel(1, 31), (255, 255, 255));
    assert_eq!(vm.get_pixel(2, 31), (0, 0, 0));
    // Row 1 is $90 and wraps to the top of the display.
    assert_eq!(vm.get_pixel(62, 0), (255, 255, 255));
    assert_eq!(vm.get_pixel(63, 0), (0, 0, 0));
    assert_eq!(vm.get_pixel(1, 0), (255, 255, 255));
}

#[test]
fn test_display_buffer_shape() {
    let vm = VirtualMachine::new();
    assert_eq!(vm.get_display_memory().len(), 3 * 64 * 32);
    for b in vm.get_display_memory() {
        assert_eq!(*b, 0);
    }
}

#[test]
fn test_display_update_notifications() {
    let count = Rc::new(Cell::new(0u32));
    let mut vm = Chip8::new();
    vm.set_clock(Box::new(FrozenClock));
    vm.set_on_display_update(Box::new(CountingDisplay(count.clone())));

    let program = vec![
        0x00, 0xE0, // CLS
        0xD0, 0x15, // DRW V0, V1, 5
        0x60, 0x01, // LD V0, 1: no notification
    ];
    vm.load_memory(program).unwrap();

    vm.step(3).unwrap();
    assert_eq!(count.get(), 2);
}

#[test]
fn test_add_i_vx() {
    let mut vm = VirtualMachine::new();
    let program = vec![
        0xAF, 0xFF, // LD I, $FFF
        0x60, 0x02, // LD V0, 2
        0xF0, 0x1E, // ADD I, V0
    ];
    vm.load_memory(program).unwrap();

    vm.step(3).unwrap();
    assert_eq!(vm.get_i(), 0x1001);
}

#[test]
fn test_add_with_carry_when_destination_is_flag_register() {
    let mut vm = VirtualMachine::new();
    let program = vec![
        0x6F, 0xFF, // LD VF, $FF
        0x61, 0x01, // LD V1, $01
        0x8F, 0x14, // ADDC VF, V1: the truncated sum overwrites the carry
    ];
    vm.load_memory(program).unwrap();

    vm.step(3).unwrap();
    assert_eq!(vm.get_register(15), 0x00);
}

#[test]
fn test_clear_screen_erases_the_display() {
    let mut vm = VirtualMachine::new();
    let program = vec![
        0xD0, 0x15, // DRW V0, V1, 5 at (0, 0)
        0x00, 0xE0, // CLS
    ];
    vm.load_memory(program).unwrap();

    vm.step(1).unwrap();
    assert_eq!(vm.get_pixel(0, 0), (255, 255, 255));
    vm.step(1).unwrap();
    for b in vm.get_display_memory() {
        assert_eq!(*b, 0);
    }
}

#[test]
fn test_timer_registers_round_trip() {
    let mut vm = Chip8::new();
    vm.set_clock(Box::new(FrozenClock));

    let program = vec![
        0x60, 0x2A, // LD V0, 42
        0xF0, 0x15, // LD DT, V0
        0x61, 0x07, // LD V1, 7
        0xF1, 0x18, // LD ST, V1
        0xF2, 0x07, // LD V2, DT
    ];
    vm.load_memory(program).unwrap();

    vm.step(5).unwrap();
    assert_eq!(vm.get_dt(), 42);
    assert_eq!(vm.get_st(), 7);
    assert_eq!(vm.get_register(2), 42);
}

#[test]
fn test_timers_saturate_at_zero() {
    let mut vm = Chip8::new();
    vm.set_clock(Box::new(TickingClock { t: 1 << 62 }));

    let program = vec![
        0x60, 0x02, // LD V0, 2
        0xF0, 0x15, // LD DT, V0
        0x61, 0x01, // LD V1, 1
        0x61, 0x01, // LD V1, 1
        0x61, 0x01, // LD V1, 1
        0x61, 0x01, // LD V1, 1
    ];
    vm.load_memory(program).unwrap();

    vm.step(1).unwrap();
    assert_eq!(vm.get_dt(), 0);
    vm.step(1).unwrap();
    assert_eq!(vm.get_dt(), 2);
    vm.step(1).unwrap();
    assert_eq!(vm.get_dt(), 1);
    vm.step(1).unwrap();
    assert_eq!(vm.get_dt(), 0);
    vm.step(1).unwrap();
    assert_eq!(vm.get_dt(), 0);
    vm.step(1).unwrap();
    assert_eq!(vm.get_dt(), 0);
    assert_eq!(vm.get_st(), 0);
}
