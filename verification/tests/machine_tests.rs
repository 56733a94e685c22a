use tp_led_matrix::Machine;
use tp_led_matrix::MachineError;
use tp_led_matrix::machine::BufferPort;

#[test]
fn new_machine_copies_the_program_and_zeroes_the_rest() {
    let machine = Machine::new(&[1, 2, 3]);
    assert_eq!(machine.memory().len(), 4096);
    assert_eq!(&machine.memory()[0..3], &[1, 2, 3]);
    assert!(machine.memory()[3..].iter().all(|&b| b == 0));
    assert_eq!(machine.regs(), &[0u32; 16]);
}

#[test]
fn set_reg_rejects_registers_beyond_the_file() {
    let mut machine = Machine::new(&[]);
    assert!(machine.set_reg(15, 7).is_ok());
    assert_eq!(machine.regs()[15], 7);
    assert!(matches!(
        machine.set_reg(16, 7),
        Err(MachineError::RegisterDoesntExist)
    ));
}

#[test]
fn loadimm_sign_extends() {
    let mut machine = Machine::new(&[4, 1, 0x34, 0x12]);
    let mut port = BufferPort::new();
    assert_eq!(machine.step_on(&mut port), Ok(false));
    assert_eq!(machine.regs()[1], 0x1234);
    assert_eq!(machine.regs()[0], 4);

    let mut machine = Machine::new(&[4, 1, 0xFE, 0xFF]);
    assert_eq!(machine.step_on(&mut port), Ok(false));
    assert_eq!(machine.regs()[1], 0xFFFF_FFFE); // -2
}

#[test]
fn move_if_copies_only_on_nonzero_condition() {
    let mut port = BufferPort::new();
    let mut machine = Machine::new(&[1, 4, 2, 3]);
    machine.set_reg(2, 55).unwrap();
    machine.set_reg(3, 1).unwrap();
    assert_eq!(machine.step_on(&mut port), Ok(false));
    assert_eq!(machine.regs()[4], 55);

    let mut machine = Machine::new(&[1, 4, 2, 3]);
    machine.set_reg(2, 55).unwrap();
    machine.set_reg(3, 0).unwrap();
    assert_eq!(machine.step_on(&mut port), Ok(false));
    assert_eq!(machine.regs()[4], 0);
}

#[test]
fn store_writes_little_endian() {
    let mut port = BufferPort::new();
    let mut machine = Machine::new(&[2, 1, 2]);
    machine.set_reg(1, 100).unwrap();
    machine.set_reg(2, 0x1122_3344).unwrap();
    assert_eq!(machine.step_on(&mut port), Ok(false));
    assert_eq!(&machine.memory()[100..104], &[0x44, 0x33, 0x22, 0x11]);
    assert_eq!(machine.regs()[0], 3);
}

#[test]
fn load_reads_little_endian() {
    let mut port = BufferPort::new();
    let mut store = Machine::new(&[2, 1, 2]);
    store.set_reg(1, 100).unwrap();
    store.set_reg(2, 0xDEAD_BEEF).unwrap();
    assert_eq!(store.step_on(&mut port), Ok(false));
    let mut program = store.memory()[0..104].to_vec();
    program[0] = 3;
    program[1] = 5;
    program[2] = 1;
    let mut machine = Machine::new(&program);
    machine.set_reg(1, 100).unwrap();
    assert_eq!(machine.step_on(&mut port), Ok(false));
    assert_eq!(machine.regs()[5], 0xDEAD_BEEF);
}

#[test]
fn sub_wraps_around() {
    let mut port = BufferPort::new();
    let mut machine = Machine::new(&[5, 3, 1, 2]);
    machine.set_reg(1, 0).unwrap();
    machine.set_reg(2, 1).unwrap();
    assert_eq!(machine.step_on(&mut port), Ok(false));
    assert_eq!(machine.regs()[3], 0xFFFF_FFFF);
}

#[test]
fn out_writes_the_low_byte_as_utf8() {
    let mut port = BufferPort::new();
    let mut machine = Machine::new(&[6, 1]);
    machine.set_reg(1, 65).unwrap();
    assert_eq!(machine.step_on(&mut port), Ok(false));
    assert_eq!(port.bytes(), &vec![65u8]);

    // A code point above 127 becomes two UTF-8 bytes, as formatting
    // the corresponding char would.
    let mut port = BufferPort::new();
    let mut machine = Machine::new(&[6, 1]);
    machine.set_reg(1, 0xE9).unwrap();
    assert_eq!(machine.step_on(&mut port), Ok(false));
    assert_eq!(port.bytes(), &vec![0xC3u8, 0xA9u8]);
}

#[test]
fn out_number_writes_signed_decimal() {
    let mut port = BufferPort::new();
    let mut machine = Machine::new(&[8, 1]);
    machine.set_reg(1, (-123i32) as u32).unwrap();
    assert_eq!(machine.step_on(&mut port), Ok(false));
    assert_eq!(port.bytes(), b"-123");

    let mut port = BufferPort::new();
    let mut machine = Machine::new(&[8, 1]);
    machine.set_reg(1, 0).unwrap();
    assert_eq!(machine.step_on(&mut port), Ok(false));
    assert_eq!(port.bytes(), b"0");

    let mut port = BufferPort::new();
    let mut machine = Machine::new(&[8, 1]);
    machine.set_reg(1, u32::MAX).unwrap();
    assert_eq!(machine.step_on(&mut port), Ok(false));
    assert_eq!(port.bytes(), b"-1");
}

#[test]
fn exit_halts() {
    let mut port = BufferPort::new();
    let mut machine = Machine::new(&[7]);
    assert_eq!(machine.step_on(&mut port), Ok(true));
    assert_eq!(machine.regs()[0], 1);
}

#[test]
fn unknown_opcode_is_an_error() {
    let mut port = BufferPort::new();
    let mut machine = Machine::new(&[9]);
    assert_eq!(
        machine.step_on(&mut port),
        Err(MachineError::NoEquivalentOpcode)
    );
    assert_eq!(machine.regs()[0], 1);
}

#[test]
fn bad_register_operands_are_an_error() {
    let mut port = BufferPort::new();
    let mut machine = Machine::new(&[4, 16, 0, 0]);
    assert_eq!(
        machine.step_on(&mut port),
        Err(MachineError::RegisterDoesntExist)
    );
    // The instruction pointer has already moved past the instruction.
    assert_eq!(machine.regs()[0], 4);
}

#[test]
fn store_and_load_near_the_end_of_memory_are_errors() {
    let mut port = BufferPort::new();
    let mut machine = Machine::new(&[2, 1, 2]);
    machine.set_reg(1, 4093).unwrap();
    assert_eq!(
        machine.step_on(&mut port),
        Err(MachineError::StoreReachEndOfMemory)
    );

    let mut machine = Machine::new(&[3, 5, 1]);
    machine.set_reg(1, 4093).unwrap();
    assert_eq!(
        machine.step_on(&mut port),
        Err(MachineError::LoadReachEndOfMemory)
    );
}

#[test]
fn instruction_pointer_outside_memory_is_an_error() {
    let mut port = BufferPort::new();
    let mut machine = Machine::new(&[]);
    machine.set_reg(0, 5000).unwrap();
    assert_eq!(
        machine.step_on(&mut port),
        Err(MachineError::NoEquivalentInstrAddress)
    );
    assert_eq!(machine.regs()[0], 5000);
}

#[test]
fn instruction_running_past_memory_is_an_addressing_error() {
    // Opcode 1 at the last memory byte would need operands beyond the
    // end of memory.
    let mut port = BufferPort::new();
    let mut program = vec![0u8; 4096];
    program[4095] = 1;
    let mut machine = Machine::new(&program);
    machine.set_reg(0, 4095).unwrap();
    assert_eq!(
        machine.step_on(&mut port),
        Err(MachineError::NoEquivalentInstrAddress)
    );
    assert_eq!(machine.regs()[0], 4095);
}

#[test]
fn a_refusing_sink_is_a_write_error() {
    let mut port = BufferPort::with_limit(0);
    let mut machine = Machine::new(&[6, 1]);
    machine.set_reg(1, 65).unwrap();
    assert_eq!(
        machine.step_on(&mut port),
        Err(MachineError::ErrWritingToFd)
    );
    assert!(port.bytes().is_empty());

    // A sink that fills up mid-number keeps the prefix it accepted.
    let mut port = BufferPort::with_limit(2);
    let mut machine = Machine::new(&[8, 1]);
    machine.set_reg(1, (-123i32) as u32).unwrap();
    assert_eq!(
        machine.step_on(&mut port),
        Err(MachineError::ErrWritingToFd)
    );
    assert_eq!(port.bytes(), b"-1");
}

#[test]
fn run_on_executes_until_exit() {
    // loadimm r1, 'H'; out r1; loadimm r1, 'i'; out r1; exit
    let program = [4, 1, 72, 0, 6, 1, 4, 1, 105, 0, 6, 1, 7];
    let mut machine = Machine::new(&program);
    let mut port = BufferPort::new();
    assert_eq!(machine.run_on(&mut port, 100), Ok(true));
    assert_eq!(port.bytes(), b"Hi");
}

#[test]
fn run_on_stops_when_the_step_budget_runs_out() {
    // loadimm r0, 0: an instruction that jumps to itself forever.
    let mut machine = Machine::new(&[4, 0, 0, 0]);
    let mut port = BufferPort::new();
    assert_eq!(machine.run_on(&mut port, 10), Ok(false));
    assert!(port.bytes().is_empty());
}

#[test]
fn run_on_propagates_step_errors() {
    let mut machine = Machine::new(&[4, 1, 5, 0, 9]);
    let mut port = BufferPort::new();
    assert_eq!(
        machine.run_on(&mut port, 10),
        Err(MachineError::NoEquivalentOpcode)
    );
    assert_eq!(machine.regs()[1], 5);
}
