use vmrs::{Machine, OpKind, VmError, PROGRAM_CAPACITY};

const STEPS: usize = 1000;

fn op(kind: OpKind) -> u8 {
    kind.into()
}

#[test]
fn test_machine_initialization() {
    let machine = Machine::try_new(&[]).unwrap();
    // The empty program gets its closing Halt like any other.
    assert_eq!(machine.program_size(), 1);
    assert_eq!(machine.is_halted(), false);
}

#[test]
fn test_program_capacity_exceeded() {
    let input = vec![0; PROGRAM_CAPACITY + 1];
    assert!(Machine::try_new(&input).is_err());
}

#[test]
fn test_push_and_pop_operations() {
    let mut machine = Machine::try_new(&[op(OpKind::Push), 0x00, 0x01, op(OpKind::Pop)]).unwrap();
    machine.run(STEPS).unwrap();
    assert!(machine.stack().head().is_err());
}

#[test]
fn test_addition() {
    let mut machine = Machine::try_new(&[
        op(OpKind::Push),
        0x00,
        0x05,
        op(OpKind::Push),
        0x00,
        0x03,
        op(OpKind::Add),
    ])
    .unwrap();
    machine.run(STEPS).unwrap();
    assert!(machine.stack().head().is_ok_and(|value| value == 8));
}

#[test]
fn test_subtrcation() {
    let mut machine = Machine::try_new(&[
        op(OpKind::Push),
        0x00,
        0x0f,
        op(OpKind::Push),
        0x00,
        0x0e,
        op(OpKind::Sub),
    ])
    .unwrap();
    machine.run(STEPS).unwrap();
    assert!(machine.stack().head().is_ok_and(|value| value == 1));
}

#[test]
fn test_multiplication() {
    let mut machine = Machine::try_new(&[
        op(OpKind::Push),
        0x00,
        0x02,
        op(OpKind::Push),
        0x00,
        0x0f,
        op(OpKind::Mul),
    ])
    .unwrap();
    machine.run(STEPS).unwrap();
    assert!(machine.stack().head().is_ok_and(|value| value == 30));
}

#[test]
fn test_division() {
    let mut machine = Machine::try_new(&[
        op(OpKind::Push),
        0x00,
        0x0f,
        op(OpKind::Push),
        0x00,
        0x03,
        op(OpKind::Div),
    ])
    .unwrap();
    machine.run(STEPS).unwrap();
    assert!(machine.stack().head().is_ok_and(|value| value == 5));
}

#[test]
fn test_division_by_zero() {
    let mut machine = Machine::try_new(&[
        op(OpKind::Push),
        0x00,
        0x05,
        op(OpKind::Push),
        0x00,
        0x00,
        op(OpKind::Div),
    ])
    .unwrap();
    assert!(machine.run(STEPS).is_err());
}

#[test]
fn test_unknown_opcode() {
    let mut machine = Machine::try_new(&[0xFF]).unwrap();
    assert!(machine.run(STEPS).is_err());
}

#[test]
fn test_halt_operation() {
    let mut machine = Machine::try_new(&[op(OpKind::Halt)]).unwrap();
    machine.run(STEPS).unwrap();
    assert!(machine.is_halted());
}

#[test]
fn load_appends_halt() {
    let machine = Machine::try_new(&[op(OpKind::Push), 0x00, 0x07]).unwrap();
    assert_eq!(machine.program_size(), 4);
    let machine = Machine::try_new(&[op(OpKind::Echo), op(OpKind::Halt)]).unwrap();
    assert_eq!(machine.program_size(), 2);
}

#[test]
fn load_full_buffer() {
    let mut input = vec![op(OpKind::Pop); PROGRAM_CAPACITY - 1];
    input.push(op(OpKind::Halt));
    assert_eq!(Machine::try_new(&input).unwrap().program_size(), PROGRAM_CAPACITY);
    let input = vec![op(OpKind::Pop); PROGRAM_CAPACITY];
    assert_eq!(Machine::try_new(&input).err(), Some(VmError::ProgramTooLarge));
    let input = vec![op(OpKind::Pop); PROGRAM_CAPACITY - 1];
    assert_eq!(Machine::try_new(&input).unwrap().program_size(), PROGRAM_CAPACITY);
}

#[test]
fn empty_program_halts_at_once() {
    let mut machine = Machine::try_new(&[]).unwrap();
    assert_eq!(machine.run(STEPS), Ok(vec![]));
    assert!(machine.is_halted());
    assert_eq!(machine.stack().len(), 0);
}

#[test]
fn echo_keeps_the_top() {
    let mut machine = Machine::try_new(&[
        op(OpKind::Push),
        0x01,
        0x02,
        op(OpKind::Echo),
        op(OpKind::Copy),
        op(OpKind::Add),
        op(OpKind::Echo),
    ])
    .unwrap();
    assert_eq!(machine.run(STEPS), Ok(vec![258, 516]));
    assert_eq!(machine.stack().len(), 1);
}

#[test]
fn negative_operand_and_wrapping() {
    let mut machine = Machine::try_new(&[
        op(OpKind::Push),
        0x7f,
        0xff,
        op(OpKind::Push),
        0x00,
        0x01,
        op(OpKind::Add),
        op(OpKind::Echo),
        op(OpKind::Push),
        0xff,
        0xff,
        op(OpKind::Div),
        op(OpKind::Echo),
        op(OpKind::Push),
        0xff,
        0xfe,
        op(OpKind::Push),
        0x00,
        0x07,
        op(OpKind::Sub),
        op(OpKind::Echo),
    ])
    .unwrap();
    assert_eq!(machine.run(STEPS), Ok(vec![-32768, -32768, -9]));
}

#[test]
fn division_truncates_toward_zero() {
    let mut machine = Machine::try_new(&[
        op(OpKind::Push),
        0xff,
        0xf9,
        op(OpKind::Push),
        0x00,
        0x02,
        op(OpKind::Div),
        op(OpKind::Echo),
    ])
    .unwrap();
    assert_eq!(machine.run(STEPS), Ok(vec![-3]));
}

#[test]
fn division_by_zero_stops_before_the_next_instruction() {
    let mut machine = Machine::try_new(&[
        op(OpKind::Push),
        0x00,
        0x0a,
        op(OpKind::Push),
        0x00,
        0x00,
        op(OpKind::Div),
        op(OpKind::Echo),
    ])
    .unwrap();
    assert_eq!(machine.step(), Ok(None));
    assert_eq!(machine.step(), Ok(None));
    assert_eq!(machine.step(), Err(VmError::DivisionByZero));
    assert_eq!(machine.ip(), 6);
    assert_eq!(machine.stack().len(), 2);
    assert!(!machine.is_halted());
}

#[test]
fn runtime_errors() {
    let mut m = Machine::try_new(&[op(OpKind::Pop)]).unwrap();
    assert_eq!(m.run(STEPS), Err(VmError::StackUnderflow));
    let mut m = Machine::try_new(&[op(OpKind::Echo)]).unwrap();
    assert_eq!(m.run(STEPS), Err(VmError::StackUnderflow));
    let mut m = Machine::try_new(&[op(OpKind::Push), 0x00, 0x01, op(OpKind::Add)]).unwrap();
    assert_eq!(m.run(STEPS), Err(VmError::StackUnderflow));
    let mut m = Machine::try_new(&[0x0b]).unwrap();
    assert_eq!(m.run(STEPS), Err(VmError::UnknownOpcode(0x0b)));
    // The appended Halt byte is read as the operand's second byte.
    let mut m = Machine::try_new(&[op(OpKind::Goto), 0x00]).unwrap();
    assert_eq!(m.run(STEPS), Err(VmError::SegmentationFault));
    let mut m = Machine::try_new(&[op(OpKind::Goto), 0x00, 0x09]).unwrap();
    assert_eq!(m.run(STEPS), Err(VmError::SegmentationFault));
    let mut m = Machine::try_new(&[op(OpKind::Goto), 0xff, 0xff]).unwrap();
    assert_eq!(m.run(STEPS), Err(VmError::InvalidAddress(-1)));
    let mut m = Machine::try_new(&[op(OpKind::Goto), 0x00, 0x04, op(OpKind::Halt)]).unwrap();
    assert_eq!(m.run(STEPS), Err(VmError::SegmentationFault));
    let mut m = Machine::try_new(&[op(OpKind::Goif)]).unwrap();
    assert_eq!(m.run(STEPS), Err(VmError::TruncatedOperand(0)));
}

#[test]
fn copy_overflows_a_full_stack() {
    let input = [op(OpKind::Push), 0x00, 0x01, op(OpKind::Copy), op(OpKind::Goto), 0x00, 0x03];
    let mut m = Machine::try_new(&input).unwrap();
    assert_eq!(m.run(STEPS * 3), Err(VmError::StackOverflow));
    assert_eq!(m.stack().len(), 1024);
}

#[test]
fn conditional_jump() {
    // Counts 3 down to 1, echoing each value.
    let mut m = Machine::try_new(&[
        op(OpKind::Push),
        0x00,
        0x03,
        op(OpKind::Echo),
        op(OpKind::Push),
        0x00,
        0x01,
        op(OpKind::Sub),
        op(OpKind::Copy),
        op(OpKind::Goif),
        0x00,
        0x03,
        op(OpKind::Halt),
    ])
    .unwrap();
    assert_eq!(m.run(STEPS), Ok(vec![3, 2, 1]));
    assert!(m.is_halted());
    assert_eq!(m.stack().len(), 1);
}

#[test]
fn step_budget_leaves_machine_running() {
    let mut m = Machine::try_new(&[op(OpKind::Goto), 0x00, 0x00]).unwrap();
    assert_eq!(m.run(50), Ok(vec![]));
    assert!(!m.is_halted());
    assert_eq!(m.ip(), 0);
}
