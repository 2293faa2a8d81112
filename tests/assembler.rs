use vmrs::{assemble, AsmError, Assembler, Machine, OpKind, Preprocessor};

fn chars(s: &str) -> Vec<char> {
    s.chars().collect()
}

#[test]
fn add_and_echo_scenario() {
    let bytes = assemble("PUSH 5\nPUSH 3\nADD\nECHO\nHALT").unwrap();
    assert_eq!(bytes, vec![0x00, 0x00, 0x05, 0x00, 0x00, 0x03, 0x03, 0x02, 0x0a]);
    let mut m = Machine::try_new(&bytes).unwrap();
    m.step().unwrap();
    assert_eq!(m.stack().to_string(), "5 -> None");
    m.step().unwrap();
    assert_eq!(m.stack().to_string(), "3 -> 5 -> None");
    m.step().unwrap();
    assert_eq!(m.stack().to_string(), "8 -> None");
    assert_eq!(m.step(), Ok(Some(8)));
    assert_eq!(m.step(), Ok(None));
    assert!(m.is_halted());
}

#[test]
fn division_by_zero_scenario() {
    let bytes = assemble("PUSH 10\nPUSH 0\nDIV").unwrap();
    let mut m = Machine::try_new(&bytes).unwrap();
    assert_eq!(m.run(100), Err(vmrs::VmError::DivisionByZero));
}

#[test]
fn loop_scenario() {
    let source = "@loop PUSH 1 GOTO loop";
    let labels = Preprocessor::new(source).preprocess().unwrap();
    assert_eq!(labels.get(&chars("loop")), Some(0));
    let bytes = Assembler::new(source, labels).assemble().unwrap();
    assert_eq!(bytes, vec![0x00, 0x00, 0x01, 0x07, 0x00, 0x00]);
    assert_eq!(assemble(source).unwrap(), bytes);
    let mut m = Machine::try_new(&bytes).unwrap();
    for round in 0..100 {
        assert_eq!(m.step(), Ok(None));
        assert_eq!(m.ip(), 3);
        assert_eq!(m.stack().len(), round + 1);
        assert_eq!(m.step(), Ok(None));
        assert_eq!(m.ip(), 0);
        assert!(!m.is_halted());
    }
}

#[test]
fn empty_bytes_scenario() {
    let mut m = Machine::try_new(&[]).unwrap();
    assert_eq!(m.program_size(), 1);
    assert_eq!(m.run(1), Ok(vec![]));
    assert!(m.is_halted());
    assert_eq!(m.stack().len(), 0);
}

#[test]
fn assembling_twice_gives_the_same_bytes() {
    let source = "@top PUSH 3 | counter\n@again PUSH 1\nSUB COPY GOIF again ECHO HALT";
    assert_eq!(assemble(source), assemble(source));
}

#[test]
fn straight_line_round_trip() {
    let bytes = assemble("push 7 copy mul echo push 2 sub echo").unwrap();
    let mut m = Machine::try_new(&bytes).unwrap();
    assert_eq!(m.run(100), Ok(vec![49, 47]));
    assert!(m.is_halted());
}

#[test]
fn forward_reference_and_comments() {
    let source = "GOTO end | skip the push\nPUSH 1\n@end HALT";
    let bytes = assemble(source).unwrap();
    assert_eq!(bytes, vec![0x07, 0x00, 0x06, 0x00, 0x00, 0x01, 0x0a]);
    let labels = Preprocessor::new(source).preprocess().unwrap();
    assert_eq!(labels.get(&chars("end")), Some(6));
    assert_eq!(labels.get(&chars("start")), None);
}

#[test]
fn mnemonics_ignore_case() {
    assert_eq!(assemble("Push 1 eChO hAlT").unwrap(), vec![0x00, 0x00, 0x01, 0x02, 0x0a]);
}

#[test]
fn assembler_errors() {
    assert_eq!(assemble("PUSH 1\nJUMP"), Err(AsmError::UnknownMnemonic(7, 11)));
    assert_eq!(assemble("5"), Err(AsmError::UnknownMnemonic(0, 0)));
    assert_eq!(assemble("PUSH 1.5"), Err(AsmError::MalformedNumber(5, 8)));
    assert_eq!(assemble("PUSH"), Err(AsmError::MalformedNumber(4, 4)));
    assert_eq!(assemble("PUSH 32768"), Err(AsmError::MalformedNumber(5, 10)));
    assert_eq!(assemble("@a HALT @a HALT"), Err(AsmError::DuplicateLabel(9, 10)));
    assert_eq!(assemble("GOTO nowhere"), Err(AsmError::UnrecognizedLabel(5, 12)));
}

#[test]
fn largest_literal() {
    assert_eq!(assemble("PUSH 32767").unwrap(), vec![0x00, 0x7f, 0xff]);
    assert_eq!(assemble("PUSH 007").unwrap(), vec![0x00, 0x00, 0x07]);
}

#[test]
fn program_past_word_offsets_is_refused() {
    let source = "POP ".repeat(32767);
    assert!(assemble(&source).is_ok());
    let source = "POP ".repeat(32768);
    assert_eq!(assemble(&source), Err(AsmError::ProgramTooLarge));
}

#[test]
fn opcode_bytes_round_trip() {
    let kinds = [
        OpKind::Push,
        OpKind::Pop,
        OpKind::Echo,
        OpKind::Add,
        OpKind::Sub,
        OpKind::Mul,
        OpKind::Div,
        OpKind::Goto,
        OpKind::Goif,
        OpKind::Copy,
        OpKind::Halt,
    ];
    for (i, kind) in kinds.iter().enumerate() {
        assert_eq!(kind.opcode(), i as u8);
        assert_eq!(OpKind::from_byte(i as u8), Some(*kind));
    }
    assert_eq!(OpKind::from_byte(0x0b), None);
    assert_eq!(OpKind::from_mnemonic(&chars("GOIF")), Some(OpKind::Goif));
    assert_eq!(OpKind::from_mnemonic(&chars("goif")), None);
}

#[test]
fn labels_may_be_any_alphabetic_name() {
    let source = "PUSH 0\n@étape PUSH 1 GOTO étape";
    let labels = Preprocessor::new(source).preprocess().unwrap();
    assert_eq!(labels.get(&chars("étape")), Some(3));
    assert_eq!(
        assemble(source).unwrap(),
        vec![0x00, 0x00, 0x00, 0x00, 0x00, 0x01, 0x07, 0x00, 0x03]
    );
}

#[test]
fn tabs_and_comment_lines_are_skipped() {
    let source = "| header\n\tPUSH\t2 | two\n\n| end\nECHO";
    assert_eq!(assemble(source).unwrap(), vec![0x00, 0x00, 0x02, 0x02]);
}
