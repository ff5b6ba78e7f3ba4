use translators::assembler::instructions::OperatorKind as Op;
use translators::instructions::error::InstructionErrorKind;
use translators::instructions::opcodes::OpcodeGenerator;
use translators::instructions::{CompFlags, DestFlags, JumpFlags};
use translators::project6::code::{base_symbols, create_symbols, generate_instruction, generate_opcodes};
use translators::project6::instructions::Instruction;
use translators::project6::parser::{parse_comp_instruction, parse_dest_flags, parse_lines, read_until_relevant_line};
use translators::symbol_table::SymbolTable;

fn lines(text: &str) -> Vec<String> {
    text.lines().map(|l| l.to_string()).collect()
}

#[test]
fn reads_a_file_of_lines() {
    let src = lines("// header\n\n   @R0  \nD=M\n(LOOP)\n@@LOOP\n0;JMP\n((END))\n@+12\n");
    let ins = parse_lines(&src).unwrap();
    let numbered: Vec<u32> = ins.iter().map(|i| i.line_number).collect();
    assert_eq!(numbered, vec![3, 4, 5, 6, 7, 8, 9]);
    assert!(matches!(&ins[0].operator, Op::Symbol { symbol } if symbol == "R0"));
    assert!(matches!(ins[1].operator, Op::Comp { dest: DestFlags::D, comp: CompFlags::M, jump: JumpFlags::Null }));
    assert!(matches!(&ins[2].operator, Op::Label { label } if label == "LOOP"));
    assert!(matches!(&ins[3].operator, Op::Symbol { symbol } if symbol == "LOOP"));
    assert!(matches!(ins[4].operator, Op::Comp { dest: DestFlags::Null, comp: CompFlags::Zero, jump: JumpFlags::JMP }));
    assert!(matches!(&ins[5].operator, Op::Label { label } if label == "END"));
    assert!(matches!(ins[6].operator, Op::Address { address: 12 }));
}

#[test]
fn skips_to_relevant_lines() {
    let src = lines("// a\n\n  D=A  \n");
    let mut next = 0;
    let mut count = 0;
    assert_eq!(read_until_relevant_line(&src, &mut next, &mut count), Some("D=A".to_string()));
    assert_eq!((next, count), (3, 3));
    assert_eq!(read_until_relevant_line(&src, &mut next, &mut count), None);
}

#[test]
fn counts_lines_from_any_start() {
    let src = lines("x\n// a\n\n  D=A  \n// tail\n");
    let mut next = 1;
    let mut count = 10;
    assert_eq!(read_until_relevant_line(&src, &mut next, &mut count), Some("D=A".to_string()));
    assert_eq!((next, count), (4, 13));
    assert_eq!(read_until_relevant_line(&src, &mut next, &mut count), None);
    assert_eq!((next, count), (5, 14));
}

#[test]
fn reports_errors_with_line_numbers() {
    let err = parse_lines(&lines("@1\nX=A\n")).unwrap_err();
    assert_eq!(err.line_number, 2);
    assert!(matches!(err.kind, InstructionErrorKind::InvalidDest { ref dest } if dest == "X"));
    let err = parse_lines(&lines("D=Q")).unwrap_err();
    assert!(matches!(err.kind, InstructionErrorKind::InvalidComp { ref comp } if comp == "Q"));
    let err = parse_lines(&lines("\nD;JXX")).unwrap_err();
    assert_eq!(err.line_number, 2);
    assert!(matches!(err.kind, InstructionErrorKind::InvalidJump { ref jump } if jump == "JXX"));
    let err = parse_comp_instruction(7, "lower").unwrap_err();
    assert_eq!(err.line_number, 7);
    assert!(matches!(err.kind, InstructionErrorKind::InvalidComp { ref comp } if comp == "lower"));
}

#[test]
fn parses_dest_letters() {
    assert_eq!(parse_dest_flags("A", 1).unwrap().bits(), 0b100);
    assert_eq!(parse_dest_flags("DM", 1).unwrap().bits(), 0b011);
    assert_eq!(parse_dest_flags("ADM", 1).unwrap().bits(), 0b111);
    assert!(parse_dest_flags("AX", 1).is_err());
}

#[test]
fn encodes_with_line_numbered_errors() {
    let mut symbols = SymbolTable::new();
    symbols.insert("LOOP".to_string(), 4);
    let ins = translators::assembler::instructions::Instruction { line_number: 9, operator: Op::Symbol { symbol: "LOOP".to_string() } };
    assert_eq!(ins.get_opcode(&symbols).unwrap(), Some(4));
    let missing = translators::assembler::instructions::Instruction { line_number: 9, operator: Op::Symbol { symbol: "NOPE".to_string() } };
    let err = missing.get_opcode(&symbols).unwrap_err();
    assert_eq!(err.line_number, 9);
    assert!(matches!(err.kind, InstructionErrorKind::UndefinedSymbol { ref symbol } if symbol == "NOPE"));
}

#[test]
fn standalone_assembler_allocates_and_encodes() {
    let program = vec![
        Instruction::Addr { symbol: "i".to_string() },
        Instruction::Label { symbol: "LOOP".to_string() },
        Instruction::Addr { symbol: "LOOP".to_string() },
        Instruction::Addr { symbol: "TEMP".to_string() },
        Instruction::Addr { symbol: "+7".to_string() },
        Instruction::Addr { symbol: "KBD".to_string() },
        Instruction::Comp { dest: DestFlags::M, comp: CompFlags::D, jump: JumpFlags::Null },
    ];
    let symbols = create_symbols(&program);
    assert_eq!(symbols.get(&"i".to_string()), Some(16));
    assert_eq!(symbols.get(&"LOOP".to_string()), Some(1));
    assert_eq!(symbols.get(&"TEMP".to_string()), Some(17));
    let words = generate_opcodes(&program).unwrap();
    assert_eq!(words, vec![16, 1, 17, 7, 24576, 0b1110001100001000]);
    let err = generate_instruction(&SymbolTable::new(), &Instruction::Addr { symbol: "x".to_string() }).unwrap_err();
    assert_eq!(err.message(), "Cannot find symbol x in table.");
    assert_eq!(base_symbols().get(&"TEMP".to_string()), None);
}
