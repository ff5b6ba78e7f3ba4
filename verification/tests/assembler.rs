use translators::assembler::code::{extract_symbols, generate_opcodes, symbols_fit_check};
use translators::assembler::parser_new::{address_overflows, parser};
use translators::assembler::{assemble, assembly_fits_check, write_opcodes};
use translators::instructions::base_symbols::{by_address, by_name};
use translators::instructions::{AssemblyString, CompFlags, DestFlags, Instruction, JumpFlags, OperatorKind};

fn instructions(ops: Vec<OperatorKind>) -> Vec<Instruction> {
    ops.into_iter().map(|operator| Instruction { line_number: 0, operator }).collect()
}

fn sym(s: &str) -> OperatorKind {
    OperatorKind::Symbol(s.to_string())
}

fn label(s: &str) -> OperatorKind {
    OperatorKind::Label(s.to_string())
}

const ADD_ASM: &str = "// Computes R0 = 2 + 3\n@2\nD=A\n@3\nD=D+A\n@0\nM=D\n";

#[test]
fn assembles_add_program() {
    assert!(assembly_fits_check(ADD_ASM));
    let (listing, words) = assemble(ADD_ASM).unwrap();
    assert_eq!(listing.0.len(), 6);
    assert_eq!(
        words,
        vec![
            0b0000000000000010,
            0b1110110000010000,
            0b0000000000000011,
            0b1110000010010000,
            0b0000000000000000,
            0b1110001100001000,
        ]
    );
    let mut out = String::new();
    write_opcodes(&words, &mut out);
    assert_eq!(
        out,
        "0000000000000010\n1110110000010000\n0000000000000011\n1110000010010000\n0000000000000000\n1110001100001000\n"
    );
}

#[test]
fn labels_point_at_the_next_instruction() {
    // (LOOP) is at 1, (END) at 3; a second (LOOP) is ignored
    let program = instructions(vec![
        OperatorKind::Address(0),
        label("LOOP"),
        sym("LOOP"),
        OperatorKind::Comp(DestFlags::Null, CompFlags::Zero, JumpFlags::JMP),
        label("END"),
        label("LOOP"),
        sym("END"),
    ]);
    let symbols = extract_symbols(&program);
    assert_eq!(symbols.get(&"LOOP".to_string()), Some(1));
    assert_eq!(symbols.get(&"END".to_string()), Some(3));
    let words = generate_opcodes(&program).unwrap();
    assert_eq!(words, vec![0, 1, 0b1110101010000111, 3]);
}

#[test]
fn variables_get_ram_from_16_in_order_of_first_use() {
    let program = instructions(vec![sym("i"), sym("sum"), sym("i"), sym("R3"), sym("SCREEN"), sym("TEMP"), sym("x")]);
    assert!(symbols_fit_check(&program));
    let symbols = extract_symbols(&program);
    assert_eq!(symbols.get(&"i".to_string()), Some(16));
    assert_eq!(symbols.get(&"sum".to_string()), Some(17));
    assert_eq!(symbols.get(&"x".to_string()), Some(18));
    assert_eq!(symbols.get(&"R3".to_string()), None);
    let words = generate_opcodes(&program).unwrap();
    assert_eq!(words, vec![16, 17, 16, 3, 16384, 5, 18]);
}

#[test]
fn predefined_symbols_override_labels() {
    let program = instructions(vec![OperatorKind::Address(1), label("SP"), sym("SP")]);
    let words = generate_opcodes(&program).unwrap();
    assert_eq!(words, vec![1, 0]);
}

#[test]
fn base_symbol_tables() {
    let names = by_name();
    assert_eq!(names.get(&"KBD".to_string()), Some(24576));
    assert_eq!(names.get(&"TEMP".to_string()), Some(5));
    assert_eq!(names.get(&"R15".to_string()), Some(15));
    assert_eq!(names.get(&"R16".to_string()), None);
    let addresses = by_address();
    assert_eq!(addresses.get(0).map(|s| s.as_str()), Some("SP"));
    assert_eq!(addresses.get(5).map(|s| s.as_str()), Some("TEMP"));
    assert_eq!(addresses.get(6).map(|s| s.as_str()), Some("R6"));
    assert_eq!(addresses.get(16384).map(|s| s.as_str()), Some("SCREEN"));
    assert_eq!(addresses.get(16), None);
    // every preferred name maps back to its address
    for a in [0u16, 1, 2, 3, 4, 5, 6, 9, 15, 16384, 24576] {
        let n = addresses.get(a).unwrap();
        assert_eq!(names.get(n), Some(a));
    }
}

#[test]
fn parse_errors_report_the_failing_item() {
    let err = parser("@1\nD=A\nbogus").unwrap_err();
    assert_eq!(err.position, 7);
    let err = parser("// only a comment").unwrap_err();
    assert_eq!(err.position, 0);
    assert!(assemble("D=A\n@x\n(L").is_err());
}

#[test]
fn oversized_addresses_are_fatal() {
    assert!(address_overflows("@65536"));
    assert!(!address_overflows("@65535"));
    assert!(!assembly_fits_check("D=A\n@70000"));
    assert_eq!(parser("@65535").unwrap(), vec![OperatorKind::Address(65535)]);
}

#[test]
fn dest_letters_combine_in_any_order() {
    let dm = parser("MD=1").unwrap();
    assert_eq!(dm[0], OperatorKind::Comp(DestFlags::DM, CompFlags::True, JumpFlags::Null));
    assert_eq!(DestFlags::DM.bits(), 0b011);
    assert_eq!(DestFlags::A.bits(), 0b100);
    assert_eq!((DestFlags::A | DestFlags::D | DestFlags::M).bits(), 0b111);
    assert_eq!(DestFlags::M | DestFlags::M, DestFlags::M);
}

#[test]
fn text_reads_back_as_the_same_operators() {
    let ops = vec![
        OperatorKind::Address(0),
        OperatorKind::Address(65535),
        sym("Prog.3"),
        label("EQ_RET_12"),
        OperatorKind::Comp(DestFlags::AM, CompFlags::MPlus1, JumpFlags::Null),
        OperatorKind::Comp(DestFlags::Null, CompFlags::D, JumpFlags::JGE),
        OperatorKind::Comp(DestFlags::ADM, CompFlags::DOrM, JumpFlags::JMP),
    ];
    let text: String = ops.iter().map(|o| o.to_asm() + "\n").collect();
    assert_eq!(text, "@0\n@65535\n@Prog.3\n(EQ_RET_12)\nAM=M+1\nD;JGE\nADM=D|M;JMP\n");
    assert_eq!(parser(&text).unwrap(), ops);
    assert_eq!(translators::instructions::write_listing(&ops), text);
}

#[test]
fn every_mnemonic_reads_back() {
    for bits in 0..128u16 {
        if let Some(c) = CompFlags::from_repr(bits) {
            let op = OperatorKind::Comp(DestFlags::D, c, JumpFlags::JLT);
            assert_eq!(parser(&op.to_asm()).unwrap(), vec![op]);
            assert_eq!(c.bits(), bits);
        }
    }
    assert_eq!(JumpFlags::from_repr(7), Some(JumpFlags::JMP));
    assert_eq!(JumpFlags::from_repr(8), None);
    assert_eq!(CompFlags::from_repr(0b1_000_010), Some(CompFlags::DPlusM));
    assert_eq!(CompFlags::from_repr(1), None);
}

#[test]
fn defaults() {
    assert_eq!(DestFlags::default(), DestFlags::Null);
    assert_eq!(JumpFlags::default(), JumpFlags::Null);
    assert_eq!(CompFlags::default(), CompFlags::DAndA);
}
