use translators::assembler::parser_new::parser;
use translators::instructions::{CompFlags, DestFlags, JumpFlags, OperatorKind};

#[test]
fn it_should_parse_address() {
    let result = parser("@12345").unwrap();

    assert_eq!(result[0], OperatorKind::Address(12345));
}

#[test]
fn it_should_parse_label() {
    let result = parser("(Prog.$if_true)").unwrap();

    assert_eq!(result[0], OperatorKind::Label("Prog.$if_true".to_string()));
}

#[test]
fn it_should_parse_symbol() {
    let result = parser("@Prog.$if_true").unwrap();

    assert_eq!(result[0], OperatorKind::Symbol("Prog.$if_true".to_string()));
}

#[test]
fn it_should_parse_symbol_without_newline() {
    let result = parser("@Prog.$if_true\n").unwrap();

    assert_eq!(result[0], OperatorKind::Symbol("Prog.$if_true".to_string()));
}

#[test]
fn it_should_parse_dest_instruction() {
    let result = parser("D=A").unwrap();

    assert_eq!(
        result[0],
        OperatorKind::Comp(DestFlags::D, CompFlags::A, JumpFlags::Null)
    );
}

#[test]
fn it_should_parse_jump_instruction() {
    let result = parser("0;JMP").unwrap();

    assert_eq!(
        result[0],
        OperatorKind::Comp(DestFlags::Null, CompFlags::Zero, JumpFlags::JMP)
    );
}

#[test]
fn it_should_parse_full_instruction() {
    let result = parser("ADM=M+1;JMP").unwrap();

    assert_eq!(
        result[0],
        OperatorKind::Comp(
            DestFlags::A | DestFlags::D | DestFlags::M,
            CompFlags::MPlus1,
            JumpFlags::JMP
        )
    );
}

#[test]
fn it_should_parse_multiple_lines() {
    let result = parser("@256\nD=A").unwrap();

    assert_eq!(result[0], OperatorKind::Address(256));
    assert_eq!(
        result[1],
        OperatorKind::Comp(DestFlags::D, CompFlags::A, JumpFlags::Null)
    );
}
