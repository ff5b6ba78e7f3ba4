use translators::assembler::{assemble, assembly_fits_check};
use translators::instructions::base_symbols::SP;
use translators::instructions::{AssemblyString, CompFlags, DestFlags, JumpFlags, OperatorKind};
use translators::vm_translator::helpers::{
    bool_stack_compare, do_bool_compare, i, ij, lbl, lbl_sym, move_to_addr, pop_stack, push_stack,
    setup_segment, sym, val,
};
use translators::vm_translator::parser::{index_overflows, parser, Command, Segment};
use translators::vm_translator::{translate_command, translate_commands, translation_fits};
use translators::instructions::write_listing;

fn texts(ops: &[OperatorKind]) -> Vec<String> {
    ops.iter().map(|o| o.to_asm()).collect()
}

#[test]
fn helpers_build_single_operators() {
    assert_eq!(i(DestFlags::D, CompFlags::A).to_asm(), "D=A");
    assert_eq!(ij(CompFlags::Zero, JumpFlags::JMP).to_asm(), "0;JMP");
    assert_eq!(val(7).to_asm(), "@7");
    assert_eq!(lbl("LOOP").to_asm(), "(LOOP)");
    assert_eq!(lbl_sym("LOOP").to_asm(), "@LOOP");
    assert_eq!(sym(SP).to_asm(), "@SP");
    assert_eq!(sym(5).to_asm(), "@TEMP");
    assert_eq!(sym(13).to_asm(), "@R13");
    assert_eq!(sym(256), OperatorKind::Address(256));
}

#[test]
fn stack_code() {
    assert_eq!(texts(&push_stack()), vec!["@SP", "AM=M+1", "A=A-1", "M=D"]);
    assert_eq!(texts(&pop_stack()), vec!["@SP", "AM=M-1", "D=M", "A=A-1"]);
    assert_eq!(texts(&setup_segment()), vec!["(SETUP)", "@256", "D=A", "@SP", "M=D", "@CODE", "0;JMP"]);
    assert_eq!(texts(&do_bool_compare("EQ", 42)), vec!["@EQ_RET_42", "D=A", "@EQ", "0;JMP", "(EQ_RET_42)"]);
    let cmp = texts(&bool_stack_compare("LT", "LT_RET", JumpFlags::JGE));
    assert_eq!(cmp.len(), 18);
    assert_eq!(cmp[0], "(LT)");
    assert_eq!(cmp[10], "D;JGE");
    assert_eq!(cmp[14], "(LT_RET)");
}

#[test]
fn segment_addresses() {
    let mut ops = Vec::new();
    assert!(move_to_addr("Prog", &mut ops, Segment::Static, 3));
    assert_eq!(texts(&ops), vec!["@Prog.3"]);
    let mut ops = Vec::new();
    assert!(!move_to_addr("Prog", &mut ops, Segment::Constant, 17));
    assert_eq!(texts(&ops), vec!["@17", "D=A"]);
    let mut ops = Vec::new();
    assert!(move_to_addr("Prog", &mut ops, Segment::Local, 2));
    assert_eq!(texts(&ops), vec!["@2", "D=A", "@LCL", "A=D+M"]);
    let mut ops = Vec::new();
    assert!(move_to_addr("Prog", &mut ops, Segment::Pointer, 1));
    assert_eq!(texts(&ops), vec!["@THAT"]);
    let mut ops = Vec::new();
    assert!(move_to_addr("Prog", &mut ops, Segment::Temp, 2));
    assert_eq!(texts(&ops), vec!["@R7"]);
}

#[test]
fn commands_translate() {
    let mut ops = Vec::new();
    translate_command("Prog", &mut ops, 0, Command::Push(Segment::Constant, 7));
    assert_eq!(texts(&ops), vec!["@7", "D=A", "@SP", "AM=M+1", "A=A-1", "M=D"]);
    let mut ops = Vec::new();
    translate_command("Prog", &mut ops, 3, Command::Push(Segment::Argument, 1));
    assert_eq!(texts(&ops), vec!["@1", "D=A", "@ARG", "A=D+M", "D=M", "@SP", "AM=M+1", "A=A-1", "M=D"]);
    let mut ops = Vec::new();
    translate_command("Prog", &mut ops, 3, Command::Add);
    assert_eq!(texts(&ops), vec!["@SP", "AM=M-1", "D=M", "A=A-1", "M=D+M"]);
    let mut ops = Vec::new();
    translate_command("Prog", &mut ops, 9, Command::GreaterThan);
    assert_eq!(texts(&ops), vec!["@GT_RET_9", "D=A", "@GT", "0;JMP", "(GT_RET_9)"]);
    let mut ops = Vec::new();
    translate_command("Prog", &mut ops, 0, Command::Not);
    assert_eq!(texts(&ops), vec!["@SP", "A=M-1", "M=!M"]);
    let mut ops = Vec::new();
    translate_command("Prog", &mut ops, 0, Command::Pop(Segment::That, 2));
    assert_eq!(
        texts(&ops),
        vec![
            "@SP", "AM=M-1", "D=M", "A=A-1", "@R13", "M=D", "@2", "D=A", "@THAT", "A=D+M", "D=A", "@R14", "M=D",
            "@R13", "D=M", "@R14", "A=M", "M=D"
        ]
    );
}

const SIMPLE_ADD: &str = "// Pushes and adds two constants.\npush constant 7\npush constant 8\nadd\neq\n";

#[test]
fn translation_is_assembled_back() {
    assert!(!index_overflows(SIMPLE_ADD));
    let commands = parser(SIMPLE_ADD).unwrap();
    assert_eq!(
        commands,
        vec![Command::Push(Segment::Constant, 7), Command::Push(Segment::Constant, 8), Command::Add, Command::Equal]
    );
    assert!(translation_fits(&commands));
    let ops = translate_commands("SimpleAdd", &commands);
    assert_eq!(ops.len(), 7 + 3 * 18 + 1 + 6 + 6 + 5 + 5 + 3);
    let text = write_listing(&ops);
    assert!(assembly_fits_check(&text));
    let (listing, words) = assemble(&text).unwrap();
    let read_back: Vec<OperatorKind> = listing.0.into_iter().map(|i| i.operator).collect();
    assert_eq!(read_back, ops);
    let labels = ops.iter().filter(|o| matches!(o, OperatorKind::Label(_))).count();
    assert_eq!(words.len(), ops.len() - labels);
}

#[test]
fn vm_errors_and_limits() {
    assert_eq!(parser("push constant 1\nfoo").unwrap_err().position, 16);
    assert!(index_overflows("push constant 65536"));
    assert!(!translation_fits(&[Command::Push(Segment::Temp, 65531)]));
    assert!(translation_fits(&[Command::Push(Segment::Temp, 65530)]));
}
