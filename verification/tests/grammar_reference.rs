//! The assembly and VM grammars checked against the same grammars written with
//! chumsky's combinators, and the C-instruction matcher against the regex crate.
use chumsky::error::Rich;
use chumsky::extra;
use chumsky::primitive::{any, choice, group, just, none_of};
use chumsky::span::SimpleSpan;
use chumsky::text;
use chumsky::{IterParser, Parser};
use translators::assembler::parser_new::parser as asm_parser;
use translators::instructions::{CompFlags, DestFlags, JumpFlags, OperatorKind};
use translators::project6::parser::comp_captures;
use translators::vm_translator::parser::{parser as vm_parser, Command, Segment};

type Error<'src> = Rich<'src, char, SimpleSpan>;

fn chars(s: &str) -> Vec<char> {
    s.chars().collect()
}

fn comp_from(s: &str) -> Option<CompFlags> {
    let cs = chars(s);
    CompFlags::from_chars(&cs, 0, cs.len())
}

fn jump_from(s: &str) -> Option<JumpFlags> {
    let cs = chars(s);
    JumpFlags::from_chars(&cs, 0, cs.len())
}

fn dest_from(s: &str) -> Option<DestFlags> {
    let mut d = DestFlags::Null;
    for c in s.chars() {
        d = d | DestFlags::from_letter(c)?;
    }
    Some(d)
}

fn reference_asm<'src>() -> impl Parser<'src, &'src str, Vec<OperatorKind>, extra::Err<Error<'src>>> {
    let comment = just("//")
        .then(any().and_is(text::newline().not()).repeated())
        .padded();
    let digits = text::digits(10).to_slice().from_str::<u16>().unwrapped();
    let ident = any()
        .filter(char::is_ascii_graphic)
        .and_is(none_of("@()=;"))
        .repeated()
        .at_least(1)
        .to_slice();
    let symbol = just('@').ignore_then(ident.map(|s: &str| OperatorKind::Symbol(s.to_string())));
    let address = just('@').ignore_then(digits.map(OperatorKind::Address));
    let label = ident
        .map(|s: &str| OperatorKind::Label(s.to_string()))
        .delimited_by(just('('), just(')'));
    let dest_flags = ident
        .then_ignore(just('='))
        .try_map(|dest: &str, span| dest_from(dest).ok_or_else(|| Rich::custom(span, "dest")));
    let jump_flags = just(';')
        .ignore_then(ident)
        .try_map(|jump: &str, span| jump_from(jump).ok_or_else(|| Rich::custom(span, "jump")));
    let comp_flags = ident.try_map(|comp: &str, span| comp_from(comp).ok_or_else(|| Rich::custom(span, "comp")));
    let instruction = group((dest_flags.or_not(), comp_flags, jump_flags.or_not())).map(|(dest, comp, jump)| {
        OperatorKind::Comp(dest.unwrap_or(DestFlags::Null), comp, jump.unwrap_or(JumpFlags::Null))
    });
    choice((instruction, address, label, symbol))
        .padded_by(comment.repeated())
        .padded()
        .repeated()
        .collect()
}

fn reference_vm<'src>() -> impl Parser<'src, &'src str, Vec<Command>, extra::Err<Error<'src>>> {
    let index = text::int(10).to_slice().from_str::<u16>().unwrapped();
    let segment = choice((
        just("argument").to(Segment::Argument),
        just("local").to(Segment::Local),
        just("static").to(Segment::Static),
        just("constant").to(Segment::Constant),
        just("this").to(Segment::This),
        just("that").to(Segment::That),
        just("pointer").to(Segment::Pointer),
        just("temp").to(Segment::Temp),
    ))
    .padded()
    .then(index);
    let comment = just("//")
        .then(any().and_is(text::newline().not()).repeated())
        .padded();
    choice((
        just("push").then(segment.clone()).map(|(_, (s, i))| Command::Push(s, i)),
        just("pop").then(segment.clone()).map(|(_, (s, i))| Command::Pop(s, i)),
        just("eq").to(Command::Equal),
        just("gt").to(Command::GreaterThan),
        just("lt").to(Command::LessThan),
        just("add").to(Command::Add),
        just("sub").to(Command::Subtract),
        just("neg").to(Command::Negate),
        just("and").to(Command::And),
        just("or").to(Command::Or),
        just("not").to(Command::Not),
    ))
    .padded_by(comment.repeated())
    .padded()
    .repeated()
    .collect()
}

const ASM_SAMPLES: &[&str] = &[
    "",
    "@12345",
    "(Prog.$if_true)",
    "@Prog.$if_true",
    "@Prog.$if_true\n",
    "D=A",
    "0;JMP",
    "ADM=M+1;JMP",
    "@256\nD=A",
    "// only a comment",
    "@1 // trailing comment\n  D=M\n\n// end\n",
    "  \t@R0\r\nD;JGT\n(LOOP)\n@LOOP\n0;JMP",
    "@12abc",
    "@12D=A",
    "D=A@5",
    "X=A",
    "1=D",
    "D=A;JXX",
    "D=A;",
    "AMD=D|M",
    "MD=!M",
    "D=D-1;JNE",
    "(NO_CLOSE",
    "()",
    "@",
    "=A",
    "D==A",
    "A=-1\n@0\nM=D",
    "D=A//x",
    "@x\u{a0}D=A",
    "@x\u{2028}//c\u{2029}@y",
    "D=1;JMP extra",
    "@007",
    "(L)(M)@L",
    "@a.b$c_d:e",
];

#[test]
fn assembly_grammar_matches_reference() {
    for sample in ASM_SAMPLES {
        let reference = reference_asm().parse(*sample).into_output();
        let ours = asm_parser(sample).ok();
        assert_eq!(ours, reference, "on {sample:?}");
    }
}

const VM_SAMPLES: &[&str] = &[
    "",
    "push constant 7\npush constant 8\nadd",
    "pop local 0",
    "push argument 1 // comment\nsub\nneg\neq\ngt\nlt\nand\nor\nnot",
    "pushconstant5",
    "push constant5",
    "push constant 007",
    "push constant 0",
    "push pointer 1\npop that 6\npush temp 6\npop static 3",
    "push local",
    "push nowhere 1",
    "andx",
    "// just a comment",
    "push constant 1 // c\n// d\npop temp 0\n",
    "eqgt",
    "push  \t constant \n 17",
    "pop this 2 add",
];

#[test]
fn vm_grammar_matches_reference() {
    for sample in VM_SAMPLES {
        let reference = reference_vm().parse(*sample).into_output();
        let ours = vm_parser(sample).ok();
        assert_eq!(ours, reference, "on {sample:?}");
    }
}

const COMP_PATTERN: &str = "(?:(?P<dest>[A-Z]+)?=)?(?P<comp>[A-Z0-9&!\\+\\-\\|]+);?(?P<jump>[A-Z]{3})?";

const COMP_SAMPLES: &[&str] = &[
    "D=A", "0;JMP", "AM=M+1", "D;JGT", "x=D", "d=a", "AM=m+1", "=D", "D=M // comment", "D=A;JG",
    "0;JMPX", "M=D|M;JNE", "", "  ", "A=!D", "MD=D-1;JLE", "Ab=C", "q;JMP", "D=", "=", ";JMP",
];

#[test]
fn comp_matcher_matches_regex() {
    let re = regex::Regex::new(COMP_PATTERN).unwrap();
    for sample in COMP_SAMPLES {
        let cs = chars(sample);
        let span_text = |span: (usize, usize)| cs[span.0..span.1].iter().collect::<String>();
        let ours = comp_captures(&cs).map(|c| (c.dest.map(span_text), span_text(c.comp), c.jump.map(span_text)));
        let reference = re.captures(sample).map(|c| {
            (
                c.name("dest").map(|m| m.as_str().to_string()),
                c.name("comp").unwrap().as_str().to_string(),
                c.name("jump").map(|m| m.as_str().to_string()),
            )
        });
        assert_eq!(ours, reference, "on {sample:?}");
    }
}
