//! Hack assembly instructions: the operator of each line, its text, and its opcode.
use vstd::prelude::*;
use crate::text_util::{decimal, push_chars, push_decimal};

pub mod base_symbols;
pub mod error;
pub mod flags;
pub mod machine;
pub mod mnemonics;
pub mod opcodes;

pub use flags::{CompFlags, DestFlags, JumpFlags};

verus! {

/// Something that can be written as Hack assembly text.
pub trait AssemblyString {
    /// The assembly text.
    spec fn spec_asm(&self) -> Seq<char>;

    fn to_asm(&self) -> (s: String)
        ensures
            s@ == self.spec_asm(),
    ;
}

/// A listing of instructions, written one per line.
pub struct Instructions(pub Vec<Instruction>);

/// An instruction with the source line it came from.
#[derive(Debug)]
pub struct Instruction {
    pub line_number: u32,
    pub operator: OperatorKind,
}

/// The four kinds of Hack assembly lines.
#[derive(Debug, PartialEq, Eq, Clone)]
pub enum OperatorKind {
    /// `@123`: load a constant into `A`.
    Address(u16),
    /// `@name`: load the address of a label, a variable or a predefined symbol.
    Symbol(String),
    /// `(name)`: name the address of the next instruction.
    Label(String),
    /// `dest=comp;jump`.
    Comp(DestFlags, CompFlags, JumpFlags),
}

/// The mathematical value of an [`OperatorKind`]: names as character sequences.
pub enum OpSpec {
    Address(u16),
    Symbol(Seq<char>),
    Label(Seq<char>),
    Comp(DestFlags, CompFlags, JumpFlags),
}

impl View for OperatorKind {
    type V = OpSpec;

    open spec fn view(&self) -> OpSpec {
        match self {
            OperatorKind::Address(a) => OpSpec::Address(*a),
            OperatorKind::Symbol(s) => OpSpec::Symbol(s@),
            OperatorKind::Label(l) => OpSpec::Label(l@),
            OperatorKind::Comp(d, c, j) => OpSpec::Comp(*d, *c, *j),
        }
    }
}

/// The operators of a sequence of instructions.
pub open spec fn ops_of(instructions: Seq<Instruction>) -> Seq<OpSpec> {
    instructions.map_values(|i: Instruction| i.operator@)
}

/// The views of a sequence of operators.
pub open spec fn op_views(ops: Seq<OperatorKind>) -> Seq<OpSpec> {
    ops.map_values(|o: OperatorKind| o@)
}

/// The assembly text of one operator: `@123`, `@name`, `(name)` or
/// `dest=comp;jump`, where `dest=` is left out when no register is set and
/// `;jump` when there is no jump.
pub open spec fn asm_text(op: OpSpec) -> Seq<char> {
    match op {
        OpSpec::Address(a) => seq!['@'] + decimal(a as nat),
        OpSpec::Symbol(s) => seq!['@'] + s,
        OpSpec::Label(l) => seq!['('] + l + seq![')'],
        OpSpec::Comp(d, c, j) => (if d.spec_bits() == 0 {
            Seq::empty()
        } else {
            d.spec_name() + seq!['=']
        }) + c.spec_name() + (if j == JumpFlags::Null {
            Seq::empty()
        } else {
            seq![';'] + j.spec_name()
        }),
    }
}

/// The text of a listing: each operator's text followed by a line feed.
pub open spec fn asm_lines(ops: Seq<OpSpec>) -> Seq<char>
    decreases ops.len(),
{
    if ops.len() == 0 {
        Seq::empty()
    } else {
        asm_lines(ops.drop_last()) + asm_text(ops.last()) + seq!['\n']
    }
}

impl OperatorKind {
    /// A copy of this operator.
    pub fn duplicate(&self) -> (r: OperatorKind)
        ensures
            r@ == self@,
    {
        match self {
            OperatorKind::Address(a) => OperatorKind::Address(*a),
            OperatorKind::Symbol(s) => OperatorKind::Symbol(s.clone()),
            OperatorKind::Label(l) => OperatorKind::Label(l.clone()),
            OperatorKind::Comp(d, c, j) => OperatorKind::Comp(*d, *c, *j),
        }
    }

    /// Appends the assembly text of this operator.
    pub fn write_asm(&self, out: &mut String)
        ensures
            final(out)@ == old(out)@ + asm_text(self@),
    {
        let ghost start = out@;
        match self {
            OperatorKind::Address(a) => {
                out.push('@');
                push_decimal(out, *a as u32);
            },
            OperatorKind::Symbol(s) => {
                out.push('@');
                push_chars(out, s.as_str());
            },
            OperatorKind::Label(l) => {
                out.push('(');
                push_chars(out, l.as_str());
                out.push(')');
            },
            OperatorKind::Comp(d, c, j) => {
                if !d.is_empty() {
                    d.write_name(out);
                    out.push('=');
                }
                let ghost mid = out@;
                c.write_name(out);
                let ghost mid2 = out@;
                match j {
                    JumpFlags::Null => {},
                    _ => {
                        out.push(';');
                        j.write_name(out);
                    },
                }
                proof {
                    let dpart = if d.spec_bits() == 0 { Seq::<char>::empty() } else { d.spec_name() + seq!['='] };
                    assert(mid =~= start + dpart);
                    let jpart = if *j == JumpFlags::Null { Seq::<char>::empty() } else { seq![';'] + j.spec_name() };
                    assert(out@ =~= mid2 + jpart);
                }
            },
        }
        assert(out@ =~= start + asm_text(self@));
    }
}

impl AssemblyString for OperatorKind {
    open spec fn spec_asm(&self) -> Seq<char> {
        asm_text(self@)
    }

    fn to_asm(&self) -> (s: String) {
        let mut s = String::new();
        self.write_asm(&mut s);
        assert(s@ =~= asm_text(self@));
        s
    }
}

impl AssemblyString for Instruction {
    open spec fn spec_asm(&self) -> Seq<char> {
        asm_text(self.operator@)
    }

    fn to_asm(&self) -> (s: String) {
        self.operator.to_asm()
    }
}

impl AssemblyString for Instructions {
    open spec fn spec_asm(&self) -> Seq<char> {
        asm_lines(ops_of(self.0@))
    }

    fn to_asm(&self) -> (s: String) {
        let mut s = String::new();
        let mut i: usize = 0;
        while i < self.0.len()
            invariant
                i <= self.0.len(),
                s@ == asm_lines(ops_of(self.0@.take(i as int))),
            decreases self.0.len() - i,
        {
            self.0[i].operator.write_asm(&mut s);
            s.push('\n');
            proof {
                let t = self.0@.take(i + 1);
                assert(t.drop_last() =~= self.0@.take(i as int));
                assert(ops_of(t).drop_last() =~= ops_of(self.0@.take(i as int)));
            }
            i = i + 1;
        }
        assert(self.0@.take(self.0.len() as int) =~= self.0@);
        s
    }
}

/// The text of a listing of operators, one per line.
pub fn write_listing(ops: &[OperatorKind]) -> (s: String)
    ensures
        s@ == asm_lines(op_views(ops@)),
{
    let mut s = String::new();
    let mut i: usize = 0;
    while i < ops.len()
        invariant
            i <= ops.len(),
            s@ == asm_lines(op_views(ops@.take(i as int))),
        decreases ops.len() - i,
    {
        ops[i].write_asm(&mut s);
        s.push('\n');
        proof {
            let t = ops@.take(i + 1);
            assert(op_views(t).drop_last() =~= op_views(ops@.take(i as int)));
        }
        i = i + 1;
    }
    assert(ops@.take(ops.len() as int) =~= ops@);
    s
}

} // verus!
