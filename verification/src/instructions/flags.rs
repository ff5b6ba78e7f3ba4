//! The three fields of a Hack C-instruction: where the result goes (`dest`),
//! what the ALU computes (`comp`), and when to jump (`jump`).
use vstd::prelude::*;


verus! {

/// The destination registers of a C-instruction: any subset of `A`, `D` and `M`,
/// named by the letters it holds in the order `A`, `D`, `M`.
#[derive(Debug, Clone, Copy, PartialEq, Eq, Structural)]
pub enum DestFlags {
    Null,
    M,
    D,
    DM,
    A,
    AM,
    AD,
    ADM,
}

/// The jump condition of a C-instruction.
#[derive(Debug, Clone, Copy, PartialEq, Eq, Structural)]
pub enum JumpFlags {
    Null,
    JGT,
    JEQ,
    JGE,
    JLT,
    JNE,
    JLE,
    JMP,
}

/// The ALU computation of a C-instruction; the `a` bit selects `M` over `A`.
#[derive(Debug, Clone, Copy, PartialEq, Eq, Structural)]
pub enum CompFlags {
    Zero,
    True,
    Neg1,
    D,
    A,
    NotD,
    NotA,
    NegD,
    NegA,
    DPlus1,
    APlus1,
    DNeg1,
    ANeg1,
    DPlusA,
    DNegA,
    ANegD,
    DAndA,
    DOrA,
    M,
    NotM,
    NegM,
    MPlus1,
    MNeg1,
    DPlusM,
    DNegM,
    MNegD,
    DAndM,
    DOrM,
}

impl DestFlags {
    /// The three `ddd` bits: `A` is 4, `D` is 2, `M` is 1.
    pub open spec fn spec_bits(self) -> u16 {
        match self {
            DestFlags::Null => 0,
            DestFlags::M => 1,
            DestFlags::D => 2,
            DestFlags::DM => 3,
            DestFlags::A => 4,
            DestFlags::AM => 5,
            DestFlags::AD => 6,
            DestFlags::ADM => 7,
        }
    }

    /// The flags whose bits are `b` (for `b < 8`).
    pub open spec fn spec_from_bits(b: u16) -> DestFlags {
        if b == 0 {
            DestFlags::Null
        }
        else if b == 1 {
            DestFlags::M
        }
        else if b == 2 {
            DestFlags::D
        }
        else if b == 3 {
            DestFlags::DM
        }
        else if b == 4 {
            DestFlags::A
        }
        else if b == 5 {
            DestFlags::AM
        }
        else if b == 6 {
            DestFlags::AD
        }
        else if b == 7 {
            DestFlags::ADM
        }
        else {
            DestFlags::ADM
        }
    }

    pub open spec fn has_a(self) -> bool {
        self.spec_bits() >= 4
    }

    pub open spec fn has_d(self) -> bool {
        self.spec_bits() % 4 >= 2
    }

    pub open spec fn has_m(self) -> bool {
        self.spec_bits() % 2 == 1
    }

    /// The flag letters, in the order `A`, `D`, `M` (how the flags are displayed).
    pub open spec fn spec_name(self) -> Seq<char> {
        (if self.has_a() { seq!['A'] } else { Seq::empty() })
            + (if self.has_d() { seq!['D'] } else { Seq::empty() })
            + (if self.has_m() { seq!['M'] } else { Seq::empty() })
    }

    /// The registers set in either operand.
    pub open spec fn spec_union(self, other: DestFlags) -> DestFlags {
        DestFlags::spec_from_bits(
            ((if self.has_a() || other.has_a() { 4u16 } else { 0u16 }) + (if self.has_d()
                || other.has_d() { 2u16 } else { 0u16 }) + (if self.has_m() || other.has_m() {
                1u16
            } else {
                0u16
            })) as u16,
        )
    }

    pub open spec fn spec_from_letter(c: char) -> Option<DestFlags> {
        if c == 'A' {
            Some(DestFlags::A)
        } else if c == 'D' {
            Some(DestFlags::D)
        } else if c == 'M' {
            Some(DestFlags::M)
        } else {
            None
        }
    }

    pub fn bits(&self) -> (b: u16)
        ensures
            b == self.spec_bits(),
            b < 8,
    {
        match self {
            DestFlags::Null => 0,
            DestFlags::M => 1,
            DestFlags::D => 2,
            DestFlags::DM => 3,
            DestFlags::A => 4,
            DestFlags::AM => 5,
            DestFlags::AD => 6,
            DestFlags::ADM => 7,
        }
    }

    pub fn from_bits(b: u16) -> (r: Option<DestFlags>)
        ensures
            b < 8 ==> r == Some(DestFlags::spec_from_bits(b)),
            b >= 8 ==> r is None,
    {
        if b == 0 {
            Some(DestFlags::Null)
        }
        else if b == 1 {
            Some(DestFlags::M)
        }
        else if b == 2 {
            Some(DestFlags::D)
        }
        else if b == 3 {
            Some(DestFlags::DM)
        }
        else if b == 4 {
            Some(DestFlags::A)
        }
        else if b == 5 {
            Some(DestFlags::AM)
        }
        else if b == 6 {
            Some(DestFlags::AD)
        }
        else if b == 7 {
            Some(DestFlags::ADM)
        }
        else {
            None
        }
    }

    pub proof fn lemma_bits_roundtrip(self)
        ensures
            DestFlags::spec_from_bits(self.spec_bits()) == self,
            self.spec_bits() < 8,
    {
    }

    /// No destination register is set.
    pub fn is_empty(&self) -> (b: bool)
        ensures
            b == (self.spec_bits() == 0),
            b == (*self == DestFlags::Null),
    {
        match self {
            DestFlags::Null => true,
            _ => false,
        }
    }

    /// The registers set in either operand.
    pub fn union(self, other: DestFlags) -> (r: DestFlags)
        ensures
            r == self.spec_union(other),
            r.spec_bits() == self.spec_bits() | other.spec_bits(),
    {
        let a = self.bits();
        let b = other.bits();
        let u = a | b;
        assert(u < 8 && u == (if a >= 4 || b >= 4 { 4u16 } else { 0u16 }) + (if a % 4 >= 2 || b % 4
            >= 2 { 2u16 } else { 0u16 }) + (if a % 2 == 1 || b % 2 == 1 { 1u16 } else { 0u16 }))
            by (bit_vector)
            requires
                a < 8 && b < 8 && u == a | b,
        ;
        match DestFlags::from_bits(u) {
            Some(f) => f,
            None => DestFlags::ADM,
        }
    }

    /// The flag named by one letter: `A`, `D` or `M`.
    pub fn from_letter(c: char) -> (r: Option<DestFlags>)
        ensures
            r == DestFlags::spec_from_letter(c),
    {
        if c == 'A' {
            Some(DestFlags::A)
        } else if c == 'D' {
            Some(DestFlags::D)
        } else if c == 'M' {
            Some(DestFlags::M)
        } else {
            None
        }
    }

    /// Appends the flag letters, in the order `A`, `D`, `M`.
    pub fn write_name(&self, out: &mut String)
        ensures
            final(out)@ == old(out)@ + self.spec_name(),
    {
        let ghost start = out@;
        let b = self.bits();
        if b >= 4 {
            out.push('A');
        }
        if b % 4 >= 2 {
            out.push('D');
        }
        if b % 2 == 1 {
            out.push('M');
        }
        assert(out@ =~= start + self.spec_name());
    }
}

impl core::ops::BitOr for DestFlags {
    type Output = DestFlags;

    fn bitor(self, rhs: DestFlags) -> (r: DestFlags) {
        self.union(rhs)
    }
}

impl vstd::std_specs::ops::BitOrSpecImpl for DestFlags {
    open spec fn obeys_bitor_spec() -> bool {
        true
    }

    open spec fn bitor_req(self, rhs: DestFlags) -> bool {
        true
    }

    open spec fn bitor_spec(self, rhs: DestFlags) -> DestFlags {
        self.spec_union(rhs)
    }
}

impl Default for DestFlags {
    fn default() -> (r: DestFlags)
        ensures
            r == DestFlags::Null,
    {
        DestFlags::Null
    }
}

impl JumpFlags {
    /// The three `jjj` bits.
    pub open spec fn spec_bits(self) -> u16 {
        match self {
            JumpFlags::Null => 0,
            JumpFlags::JGT => 1,
            JumpFlags::JEQ => 2,
            JumpFlags::JGE => 3,
            JumpFlags::JLT => 4,
            JumpFlags::JNE => 5,
            JumpFlags::JLE => 6,
            JumpFlags::JMP => 7,
        }
    }

    /// The mnemonic; the empty string for no jump.
    pub open spec fn spec_name(self) -> Seq<char> {
        match self {
            JumpFlags::Null => Seq::<char>::empty(),
            JumpFlags::JGT => seq!['J', 'G', 'T'],
            JumpFlags::JEQ => seq!['J', 'E', 'Q'],
            JumpFlags::JGE => seq!['J', 'G', 'E'],
            JumpFlags::JLT => seq!['J', 'L', 'T'],
            JumpFlags::JNE => seq!['J', 'N', 'E'],
            JumpFlags::JLE => seq!['J', 'L', 'E'],
            JumpFlags::JMP => seq!['J', 'M', 'P'],
        }
    }

    /// The condition whose mnemonic is `s`, if any.
    pub open spec fn spec_from_name(s: Seq<char>) -> Option<JumpFlags> {
        if exists|j: JumpFlags| j.spec_name() == s {
            Some(choose|j: JumpFlags| j.spec_name() == s)
        } else {
            None
        }
    }

    pub fn bits(&self) -> (b: u16)
        ensures
            b == self.spec_bits(),
            b < 8,
    {
        match self {
            JumpFlags::Null => 0,
            JumpFlags::JGT => 1,
            JumpFlags::JEQ => 2,
            JumpFlags::JGE => 3,
            JumpFlags::JLT => 4,
            JumpFlags::JNE => 5,
            JumpFlags::JLE => 6,
            JumpFlags::JMP => 7,
        }
    }

    /// The condition whose bits are `b`.
    pub fn from_repr(b: u16) -> (r: Option<JumpFlags>)
        ensures
            r matches Some(j) ==> j.spec_bits() == b,
            r is None ==> forall|j: JumpFlags| j.spec_bits() != b,
    {
        if b == 0 {
            Some(JumpFlags::Null)
        }
        else if b == 1 {
            Some(JumpFlags::JGT)
        }
        else if b == 2 {
            Some(JumpFlags::JEQ)
        }
        else if b == 3 {
            Some(JumpFlags::JGE)
        }
        else if b == 4 {
            Some(JumpFlags::JLT)
        }
        else if b == 5 {
            Some(JumpFlags::JNE)
        }
        else if b == 6 {
            Some(JumpFlags::JLE)
        }
        else if b == 7 {
            Some(JumpFlags::JMP)
        }
        else {
            None
        }
    }

    /// Appends the mnemonic.
    pub fn write_name(&self, out: &mut String)
        ensures
            final(out)@ == old(out)@ + self.spec_name(),
    {
        let ghost start = out@;
        match self {
            JumpFlags::Null => {
            },
            JumpFlags::JGT => {
                out.push('J');
                out.push('G');
                out.push('T');
            },
            JumpFlags::JEQ => {
                out.push('J');
                out.push('E');
                out.push('Q');
            },
            JumpFlags::JGE => {
                out.push('J');
                out.push('G');
                out.push('E');
            },
            JumpFlags::JLT => {
                out.push('J');
                out.push('L');
                out.push('T');
            },
            JumpFlags::JNE => {
                out.push('J');
                out.push('N');
                out.push('E');
            },
            JumpFlags::JLE => {
                out.push('J');
                out.push('L');
                out.push('E');
            },
            JumpFlags::JMP => {
                out.push('J');
                out.push('M');
                out.push('P');
            },
        }
        assert(out@ =~= start + self.spec_name());
    }

    /// The condition named by `cs[start..end]`, matched exactly.
    pub fn from_chars(cs: &Vec<char>, start: usize, end: usize) -> (r: Option<JumpFlags>)
        requires
            start <= end <= cs.len(),
        ensures
            r == JumpFlags::spec_from_name(cs@.subrange(start as int, end as int)),
    {
        let ghost s = cs@.subrange(start as int, end as int);
        let len = end - start;
        let r = if len == 0 {
            Some(JumpFlags::Null)
        } else if len == 3 && cs[start] == 'J' {
            let b = cs[start + 1];
            let c = cs[start + 2];
            if b == 'G' && c == 'T' {
                Some(JumpFlags::JGT)
            } else if b == 'E' && c == 'Q' {
                Some(JumpFlags::JEQ)
            } else if b == 'G' && c == 'E' {
                Some(JumpFlags::JGE)
            } else if b == 'L' && c == 'T' {
                Some(JumpFlags::JLT)
            } else if b == 'N' && c == 'E' {
                Some(JumpFlags::JNE)
            } else if b == 'L' && c == 'E' {
                Some(JumpFlags::JLE)
            } else if b == 'M' && c == 'P' {
                Some(JumpFlags::JMP)
            } else {
                None
            }
        } else {
            None
        };
        proof {
            match r {
                Some(j) => {
                    assert(j.spec_name() =~= s);
                    JumpFlags::lemma_name_injective(j, choose|k: JumpFlags| k.spec_name() == s);
                },
                None => {
                    assert forall|j: JumpFlags| j.spec_name() != s by {
                        if j.spec_name() == s {
                            assert(j.spec_name().len() == s.len());
                            assert(j.spec_name()[0] == s[0]);
                            assert(j.spec_name()[1] == s[1]);
                            assert(j.spec_name()[2] == s[2]);
                        }
                    }
                },
            }
        }
        r
    }

    /// Reading back the mnemonic gives the condition.
    pub proof fn lemma_from_name_roundtrip(self)
        ensures
            JumpFlags::spec_from_name(self.spec_name()) == Some(self),
    {
        let k = choose|k: JumpFlags| k.spec_name() == self.spec_name();
        JumpFlags::lemma_name_injective(k, self);
    }

    pub proof fn lemma_name_injective(a: JumpFlags, b: JumpFlags)
        requires
            a.spec_name() == b.spec_name(),
        ensures
            a == b,
    {
        if a != b {
            assert(a.spec_name().len() == b.spec_name().len());
            if a.spec_name().len() > 0 {
                assert(a.spec_name()[1] == b.spec_name()[1]);
                assert(a.spec_name()[2] == b.spec_name()[2]);
            }
        }
    }
}

impl Default for JumpFlags {
    fn default() -> (r: JumpFlags)
        ensures
            r == JumpFlags::Null,
    {
        JumpFlags::Null
    }
}

impl CompFlags {
    /// The seven `acccccc` bits.
    pub open spec fn spec_bits(self) -> u16 {
        match self {
            CompFlags::Zero => 42,
            CompFlags::True => 63,
            CompFlags::Neg1 => 58,
            CompFlags::D => 12,
            CompFlags::A => 48,
            CompFlags::NotD => 13,
            CompFlags::NotA => 49,
            CompFlags::NegD => 15,
            CompFlags::NegA => 51,
            CompFlags::DPlus1 => 31,
            CompFlags::APlus1 => 55,
            CompFlags::DNeg1 => 14,
            CompFlags::ANeg1 => 50,
            CompFlags::DPlusA => 2,
            CompFlags::DNegA => 19,
            CompFlags::ANegD => 7,
            CompFlags::DAndA => 0,
            CompFlags::DOrA => 21,
            CompFlags::M => 112,
            CompFlags::NotM => 113,
            CompFlags::NegM => 115,
            CompFlags::MPlus1 => 119,
            CompFlags::MNeg1 => 114,
            CompFlags::DPlusM => 66,
            CompFlags::DNegM => 83,
            CompFlags::MNegD => 71,
            CompFlags::DAndM => 64,
            CompFlags::DOrM => 85,
        }
    }

    /// The mnemonic, such as `D+1` or `!M`.
    pub open spec fn spec_name(self) -> Seq<char> {
        match self {
            CompFlags::Zero => seq!['0'],
            CompFlags::True => seq!['1'],
            CompFlags::Neg1 => seq!['-', '1'],
            CompFlags::D => seq!['D'],
            CompFlags::A => seq!['A'],
            CompFlags::NotD => seq!['!', 'D'],
            CompFlags::NotA => seq!['!', 'A'],
            CompFlags::NegD => seq!['-', 'D'],
            CompFlags::NegA => seq!['-', 'A'],
            CompFlags::DPlus1 => seq!['D', '+', '1'],
            CompFlags::APlus1 => seq!['A', '+', '1'],
            CompFlags::DNeg1 => seq!['D', '-', '1'],
            CompFlags::ANeg1 => seq!['A', '-', '1'],
            CompFlags::DPlusA => seq!['D', '+', 'A'],
            CompFlags::DNegA => seq!['D', '-', 'A'],
            CompFlags::ANegD => seq!['A', '-', 'D'],
            CompFlags::DAndA => seq!['D', '&', 'A'],
            CompFlags::DOrA => seq!['D', '|', 'A'],
            CompFlags::M => seq!['M'],
            CompFlags::NotM => seq!['!', 'M'],
            CompFlags::NegM => seq!['-', 'M'],
            CompFlags::MPlus1 => seq!['M', '+', '1'],
            CompFlags::MNeg1 => seq!['M', '-', '1'],
            CompFlags::DPlusM => seq!['D', '+', 'M'],
            CompFlags::DNegM => seq!['D', '-', 'M'],
            CompFlags::MNegD => seq!['M', '-', 'D'],
            CompFlags::DAndM => seq!['D', '&', 'M'],
            CompFlags::DOrM => seq!['D', '|', 'M'],
        }
    }

    /// The computation whose mnemonic is `s`, if any.
    pub open spec fn spec_from_name(s: Seq<char>) -> Option<CompFlags> {
        if exists|c: CompFlags| c.spec_name() == s {
            Some(choose|c: CompFlags| c.spec_name() == s)
        } else {
            None
        }
    }

    pub fn bits(&self) -> (b: u16)
        ensures
            b == self.spec_bits(),
            b < 128,
    {
        match self {
            CompFlags::Zero => 42,
            CompFlags::True => 63,
            CompFlags::Neg1 => 58,
            CompFlags::D => 12,
            CompFlags::A => 48,
            CompFlags::NotD => 13,
            CompFlags::NotA => 49,
            CompFlags::NegD => 15,
            CompFlags::NegA => 51,
            CompFlags::DPlus1 => 31,
            CompFlags::APlus1 => 55,
            CompFlags::DNeg1 => 14,
            CompFlags::ANeg1 => 50,
            CompFlags::DPlusA => 2,
            CompFlags::DNegA => 19,
            CompFlags::ANegD => 7,
            CompFlags::DAndA => 0,
            CompFlags::DOrA => 21,
            CompFlags::M => 112,
            CompFlags::NotM => 113,
            CompFlags::NegM => 115,
            CompFlags::MPlus1 => 119,
            CompFlags::MNeg1 => 114,
            CompFlags::DPlusM => 66,
            CompFlags::DNegM => 83,
            CompFlags::MNegD => 71,
            CompFlags::DAndM => 64,
            CompFlags::DOrM => 85,
        }
    }

    /// The computation whose bits are `b`.
    pub fn from_repr(b: u16) -> (r: Option<CompFlags>)
        ensures
            r matches Some(c) ==> c.spec_bits() == b,
            r is None ==> forall|c: CompFlags| c.spec_bits() != b,
    {
        if b == 42 {
            Some(CompFlags::Zero)
        }
        else if b == 63 {
            Some(CompFlags::True)
        }
        else if b == 58 {
            Some(CompFlags::Neg1)
        }
        else if b == 12 {
            Some(CompFlags::D)
        }
        else if b == 48 {
            Some(CompFlags::A)
        }
        else if b == 13 {
            Some(CompFlags::NotD)
        }
        else if b == 49 {
            Some(CompFlags::NotA)
        }
        else if b == 15 {
            Some(CompFlags::NegD)
        }
        else if b == 51 {
            Some(CompFlags::NegA)
        }
        else if b == 31 {
            Some(CompFlags::DPlus1)
        }
        else if b == 55 {
            Some(CompFlags::APlus1)
        }
        else if b == 14 {
            Some(CompFlags::DNeg1)
        }
        else if b == 50 {
            Some(CompFlags::ANeg1)
        }
        else if b == 2 {
            Some(CompFlags::DPlusA)
        }
        else if b == 19 {
            Some(CompFlags::DNegA)
        }
        else if b == 7 {
            Some(CompFlags::ANegD)
        }
        else if b == 0 {
            Some(CompFlags::DAndA)
        }
        else if b == 21 {
            Some(CompFlags::DOrA)
        }
        else if b == 112 {
            Some(CompFlags::M)
        }
        else if b == 113 {
            Some(CompFlags::NotM)
        }
        else if b == 115 {
            Some(CompFlags::NegM)
        }
        else if b == 119 {
            Some(CompFlags::MPlus1)
        }
        else if b == 114 {
            Some(CompFlags::MNeg1)
        }
        else if b == 66 {
            Some(CompFlags::DPlusM)
        }
        else if b == 83 {
            Some(CompFlags::DNegM)
        }
        else if b == 71 {
            Some(CompFlags::MNegD)
        }
        else if b == 64 {
            Some(CompFlags::DAndM)
        }
        else if b == 85 {
            Some(CompFlags::DOrM)
        }
        else {
            None
        }
    }

    /// Appends the mnemonic.
    pub fn write_name(&self, out: &mut String)
        ensures
            final(out)@ == old(out)@ + self.spec_name(),
    {
        let ghost start = out@;
        match self {
            CompFlags::Zero => {
                out.push('0');
            },
            CompFlags::True => {
                out.push('1');
            },
            CompFlags::Neg1 => {
                out.push('-');
                out.push('1');
            },
            CompFlags::D => {
                out.push('D');
            },
            CompFlags::A => {
                out.push('A');
            },
            CompFlags::NotD => {
                out.push('!');
                out.push('D');
            },
            CompFlags::NotA => {
                out.push('!');
                out.push('A');
            },
            CompFlags::NegD => {
                out.push('-');
                out.push('D');
            },
            CompFlags::NegA => {
                out.push('-');
                out.push('A');
            },
            CompFlags::DPlus1 => {
                out.push('D');
                out.push('+');
                out.push('1');
            },
            CompFlags::APlus1 => {
                out.push('A');
                out.push('+');
                out.push('1');
            },
            CompFlags::DNeg1 => {
                out.push('D');
                out.push('-');
                out.push('1');
            },
            CompFlags::ANeg1 => {
                out.push('A');
                out.push('-');
                out.push('1');
            },
            CompFlags::DPlusA => {
                out.push('D');
                out.push('+');
                out.push('A');
            },
            CompFlags::DNegA => {
                out.push('D');
                out.push('-');
                out.push('A');
            },
            CompFlags::ANegD => {
                out.push('A');
                out.push('-');
                out.push('D');
            },
            CompFlags::DAndA => {
                out.push('D');
                out.push('&');
                out.push('A');
            },
            CompFlags::DOrA => {
                out.push('D');
                out.push('|');
                out.push('A');
            },
            CompFlags::M => {
                out.push('M');
            },
            CompFlags::NotM => {
                out.push('!');
                out.push('M');
            },
            CompFlags::NegM => {
                out.push('-');
                out.push('M');
            },
            CompFlags::MPlus1 => {
                out.push('M');
                out.push('+');
                out.push('1');
            },
            CompFlags::MNeg1 => {
                out.push('M');
                out.push('-');
                out.push('1');
            },
            CompFlags::DPlusM => {
                out.push('D');
                out.push('+');
                out.push('M');
            },
            CompFlags::DNegM => {
                out.push('D');
                out.push('-');
                out.push('M');
            },
            CompFlags::MNegD => {
                out.push('M');
                out.push('-');
                out.push('D');
            },
            CompFlags::DAndM => {
                out.push('D');
                out.push('&');
                out.push('M');
            },
            CompFlags::DOrM => {
                out.push('D');
                out.push('|');
                out.push('M');
            },
        }
        assert(out@ =~= start + self.spec_name());
    }

    /// Reading back the mnemonic gives the computation.
    pub proof fn lemma_from_name_roundtrip(self)
        ensures
            CompFlags::spec_from_name(self.spec_name()) == Some(self),
    {
        let k = choose|k: CompFlags| k.spec_name() == self.spec_name();
        CompFlags::lemma_name_injective(k, self);
    }

    pub proof fn lemma_name_shape(self)
        ensures
            1 <= self.spec_name().len() <= 3,
    {
    }

    #[verifier::spinoff_prover]
    pub proof fn lemma_name_injective(a: CompFlags, b: CompFlags)
        requires
            a.spec_name() == b.spec_name(),
        ensures
            a == b,
    {
        let s = a.spec_name();
        let t = b.spec_name();
        assert(s.len() == t.len());
        assert(s[0] == t[0]);
        if s.len() >= 2 {
            assert(s[1] == t[1]);
        }
        if s.len() >= 3 {
            assert(s[2] == t[2]);
        }
        match a {
            CompFlags::Zero => { assert(b == CompFlags::Zero); },
            CompFlags::True => { assert(b == CompFlags::True); },
            CompFlags::Neg1 => { assert(b == CompFlags::Neg1); },
            CompFlags::D => { assert(b == CompFlags::D); },
            CompFlags::A => { assert(b == CompFlags::A); },
            CompFlags::NotD => { assert(b == CompFlags::NotD); },
            CompFlags::NotA => { assert(b == CompFlags::NotA); },
            CompFlags::NegD => { assert(b == CompFlags::NegD); },
            CompFlags::NegA => { assert(b == CompFlags::NegA); },
            CompFlags::DPlus1 => { assert(b == CompFlags::DPlus1); },
            CompFlags::APlus1 => { assert(b == CompFlags::APlus1); },
            CompFlags::DNeg1 => { assert(b == CompFlags::DNeg1); },
            CompFlags::ANeg1 => { assert(b == CompFlags::ANeg1); },
            CompFlags::DPlusA => { assert(b == CompFlags::DPlusA); },
            CompFlags::DNegA => { assert(b == CompFlags::DNegA); },
            CompFlags::ANegD => { assert(b == CompFlags::ANegD); },
            CompFlags::DAndA => { assert(b == CompFlags::DAndA); },
            CompFlags::DOrA => { assert(b == CompFlags::DOrA); },
            CompFlags::M => { assert(b == CompFlags::M); },
            CompFlags::NotM => { assert(b == CompFlags::NotM); },
            CompFlags::NegM => { assert(b == CompFlags::NegM); },
            CompFlags::MPlus1 => { assert(b == CompFlags::MPlus1); },
            CompFlags::MNeg1 => { assert(b == CompFlags::MNeg1); },
            CompFlags::DPlusM => { assert(b == CompFlags::DPlusM); },
            CompFlags::DNegM => { assert(b == CompFlags::DNegM); },
            CompFlags::MNegD => { assert(b == CompFlags::MNegD); },
            CompFlags::DAndM => { assert(b == CompFlags::DAndM); },
            CompFlags::DOrM => { assert(b == CompFlags::DOrM); },
        }
    }

    /// The computation named by `cs[start..end]`, matched exactly.
    pub fn from_chars(cs: &Vec<char>, start: usize, end: usize) -> (r: Option<CompFlags>)
        requires
            start <= end <= cs.len(),
        ensures
            r == CompFlags::spec_from_name(cs@.subrange(start as int, end as int)),
    {
        let ghost s = cs@.subrange(start as int, end as int);
        let len = end - start;
        let r = if len == 1 {
            let a = cs[start];
            if a == '0' {
                Some(CompFlags::Zero)
            }
            else if a == '1' {
                Some(CompFlags::True)
            }
            else if a == 'D' {
                Some(CompFlags::D)
            }
            else if a == 'A' {
                Some(CompFlags::A)
            }
            else if a == 'M' {
                Some(CompFlags::M)
            }
            else {
                None
            }
        } else if len == 2 {
            let a = cs[start];
            let b = cs[start + 1];
            if a == '-' && b == '1' {
                Some(CompFlags::Neg1)
            }
            else if a == '!' && b == 'D' {
                Some(CompFlags::NotD)
            }
            else if a == '!' && b == 'A' {
                Some(CompFlags::NotA)
            }
            else if a == '-' && b == 'D' {
                Some(CompFlags::NegD)
            }
            else if a == '-' && b == 'A' {
                Some(CompFlags::NegA)
            }
            else if a == '!' && b == 'M' {
                Some(CompFlags::NotM)
            }
            else if a == '-' && b == 'M' {
                Some(CompFlags::NegM)
            }
            else {
                None
            }
        } else if len == 3 {
            let a = cs[start];
            let b = cs[start + 1];
            let c = cs[start + 2];
            if a == 'D' && b == '+' && c == '1' {
                Some(CompFlags::DPlus1)
            }
            else if a == 'A' && b == '+' && c == '1' {
                Some(CompFlags::APlus1)
            }
            else if a == 'D' && b == '-' && c == '1' {
                Some(CompFlags::DNeg1)
            }
            else if a == 'A' && b == '-' && c == '1' {
                Some(CompFlags::ANeg1)
            }
            else if a == 'D' && b == '+' && c == 'A' {
                Some(CompFlags::DPlusA)
            }
            else if a == 'D' && b == '-' && c == 'A' {
                Some(CompFlags::DNegA)
            }
            else if a == 'A' && b == '-' && c == 'D' {
                Some(CompFlags::ANegD)
            }
            else if a == 'D' && b == '&' && c == 'A' {
                Some(CompFlags::DAndA)
            }
            else if a == 'D' && b == '|' && c == 'A' {
                Some(CompFlags::DOrA)
            }
            else if a == 'M' && b == '+' && c == '1' {
                Some(CompFlags::MPlus1)
            }
            else if a == 'M' && b == '-' && c == '1' {
                Some(CompFlags::MNeg1)
            }
            else if a == 'D' && b == '+' && c == 'M' {
                Some(CompFlags::DPlusM)
            }
            else if a == 'D' && b == '-' && c == 'M' {
                Some(CompFlags::DNegM)
            }
            else if a == 'M' && b == '-' && c == 'D' {
                Some(CompFlags::MNegD)
            }
            else if a == 'D' && b == '&' && c == 'M' {
                Some(CompFlags::DAndM)
            }
            else if a == 'D' && b == '|' && c == 'M' {
                Some(CompFlags::DOrM)
            }
            else {
                None
            }
        } else {
            None
        };
        proof {
            match r {
                Some(v) => {
                    assert(v.spec_name() =~= s);
                    CompFlags::lemma_name_injective(v, choose|k: CompFlags| k.spec_name() == s);
                },
                None => {
                    assert forall|v: CompFlags| v.spec_name() != s by {
                        if v.spec_name() == s {
                            v.lemma_name_shape();
                            assert(v.spec_name()[0] == s[0]);
                            if s.len() >= 2 {
                                assert(v.spec_name()[1] == s[1]);
                            }
                            if s.len() >= 3 {
                                assert(v.spec_name()[2] == s[2]);
                            }
                        }
                    }
                },
            }
        }
        r
    }
}

impl Default for CompFlags {
    fn default() -> (r: CompFlags)
        ensures
            r == CompFlags::DAndA,
    {
        CompFlags::DAndA
    }
}

} // verus!
