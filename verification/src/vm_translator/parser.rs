//! The grammar of VM programs.
//!
//! A program is a sequence of commands separated by whitespace and `//`
//! comments: `push segment index`, `pop segment index`, and the arithmetic and
//! logical commands `eq gt lt add sub neg and or not`. An index is `0` or a
//! decimal number without leading zeros. The alternatives are tried in that
//! order and the first that matches is taken; the whole text must be consumed.
use vstd::prelude::*;
use crate::scan::{
    digits_end, digits_u16, lemma_digits_end, lemma_trivia_end, lemma_ws_end, scan_digits,
    scan_trivia, scan_ws, trivia_end, ws_end,
};
use crate::text_util::{all_digits, digits_value, str_chars};

verus! {

#[derive(Debug, Clone, Copy, PartialEq, Eq, Structural)]
pub enum Command {
    Push(Segment, u16),
    Pop(Segment, u16),
    Add,
    Subtract,
    Negate,
    Equal,
    GreaterThan,
    LessThan,
    And,
    Or,
    Not,
}

#[derive(Debug, Clone, Copy, PartialEq, Eq, Structural)]
pub enum Segment {
    Argument,
    Local,
    Static,
    Constant,
    This,
    That,
    Pointer,
    Temp,
}

/// `kw` occurs in `s` at `p`.
pub open spec fn keyword_at(s: Seq<char>, p: int, kw: Seq<char>) -> bool {
    0 <= p && p + kw.len() <= s.len() && s.subrange(p, p + kw.len()) == kw
}

/// The segment keyword at `p`, with the position after it.
pub open spec fn segment_at(s: Seq<char>, p: int) -> Option<(Segment, int)> {
    if keyword_at(s, p, "argument"@) {
        Some((Segment::Argument, p + "argument"@.len()))
    } else if keyword_at(s, p, "local"@) {
        Some((Segment::Local, p + "local"@.len()))
    } else if keyword_at(s, p, "static"@) {
        Some((Segment::Static, p + "static"@.len()))
    } else if keyword_at(s, p, "constant"@) {
        Some((Segment::Constant, p + "constant"@.len()))
    } else if keyword_at(s, p, "this"@) {
        Some((Segment::This, p + "this"@.len()))
    } else if keyword_at(s, p, "that"@) {
        Some((Segment::That, p + "that"@.len()))
    } else if keyword_at(s, p, "pointer"@) {
        Some((Segment::Pointer, p + "pointer"@.len()))
    } else if keyword_at(s, p, "temp"@) {
        Some((Segment::Temp, p + "temp"@.len()))
    } else {
        None
    }
}

/// The end of the index at `p`: a lone `0`, or a nonzero digit and the digits after it.
pub open spec fn int_end(s: Seq<char>, p: int) -> int {
    if 0 <= p < s.len() && '1' <= s[p] && s[p] <= '9' {
        digits_end(s, p + 1)
    } else if 0 <= p < s.len() && s[p] == '0' {
        p + 1
    } else {
        p
    }
}

/// What a `push`/`pop` command at `p` gives.
pub enum SegmentStep {
    Found(Segment, u16, int),
    NoMatch,
    Overflow,
}

/// `kw segment index` at `p`, with whitespace allowed around the segment.
pub open spec fn segment_command(s: Seq<char>, p: int, kw: Seq<char>) -> SegmentStep {
    if !keyword_at(s, p, kw) {
        SegmentStep::NoMatch
    } else {
        match segment_at(s, ws_end(s, p + kw.len())) {
            None => SegmentStep::NoMatch,
            Some((seg, q)) => {
                let r = ws_end(s, q);
                let e = int_end(s, r);
                if e == r {
                    SegmentStep::NoMatch
                } else if digits_value(s.subrange(r, e)) > u16::MAX {
                    SegmentStep::Overflow
                } else {
                    SegmentStep::Found(seg, digits_value(s.subrange(r, e)) as u16, e)
                }
            },
        }
    }
}

/// What one command at `p` gives.
pub enum VmItem {
    /// The command and the position after it.
    Cmd(Command, int),
    NoMatch,
    /// An index is too large for 16 bits.
    Overflow,
}

/// The command at `p`, trying the alternatives in order.
pub open spec fn parse_command(s: Seq<char>, p: int) -> VmItem {
    match segment_command(s, p, "push"@) {
        SegmentStep::Found(seg, v, e) => VmItem::Cmd(Command::Push(seg, v), e),
        SegmentStep::Overflow => VmItem::Overflow,
        SegmentStep::NoMatch => match segment_command(s, p, "pop"@) {
            SegmentStep::Found(seg, v, e) => VmItem::Cmd(Command::Pop(seg, v), e),
            SegmentStep::Overflow => VmItem::Overflow,
            SegmentStep::NoMatch => if keyword_at(s, p, "eq"@) {
                VmItem::Cmd(Command::Equal, p + "eq"@.len())
            } else if keyword_at(s, p, "gt"@) {
                VmItem::Cmd(Command::GreaterThan, p + "gt"@.len())
            } else if keyword_at(s, p, "lt"@) {
                VmItem::Cmd(Command::LessThan, p + "lt"@.len())
            } else if keyword_at(s, p, "add"@) {
                VmItem::Cmd(Command::Add, p + "add"@.len())
            } else if keyword_at(s, p, "sub"@) {
                VmItem::Cmd(Command::Subtract, p + "sub"@.len())
            } else if keyword_at(s, p, "neg"@) {
                VmItem::Cmd(Command::Negate, p + "neg"@.len())
            } else if keyword_at(s, p, "and"@) {
                VmItem::Cmd(Command::And, p + "and"@.len())
            } else if keyword_at(s, p, "or"@) {
                VmItem::Cmd(Command::Or, p + "or"@.len())
            } else if keyword_at(s, p, "not"@) {
                VmItem::Cmd(Command::Not, p + "not"@.len())
            } else {
                VmItem::NoMatch
            },
        },
    }
}

proof fn lemma_keywords_nonempty()
    ensures
        "push"@.len() > 0 && "pop"@.len() > 0 && "eq"@.len() > 0 && "gt"@.len() > 0 && "lt"@.len()
            > 0 && "add"@.len() > 0 && "sub"@.len() > 0 && "neg"@.len() > 0 && "and"@.len() > 0
            && "or"@.len() > 0 && "not"@.len() > 0,
{
    reveal_strlit("push");
    reveal_strlit("pop");
    reveal_strlit("eq");
    reveal_strlit("gt");
    reveal_strlit("lt");
    reveal_strlit("add");
    reveal_strlit("sub");
    reveal_strlit("neg");
    reveal_strlit("and");
    reveal_strlit("or");
    reveal_strlit("not");
}

proof fn lemma_segment_command_advances(s: Seq<char>, p: int, kw: Seq<char>)
    requires
        0 <= p <= s.len(),
    ensures
        segment_command(s, p, kw) matches SegmentStep::Found(_, _, e) ==> p < e <= s.len(),
{
    if keyword_at(s, p, kw) {
        lemma_ws_end(s, p + kw.len());
        match segment_at(s, ws_end(s, p + kw.len())) {
            Some((seg, q)) => {
                if q <= s.len() {
                    lemma_ws_end(s, q);
                    let r = ws_end(s, q);
                    if r < s.len() {
                        lemma_digits_end(s, r + 1);
                    }
                }
            },
            None => {},
        }
    }
}

pub proof fn lemma_parse_command_advances(s: Seq<char>, p: int)
    requires
        0 <= p <= s.len(),
    ensures
        parse_command(s, p) matches VmItem::Cmd(_, e) ==> p < e <= s.len(),
{
    lemma_keywords_nonempty();
    lemma_segment_command_advances(s, p, "push"@);
    lemma_segment_command_advances(s, p, "pop"@);
}

/// What reading a whole program gives.
pub enum VmOutcome {
    Parsed(Seq<Command>),
    /// No command matches after the given position, and the text does not end there.
    Failed(int),
    Overflow,
}

pub open spec fn parse_commands_from(s: Seq<char>, p: int) -> VmOutcome
    decreases s.len() - p,
{
    if 0 <= p <= s.len() {
        let q = trivia_end(s, p);
        match parse_command(s, q) {
            VmItem::Cmd(c, e) => {
                proof {
                    lemma_trivia_end(s, p);
                    lemma_parse_command_advances(s, q);
                    lemma_trivia_end(s, e);
                }
                match parse_commands_from(s, trivia_end(s, e)) {
                    VmOutcome::Parsed(rest) => VmOutcome::Parsed(seq![c] + rest),
                    other => other,
                }
            },
            VmItem::NoMatch => if p == s.len() {
                VmOutcome::Parsed(Seq::empty())
            } else {
                VmOutcome::Failed(p)
            },
            VmItem::Overflow => VmOutcome::Overflow,
        }
    } else {
        VmOutcome::Failed(p)
    }
}

/// Reading a whole VM program.
pub open spec fn parse_vm_program(s: Seq<char>) -> VmOutcome {
    parse_commands_from(s, 0)
}

/// A program the grammar rejects; `position` is where the first command that
/// could not be read starts (before its leading whitespace), in characters.
#[derive(Debug)]
pub struct VmParseError {
    pub position: usize,
}

fn match_keyword(cs: &Vec<char>, p: usize, kw: &str) -> (r: Option<usize>)
    requires
        p <= cs.len(),
    ensures
        match r {
            Some(e) => keyword_at(cs@, p as int, kw@) && e == p + kw@.len(),
            None => !keyword_at(cs@, p as int, kw@),
        },
{
    let k = str_chars(kw);
    if k.len() > cs.len() - p {
        return None;
    }
    let mut i: usize = 0;
    while i < k.len()
        invariant
            i <= k.len(),
            p + k.len() <= cs.len(),
            k@ == kw@,
            cs@.subrange(p as int, p + i) == k@.take(i as int),
        decreases k.len() - i,
    {
        if cs[p + i] != k[i] {
            assert(cs@.subrange(p as int, p + k@.len())[i as int] != k@[i as int]);
            return None;
        }
        assert(cs@.subrange(p as int, p + i + 1) =~= cs@.subrange(p as int, p + i).push(cs@[p + i]));
        assert(k@.take(i + 1) =~= k@.take(i as int).push(k@[i as int]));
        i = i + 1;
    }
    assert(k@.take(k.len() as int) =~= k@);
    Some(p + k.len())
}

fn read_segment(cs: &Vec<char>, p: usize) -> (r: Option<(Segment, usize)>)
    requires
        p <= cs.len(),
    ensures
        match r {
            Some((seg, e)) => segment_at(cs@, p as int) == Some((seg, e as int)),
            None => segment_at(cs@, p as int) is None,
        },
{
    if let Some(e) = match_keyword(cs, p, "argument") {
        Some((Segment::Argument, e))
    } else if let Some(e) = match_keyword(cs, p, "local") {
        Some((Segment::Local, e))
    } else if let Some(e) = match_keyword(cs, p, "static") {
        Some((Segment::Static, e))
    } else if let Some(e) = match_keyword(cs, p, "constant") {
        Some((Segment::Constant, e))
    } else if let Some(e) = match_keyword(cs, p, "this") {
        Some((Segment::This, e))
    } else if let Some(e) = match_keyword(cs, p, "that") {
        Some((Segment::That, e))
    } else if let Some(e) = match_keyword(cs, p, "pointer") {
        Some((Segment::Pointer, e))
    } else if let Some(e) = match_keyword(cs, p, "temp") {
        Some((Segment::Temp, e))
    } else {
        None
    }
}

enum SegStep {
    Found(Segment, u16, usize),
    NoMatch,
    Overflow,
}

fn read_segment_command(cs: &Vec<char>, p: usize, kw: &str) -> (r: SegStep)
    requires
        p <= cs.len(),
    ensures
        match r {
            SegStep::Found(seg, v, e) => segment_command(cs@, p as int, kw@) == SegmentStep::Found(
                seg,
                v,
                e as int,
            ),
            SegStep::NoMatch => segment_command(cs@, p as int, kw@) is NoMatch,
            SegStep::Overflow => segment_command(cs@, p as int, kw@) is Overflow,
        },
{
    let ghost s = cs@;
    let k = match match_keyword(cs, p, kw) {
        Some(k) => k,
        None => {
            return SegStep::NoMatch;
        },
    };
    let q0 = scan_ws(cs, k);
    proof {
        lemma_ws_end(s, k as int);
    }
    let (seg, q) = match read_segment(cs, q0) {
        Some(x) => x,
        None => {
            return SegStep::NoMatch;
        },
    };
    assert(q <= cs.len());
    let r = scan_ws(cs, q);
    proof {
        lemma_ws_end(s, q as int);
    }
    let e = if r < cs.len() && '1' <= cs[r] && cs[r] <= '9' {
        proof {
            lemma_digits_end(s, r + 1);
        }
        scan_digits(cs, r + 1)
    } else if r < cs.len() && cs[r] == '0' {
        r + 1
    } else {
        r
    };
    assert(e == int_end(s, r as int));
    if e == r {
        return SegStep::NoMatch;
    }
    proof {
        if '1' <= s[r as int] && s[r as int] <= '9' {
            lemma_digits_end(s, r + 1);
        }
        assert(all_digits(s.subrange(r as int, e as int)));
    }
    match digits_u16(cs, r, e) {
        Some(v) => SegStep::Found(seg, v, e),
        None => SegStep::Overflow,
    }
}

enum CmdStep {
    Cmd(Command, usize),
    NoMatch,
    Overflow,
}

fn read_command(cs: &Vec<char>, p: usize) -> (r: CmdStep)
    requires
        p <= cs.len(),
    ensures
        match r {
            CmdStep::Cmd(c, e) => parse_command(cs@, p as int) == VmItem::Cmd(c, e as int),
            CmdStep::NoMatch => parse_command(cs@, p as int) is NoMatch,
            CmdStep::Overflow => parse_command(cs@, p as int) is Overflow,
        },
{
    match read_segment_command(cs, p, "push") {
        SegStep::Found(seg, v, e) => {
            return CmdStep::Cmd(Command::Push(seg, v), e);
        },
        SegStep::Overflow => {
            return CmdStep::Overflow;
        },
        SegStep::NoMatch => {},
    }
    match read_segment_command(cs, p, "pop") {
        SegStep::Found(seg, v, e) => {
            return CmdStep::Cmd(Command::Pop(seg, v), e);
        },
        SegStep::Overflow => {
            return CmdStep::Overflow;
        },
        SegStep::NoMatch => {},
    }
    if let Some(e) = match_keyword(cs, p, "eq") {
        CmdStep::Cmd(Command::Equal, e)
    } else if let Some(e) = match_keyword(cs, p, "gt") {
        CmdStep::Cmd(Command::GreaterThan, e)
    } else if let Some(e) = match_keyword(cs, p, "lt") {
        CmdStep::Cmd(Command::LessThan, e)
    } else if let Some(e) = match_keyword(cs, p, "add") {
        CmdStep::Cmd(Command::Add, e)
    } else if let Some(e) = match_keyword(cs, p, "sub") {
        CmdStep::Cmd(Command::Subtract, e)
    } else if let Some(e) = match_keyword(cs, p, "neg") {
        CmdStep::Cmd(Command::Negate, e)
    } else if let Some(e) = match_keyword(cs, p, "and") {
        CmdStep::Cmd(Command::And, e)
    } else if let Some(e) = match_keyword(cs, p, "or") {
        CmdStep::Cmd(Command::Or, e)
    } else if let Some(e) = match_keyword(cs, p, "not") {
        CmdStep::Cmd(Command::Not, e)
    } else {
        CmdStep::NoMatch
    }
}

/// `prefix` followed by what `outcome` parsed.
pub open spec fn after_commands(prefix: Seq<Command>, outcome: VmOutcome) -> VmOutcome {
    match outcome {
        VmOutcome::Parsed(rest) => VmOutcome::Parsed(prefix + rest),
        other => other,
    }
}

fn run_parser(cs: &Vec<char>) -> (r: (Vec<Command>, Option<usize>, bool))
    ensures
        match parse_vm_program(cs@) {
            VmOutcome::Parsed(cmds) => !r.2 && r.1 is None && r.0@ == cmds,
            VmOutcome::Failed(p) => !r.2 && (r.1 matches Some(q) && q == p),
            VmOutcome::Overflow => r.2,
        },
{
    let ghost s = cs@;
    let mut cmds: Vec<Command> = Vec::new();
    let mut pos: usize = 0;
    loop
        invariant
            pos <= cs.len(),
            s == cs@,
            after_commands(cmds@, parse_commands_from(s, pos as int)) == parse_vm_program(s),
        decreases cs.len() - pos,
    {
        let q = scan_trivia(cs, pos);
        proof {
            lemma_trivia_end(s, pos as int);
        }
        match read_command(cs, q) {
            CmdStep::Cmd(c, e) => {
                proof {
                    lemma_parse_command_advances(s, q as int);
                    lemma_trivia_end(s, e as int);
                    match parse_commands_from(s, trivia_end(s, e as int)) {
                        VmOutcome::Parsed(rest) => {
                            assert(cmds@ + (seq![c] + rest) =~= cmds@.push(c) + rest);
                        },
                        _ => {},
                    }
                }
                cmds.push(c);
                pos = scan_trivia(cs, e);
            },
            CmdStep::NoMatch => {
                if pos == cs.len() {
                    assert(cmds@ + Seq::<Command>::empty() =~= cmds@);
                    return (cmds, None, false);
                } else {
                    return (cmds, Some(pos), false);
                }
            },
            CmdStep::Overflow => {
                return (cmds, None, true);
            },
        }
    }
}

/// Whether reading `src` meets an index too large for 16 bits, which the
/// grammar treats as a fatal error.
pub fn index_overflows(src: &str) -> (b: bool)
    ensures
        b == (parse_vm_program(src@) is Overflow),
{
    let cs = str_chars(src);
    let (_, _, overflow) = run_parser(&cs);
    overflow
}

/// Reads a VM program into commands.
pub fn parser(src: &str) -> (r: Result<Vec<Command>, VmParseError>)
    requires
        !(parse_vm_program(src@) is Overflow),
    ensures
        match parse_vm_program(src@) {
            VmOutcome::Parsed(cmds) => r matches Ok(v) && v@ == cmds,
            VmOutcome::Failed(p) => r matches Err(e) && e.position == p,
            VmOutcome::Overflow => false,
        },
{
    let cs = str_chars(src);
    let (cmds, failed, _) = run_parser(&cs);
    match failed {
        Some(position) => Err(VmParseError { position }),
        None => Ok(cmds),
    }
}

} // verus!
