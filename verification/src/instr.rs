//! Typed values, the instruction set, and the parser that turns program
//! text into an ordered instruction sequence.
//!
//! Parsing is best-effort and never fails: each line either matches one of
//! the recognized instruction shapes exactly (token count, leading keyword,
//! and a parsable integer where one is required) and yields one instruction,
//! or it is dropped silently.

use vstd::prelude::*;
use vstd::string::StrSliceExecFns;
use crate::text::{spec_parse_int, parse_isize, spec_tokens, spec_lines, strip_cr, tokenize, line_end, lemma_line_len_at};

verus! {

/// A register holds one of these: a platform-width signed integer or text.
/// There is no coercion between the two.
#[derive(Debug, PartialEq, Eq)]
pub enum Value {
    Int(isize),
    Str(String),
}

/// Mathematical model of a `Value`.
pub enum ValueModel {
    Int(int),
    Str(Seq<char>),
}

impl View for Value {
    type V = ValueModel;

    open spec fn view(&self) -> ValueModel {
        match self {
            Value::Int(v) => ValueModel::Int(*v as int),
            Value::Str(s) => ValueModel::Str(s@),
        }
    }
}

impl DeepView for Value {
    type V = ValueModel;

    open spec fn deep_view(&self) -> ValueModel {
        self.view()
    }
}

impl Value {
    /// An owned copy holding the same value.
    pub fn duplicate(&self) -> (r: Value)
        ensures
            r@ == self@,
    {
        match self {
            Value::Int(v) => Value::Int(*v),
            Value::Str(s) => Value::Str(s.clone()),
        }
    }
}

/// One instruction, its operands carried verbatim from the source text.
/// The comparator token of `If` is parsed but never interpreted.
#[derive(Debug, PartialEq, Eq)]
pub enum Instruction {
    Mov(String, isize),
    MovStr(String, String),
    Add(String, String),
    Sub(String, String),
    Mul(String, String),
    Div(String, String),
    Mod(String, String),
    Jmp(isize),
    If(String, String, String, isize),
    Else(String, String, isize),
}

/// Mathematical model of an `Instruction`.
pub enum InstrModel {
    Mov(Seq<char>, int),
    MovStr(Seq<char>, Seq<char>),
    Add(Seq<char>, Seq<char>),
    Sub(Seq<char>, Seq<char>),
    Mul(Seq<char>, Seq<char>),
    Div(Seq<char>, Seq<char>),
    Mod(Seq<char>, Seq<char>),
    Jmp(int),
    If(Seq<char>, Seq<char>, Seq<char>, int),
    Else(Seq<char>, Seq<char>, int),
}

impl View for Instruction {
    type V = InstrModel;

    open spec fn view(&self) -> InstrModel {
        match self {
            Instruction::Mov(r, v) => InstrModel::Mov(r@, *v as int),
            Instruction::MovStr(r, s) => InstrModel::MovStr(r@, s@),
            Instruction::Add(d, s) => InstrModel::Add(d@, s@),
            Instruction::Sub(d, s) => InstrModel::Sub(d@, s@),
            Instruction::Mul(d, s) => InstrModel::Mul(d@, s@),
            Instruction::Div(d, s) => InstrModel::Div(d@, s@),
            Instruction::Mod(d, s) => InstrModel::Mod(d@, s@),
            Instruction::Jmp(t) => InstrModel::Jmp(*t as int),
            Instruction::If(a, c, b, o) => InstrModel::If(a@, c@, b@, *o as int),
            Instruction::Else(a, b, o) => InstrModel::Else(a@, b@, *o as int),
        }
    }
}

impl DeepView for Instruction {
    type V = InstrModel;

    open spec fn deep_view(&self) -> InstrModel {
        self.view()
    }
}

/// Model of an optional instruction.
pub open spec fn opt_model(r: Option<Instruction>) -> Option<InstrModel> {
    match r {
        Some(i) => Some(i@),
        None => None,
    }
}

/// What one line's token list parses to: the first token selects the shape,
/// the token count must match it exactly, and where a signed integer is
/// required the token must parse as one; otherwise the line yields nothing.
pub open spec fn spec_parse_tokens(ts: Seq<Seq<char>>) -> Option<InstrModel> {
    if ts.len() == 3 && ts[0] == "MOV"@ {
        match spec_parse_int(ts[2]) {
            Some(v) => Some(InstrModel::Mov(ts[1], v)),
            None => None,
        }
    } else if ts.len() == 3 && ts[0] == "MOVSTR"@ {
        Some(InstrModel::MovStr(ts[1], ts[2]))
    } else if ts.len() == 3 && ts[0] == "ADD"@ {
        Some(InstrModel::Add(ts[1], ts[2]))
    } else if ts.len() == 3 && ts[0] == "SUB"@ {
        Some(InstrModel::Sub(ts[1], ts[2]))
    } else if ts.len() == 3 && ts[0] == "MUL"@ {
        Some(InstrModel::Mul(ts[1], ts[2]))
    } else if ts.len() == 3 && ts[0] == "DIV"@ {
        Some(InstrModel::Div(ts[1], ts[2]))
    } else if ts.len() == 3 && ts[0] == "MOD"@ {
        Some(InstrModel::Mod(ts[1], ts[2]))
    } else if ts.len() == 2 && ts[0] == "JMP"@ {
        match spec_parse_int(ts[1]) {
            Some(v) => Some(InstrModel::Jmp(v)),
            None => None,
        }
    } else if ts.len() == 5 && ts[0] == "IF"@ {
        match spec_parse_int(ts[4]) {
            Some(v) => Some(InstrModel::If(ts[1], ts[2], ts[3], v)),
            None => None,
        }
    } else if ts.len() == 4 && ts[0] == "ELSE"@ {
        match spec_parse_int(ts[3]) {
            Some(v) => Some(InstrModel::Else(ts[1], ts[2], v)),
            None => None,
        }
    } else {
        None
    }
}

/// What one source line parses to.
pub open spec fn spec_parse_line(line: Seq<char>) -> Option<InstrModel> {
    spec_parse_tokens(spec_tokens(line))
}

/// What a sequence of lines parses to: each line's instruction in source
/// order, with the dropped lines leaving no trace.
pub open spec fn spec_parse_lines(ls: Seq<Seq<char>>) -> Seq<InstrModel>
    decreases ls.len(),
{
    if ls.len() == 0 {
        Seq::empty()
    } else {
        spec_parse_lines(ls.drop_last()) + match spec_parse_line(ls.last()) {
            Some(i) => seq![i],
            None => Seq::empty(),
        }
    }
}

/// What a whole program text parses to.
pub open spec fn spec_parse_program(s: Seq<char>) -> Seq<InstrModel> {
    spec_parse_lines(spec_lines(s))
}

/// Parsing lines is a homomorphism for concatenation: the instructions of
/// the first batch of lines come first, unchanged, then those of the second.
/// This is the sense in which parsing preserves source order.
pub proof fn lemma_parse_lines_append(l1: Seq<Seq<char>>, l2: Seq<Seq<char>>)
    ensures
        spec_parse_lines(l1 + l2) == spec_parse_lines(l1) + spec_parse_lines(l2),
    decreases l2.len(),
{
    if l2.len() == 0 {
        assert(l1 + l2 =~= l1);
        assert(spec_parse_lines(l1) + Seq::<InstrModel>::empty() =~= spec_parse_lines(l1));
    } else {
        assert((l1 + l2).drop_last() =~= l1 + l2.drop_last());
        assert((l1 + l2).last() == l2.last());
        lemma_parse_lines_append(l1, l2.drop_last());
        assert(spec_parse_lines(l1 + l2) =~= spec_parse_lines(l1) + spec_parse_lines(l2));
    }
}

/// Dropped lines only ever shorten the result: a batch of lines never yields
/// more instructions than it has lines.
pub proof fn lemma_parse_lines_count(ls: Seq<Seq<char>>)
    ensures
        spec_parse_lines(ls).len() <= ls.len(),
    decreases ls.len(),
{
    if ls.len() > 0 {
        lemma_parse_lines_count(ls.drop_last());
    }
}

/// A program never yields more instructions than it has lines.
pub proof fn lemma_parse_program_count(s: Seq<char>)
    ensures
        spec_parse_program(s).len() <= spec_lines(s).len(),
{
    lemma_parse_lines_count(spec_lines(s));
}

/// Whether two string slices hold the same characters.
pub fn str_eq(a: &str, b: &str) -> (r: bool)
    ensures
        r == (a@ == b@),
{
    let sa = a.to_owned();
    let sb = b.to_owned();
    sa == sb
}

/// Parses one line's token list, exactly as `spec_parse_tokens` describes.
pub fn parse_tokens(ts: &Vec<String>) -> (r: Option<Instruction>)
    ensures
        opt_model(r) == spec_parse_tokens(ts.deep_view()),
{
    proof {
        assert(forall|i: int| 0 <= i < ts@.len() ==> ts.deep_view()[i] == ts@[i]@);
    }
    if ts.len() == 3 {
        let a = ts[1].clone();
        let b = ts[2].clone();
        if str_eq(ts[0].as_str(), "MOV") {
            match parse_isize(b.as_str()) {
                Some(v) => Some(Instruction::Mov(a, v)),
                None => None,
            }
        } else if str_eq(ts[0].as_str(), "MOVSTR") {
            Some(Instruction::MovStr(a, b))
        } else if str_eq(ts[0].as_str(), "ADD") {
            Some(Instruction::Add(a, b))
        } else if str_eq(ts[0].as_str(), "SUB") {
            Some(Instruction::Sub(a, b))
        } else if str_eq(ts[0].as_str(), "MUL") {
            Some(Instruction::Mul(a, b))
        } else if str_eq(ts[0].as_str(), "DIV") {
            Some(Instruction::Div(a, b))
        } else if str_eq(ts[0].as_str(), "MOD") {
            Some(Instruction::Mod(a, b))
        } else {
            None
        }
    } else if ts.len() == 2 {
        if str_eq(ts[0].as_str(), "JMP") {
            match parse_isize(ts[1].as_str()) {
                Some(v) => Some(Instruction::Jmp(v)),
                None => None,
            }
        } else {
            None
        }
    } else if ts.len() == 5 {
        if str_eq(ts[0].as_str(), "IF") {
            match parse_isize(ts[4].as_str()) {
                Some(v) => Some(
                    Instruction::If(ts[1].clone(), ts[2].clone(), ts[3].clone(), v),
                ),
                None => None,
            }
        } else {
            None
        }
    } else if ts.len() == 4 {
        if str_eq(ts[0].as_str(), "ELSE") {
            match parse_isize(ts[3].as_str()) {
                Some(v) => Some(Instruction::Else(ts[1].clone(), ts[2].clone(), v)),
                None => None,
            }
        } else {
            None
        }
    } else {
        None
    }
}

/// Parses a whole program text into its instruction sequence, exactly as
/// `spec_parse_program` describes: one instruction per recognized line, in
/// source order, every other line dropped.
pub fn parse_program(input: &str) -> (r: Vec<Instruction>)
    ensures
        r.deep_view() == spec_parse_program(input@),
{
    let n = input.unicode_len();
    let mut instrs: Vec<Instruction> = Vec::new();
    let mut p: usize = 0;
    proof {
        assert(input@.subrange(0, n as int) =~= input@);
        assert(instrs.deep_view() =~= Seq::<InstrModel>::empty());
        assert(Seq::<InstrModel>::empty() + spec_parse_program(input@) =~= spec_parse_program(
            input@,
        ));
    }
    while p < n
        invariant
            p <= n,
            n == input@.len(),
            instrs.deep_view() + spec_parse_lines(spec_lines(input@.subrange(p as int, n as int)))
                == spec_parse_program(input@),
        decreases n - p,
    {
        let ghost suffix = input@.subrange(p as int, n as int);
        let k = line_end(input, p);
        proof {
            assert(forall|t: int| 0 <= t < k - p ==> suffix[t] == input@[p + t]);
            lemma_line_len_at(suffix, k - p);
        }
        let trim: usize = if k < n && k > p && input.get_char(k - 1) == '\r' {
            k - 1
        } else {
            k
        };
        let line = input.substring_char(p, trim);
        let next_p: usize = if k < n {
            k + 1
        } else {
            n
        };
        let ghost rest_lines = spec_lines(input@.subrange(next_p as int, n as int));
        proof {
            if k < n {
                assert(strip_cr(suffix.subrange(0, k - p)) =~= input@.subrange(
                    p as int,
                    trim as int,
                ));
                assert(suffix.subrange(k - p + 1, suffix.len() as int) =~= input@.subrange(
                    next_p as int,
                    n as int,
                ));
                assert(spec_lines(suffix) =~= seq![line@] + rest_lines);
            } else {
                assert(suffix.subrange(0, k - p) =~= suffix);
                assert(input@.subrange(next_p as int, n as int) =~= Seq::<char>::empty());
                assert(rest_lines =~= Seq::<Seq<char>>::empty());
                assert(spec_lines(suffix) =~= seq![line@] + rest_lines);
            }
            lemma_parse_lines_append(seq![line@], rest_lines);
            assert(seq![line@].drop_last() =~= Seq::<Seq<char>>::empty());
            assert(spec_parse_lines(Seq::<Seq<char>>::empty()) == Seq::<InstrModel>::empty());
            assert(seq![line@].last() == line@);
            assert(spec_parse_lines(seq![line@]) =~= match spec_parse_line(line@) {
                Some(i) => seq![i],
                None => Seq::empty(),
            });
        }
        let tokens = tokenize(line);
        let parsed = parse_tokens(&tokens);
        let ghost parsed_model = opt_model(parsed);
        let ghost old_model = instrs.deep_view();
        match parsed {
            Some(ins) => {
                instrs.push(ins);
            },
            None => {
            },
        }
        proof {
            assert(instrs.deep_view() =~= old_model + match parsed_model {
                Some(i) => seq![i],
                None => Seq::empty(),
            });
            assert(parsed_model == spec_parse_line(line@));
            assert(instrs.deep_view() + spec_parse_lines(rest_lines) =~= spec_parse_program(
                input@,
            ));
        }
        p = next_p;
    }
    proof {
        assert(input@.subrange(n as int, n as int) =~= Seq::<char>::empty());
        assert(instrs.deep_view() + Seq::<InstrModel>::empty() =~= instrs.deep_view());
    }
    instrs
}

} // verus!
