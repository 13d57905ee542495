//! The decoded form of a source line.

use vstd::prelude::*;
use vstd::string::StrSliceExecFns;

verus! {

/// The kind of a source line.
///
/// Only `CArithmetic`, `CPush`, `CPop` and `CComment` are ever the kind of a
/// line: the control-flow and procedure kinds are named here, but no line is
/// classified as one of them.
#[derive(Debug, Clone, Copy, PartialEq, Eq, Structural)]
pub enum CommandType {
    CArithmetic,
    CPush,
    CPop,
    CLabel,
    CGoto,
    CIf,
    CFunction,
    CReturn,
    CCall,
    CComment,
}

/// A named region of the virtual machine's memory.
#[derive(Debug, Clone, Copy, PartialEq, Eq, Structural)]
pub enum Segment {
    Constant,
    Local,
    Argument,
    This,
    That,
    Static,
    Temp,
    Pointer,
}

/// An arithmetic, logical or comparison operation on the top of the stack.
#[derive(Debug, Clone, Copy, PartialEq, Eq, Structural)]
pub enum Operator {
    Add,
    Sub,
    And,
    Or,
    Neg,
    Not,
    Eq,
    Gt,
    Lt,
}

/// One instruction of the virtual machine, with its operands.
#[derive(Debug, Clone, Copy, PartialEq, Eq, Structural)]
pub enum Command {
    Arithmetic(Operator),
    Push(Segment, u32),
    Pop(Segment, u32),
}

/// Why a line is no instruction.
#[derive(Debug, Clone, Copy, PartialEq, Eq, Structural)]
pub enum Fault {
    /// The line has none of the shapes of an instruction.
    Malformed,
    /// The line is a push or a pop on a segment, but its index is no number
    /// of 32 bits written in decimal digits.
    InvalidOperand,
}

/// A line that could not be decoded, with its place in the source.
#[derive(Debug, PartialEq, Eq)]
pub enum ParseError {
    MalformedInstruction { line_number: usize, text: String },
    InvalidOperand { line_number: usize, text: String },
}

/// What a `ParseError` holds, as plain values.
pub struct ParseErrorView {
    pub fault: Fault,
    pub line_number: nat,
    pub text: Seq<char>,
}

impl View for ParseError {
    type V = ParseErrorView;

    open spec fn view(&self) -> ParseErrorView {
        match *self {
            ParseError::MalformedInstruction { line_number, text } => ParseErrorView {
                fault: Fault::Malformed,
                line_number: line_number as nat,
                text: text@,
            },
            ParseError::InvalidOperand { line_number, text } => ParseErrorView {
                fault: Fault::InvalidOperand,
                line_number: line_number as nat,
                text: text@,
            },
        }
    }
}

impl ParseError {
    /// The error for a line of the given text and number.
    pub fn new(fault: Fault, line_number: usize, text: String) -> (e: ParseError)
        ensures
            e@ == (ParseErrorView { fault, line_number: line_number as nat, text: text@ }),
    {
        match fault {
            Fault::Malformed => ParseError::MalformedInstruction { line_number, text },
            Fault::InvalidOperand => ParseError::InvalidOperand { line_number, text },
        }
    }

    /// Why the line is no instruction.
    pub fn fault(&self) -> (f: Fault)
        ensures
            f == self@.fault,
    {
        match self {
            ParseError::MalformedInstruction { .. } => Fault::Malformed,
            ParseError::InvalidOperand { .. } => Fault::InvalidOperand,
        }
    }

    /// The number of the offending line, counted from one.
    pub fn line_number(&self) -> (n: usize)
        ensures
            n == self@.line_number,
    {
        match self {
            ParseError::MalformedInstruction { line_number, .. } => *line_number,
            ParseError::InvalidOperand { line_number, .. } => *line_number,
        }
    }

    /// The offending line, without the whitespace at its ends.
    pub fn text(&self) -> (s: &String)
        ensures
            s@ == self@.text,
    {
        match self {
            ParseError::MalformedInstruction { text, .. } => text,
            ParseError::InvalidOperand { text, .. } => text,
        }
    }
}

impl Segment {
    /// The word that stands for the segment in a source line.
    pub open spec fn name(self) -> Seq<char> {
        match self {
            Segment::Constant => "constant"@,
            Segment::Local => "local"@,
            Segment::Argument => "argument"@,
            Segment::This => "this"@,
            Segment::That => "that"@,
            Segment::Static => "static"@,
            Segment::Temp => "temp"@,
            Segment::Pointer => "pointer"@,
        }
    }

    /// The word that stands for the segment in a source line.
    pub fn as_str(self) -> (s: &'static str)
        ensures
            s@ == self.name(),
    {
        match self {
            Segment::Constant => "constant",
            Segment::Local => "local",
            Segment::Argument => "argument",
            Segment::This => "this",
            Segment::That => "that",
            Segment::Static => "static",
            Segment::Temp => "temp",
            Segment::Pointer => "pointer",
        }
    }
}

impl Operator {
    /// The word that stands for the operation in a source line.
    pub open spec fn name(self) -> Seq<char> {
        match self {
            Operator::Add => "add"@,
            Operator::Sub => "sub"@,
            Operator::And => "and"@,
            Operator::Or => "or"@,
            Operator::Neg => "neg"@,
            Operator::Not => "not"@,
            Operator::Eq => "eq"@,
            Operator::Gt => "gt"@,
            Operator::Lt => "lt"@,
        }
    }

    /// The word that stands for the operation in a source line.
    pub fn as_str(self) -> (s: &'static str)
        ensures
            s@ == self.name(),
    {
        match self {
            Operator::Add => "add",
            Operator::Sub => "sub",
            Operator::And => "and",
            Operator::Or => "or",
            Operator::Neg => "neg",
            Operator::Not => "not",
            Operator::Eq => "eq",
            Operator::Gt => "gt",
            Operator::Lt => "lt",
        }
    }

    /// The operation takes two cells and leaves their sum, difference,
    /// conjunction or disjunction.
    pub open spec fn is_binary(self) -> bool {
        self == Operator::Add || self == Operator::Sub || self == Operator::And || self
            == Operator::Or
    }

    /// The operation changes the top cell in place.
    pub open spec fn is_unary(self) -> bool {
        self == Operator::Neg || self == Operator::Not
    }

    /// The operation takes two cells and leaves a truth value.
    pub open spec fn is_comparison(self) -> bool {
        self == Operator::Eq || self == Operator::Gt || self == Operator::Lt
    }
}

impl Command {
    /// The kind of the command.
    pub open spec fn kind(self) -> CommandType {
        match self {
            Command::Arithmetic(_) => CommandType::CArithmetic,
            Command::Push(_, _) => CommandType::CPush,
            Command::Pop(_, _) => CommandType::CPop,
        }
    }
}

/// The segment that a word names.
pub open spec fn segment_named(word: Seq<char>) -> Option<Segment> {
    if word == "constant"@ {
        Some(Segment::Constant)
    } else if word == "local"@ {
        Some(Segment::Local)
    } else if word == "argument"@ {
        Some(Segment::Argument)
    } else if word == "this"@ {
        Some(Segment::This)
    } else if word == "that"@ {
        Some(Segment::That)
    } else if word == "static"@ {
        Some(Segment::Static)
    } else if word == "temp"@ {
        Some(Segment::Temp)
    } else if word == "pointer"@ {
        Some(Segment::Pointer)
    } else {
        None
    }
}

/// The operation that a word names.
pub open spec fn operator_named(word: Seq<char>) -> Option<Operator> {
    if word == "add"@ {
        Some(Operator::Add)
    } else if word == "sub"@ {
        Some(Operator::Sub)
    } else if word == "and"@ {
        Some(Operator::And)
    } else if word == "or"@ {
        Some(Operator::Or)
    } else if word == "neg"@ {
        Some(Operator::Neg)
    } else if word == "not"@ {
        Some(Operator::Not)
    } else if word == "eq"@ {
        Some(Operator::Eq)
    } else if word == "gt"@ {
        Some(Operator::Gt)
    } else if word == "lt"@ {
        Some(Operator::Lt)
    } else {
        None
    }
}

/// Every segment is named by its own word and by no other.
pub proof fn lemma_segment_names(segment: Segment)
    ensures
        segment_named(segment.name()) == Some(segment),
        segment.name().len() >= 4,
        forall|i: int| 0 <= i < segment.name().len() ==> 'a' <= #[trigger] segment.name()[i] <= 'z',
{
    reveal_strlit("constant");
    reveal_strlit("local");
    reveal_strlit("argument");
    reveal_strlit("this");
    reveal_strlit("that");
    reveal_strlit("static");
    reveal_strlit("temp");
    reveal_strlit("pointer");
    assert("constant"@.len() == 8 && "argument"@.len() == 8 && "local"@.len() == 5);
    assert("this"@.len() == 4 && "that"@.len() == 4 && "temp"@.len() == 4);
    assert("static"@.len() == 6 && "pointer"@.len() == 7);
    assert("constant"@[0] == 'c' && "argument"@[0] == 'a');
    assert("this"@[2] == 'i' && "that"@[2] == 'a' && "temp"@[2] == 'm');
}

/// Every operation is named by its own word and by no other.
pub proof fn lemma_operator_names(operator: Operator)
    ensures
        operator_named(operator.name()) == Some(operator),
        2 <= operator.name().len() <= 3,
        forall|i: int|
            0 <= i < operator.name().len() ==> 'a' <= #[trigger] operator.name()[i] <= 'z',
{
    reveal_strlit("add");
    reveal_strlit("sub");
    reveal_strlit("and");
    reveal_strlit("or");
    reveal_strlit("neg");
    reveal_strlit("not");
    reveal_strlit("eq");
    reveal_strlit("gt");
    reveal_strlit("lt");
    assert("add"@.len() == 3 && "sub"@.len() == 3 && "and"@.len() == 3);
    assert("neg"@.len() == 3 && "not"@.len() == 3);
    assert("or"@.len() == 2 && "eq"@.len() == 2 && "gt"@.len() == 2 && "lt"@.len() == 2);
    assert("add"@[1] == 'd' && "sub"@[1] == 'u' && "and"@[1] == 'n');
    assert("neg"@[1] == 'e' && "not"@[1] == 'o');
    assert("or"@[0] == 'o' && "eq"@[0] == 'e' && "gt"@[0] == 'g' && "lt"@[0] == 'l');
}

/// Whether the characters `t[from..to]` spell `word`.
pub(crate) fn spells(t: &Vec<char>, from: usize, to: usize, word: &str) -> (b: bool)
    requires
        from <= to <= t.len(),
    ensures
        b == (t@.subrange(from as int, to as int) == word@),
{
    let n = word.unicode_len();
    if to - from != n {
        return false;
    }
    let mut i: usize = 0;
    while i < n
        invariant
            from <= to <= t.len(),
            n == to - from,
            n == word@.len(),
            i <= n,
            forall|k: int| 0 <= k < i ==> t@[from + k] == word@[k],
        decreases n - i,
    {
        if t[from + i] != word.get_char(i) {
            assert(t@.subrange(from as int, to as int)[i as int] != word@[i as int]);
            return false;
        }
        i += 1;
    }
    assert(t@.subrange(from as int, to as int) =~= word@);
    true
}

/// The segment that `t[from..to]` names.
pub(crate) fn segment_at(t: &Vec<char>, from: usize, to: usize) -> (r: Option<Segment>)
    requires
        from <= to <= t.len(),
    ensures
        r == segment_named(t@.subrange(from as int, to as int)),
{
    if spells(t, from, to, "constant") {
        Some(Segment::Constant)
    } else if spells(t, from, to, "local") {
        Some(Segment::Local)
    } else if spells(t, from, to, "argument") {
        Some(Segment::Argument)
    } else if spells(t, from, to, "this") {
        Some(Segment::This)
    } else if spells(t, from, to, "that") {
        Some(Segment::That)
    } else if spells(t, from, to, "static") {
        Some(Segment::Static)
    } else if spells(t, from, to, "temp") {
        Some(Segment::Temp)
    } else if spells(t, from, to, "pointer") {
        Some(Segment::Pointer)
    } else {
        None
    }
}

/// The operation that `t[from..to]` names.
pub(crate) fn operator_at(t: &Vec<char>, from: usize, to: usize) -> (r: Option<Operator>)
    requires
        from <= to <= t.len(),
    ensures
        r == operator_named(t@.subrange(from as int, to as int)),
{
    if spells(t, from, to, "add") {
        Some(Operator::Add)
    } else if spells(t, from, to, "sub") {
        Some(Operator::Sub)
    } else if spells(t, from, to, "and") {
        Some(Operator::And)
    } else if spells(t, from, to, "or") {
        Some(Operator::Or)
    } else if spells(t, from, to, "neg") {
        Some(Operator::Neg)
    } else if spells(t, from, to, "not") {
        Some(Operator::Not)
    } else if spells(t, from, to, "eq") {
        Some(Operator::Eq)
    } else if spells(t, from, to, "gt") {
        Some(Operator::Gt)
    } else if spells(t, from, to, "lt") {
        Some(Operator::Lt)
    } else {
        None
    }
}

} // verus!
