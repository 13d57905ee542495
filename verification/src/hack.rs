//! The instructions of the target assembly language, and their text.

use vstd::prelude::*;
use vstd::string::StringExecFns;
use crate::decimal::{
    append_decimal, decimal, lemma_decimal_injective, lemma_decimal_round_trip, lemma_number_chars,
};
use crate::text::{has_no_line_feed, is_line};

verus! {

/// What an address instruction can name.
#[derive(Debug, Clone, Copy, PartialEq, Eq, Structural)]
pub enum Target {
    /// A number written out.
    Number(u32),
    /// The cell that holds the stack pointer.
    StackPointer,
    /// The cell that holds the base of the segment `local`.
    Local,
    /// The cell that holds the base of the segment `argument`.
    Argument,
    /// The cell that holds the base of the segment `this`.
    This,
    /// The cell that holds the base of the segment `that`.
    That,
    /// The static variable of the given index in the current module.
    Static(u32),
    /// The branch target of the given number.
    Label(usize),
}

/// Where a computed value goes.
#[derive(Debug, Clone, Copy, PartialEq, Eq, Structural)]
pub enum Register {
    A,
    D,
    /// The memory cell that `A` addresses.
    M,
}

/// What the arithmetic unit computes.
#[derive(Debug, Clone, Copy, PartialEq, Eq, Structural)]
pub enum Comp {
    Zero,
    MinusOne,
    D,
    A,
    M,
    NotM,
    NegM,
    APlusOne,
    MPlusOne,
    MMinusOne,
    DPlusM,
    MMinusD,
    DAndM,
    DOrM,
}

/// When a jump is taken, by the computed value.
#[derive(Debug, Clone, Copy, PartialEq, Eq, Structural)]
pub enum Condition {
    Zero,
    Positive,
    Negative,
    Always,
}

/// One line of assembly.
#[derive(Debug, Clone, Copy, PartialEq, Eq, Structural)]
pub enum Instr {
    /// `@target`: load an address into `A`.
    At(Target),
    /// `dest=comp`: store a computed value.
    Assign(Register, Comp),
    /// `comp;jump`: jump to the instruction that `A` addresses.
    Jump(Comp, Condition),
    /// `(LABELn)`: the place that label `n` names.
    Mark(usize),
}

impl Target {
    /// The text that names the target, in a module of the given name.
    pub open spec fn symbol(self, module: Seq<char>) -> Seq<char> {
        match self {
            Target::Number(n) => decimal(n as nat),
            Target::StackPointer => "SP"@,
            Target::Local => "LCL"@,
            Target::Argument => "ARG"@,
            Target::This => "THIS"@,
            Target::That => "THAT"@,
            Target::Static(index) => module + "."@ + decimal(index as nat),
            Target::Label(n) => "LABEL"@ + decimal(n as nat),
        }
    }
}

impl Register {
    /// How the register is written.
    pub open spec fn text(self) -> Seq<char> {
        match self {
            Register::A => "A"@,
            Register::D => "D"@,
            Register::M => "M"@,
        }
    }

    /// How the register is written.
    pub fn as_str(self) -> (s: &'static str)
        ensures
            s@ == self.text(),
    {
        match self {
            Register::A => "A",
            Register::D => "D",
            Register::M => "M",
        }
    }
}

impl Comp {
    /// How the computation is written.
    pub open spec fn text(self) -> Seq<char> {
        match self {
            Comp::Zero => "0"@,
            Comp::MinusOne => "-1"@,
            Comp::D => "D"@,
            Comp::A => "A"@,
            Comp::M => "M"@,
            Comp::NotM => "!M"@,
            Comp::NegM => "-M"@,
            Comp::APlusOne => "A+1"@,
            Comp::MPlusOne => "M+1"@,
            Comp::MMinusOne => "M-1"@,
            Comp::DPlusM => "D+M"@,
            Comp::MMinusD => "M-D"@,
            Comp::DAndM => "D&M"@,
            Comp::DOrM => "D|M"@,
        }
    }

    /// How the computation is written.
    pub fn as_str(self) -> (s: &'static str)
        ensures
            s@ == self.text(),
    {
        match self {
            Comp::Zero => "0",
            Comp::MinusOne => "-1",
            Comp::D => "D",
            Comp::A => "A",
            Comp::M => "M",
            Comp::NotM => "!M",
            Comp::NegM => "-M",
            Comp::APlusOne => "A+1",
            Comp::MPlusOne => "M+1",
            Comp::MMinusOne => "M-1",
            Comp::DPlusM => "D+M",
            Comp::MMinusD => "M-D",
            Comp::DAndM => "D&M",
            Comp::DOrM => "D|M",
        }
    }
}

impl Condition {
    /// How a jump on the condition is written.
    pub open spec fn text(self) -> Seq<char> {
        match self {
            Condition::Zero => "JEQ"@,
            Condition::Positive => "JGT"@,
            Condition::Negative => "JLT"@,
            Condition::Always => "JMP"@,
        }
    }

    /// How a jump on the condition is written.
    pub fn as_str(self) -> (s: &'static str)
        ensures
            s@ == self.text(),
    {
        match self {
            Condition::Zero => "JEQ",
            Condition::Positive => "JGT",
            Condition::Negative => "JLT",
            Condition::Always => "JMP",
        }
    }
}

impl Instr {
    /// The line of assembly for the instruction, its line feed included.
    pub open spec fn text(self, module: Seq<char>) -> Seq<char> {
        match self {
            Instr::At(target) => "@"@ + target.symbol(module) + "\n"@,
            Instr::Assign(dest, comp) => dest.text() + "="@ + comp.text() + "\n"@,
            Instr::Jump(comp, condition) => comp.text() + ";"@ + condition.text() + "\n"@,
            Instr::Mark(n) => "("@ + Target::Label(n).symbol(module) + ")\n"@,
        }
    }
}

/// The text of a sequence of instructions: their lines, one after another.
pub open spec fn listing(code: Seq<Instr>, module: Seq<char>) -> Seq<char>
    decreases code.len(),
{
    if code.len() == 0 {
        Seq::empty()
    } else {
        listing(code.drop_last(), module) + code.last().text(module)
    }
}

/// The text of two sequences of instructions, one after the other, is the
/// text of the first followed by the text of the second.
pub proof fn lemma_listing_concat(first: Seq<Instr>, second: Seq<Instr>, module: Seq<char>)
    ensures
        listing(first + second, module) == listing(first, module) + listing(second, module),
    decreases second.len(),
{
    if second.len() == 0 {
        assert(first + second =~= first);
        assert(listing(first, module) + listing(second, module) =~= listing(first, module));
    } else {
        lemma_listing_concat(first, second.drop_last(), module);
        assert((first + second).drop_last() =~= first + second.drop_last());
        assert(listing(first + second, module) =~= listing(first, module) + listing(
            second,
            module,
        ));
    }
}

/// Two static variables have the same symbol only if they have the same
/// index and belong to modules of the same name.
pub proof fn lemma_static_symbols(
    module_a: Seq<char>,
    index_a: u32,
    module_b: Seq<char>,
    index_b: u32,
)
    ensures
        Target::Static(index_a).symbol(module_a) == Target::Static(index_b).symbol(module_b) <==> (
        module_a == module_b && index_a == index_b),
{
    let digits_a = decimal(index_a as nat);
    let digits_b = decimal(index_b as nat);
    let a = Target::Static(index_a).symbol(module_a);
    let b = Target::Static(index_b).symbol(module_b);
    if a == b {
        reveal_strlit(".");
        lemma_decimal_round_trip(index_a as nat);
        lemma_decimal_round_trip(index_b as nat);
        assert(a.len() == module_a.len() + 1 + digits_a.len());
        assert(b.len() == module_b.len() + 1 + digits_b.len());
        assert(a[module_a.len() as int] == '.');
        assert(b[module_b.len() as int] == '.');
        if module_a.len() < module_b.len() {
            let k = module_b.len() - module_a.len() - 1;
            assert(a[module_b.len() as int] == digits_a[k]);
            lemma_number_chars(digits_a, k);
        } else if module_b.len() < module_a.len() {
            let k = module_a.len() - module_b.len() - 1;
            assert(b[module_a.len() as int] == digits_b[k]);
            lemma_number_chars(digits_b, k);
        }
        assert(module_a =~= a.subrange(0, module_a.len() as int));
        assert(module_b =~= b.subrange(0, module_b.len() as int));
        assert(digits_a =~= a.subrange(module_a.len() as int + 1, a.len() as int));
        assert(digits_b =~= b.subrange(module_b.len() as int + 1, b.len() as int));
        lemma_decimal_injective(index_a as nat, index_b as nat);
    }
}

/// Two labels have the same symbol only if they have the same number.
pub proof fn lemma_label_symbols(a: usize, b: usize, module: Seq<char>)
    ensures
        Target::Label(a).symbol(module) == Target::Label(b).symbol(module) <==> a == b,
        Instr::Mark(a).text(module) == Instr::Mark(b).text(module) <==> a == b,
        Instr::At(Target::Label(a)).text(module) == Instr::At(Target::Label(b)).text(module) <==> a
            == b,
{
    let digits_a = decimal(a as nat);
    let digits_b = decimal(b as nat);
    let symbol_a = Target::Label(a).symbol(module);
    let symbol_b = Target::Label(b).symbol(module);
    if symbol_a == symbol_b {
        assert(digits_a =~= symbol_a.subrange("LABEL"@.len() as int, symbol_a.len() as int));
        assert(digits_b =~= symbol_b.subrange("LABEL"@.len() as int, symbol_b.len() as int));
        lemma_decimal_injective(a as nat, b as nat);
    }
    let mark_a = Instr::Mark(a).text(module);
    let mark_b = Instr::Mark(b).text(module);
    if mark_a == mark_b {
        assert(symbol_a =~= mark_a.subrange("("@.len() as int, mark_a.len() - ")\n"@.len()));
        assert(symbol_b =~= mark_b.subrange("("@.len() as int, mark_b.len() - ")\n"@.len()));
    }
    let at_a = Instr::At(Target::Label(a)).text(module);
    let at_b = Instr::At(Target::Label(b)).text(module);
    if at_a == at_b {
        assert(symbol_a =~= at_a.subrange("@"@.len() as int, at_a.len() - "\n"@.len()));
        assert(symbol_b =~= at_b.subrange("@"@.len() as int, at_b.len() - "\n"@.len()));
    }
}

proof fn lemma_symbol_has_no_line_feed(target: Target, module: Seq<char>)
    requires
        has_no_line_feed(module),
    ensures
        has_no_line_feed(target.symbol(module)),
{
    reveal_strlit("SP");
    reveal_strlit("LCL");
    reveal_strlit("ARG");
    reveal_strlit("THIS");
    reveal_strlit("THAT");
    reveal_strlit(".");
    reveal_strlit("LABEL");
    let symbol = target.symbol(module);
    match target {
        Target::Number(n) => {
            lemma_decimal_round_trip(n as nat);
            assert forall|i: int| 0 <= i < symbol.len() implies symbol[i] != '\n' by {
                lemma_number_chars(symbol, i);
            }
        },
        Target::Static(index) => {
            let digits = decimal(index as nat);
            lemma_decimal_round_trip(index as nat);
            assert forall|i: int| 0 <= i < symbol.len() implies symbol[i] != '\n' by {
                if i > module.len() {
                    assert(symbol[i] == digits[i - module.len() - 1]);
                    lemma_number_chars(digits, i - module.len() - 1);
                } else if i < module.len() {
                    assert(symbol[i] == module[i]);
                }
            }
        },
        Target::Label(n) => {
            let digits = decimal(n as nat);
            lemma_decimal_round_trip(n as nat);
            assert forall|i: int| 0 <= i < symbol.len() implies symbol[i] != '\n' by {
                if i >= 5 {
                    assert(symbol[i] == digits[i - 5]);
                    lemma_number_chars(digits, i - 5);
                }
            }
        },
        _ => {},
    }
}

proof fn lemma_words_have_no_line_feed(dest: Register, comp: Comp, condition: Condition)
    ensures
        has_no_line_feed(dest.text()),
        has_no_line_feed(comp.text()),
        has_no_line_feed(condition.text()),
        dest.text().len() > 0,
        comp.text().len() > 0,
        condition.text().len() > 0,
{
    reveal_strlit("A");
    reveal_strlit("D");
    reveal_strlit("M");
    reveal_strlit("0");
    reveal_strlit("-1");
    reveal_strlit("!M");
    reveal_strlit("-M");
    reveal_strlit("A+1");
    reveal_strlit("M+1");
    reveal_strlit("M-1");
    reveal_strlit("D+M");
    reveal_strlit("M-D");
    reveal_strlit("D&M");
    reveal_strlit("D|M");
    reveal_strlit("JEQ");
    reveal_strlit("JGT");
    reveal_strlit("JLT");
    reveal_strlit("JMP");
}

/// Every instruction is written as one line: its text ends with a line feed
/// and holds no other, where the name of the module holds none.
pub proof fn lemma_instr_text_is_line(instr: Instr, module: Seq<char>)
    requires
        has_no_line_feed(module),
    ensures
        is_line(instr.text(module), false),
        instr.text(module).len() >= 2,
{
    reveal_strlit("@");
    reveal_strlit("\n");
    reveal_strlit("=");
    reveal_strlit(";");
    reveal_strlit("(");
    reveal_strlit(")\n");
    let text = instr.text(module);
    match instr {
        Instr::At(target) => {
            let symbol = target.symbol(module);
            lemma_symbol_has_no_line_feed(target, module);
            assert forall|i: int| 0 <= i < text.len() - 1 implies text[i] != '\n' by {
                if i >= 1 {
                    assert(text[i] == symbol[i - 1]);
                }
            }
        },
        Instr::Assign(dest, comp) => {
            lemma_words_have_no_line_feed(dest, comp, Condition::Always);
            let left = dest.text();
            let right = comp.text();
            assert forall|i: int| 0 <= i < text.len() - 1 implies text[i] != '\n' by {
                if i < left.len() {
                    assert(text[i] == left[i]);
                } else if i > left.len() {
                    assert(text[i] == right[i - left.len() - 1]);
                }
            }
        },
        Instr::Jump(comp, condition) => {
            lemma_words_have_no_line_feed(Register::A, comp, condition);
            let left = comp.text();
            let right = condition.text();
            assert forall|i: int| 0 <= i < text.len() - 1 implies text[i] != '\n' by {
                if i < left.len() {
                    assert(text[i] == left[i]);
                } else if i > left.len() {
                    assert(text[i] == right[i - left.len() - 1]);
                }
            }
        },
        Instr::Mark(n) => {
            let symbol = Target::Label(n).symbol(module);
            lemma_symbol_has_no_line_feed(Target::Label(n), module);
            assert forall|i: int| 0 <= i < text.len() - 1 implies text[i] != '\n' by {
                if 1 <= i < 1 + symbol.len() {
                    assert(text[i] == symbol[i - 1]);
                }
            }
        },
    }
}

/// Appends to `out` the text that names `target`.
pub(crate) fn write_symbol(out: &mut String, target: Target, module: &str)
    ensures
        final(out)@ == old(out)@ + target.symbol(module@),
{
    match target {
        Target::Number(n) => append_decimal(out, n as u64),
        Target::StackPointer => out.append("SP"),
        Target::Local => out.append("LCL"),
        Target::Argument => out.append("ARG"),
        Target::This => out.append("THIS"),
        Target::That => out.append("THAT"),
        Target::Static(index) => {
            out.append(module);
            out.append(".");
            append_decimal(out, index as u64);
            assert(out@ =~= old(out)@ + target.symbol(module@));
        },
        Target::Label(n) => {
            out.append("LABEL");
            append_decimal(out, n as u64);
            assert(out@ =~= old(out)@ + target.symbol(module@));
        },
    }
}

/// Appends to `out` the line of assembly for `instr`.
pub(crate) fn write_instr(out: &mut String, instr: Instr, module: &str)
    ensures
        final(out)@ == old(out)@ + instr.text(module@),
{
    match instr {
        Instr::At(target) => {
            out.append("@");
            write_symbol(out, target, module);
            out.append("\n");
        },
        Instr::Assign(dest, comp) => {
            out.append(dest.as_str());
            out.append("=");
            out.append(comp.as_str());
            out.append("\n");
        },
        Instr::Jump(comp, condition) => {
            out.append(comp.as_str());
            out.append(";");
            out.append(condition.as_str());
            out.append("\n");
        },
        Instr::Mark(n) => {
            out.append("(");
            write_symbol(out, Target::Label(n), module);
            out.append(")\n");
        },
    }
    assert(out@ =~= old(out)@ + instr.text(module@));
}

/// Appends to `out` the text of `code`.
pub(crate) fn write_listing(out: &mut String, code: &Vec<Instr>, module: &str)
    ensures
        final(out)@ == old(out)@ + listing(code@, module@),
{
    let mut i: usize = 0;
    assert(code@.take(0) =~= Seq::<Instr>::empty());
    assert(out@ =~= old(out)@ + listing(code@.take(0), module@));
    while i < code.len()
        invariant
            i <= code.len(),
            out@ == old(out)@ + listing(code@.take(i as int), module@),
        decreases code.len() - i,
    {
        write_instr(out, code[i], module);
        i += 1;
        assert(code@.take(i as int).drop_last() =~= code@.take(i - 1));
        assert(out@ =~= old(out)@ + listing(code@.take(i as int), module@));
    }
    assert(code@.take(i as int) =~= code@);
}

} // verus!
