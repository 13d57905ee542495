//! Different instructions are written differently: the text of assembly
//! tells which instructions it stands for.

use vstd::prelude::*;
use crate::decimal::{decimal, lemma_decimal_injective, lemma_decimal_round_trip};
use crate::hack::{
    lemma_instr_text_is_line, lemma_label_symbols, lemma_static_symbols, listing, Comp, Condition,
    Instr, Register, Target,
};
use crate::text::has_no_line_feed;

verus! {

/// The targets that are written in capital letters.
spec fn is_named(target: Target) -> bool {
    !(target is Number) && !(target is Static)
}

/// How the symbols of the kinds of targets differ: a number starts with a
/// digit, a name with a capital letter, and only a static variable has a
/// dot.
proof fn lemma_symbol_marks(target: Target, module: Seq<char>)
    ensures
        target.symbol(module).len() > 0,
        target is Number ==> '0' <= target.symbol(module)[0] <= '9',
        is_named(target) ==> 'A' <= target.symbol(module)[0] <= 'Z',
        target is Label ==> target.symbol(module).len() >= 6,
        is_named(target) && !(target is Label) ==> target.symbol(module).len() <= 4,
        target is Static ==> target.symbol(module)[module.len() as int] == '.',
        !(target is Static) ==> forall|i: int|
            0 <= i < target.symbol(module).len() ==> target.symbol(module)[i] != '.',
{
    reveal_strlit("SP");
    reveal_strlit("LCL");
    reveal_strlit("ARG");
    reveal_strlit("THIS");
    reveal_strlit("THAT");
    reveal_strlit(".");
    reveal_strlit("LABEL");
    let symbol = target.symbol(module);
    match target {
        Target::Number(n) => {
            lemma_decimal_round_trip(n as nat);
        },
        Target::Static(index) => {
            lemma_decimal_round_trip(index as nat);
        },
        Target::Label(n) => {
            let digits = decimal(n as nat);
            lemma_decimal_round_trip(n as nat);
            assert(symbol[0] == 'L');
            assert forall|i: int| 0 <= i < symbol.len() implies symbol[i] != '.' by {
                if i >= 5 {
                    assert(symbol[i] == digits[i - 5]);
                }
            }
        },
        _ => {},
    }
}

/// Two targets with the same symbol are the same target.
pub proof fn lemma_symbols_differ(a: Target, b: Target, module: Seq<char>)
    requires
        a.symbol(module) == b.symbol(module),
    ensures
        a == b,
{
    lemma_symbol_marks(a, module);
    lemma_symbol_marks(b, module);
    let first = a.symbol(module);
    let second = b.symbol(module);
    match (a, b) {
        (Target::Number(m), Target::Number(n)) => {
            lemma_decimal_injective(m as nat, n as nat);
        },
        (Target::Static(i), Target::Static(j)) => {
            lemma_static_symbols(module, i, module, j);
        },
        (Target::Label(m), Target::Label(n)) => {
            lemma_label_symbols(m, n, module);
        },
        _ => {
            reveal_strlit("SP");
            reveal_strlit("LCL");
            reveal_strlit("ARG");
            reveal_strlit("THIS");
            reveal_strlit("THAT");
            assert(first.len() == second.len());
            assert(first[0] == second[0]);
            if a is Static {
                assert(second[module.len() as int] == '.');
            } else if b is Static {
                assert(first[module.len() as int] == '.');
            } else if first.len() >= 3 {
                assert(first[2] == second[2]);
            }
        },
    }
}

/// Two computations that are written alike are the same computation, and no
/// computation is written with a semicolon or an equals sign.
proof fn lemma_comps_differ(a: Comp, b: Comp)
    ensures
        a.text() == b.text() ==> a == b,
        1 <= a.text().len() <= 3,
        forall|i: int| 0 <= i < a.text().len() ==> a.text()[i] != ';' && a.text()[i] != '=',
{
    reveal_strlit("0");
    reveal_strlit("-1");
    reveal_strlit("D");
    reveal_strlit("A");
    reveal_strlit("M");
    reveal_strlit("!M");
    reveal_strlit("-M");
    reveal_strlit("A+1");
    reveal_strlit("M+1");
    reveal_strlit("M-1");
    reveal_strlit("D+M");
    reveal_strlit("M-D");
    reveal_strlit("D&M");
    reveal_strlit("D|M");
    if a.text() == b.text() {
        assert(a.text().len() == b.text().len());
        assert(a.text()[0] == b.text()[0]);
        if a.text().len() >= 2 {
            assert(a.text()[1] == b.text()[1]);
        }
        if a.text().len() >= 3 {
            assert(a.text()[2] == b.text()[2]);
        }
    }
}

/// Two registers that are written alike are the same register, and so are
/// two conditions.
proof fn lemma_words_differ(a: Register, b: Register, c: Condition, d: Condition)
    ensures
        a.text() == b.text() ==> a == b,
        c.text() == d.text() ==> c == d,
        a.text().len() == 1,
        'A' <= a.text()[0] <= 'Z',
        c.text().len() == 3,
{
    reveal_strlit("A");
    reveal_strlit("D");
    reveal_strlit("M");
    reveal_strlit("JEQ");
    reveal_strlit("JGT");
    reveal_strlit("JLT");
    reveal_strlit("JMP");
    if a.text() == b.text() {
        assert(a.text()[0] == b.text()[0]);
    }
    if c.text() == d.text() {
        assert(c.text()[1] == d.text()[1]);
        assert(c.text()[2] == d.text()[2]);
    }
}

/// What tells the four forms of instructions apart: the first character of
/// the line and, for the two forms that start with a register or with a
/// computation, the character after it.
proof fn lemma_text_marks(instr: Instr, module: Seq<char>)
    ensures
        instr.text(module).len() >= 2,
        instr is At <==> instr.text(module)[0] == '@',
        instr is Mark <==> instr.text(module)[0] == '(',
        instr is Assign ==> instr.text(module)[1] == '=',
        instr is Jump ==> instr.text(module)[1] != '=',
{
    reveal_strlit("@");
    reveal_strlit("\n");
    reveal_strlit("=");
    reveal_strlit(";");
    reveal_strlit("(");
    reveal_strlit(")\n");
    let text = instr.text(module);
    match instr {
        Instr::At(target) => {
            lemma_symbol_marks(target, module);
        },
        Instr::Mark(n) => {
            lemma_symbol_marks(Target::Label(n), module);
        },
        Instr::Assign(dest, comp) => {
            lemma_words_differ(dest, dest, Condition::Always, Condition::Always);
            assert(text[0] == dest.text()[0]);
        },
        Instr::Jump(comp, condition) => {
            lemma_comps_differ(comp, comp);
            lemma_comp_starts(comp);
            assert(text[0] == comp.text()[0]);
            if comp.text().len() >= 2 {
                assert(text[1] == comp.text()[1]);
            }
        },
    }
}

/// A computation starts with a digit, a sign or a capital letter.
proof fn lemma_comp_starts(comp: Comp)
    ensures
        comp.text()[0] != '@',
        comp.text()[0] != '(',
{
    reveal_strlit("0");
    reveal_strlit("-1");
    reveal_strlit("D");
    reveal_strlit("A");
    reveal_strlit("M");
    reveal_strlit("!M");
    reveal_strlit("-M");
    reveal_strlit("A+1");
    reveal_strlit("M+1");
    reveal_strlit("M-1");
    reveal_strlit("D+M");
    reveal_strlit("M-D");
    reveal_strlit("D&M");
    reveal_strlit("D|M");
}

/// Two instructions that are written alike are the same instruction.
pub proof fn lemma_texts_differ(a: Instr, b: Instr, module: Seq<char>)
    requires
        a.text(module) == b.text(module),
    ensures
        a == b,
{
    lemma_text_marks(a, module);
    lemma_text_marks(b, module);
    let text = a.text(module);
    let same = b.text(module);
    match (a, b) {
        (Instr::At(s), Instr::At(t)) => {
            let first = s.symbol(module);
            let second = t.symbol(module);
            assert(first =~= text.subrange("@"@.len() as int, text.len() - "\n"@.len()));
            assert(second =~= same.subrange("@"@.len() as int, same.len() - "\n"@.len()));
            lemma_symbols_differ(s, t, module);
        },
        (Instr::Mark(m), Instr::Mark(n)) => {
            lemma_label_symbols(m, n, module);
        },
        (Instr::Assign(dest, comp), Instr::Assign(other_dest, other_comp)) => {
            lemma_words_differ(dest, other_dest, Condition::Always, Condition::Always);
            lemma_words_differ(other_dest, dest, Condition::Always, Condition::Always);
            lemma_comps_differ(comp, other_comp);
            reveal_strlit("=");
            reveal_strlit("\n");
            assert(dest.text() =~= text.subrange(0, 1));
            assert(other_dest.text() =~= same.subrange(0, 1));
            assert(comp.text() =~= text.subrange(2, text.len() - 1));
            assert(other_comp.text() =~= same.subrange(2, same.len() - 1));
        },
        (Instr::Jump(comp, condition), Instr::Jump(other_comp, other_condition)) => {
            lemma_words_differ(Register::A, Register::A, condition, other_condition);
            lemma_words_differ(Register::A, Register::A, other_condition, condition);
            lemma_comps_differ(comp, other_comp);
            lemma_comps_differ(other_comp, comp);
            reveal_strlit(";");
            reveal_strlit("\n");
            let n = comp.text().len() as int;
            let m = other_comp.text().len() as int;
            assert(text.len() == n + 5);
            assert(same.len() == m + 5);
            assert(comp.text() =~= text.subrange(0, n));
            assert(other_comp.text() =~= same.subrange(0, m));
            assert(condition.text() =~= text.subrange(n + 1, n + 4));
            assert(other_condition.text() =~= same.subrange(m + 1, m + 4));
        },
        _ => {},
    }
}

/// The text of a sequence of instructions is empty or ends with a line feed.
proof fn lemma_listing_ends(code: Seq<Instr>, module: Seq<char>)
    requires
        has_no_line_feed(module),
    ensures
        code.len() == 0 ==> listing(code, module).len() == 0,
        code.len() > 0 ==> listing(code, module).len() >= 2 && listing(code, module).last()
            == '\n',
{
    if code.len() > 0 {
        lemma_instr_text_is_line(code.last(), module);
    }
}

/// Two sequences of instructions that are written alike are the same
/// sequence, where the name of the module holds no line feed: the assembly
/// that is written stands for the instructions that were meant and for no
/// others.
pub proof fn lemma_listings_differ(a: Seq<Instr>, b: Seq<Instr>, module: Seq<char>)
    requires
        has_no_line_feed(module),
        listing(a, module) == listing(b, module),
    ensures
        a == b,
    decreases a.len(),
{
    lemma_listing_ends(a, module);
    lemma_listing_ends(b, module);
    if a.len() == 0 || b.len() == 0 {
        assert(a =~= b);
    } else {
        let whole = listing(a, module);
        let first = listing(a.drop_last(), module);
        let second = listing(b.drop_last(), module);
        let line = a.last().text(module);
        let other = b.last().text(module);
        lemma_instr_text_is_line(a.last(), module);
        lemma_instr_text_is_line(b.last(), module);
        lemma_listing_ends(a.drop_last(), module);
        lemma_listing_ends(b.drop_last(), module);
        assert(whole == first + line);
        assert(whole == second + other);
        if line.len() < other.len() {
            let at = first.len() - 1;
            assert(first.len() > 0);
            assert(whole[at] == first[at]);
            assert(whole[at] == other[at - second.len()]);
        } else if other.len() < line.len() {
            let at = second.len() - 1;
            assert(second.len() > 0);
            assert(whole[at] == second[at]);
            assert(whole[at] == line[at - first.len()]);
        }
        assert(first =~= whole.subrange(0, first.len() as int));
        assert(second =~= whole.subrange(0, first.len() as int));
        assert(line =~= whole.subrange(first.len() as int, whole.len() as int));
        assert(other =~= whole.subrange(first.len() as int, whole.len() as int));
        lemma_texts_differ(a.last(), b.last(), module);
        lemma_listings_differ(a.drop_last(), b.drop_last(), module);
        assert(a =~= a.drop_last().push(a.last()));
        assert(b =~= b.drop_last().push(b.last()));
    }
}

} // verus!
