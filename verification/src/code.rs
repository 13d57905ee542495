//! The assembly that each instruction of the virtual machine translates to.

use vstd::prelude::*;
use crate::command::{Command, CommandType, Operator, Segment};
use crate::hack::{lemma_label_symbols, Comp, Condition, Instr, Register, Target};
use crate::machine::marks_once;

verus! {

/// Store `D` in the first free cell of the stack, then move the stack
/// pointer up by one.
pub open spec fn push_from_d() -> Seq<Instr> {
    seq![
        Instr::At(Target::StackPointer),
        Instr::Assign(Register::A, Comp::M),
        Instr::Assign(Register::M, Comp::D),
        Instr::At(Target::StackPointer),
        Instr::Assign(Register::M, Comp::MPlusOne),
    ]
}

/// Move the stack pointer down by one, then address the cell it points at.
pub open spec fn pop_to_m() -> Seq<Instr> {
    seq![
        Instr::At(Target::StackPointer),
        Instr::Assign(Register::M, Comp::MMinusOne),
        Instr::Assign(Register::A, Comp::M),
    ]
}

/// Add one to `A`, `count` times over.
pub open spec fn step_a(count: nat) -> Seq<Instr> {
    Seq::new(count, |i: int| Instr::Assign(Register::A, Comp::APlusOne))
}

/// The cell that holds the base of a segment that is reached through a
/// pointer.
pub open spec fn base_pointer(segment: Segment) -> Option<Target> {
    match segment {
        Segment::Local => Some(Target::Local),
        Segment::Argument => Some(Target::Argument),
        Segment::This => Some(Target::This),
        Segment::That => Some(Target::That),
        _ => None,
    }
}

/// The address at which a segment of fixed place starts.
pub open spec fn origin(segment: Segment) -> Option<u32> {
    match segment {
        Segment::Temp => Some(5u32),
        Segment::Pointer => Some(3u32),
        _ => None,
    }
}

/// Load into `A` the address of the cell `index` of `segment`; for the
/// segment of literal values, the value itself.
pub open spec fn locate(segment: Segment, index: u32) -> Seq<Instr> {
    match segment {
        Segment::Constant => seq![Instr::At(Target::Number(index))],
        Segment::Static => seq![Instr::At(Target::Static(index))],
        Segment::Temp | Segment::Pointer => seq![Instr::At(Target::Number(origin(segment)->0))]
            + step_a(index as nat),
        _ => seq![Instr::At(base_pointer(segment)->0), Instr::Assign(Register::A, Comp::M)]
            + step_a(index as nat),
    }
}

/// The translation of `push segment index`.
pub open spec fn push_code(segment: Segment, index: u32) -> Seq<Instr> {
    locate(segment, index) + seq![
        Instr::Assign(
            Register::D,
            if segment == Segment::Constant {
                Comp::A
            } else {
                Comp::M
            },
        ),
    ] + push_from_d()
}

/// The translation of `pop segment index`. Nothing stands for a pop to the
/// segment of literal values.
pub open spec fn pop_code(segment: Segment, index: u32) -> Seq<Instr> {
    if segment == Segment::Constant {
        Seq::empty()
    } else {
        pop_to_m() + seq![Instr::Assign(Register::D, Comp::M)] + locate(segment, index)
            + seq![Instr::Assign(Register::M, Comp::D)]
    }
}

/// The translation of a push or a pop; nothing stands for the other kinds.
pub open spec fn transfer_code(kind: CommandType, segment: Segment, index: u32) -> Seq<Instr> {
    match kind {
        CommandType::CPush => push_code(segment, index),
        CommandType::CPop => pop_code(segment, index),
        _ => Seq::empty(),
    }
}

/// What the arithmetic unit computes for an operation, with the cell that
/// was pushed last in `D` (for an operation on one cell, in `M`) and the
/// cell below it in `M`.
pub open spec fn computation(operator: Operator) -> Comp {
    match operator {
        Operator::Add => Comp::DPlusM,
        Operator::And => Comp::DAndM,
        Operator::Or => Comp::DOrM,
        Operator::Neg => Comp::NegM,
        Operator::Not => Comp::NotM,
        _ => Comp::MMinusD,
    }
}

/// When the comparison holds, by the difference of the two cells.
pub open spec fn condition(operator: Operator) -> Condition {
    match operator {
        Operator::Gt => Condition::Positive,
        Operator::Lt => Condition::Negative,
        _ => Condition::Zero,
    }
}

/// The translation of `add`, `sub`, `and`, `or`.
pub open spec fn binary_code(operator: Operator) -> Seq<Instr> {
    pop_to_m() + seq![Instr::Assign(Register::D, Comp::M)] + pop_to_m() + seq![
        Instr::Assign(Register::D, computation(operator)),
    ] + push_from_d()
}

/// The translation of `neg`, `not`.
pub open spec fn unary_code(operator: Operator) -> Seq<Instr> {
    seq![
        Instr::At(Target::StackPointer),
        Instr::Assign(Register::A, Comp::MMinusOne),
        Instr::Assign(Register::M, computation(operator)),
    ]
}

/// The translation of `eq`, `gt`, `lt`, with the two labels that it marks:
/// `holds` where the comparison holds, `join` where the two branches meet.
pub open spec fn comparison_code(operator: Operator, holds: usize, join: usize) -> Seq<Instr> {
    pop_to_m() + seq![Instr::Assign(Register::D, Comp::M)] + pop_to_m() + seq![
        Instr::Assign(Register::D, Comp::MMinusD),
        Instr::At(Target::Label(holds)),
        Instr::Jump(Comp::D, condition(operator)),
        Instr::Assign(Register::D, Comp::Zero),
        Instr::At(Target::Label(join)),
        Instr::Jump(Comp::Zero, Condition::Always),
        Instr::Mark(holds),
        Instr::Assign(Register::D, Comp::MinusOne),
        Instr::Mark(join),
    ] + push_from_d()
}

/// The translation of an arithmetic instruction, after `labels` labels have
/// been used: a comparison marks the labels `labels + 1` and `labels + 2`.
pub open spec fn arithmetic_code(operator: Operator, labels: nat) -> Seq<Instr> {
    if operator.is_comparison() {
        comparison_code(operator, (labels + 1) as usize, (labels + 2) as usize)
    } else if operator.is_unary() {
        unary_code(operator)
    } else {
        binary_code(operator)
    }
}

/// How many labels the translation of a command marks.
pub open spec fn labels_of(command: Command) -> nat {
    match command {
        Command::Arithmetic(operator) => if operator.is_comparison() {
            2
        } else {
            0
        },
        _ => 0,
    }
}

/// The translation of a command, after `labels` labels have been used.
pub open spec fn code_of(command: Command, labels: nat) -> Seq<Instr> {
    match command {
        Command::Arithmetic(operator) => arithmetic_code(operator, labels),
        Command::Push(segment, index) => push_code(segment, index),
        Command::Pop(segment, index) => pop_code(segment, index),
    }
}

/// How many labels the translations of the commands mark, all together.
pub open spec fn labels_in(commands: Seq<Command>) -> nat
    decreases commands.len(),
{
    if commands.len() == 0 {
        0
    } else {
        labels_in(commands.drop_last()) + labels_of(commands.last())
    }
}

/// The translation of a sequence of commands, one after another, after
/// `labels` labels have been used.
pub open spec fn program(commands: Seq<Command>, labels: nat) -> Seq<Instr>
    decreases commands.len(),
{
    if commands.len() == 0 {
        Seq::empty()
    } else {
        program(commands.drop_last(), labels) + code_of(
            commands.last(),
            labels + labels_in(commands.drop_last()),
        )
    }
}

/// Every label that `code` marks lies above `low` and not above `high`.
pub open spec fn marks_within(code: Seq<Instr>, low: nat, high: nat) -> bool {
    forall|i: int|
        0 <= i < code.len() ==> (#[trigger] code[i] matches Instr::Mark(k) ==> low < k <= high)
}

/// The labels that `code` marks rise from each to the next, so that none is
/// marked twice.
pub open spec fn marks_rise(code: Seq<Instr>) -> bool {
    forall|i: int, j: int|
        0 <= i < j < code.len() ==> (#[trigger] code[i] matches Instr::Mark(a) ==> (
        #[trigger] code[j] matches Instr::Mark(b) ==> a < b))
}

/// Labels that rise are marked once each.
pub proof fn lemma_rising_marks_once(code: Seq<Instr>)
    requires
        marks_rise(code),
    ensures
        marks_once(code),
{
    assert forall|i: int, j: int|
        0 <= i < code.len() && 0 <= j < code.len() && #[trigger] code[i] is Mark && code[i]
            == #[trigger] code[j] implies i == j by {
        if i < j {
            assert(code[i] matches Instr::Mark(a) ==> (code[j] matches Instr::Mark(b) ==> a < b));
        } else if j < i {
            assert(code[j] matches Instr::Mark(a) ==> (code[i] matches Instr::Mark(b) ==> a < b));
        }
    }
}

/// The translation of one command marks the labels that it uses up, in
/// rising order, and no others.
pub proof fn lemma_code_marks(command: Command, labels: nat)
    requires
        labels + labels_of(command) <= usize::MAX,
    ensures
        marks_within(code_of(command, labels), labels, labels + labels_of(command)),
        marks_rise(code_of(command, labels)),
{
    let code = code_of(command, labels);
    match command {
        Command::Arithmetic(operator) => {
            if operator.is_comparison() {
                let holds = (labels + 1) as usize;
                let join = (labels + 2) as usize;
                assert(code.len() == 21);
                assert forall|i: int| 0 <= i < code.len() && #[trigger] code[i] is Mark implies (i
                    == 13 && code[i] == Instr::Mark(holds)) || (i == 15 && code[i] == Instr::Mark(
                    join,
                )) by {}
            } else {
                assert forall|i: int| 0 <= i < code.len() implies !(#[trigger] code[i] is Mark) by {}
            }
        },
        _ => {
            assert forall|i: int| 0 <= i < code.len() implies !(#[trigger] code[i] is Mark) by {}
        },
    }
}

/// No label is marked twice: the translation of a sequence of commands marks
/// the labels that come after those used before it, each once, in rising
/// order.
pub proof fn lemma_program_marks(commands: Seq<Command>, labels: nat)
    requires
        labels + labels_in(commands) <= usize::MAX,
    ensures
        marks_within(program(commands, labels), labels, labels + labels_in(commands)),
        marks_rise(program(commands, labels)),
    decreases commands.len(),
{
    if commands.len() > 0 {
        let before = program(commands.drop_last(), labels);
        let used = labels + labels_in(commands.drop_last());
        let last = code_of(commands.last(), used);
        lemma_program_marks(commands.drop_last(), labels);
        lemma_code_marks(commands.last(), used);
        let all = program(commands, labels);
        assert forall|i: int| 0 <= i < all.len() implies (#[trigger] all[i] matches Instr::Mark(k)
            ==> labels < k <= labels + labels_in(commands)) by {
            if i < before.len() {
                assert(all[i] == before[i]);
            } else {
                assert(all[i] == last[i - before.len()]);
            }
        }
        assert forall|i: int, j: int| 0 <= i < j < all.len() implies (
        #[trigger] all[i] matches Instr::Mark(a) ==> (#[trigger] all[j] matches Instr::Mark(b) ==> a
            < b)) by {
            if i < before.len() {
                assert(all[i] == before[i]);
            } else {
                assert(all[i] == last[i - before.len()]);
            }
            if j < before.len() {
                assert(all[j] == before[j]);
            } else {
                assert(all[j] == last[j - before.len()]);
            }
        }
    }
}

/// No label text is written twice: in the translation of a sequence of
/// commands, two lines that mark a label are never the same text.
pub proof fn lemma_label_texts_differ(
    commands: Seq<Command>,
    labels: nat,
    module: Seq<char>,
    i: int,
    j: int,
)
    requires
        labels + labels_in(commands) <= usize::MAX,
        0 <= i < j < program(commands, labels).len(),
        program(commands, labels)[i] is Mark,
        program(commands, labels)[j] is Mark,
    ensures
        program(commands, labels)[i].text(module) != program(commands, labels)[j].text(module),
{
    let code = program(commands, labels);
    lemma_program_marks(commands, labels);
    assert(code[i] matches Instr::Mark(a) ==> (code[j] matches Instr::Mark(b) ==> a < b));
    lemma_label_symbols(code[i]->Mark_0, code[j]->Mark_0, module);
}

} // verus!
