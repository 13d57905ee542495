//! A model of the target machine: what running assembly does to its
//! registers and its memory.
//!
//! The machine has two registers, `A` and `D`, and a memory of cells that
//! `A` addresses. Registers and cells hold words of 16 bits, and arithmetic
//! wraps around. The code is a sequence of instructions; the line that marks
//! a label counts as an instruction that does nothing, and a jump to the
//! label goes to that line. The code is that of one module: its static
//! variables are told apart by their indices. The model is for proofs only:
//! nothing here is run.

use vstd::prelude::*;
use crate::hack::{Comp, Condition, Instr, Register, Target};

verus! {

/// The state of the machine.
pub struct Machine {
    pub a: u16,
    pub d: u16,
    /// The memory, cell by cell.
    pub ram: Map<u16, u16>,
    /// The place in the code of the instruction that runs next.
    pub pc: int,
}

/// Assembly that is ready to run: the code, and the cell that the assembler
/// gave to each static variable.
pub struct Image {
    pub code: Seq<Instr>,
    pub statics: Map<u32, u16>,
}

/// The word that stands for `x`: `x` modulo two to the sixteenth.
pub open spec fn word(x: int) -> u16 {
    (x % 0x10000) as u16
}

/// What the arithmetic unit computes from the two registers and the cell
/// that `A` addresses.
pub open spec fn compute(comp: Comp, a: u16, d: u16, m: u16) -> u16 {
    match comp {
        Comp::Zero => 0,
        Comp::MinusOne => 0xffff,
        Comp::D => d,
        Comp::A => a,
        Comp::M => m,
        Comp::NotM => (0xffff - m) as u16,
        Comp::NegM => word(-(m as int)),
        Comp::APlusOne => word(a + 1),
        Comp::MPlusOne => word(m + 1),
        Comp::MMinusOne => word(m - 1),
        Comp::DPlusM => word(d + m),
        Comp::MMinusD => word(m - d),
        Comp::DAndM => d & m,
        Comp::DOrM => d | m,
    }
}

/// Whether a jump on `condition` is taken for the computed `value`, read as
/// a number in two's complement.
pub open spec fn holds(condition: Condition, value: u16) -> bool {
    match condition {
        Condition::Zero => value == 0,
        Condition::Positive => 0 < value < 0x8000,
        Condition::Negative => value >= 0x8000,
        Condition::Always => true,
    }
}

/// The place in `code` that the label `label` names.
pub open spec fn mark_position(code: Seq<Instr>, label: usize) -> int {
    choose|i: int| 0 <= i < code.len() && code[i] == Instr::Mark(label)
}

/// The word that an address instruction loads. The instruction has room for
/// a number of 15 bits: a larger number loses its upper bits, and what is
/// proved of the code that loads numbers is stated for numbers that fit.
pub open spec fn address(image: Image, target: Target) -> u16 {
    match target {
        Target::Number(n) => (n % 0x8000) as u16,
        Target::StackPointer => 0,
        Target::Local => 1,
        Target::Argument => 2,
        Target::This => 3,
        Target::That => 4,
        Target::Static(index) => image.statics[index],
        Target::Label(label) => word(mark_position(image.code, label)),
    }
}

/// The machine after the instruction at `pc` has run. Past the end of the
/// code the machine stands still.
pub open spec fn step(image: Image, machine: Machine) -> Machine {
    if 0 <= machine.pc < image.code.len() {
        match image.code[machine.pc] {
            Instr::At(target) => Machine {
                a: address(image, target),
                pc: machine.pc + 1,
                ..machine
            },
            Instr::Assign(dest, comp) => {
                let value = compute(comp, machine.a, machine.d, machine.ram[machine.a]);
                match dest {
                    Register::A => Machine { a: value, pc: machine.pc + 1, ..machine },
                    Register::D => Machine { d: value, pc: machine.pc + 1, ..machine },
                    Register::M => Machine {
                        ram: machine.ram.insert(machine.a, value),
                        pc: machine.pc + 1,
                        ..machine
                    },
                }
            },
            Instr::Jump(comp, condition) => {
                let value = compute(comp, machine.a, machine.d, machine.ram[machine.a]);
                Machine {
                    pc: if holds(condition, value) {
                        machine.a as int
                    } else {
                        machine.pc + 1
                    },
                    ..machine
                }
            },
            Instr::Mark(_) => Machine { pc: machine.pc + 1, ..machine },
        }
    } else {
        machine
    }
}

/// The machine after `steps` instructions have run.
pub open spec fn run(image: Image, machine: Machine, steps: nat) -> Machine
    decreases steps,
{
    if steps == 0 {
        machine
    } else {
        run(image, step(image, machine), (steps - 1) as nat)
    }
}

/// `code` stands in the image at the place `at`.
pub open spec fn stands_at(image: Image, at: int, code: Seq<Instr>) -> bool {
    &&& 0 <= at
    &&& at + code.len() <= image.code.len()
    &&& forall|i: int| 0 <= i < code.len() ==> image.code[at + i] == #[trigger] code[i]
}

/// No label is marked at two places of `code`.
pub open spec fn marks_once(code: Seq<Instr>) -> bool {
    forall|i: int, j: int|
        0 <= i < code.len() && 0 <= j < code.len() && #[trigger] code[i] is Mark && code[i]
            == #[trigger] code[j] ==> i == j
}

/// Where no label is marked twice, a label names the one place that marks
/// it.
pub proof fn lemma_mark_position(code: Seq<Instr>, label: usize, at: int)
    requires
        marks_once(code),
        0 <= at < code.len(),
        code[at] == Instr::Mark(label),
    ensures
        mark_position(code, label) == at,
{
    let found = mark_position(code, label);
    assert(0 <= found < code.len() && code[found] == Instr::Mark(label));
    assert(code[at] is Mark && code[at] == code[found]);
}

/// Running `first + second` steps is running `first` steps and then `second`
/// more.
pub proof fn lemma_run_add(image: Image, machine: Machine, first: nat, second: nat)
    ensures
        run(image, machine, first + second) == run(image, run(image, machine, first), second),
    decreases first,
{
    if first > 0 {
        lemma_run_add(image, step(image, machine), (first - 1) as nat, second);
    }
}

/// Where a sequence of instructions stands, its two parts stand one after
/// the other.
pub proof fn lemma_stands_at_parts(image: Image, at: int, first: Seq<Instr>, second: Seq<Instr>)
    requires
        stands_at(image, at, first + second),
    ensures
        stands_at(image, at, first),
        stands_at(image, at + first.len(), second),
{
    let both = first + second;
    assert forall|i: int| 0 <= i < first.len() implies image.code[at + i] == #[trigger] first[i] by {
        assert(both[i] == first[i]);
    }
    assert forall|i: int| 0 <= i < second.len() implies image.code[at + first.len() + i]
        == #[trigger] second[i] by {
        assert(both[first.len() + i] == second[i]);
    }
}

} // verus!
