//! What the instructions of the virtual machine mean, and that their
//! translations do that when they run.

use vstd::prelude::*;
use crate::code::{
    base_pointer, binary_code, code_of, comparison_code, computation, condition,
    labels_in, labels_of, lemma_program_marks, lemma_rising_marks_once, locate, origin, pop_code, pop_to_m, program, push_code, push_from_d, step_a,
    unary_code,
};
use crate::command::{Command, Operator, Segment};
use crate::hack::{Comp, Condition, Instr, Register, Target};
use crate::machine::{
    holds, lemma_mark_position, lemma_run_add, lemma_stands_at_parts, marks_once,
    run, stands_at, step, word, Image, Machine,
};

verus! {

/// The memory after `value` has been pushed: the value stands in the cell
/// that the stack pointer named, and the stack pointer names the next cell.
pub open spec fn pushed(ram: Map<u16, u16>, value: u16) -> Map<u16, u16> {
    let stored = ram.insert(ram[0], value);
    stored.insert(0, word(stored[0] + 1))
}

/// The memory after the stack pointer has moved down by one cell.
pub open spec fn popped(ram: Map<u16, u16>) -> Map<u16, u16> {
    ram.insert(0, word(ram[0] - 1))
}

/// The cell that the stack pointer names.
pub open spec fn top(ram: Map<u16, u16>) -> u16 {
    ram[ram[0]]
}

/// The base of a segment that is reached through a pointer: what the
/// pointer's cell holds.
pub open spec fn base(ram: Map<u16, u16>, segment: Segment) -> u16 {
    match segment {
        Segment::Local => ram[1],
        Segment::Argument => ram[2],
        Segment::This => ram[3],
        _ => ram[4],
    }
}

/// The effective address of the cell `index` of `segment`, for the seven
/// segments that have cells.
pub open spec fn cell(
    statics: Map<u32, u16>,
    ram: Map<u16, u16>,
    segment: Segment,
    index: u32,
) -> u16
    recommends
        segment != Segment::Constant,
{
    match segment {
        Segment::Constant => arbitrary(),
        Segment::Static => statics[index],
        Segment::Temp => word(5 + index),
        Segment::Pointer => word(3 + index),
        _ => word(base(ram, segment) + index),
    }
}

/// The result of an operation on the cell `below` and the cell `above` it,
/// which was pushed last. An operation on one cell takes `above`. A
/// comparison goes by the difference `below - above`, and gives all ones
/// where it holds and all zeros where it does not.
pub open spec fn result_of(operator: Operator, below: u16, above: u16) -> u16 {
    match operator {
        Operator::Add => word(below + above),
        Operator::Sub => word(below - above),
        Operator::And => above & below,
        Operator::Or => above | below,
        Operator::Neg => word(-(above as int)),
        Operator::Not => (0xffff - above) as u16,
        _ => if holds(condition(operator), word(below - above)) {
            0xffff
        } else {
            0
        },
    }
}

/// The value that a push transfers: for the segment of literal values the
/// index itself, as a word; for the others what the cell holds.
pub open spec fn value_of(
    statics: Map<u32, u16>,
    ram: Map<u16, u16>,
    segment: Segment,
    index: u32,
) -> u16 {
    if segment == Segment::Constant {
        word(index as int)
    } else {
        ram[cell(statics, ram, segment, index)]
    }
}

/// The literal of a push is a number that an address instruction has room
/// for: one of 15 bits.
pub open spec fn has_room(command: Command) -> bool {
    command matches Command::Push(Segment::Constant, index) ==> index < 0x8000
}

/// Every literal that the commands push has room in an address instruction.
pub open spec fn have_room(commands: Seq<Command>) -> bool {
    forall|i: int| 0 <= i < commands.len() ==> has_room(#[trigger] commands[i])
}

/// The memory after a command. A pop to the segment of literal values
/// leaves the memory as it is.
pub open spec fn effect(statics: Map<u32, u16>, ram: Map<u16, u16>, command: Command) -> Map<
    u16,
    u16,
> {
    match command {
        Command::Push(segment, index) => pushed(ram, value_of(statics, ram, segment, index)),
        Command::Pop(segment, index) => {
            if segment == Segment::Constant {
                ram
            } else {
                let lower = popped(ram);
                lower.insert(cell(statics, lower, segment, index), top(lower))
            }
        },
        Command::Arithmetic(operator) => {
            if operator.is_unary() {
                let at = word(ram[0] - 1);
                ram.insert(at, result_of(operator, 0, ram[at]))
            } else {
                let first = popped(ram);
                let second = popped(first);
                pushed(second, result_of(operator, top(second), top(first)))
            }
        },
    }
}

/// How many instructions run for a command.
pub open spec fn steps_of(ram: Map<u16, u16>, command: Command, labels: nat) -> nat {
    match command {
        Command::Arithmetic(operator) => {
            if operator.is_comparison() {
                let first = popped(ram);
                let second = popped(first);
                if holds(condition(operator), word(top(second) - top(first))) {
                    18
                } else {
                    19
                }
            } else {
                code_of(command, labels).len()
            }
        },
        _ => code_of(command, labels).len(),
    }
}

/// `word` may be taken before or after a sum.
pub proof fn lemma_word_sum(x: int, y: int)
    ensures
        word(word(x) + y) == word(x + y),
        word(x + word(y)) == word(x + y),
        0 <= x < 0x10000 ==> word(x) == x,
{
}

/// Pushing from `D`: five instructions.
pub proof fn lemma_run_push_from_d(image: Image, machine: Machine)
    requires
        stands_at(image, machine.pc, push_from_d()),
    ensures
        run(image, machine, 5) == (Machine {
            a: 0,
            d: machine.d,
            ram: pushed(machine.ram, machine.d),
            pc: machine.pc + 5,
        }),
{
    let code = push_from_d();
    assert(image.code[machine.pc + 0] == code[0]);
    assert(image.code[machine.pc + 1] == code[1]);
    assert(image.code[machine.pc + 2] == code[2]);
    assert(image.code[machine.pc + 3] == code[3]);
    assert(image.code[machine.pc + 4] == code[4]);
    reveal_with_fuel(run, 6);
}

/// Moving the stack pointer down and addressing the cell it names: three
/// instructions.
pub proof fn lemma_run_pop_to_m(image: Image, machine: Machine)
    requires
        stands_at(image, machine.pc, pop_to_m()),
    ensures
        run(image, machine, 3) == (Machine {
            a: popped(machine.ram)[0],
            d: machine.d,
            ram: popped(machine.ram),
            pc: machine.pc + 3,
        }),
{
    let code = pop_to_m();
    assert(image.code[machine.pc + 0] == code[0]);
    assert(image.code[machine.pc + 1] == code[1]);
    assert(image.code[machine.pc + 2] == code[2]);
    reveal_with_fuel(run, 4);
}

/// Adding one to `A`, `count` times over.
pub proof fn lemma_run_step_a(image: Image, machine: Machine, count: nat)
    requires
        stands_at(image, machine.pc, step_a(count)),
    ensures
        run(image, machine, count) == (Machine {
            a: word(machine.a + count),
            pc: machine.pc + count,
            ..machine
        }),
    decreases count,
{
    if count == 0 {
    } else {
        assert(image.code[machine.pc + 0] == step_a(count)[0]);
        let next = step(image, machine);
        assert(stands_at(image, next.pc, step_a((count - 1) as nat))) by {
            assert forall|i: int| 0 <= i < count - 1 implies image.code[next.pc + i]
                == #[trigger] step_a((count - 1) as nat)[i] by {
                assert(image.code[machine.pc + (i + 1)] == step_a(count)[i + 1]);
            }
        }
        lemma_run_step_a(image, next, (count - 1) as nat);
        lemma_word_sum(machine.a + 1, count - 1);
    }
}

/// Loading the effective address of a cell into `A`.
pub proof fn lemma_run_locate(image: Image, machine: Machine, segment: Segment, index: u32)
    requires
        segment != Segment::Constant,
        stands_at(image, machine.pc, locate(segment, index)),
    ensures
        run(image, machine, locate(segment, index).len()) == (Machine {
            a: cell(image.statics, machine.ram, segment, index),
            pc: machine.pc + locate(segment, index).len(),
            ..machine
        }),
{
    let code = locate(segment, index);
    assert(image.code[machine.pc + 0] == code[0]);
    match segment {
        Segment::Constant => {},
        Segment::Static => {
            reveal_with_fuel(run, 2);
        },
        Segment::Temp | Segment::Pointer => {
            let head = seq![Instr::At(Target::Number(origin(segment)->0))];
            lemma_stands_at_parts(image, machine.pc, head, step_a(index as nat));
            let next = step(image, machine);
            assert(run(image, machine, 1) == next) by {
                reveal_with_fuel(run, 2);
            }
            lemma_run_step_a(image, next, index as nat);
            lemma_run_add(image, machine, 1, index as nat);
            lemma_word_sum(next.a as int, index as int);
        },
        _ => {
            let head = seq![
                Instr::At(base_pointer(segment)->0),
                Instr::Assign(Register::A, Comp::M),
            ];
            lemma_stands_at_parts(image, machine.pc, head, step_a(index as nat));
            assert(image.code[machine.pc + 1] == code[1]);
            let next = step(image, step(image, machine));
            assert(run(image, machine, 2) == next) by {
                reveal_with_fuel(run, 3);
            }
            lemma_run_step_a(image, next, index as nat);
            lemma_run_add(image, machine, 2, index as nat);
            lemma_word_sum(next.a as int, index as int);
        },
    }
}

/// A push does what it means. For a push of a literal value this asks that
/// the value has room in an address instruction.
pub proof fn lemma_run_push(image: Image, machine: Machine, segment: Segment, index: u32)
    requires
        stands_at(image, machine.pc, push_code(segment, index)),
        has_room(Command::Push(segment, index)),
    ensures
        run(image, machine, push_code(segment, index).len()).ram == effect(
            image.statics,
            machine.ram,
            Command::Push(segment, index),
        ),
        run(image, machine, push_code(segment, index).len()).pc == machine.pc + push_code(
            segment,
            index,
        ).len(),
{
    let find = locate(segment, index);
    let load = seq![
        Instr::Assign(
            Register::D,
            if segment == Segment::Constant {
                Comp::A
            } else {
                Comp::M
            },
        ),
    ];
    lemma_stands_at_parts(image, machine.pc, find + load, push_from_d());
    lemma_stands_at_parts(image, machine.pc, find, load);
    if segment == Segment::Constant {
        assert(image.code[machine.pc + 0] == find[0]);
        assert(run(image, machine, 1) == step(image, machine)) by {
            reveal_with_fuel(run, 2);
        }
    } else {
        lemma_run_locate(image, machine, segment, index);
    }
    let found = run(image, machine, find.len());
    assert(image.code[found.pc + 0] == load[0]);
    let loaded = step(image, found);
    assert(run(image, found, 1) == loaded) by {
        reveal_with_fuel(run, 2);
    }
    lemma_run_push_from_d(image, loaded);
    lemma_run_add(image, machine, find.len(), 1);
    lemma_run_add(image, machine, find.len() + 1, 5);
}

/// A pop does what it means.
pub proof fn lemma_run_pop(image: Image, machine: Machine, segment: Segment, index: u32)
    requires
        stands_at(image, machine.pc, pop_code(segment, index)),
    ensures
        run(image, machine, pop_code(segment, index).len()).ram == effect(
            image.statics,
            machine.ram,
            Command::Pop(segment, index),
        ),
        run(image, machine, pop_code(segment, index).len()).pc == machine.pc + pop_code(
            segment,
            index,
        ).len(),
{
    if segment != Segment::Constant {
        let load = seq![Instr::Assign(Register::D, Comp::M)];
        let find = locate(segment, index);
        let store = seq![Instr::Assign(Register::M, Comp::D)];
        lemma_stands_at_parts(image, machine.pc, pop_to_m() + load + find, store);
        lemma_stands_at_parts(image, machine.pc, pop_to_m() + load, find);
        lemma_stands_at_parts(image, machine.pc, pop_to_m(), load);
        lemma_run_pop_to_m(image, machine);
        let lower = run(image, machine, 3);
        assert(image.code[lower.pc + 0] == load[0]);
        let loaded = step(image, lower);
        assert(run(image, lower, 1) == loaded) by {
            reveal_with_fuel(run, 2);
        }
        lemma_run_locate(image, loaded, segment, index);
        let found = run(image, loaded, find.len());
        assert(image.code[found.pc + 0] == store[0]);
        let stored = step(image, found);
        assert(run(image, found, 1) == stored) by {
            reveal_with_fuel(run, 2);
        }
        lemma_run_add(image, machine, 3, 1);
        lemma_run_add(image, machine, 4, find.len());
        lemma_run_add(image, machine, 4 + find.len(), 1);
    }
}

/// The two cells on top of the stack are taken off, the one that was pushed
/// last into `D`, the one below it addressed by `A`: seven instructions.
proof fn lemma_run_take_two(image: Image, machine: Machine)
    requires
        stands_at(
            image,
            machine.pc,
            pop_to_m() + seq![Instr::Assign(Register::D, Comp::M)] + pop_to_m(),
        ),
    ensures
        run(image, machine, 7) == (Machine {
            a: popped(popped(machine.ram))[0],
            d: top(popped(machine.ram)),
            ram: popped(popped(machine.ram)),
            pc: machine.pc + 7,
        }),
{
    let load = seq![Instr::Assign(Register::D, Comp::M)];
    lemma_stands_at_parts(image, machine.pc, pop_to_m() + load, pop_to_m());
    lemma_stands_at_parts(image, machine.pc, pop_to_m(), load);
    lemma_run_pop_to_m(image, machine);
    let lower = run(image, machine, 3);
    assert(image.code[lower.pc + 0] == load[0]);
    let loaded = step(image, lower);
    assert(run(image, lower, 1) == loaded) by {
        reveal_with_fuel(run, 2);
    }
    lemma_run_pop_to_m(image, loaded);
    lemma_run_add(image, machine, 3, 1);
    lemma_run_add(image, machine, 4, 3);
}

/// An operation on two cells does what it means.
pub proof fn lemma_run_binary(image: Image, machine: Machine, operator: Operator)
    requires
        operator.is_binary(),
        stands_at(image, machine.pc, binary_code(operator)),
    ensures
        run(image, machine, 13).ram == effect(
            image.statics,
            machine.ram,
            Command::Arithmetic(operator),
        ),
        run(image, machine, 13).pc == machine.pc + 13,
{
    let take = pop_to_m() + seq![Instr::Assign(Register::D, Comp::M)] + pop_to_m();
    let apply = seq![Instr::Assign(Register::D, computation(operator))];
    lemma_stands_at_parts(image, machine.pc, take + apply, push_from_d());
    lemma_stands_at_parts(image, machine.pc, take, apply);
    lemma_run_take_two(image, machine);
    let taken = run(image, machine, 7);
    assert(image.code[taken.pc + 0] == apply[0]);
    let applied = step(image, taken);
    assert(run(image, taken, 1) == applied) by {
        reveal_with_fuel(run, 2);
    }
    lemma_run_push_from_d(image, applied);
    lemma_run_add(image, machine, 7, 1);
    lemma_run_add(image, machine, 8, 5);
}

/// An operation on one cell does what it means.
pub proof fn lemma_run_unary(image: Image, machine: Machine, operator: Operator)
    requires
        operator.is_unary(),
        stands_at(image, machine.pc, unary_code(operator)),
    ensures
        run(image, machine, 3).ram == effect(
            image.statics,
            machine.ram,
            Command::Arithmetic(operator),
        ),
        run(image, machine, 3).pc == machine.pc + 3,
{
    let code = unary_code(operator);
    assert(image.code[machine.pc + 0] == code[0]);
    assert(image.code[machine.pc + 1] == code[1]);
    assert(image.code[machine.pc + 2] == code[2]);
    reveal_with_fuel(run, 4);
}

/// The instructions of a comparison that decide between its two branches.
pub open spec fn decision(operator: Operator, holds_at: usize, join_at: usize) -> Seq<Instr> {
    seq![
        Instr::Assign(Register::D, Comp::MMinusD),
        Instr::At(Target::Label(holds_at)),
        Instr::Jump(Comp::D, condition(operator)),
        Instr::Assign(Register::D, Comp::Zero),
        Instr::At(Target::Label(join_at)),
        Instr::Jump(Comp::Zero, Condition::Always),
        Instr::Mark(holds_at),
        Instr::Assign(Register::D, Comp::MinusOne),
        Instr::Mark(join_at),
    ]
}

/// The branch of a comparison that holds: six instructions leave all ones
/// in `D`.
proof fn lemma_run_decision_holds(
    image: Image,
    machine: Machine,
    operator: Operator,
    holds_at: usize,
    join_at: usize,
)
    requires
        stands_at(image, machine.pc, decision(operator, holds_at, join_at)),
        marks_once(image.code),
        image.code.len() <= 0x8000,
        holds(condition(operator), word(machine.ram[machine.a] - machine.d)),
    ensures
        run(image, machine, 6).d == 0xffff,
        run(image, machine, 6).ram == machine.ram,
        run(image, machine, 6).pc == machine.pc + 9,
{
    let code = decision(operator, holds_at, join_at);
    let at = machine.pc;
    assert(image.code[at + 0] == code[0]);
    assert(image.code[at + 1] == code[1]);
    assert(image.code[at + 2] == code[2]);
    assert(image.code[at + 6] == code[6]);
    assert(image.code[at + 7] == code[7]);
    assert(image.code[at + 8] == code[8]);
    lemma_mark_position(image.code, holds_at, at + 6);
    let s1 = step(image, machine);
    assert(s1 == (Machine { d: word(machine.ram[machine.a] - machine.d), pc: at + 1, ..machine }));
    let s2 = step(image, s1);
    assert(s2 == (Machine { a: (at + 6) as u16, pc: at + 2, ..s1 }));
    let s3 = step(image, s2);
    assert(s3 == (Machine { pc: at + 6, ..s2 }));
    let s4 = step(image, s3);
    assert(s4 == (Machine { pc: at + 7, ..s3 }));
    let s5 = step(image, s4);
    assert(s5 == (Machine { d: 0xffff, pc: at + 8, ..s4 }));
    let s6 = step(image, s5);
    assert(s6 == (Machine { pc: at + 9, ..s5 }));
    assert(run(image, machine, 6) == s6) by {
        reveal_with_fuel(run, 7);
    }
}

/// The branch of a comparison that does not hold: seven instructions leave
/// all zeros in `D`.
proof fn lemma_run_decision_fails(
    image: Image,
    machine: Machine,
    operator: Operator,
    holds_at: usize,
    join_at: usize,
)
    requires
        stands_at(image, machine.pc, decision(operator, holds_at, join_at)),
        marks_once(image.code),
        image.code.len() <= 0x8000,
        !holds(condition(operator), word(machine.ram[machine.a] - machine.d)),
    ensures
        run(image, machine, 7).d == 0,
        run(image, machine, 7).ram == machine.ram,
        run(image, machine, 7).pc == machine.pc + 9,
{
    let code = decision(operator, holds_at, join_at);
    let at = machine.pc;
    assert(image.code[at + 0] == code[0]);
    assert(image.code[at + 1] == code[1]);
    assert(image.code[at + 2] == code[2]);
    assert(image.code[at + 3] == code[3]);
    assert(image.code[at + 4] == code[4]);
    assert(image.code[at + 5] == code[5]);
    assert(image.code[at + 8] == code[8]);
    lemma_mark_position(image.code, join_at, at + 8);
    let s1 = step(image, machine);
    assert(s1 == (Machine { d: word(machine.ram[machine.a] - machine.d), pc: at + 1, ..machine }));
    let s2 = step(image, s1);
    assert(s2.pc == at + 2 && s2.d == s1.d && s2.ram == s1.ram);
    let s3 = step(image, s2);
    assert(s3 == (Machine { pc: at + 3, ..s2 }));
    let s4 = step(image, s3);
    assert(s4 == (Machine { d: 0, pc: at + 4, ..s3 }));
    let s5 = step(image, s4);
    assert(s5 == (Machine { a: (at + 8) as u16, pc: at + 5, ..s4 }));
    let s6 = step(image, s5);
    assert(s6 == (Machine { pc: at + 8, ..s5 }));
    let s7 = step(image, s6);
    assert(s7 == (Machine { pc: at + 9, ..s6 }));
    assert(run(image, machine, 7) == s7) by {
        reveal_with_fuel(run, 8);
    }
}

/// A comparison does what it means, where no label is marked twice and the
/// code has room in the instruction memory.
pub proof fn lemma_run_comparison(
    image: Image,
    machine: Machine,
    operator: Operator,
    holds_at: usize,
    join_at: usize,
)
    requires
        operator.is_comparison(),
        stands_at(image, machine.pc, comparison_code(operator, holds_at, join_at)),
        marks_once(image.code),
        image.code.len() <= 0x8000,
    ensures
        ({
            let first = popped(machine.ram);
            let second = popped(first);
            let steps: nat = if holds(condition(operator), word(top(second) - top(first))) {
                18
            } else {
                19
            };
            &&& run(image, machine, steps).ram == effect(
                image.statics,
                machine.ram,
                Command::Arithmetic(operator),
            )
            &&& run(image, machine, steps).pc == machine.pc + 21
        }),
{
    let take = pop_to_m() + seq![Instr::Assign(Register::D, Comp::M)] + pop_to_m();
    let decide = decision(operator, holds_at, join_at);
    assert(comparison_code(operator, holds_at, join_at) =~= take + decide + push_from_d());
    lemma_stands_at_parts(image, machine.pc, take + decide, push_from_d());
    lemma_stands_at_parts(image, machine.pc, take, decide);
    lemma_run_take_two(image, machine);
    let taken = run(image, machine, 7);
    let first = popped(machine.ram);
    let second = popped(first);
    if holds(condition(operator), word(top(second) - top(first))) {
        lemma_run_decision_holds(image, taken, operator, holds_at, join_at);
        let decided = run(image, taken, 6);
        lemma_run_push_from_d(image, decided);
        lemma_run_add(image, machine, 7, 6);
        lemma_run_add(image, machine, 13, 5);
    } else {
        lemma_run_decision_fails(image, taken, operator, holds_at, join_at);
        let decided = run(image, taken, 7);
        lemma_run_push_from_d(image, decided);
        lemma_run_add(image, machine, 7, 7);
        lemma_run_add(image, machine, 14, 5);
    }
}

/// The translation of a command does what the command means: when it has
/// run, the memory is the memory after the command, and the instruction that
/// runs next is the one after the translation. For a push of a literal value
/// this asks that the value has room in an address instruction; for a
/// comparison, that no label is marked twice and that the code has room in
/// the instruction memory.
pub proof fn lemma_run_command(image: Image, machine: Machine, command: Command, labels: nat)
    requires
        stands_at(image, machine.pc, code_of(command, labels)),
        has_room(command),
        labels_of(command) > 0 ==> marks_once(image.code) && image.code.len() <= 0x8000,
    ensures
        run(image, machine, steps_of(machine.ram, command, labels)).ram == effect(
            image.statics,
            machine.ram,
            command,
        ),
        run(image, machine, steps_of(machine.ram, command, labels)).pc == machine.pc + code_of(
            command,
            labels,
        ).len(),
{
    match command {
        Command::Push(segment, index) => lemma_run_push(image, machine, segment, index),
        Command::Pop(segment, index) => lemma_run_pop(image, machine, segment, index),
        Command::Arithmetic(operator) => {
            if operator.is_comparison() {
                lemma_run_comparison(
                    image,
                    machine,
                    operator,
                    (labels + 1) as usize,
                    (labels + 2) as usize,
                );
            } else if operator.is_unary() {
                lemma_run_unary(image, machine, operator);
            } else {
                lemma_run_binary(image, machine, operator);
            }
        },
    }
}

/// The memory after a sequence of commands.
pub open spec fn effects(statics: Map<u32, u16>, ram: Map<u16, u16>, commands: Seq<Command>) -> Map<
    u16,
    u16,
>
    decreases commands.len(),
{
    if commands.len() == 0 {
        ram
    } else {
        effect(statics, effects(statics, ram, commands.drop_last()), commands.last())
    }
}

/// How many instructions run for a sequence of commands.
pub open spec fn steps_in(
    statics: Map<u32, u16>,
    ram: Map<u16, u16>,
    commands: Seq<Command>,
    labels: nat,
) -> nat
    decreases commands.len(),
{
    if commands.len() == 0 {
        0
    } else {
        steps_in(statics, ram, commands.drop_last(), labels) + steps_of(
            effects(statics, ram, commands.drop_last()),
            commands.last(),
            labels + labels_in(commands.drop_last()),
        )
    }
}

/// The translation of a sequence of commands does what the commands mean,
/// one after another.
pub proof fn lemma_run_program(
    image: Image,
    machine: Machine,
    commands: Seq<Command>,
    labels: nat,
)
    requires
        stands_at(image, machine.pc, program(commands, labels)),
        have_room(commands),
        labels_in(commands) > 0 ==> marks_once(image.code) && image.code.len() <= 0x8000,
    ensures
        run(image, machine, steps_in(image.statics, machine.ram, commands, labels)).ram == effects(
            image.statics,
            machine.ram,
            commands,
        ),
        run(image, machine, steps_in(image.statics, machine.ram, commands, labels)).pc
            == machine.pc + program(commands, labels).len(),
    decreases commands.len(),
{
    if commands.len() > 0 {
        let before = commands.drop_last();
        let used = labels + labels_in(before);
        lemma_stands_at_parts(
            image,
            machine.pc,
            program(before, labels),
            code_of(commands.last(), used),
        );
        assert(have_room(before)) by {
            assert forall|i: int| 0 <= i < before.len() implies has_room(#[trigger] before[i]) by {
                assert(before[i] == commands[i]);
            }
        }
        assert(has_room(commands[commands.len() - 1]));
        lemma_run_program(image, machine, before, labels);
        let steps = steps_in(image.statics, machine.ram, before, labels);
        let reached = run(image, machine, steps);
        lemma_run_command(image, reached, commands.last(), used);
        lemma_run_add(image, machine, steps, steps_of(reached.ram, commands.last(), used));
    }
}

/// A translation does what its commands mean: where the code is the
/// translation of a sequence of commands, has room in the instruction
/// memory, and pushes only literal values that have room in an address
/// instruction, running it from its start leaves the memory as the commands
/// leave it, and ends at the end of the code.
pub proof fn lemma_run_translation(image: Image, machine: Machine, commands: Seq<Command>)
    requires
        image.code == program(commands, 0),
        image.code.len() <= 0x8000,
        have_room(commands),
        labels_in(commands) <= usize::MAX,
        machine.pc == 0,
    ensures
        run(image, machine, steps_in(image.statics, machine.ram, commands, 0)).ram == effects(
            image.statics,
            machine.ram,
            commands,
        ),
        run(image, machine, steps_in(image.statics, machine.ram, commands, 0)).pc
            == image.code.len(),
{
    lemma_program_marks(commands, 0);
    lemma_rising_marks_once(image.code);
    lemma_run_program(image, machine, commands, 0);
}

} // verus!
