//! The stack discipline: what pushes, pops and operations leave in memory.

use vstd::prelude::*;
use crate::code::{base_pointer, labels_in, locate, program};
use crate::command::{Command, Operator, Segment};
use crate::machine::{run, stands_at, Image, Machine};
use crate::semantics::{
    base, cell, effect, effects, has_room, have_room, lemma_run_locate, lemma_run_program, popped,
    pushed, result_of, steps_in, top, value_of,
};

verus! {

/// Pushes of literal values, one after another.
pub open spec fn pushes(values: Seq<u32>) -> Seq<Command> {
    Seq::new(values.len(), |i: int| Command::Push(Segment::Constant, values[i]))
}

/// Pops to cells of the segment `temp`, one after another.
pub open spec fn pops(places: Seq<u32>) -> Seq<Command> {
    Seq::new(places.len(), |i: int| Command::Pop(Segment::Temp, places[i]))
}

/// Among the first `count` pops, none after pop `i` goes to the same place.
pub open spec fn is_last_to_place(places: Seq<u32>, i: int, count: int) -> bool {
    forall|j: int| i < j < count ==> #[trigger] places[j] != places[i]
}

/// The free cells of the stack: `count` cells from the one that the stack
/// pointer names.
pub open spec fn is_free(ram: Map<u16, u16>, count: int, at: u16) -> bool {
    ram[0] <= at < ram[0] + count
}

/// After pushes of literal values, the values stand in the cells that were
/// free, in the order in which they were pushed; the stack pointer has moved
/// up by their number; and no other cell has changed.
pub proof fn lemma_after_pushes(statics: Map<u32, u16>, ram: Map<u16, u16>, values: Seq<u32>)
    requires
        forall|i: int| 0 <= i < values.len() ==> #[trigger] values[i] < 0x8000,
        1 <= ram[0],
        ram[0] + values.len() <= 0xffff,
    ensures
        effects(statics, ram, pushes(values))[0] == ram[0] + values.len(),
        forall|i: int|
            0 <= i < values.len() ==> effects(statics, ram, pushes(values))[(ram[0] + i) as u16]
                == #[trigger] values[i],
        forall|at: u16|
            at != 0 && !is_free(ram, values.len() as int, at) ==> #[trigger] effects(
                statics,
                ram,
                pushes(values),
            )[at] == ram[at],
    decreases values.len(),
{
    if values.len() > 0 {
        let before = values.drop_last();
        assert(pushes(values).drop_last() =~= pushes(before));
        assert(pushes(values).last() == Command::Push(Segment::Constant, values.last()));
        assert forall|i: int| 0 <= i < before.len() implies #[trigger] before[i] < 0x8000 by {
            assert(before[i] == values[i]);
        }
        lemma_after_pushes(statics, ram, before);
        let earlier = effects(statics, ram, pushes(before));
        let after = effects(statics, ram, pushes(values));
        assert(after == pushed(earlier, values.last() as u16));
        assert forall|i: int| 0 <= i < values.len() implies after[(ram[0] + i) as u16]
            == #[trigger] values[i] by {
            if i < before.len() {
                assert(before[i] == values[i]);
            }
        }
        assert forall|at: u16| at != 0 && !is_free(ram, values.len() as int, at) implies after[at]
            == ram[at] by {
            assert(!is_free(ram, before.len() as int, at));
            assert(earlier[at] == ram[at]);
        }
    }
}

/// After pushes of literal values and then `count` pops to cells of `temp`:
/// the stack pointer has come down by `count`, the values still stand where
/// they were pushed, and each cell of `temp` holds the value that the last
/// pop to it took.
proof fn lemma_after_pops(
    statics: Map<u32, u16>,
    ram: Map<u16, u16>,
    values: Seq<u32>,
    places: Seq<u32>,
    count: int,
)
    requires
        values.len() == places.len(),
        0 <= count <= places.len(),
        forall|i: int| 0 <= i < values.len() ==> #[trigger] values[i] < 0x8000,
        forall|i: int| 0 <= i < places.len() ==> #[trigger] places[i] < 8,
        13 <= ram[0],
        ram[0] + values.len() <= 0xffff,
    ensures
        effects(statics, ram, pushes(values) + pops(places.take(count)))[0] == ram[0] + values.len()
            - count,
        forall|i: int|
            0 <= i < values.len() ==> effects(
                statics,
                ram,
                pushes(values) + pops(places.take(count)),
            )[(ram[0] + i) as u16] == #[trigger] values[i],
        forall|i: int|
            0 <= i < count && is_last_to_place(places, i, count) ==> effects(
                statics,
                ram,
                pushes(values) + pops(places.take(count)),
            )[(5 + #[trigger] places[i]) as u16] == values[values.len() - 1 - i],
    decreases count,
{
    let commands = pushes(values) + pops(places.take(count));
    if count == 0 {
        assert(commands =~= pushes(values));
        lemma_after_pushes(statics, ram, values);
    } else {
        let before = pushes(values) + pops(places.take(count - 1));
        let place = places[count - 1];
        assert(commands.drop_last() =~= before);
        assert(commands.last() == Command::Pop(Segment::Temp, place));
        lemma_after_pops(statics, ram, values, places, count - 1);
        let earlier = effects(statics, ram, before);
        let lower = popped(earlier);
        let after = effects(statics, ram, commands);
        let taken = values[values.len() - count];
        assert(lower[0] == ram[0] + values.len() - count);
        assert(top(lower) == taken);
        assert(cell(statics, lower, Segment::Temp, place) == 5 + place);
        assert(after == lower.insert((5 + place) as u16, top(lower)));
        assert forall|i: int| 0 <= i < values.len() implies after[(ram[0] + i) as u16]
            == #[trigger] values[i] by {
            assert(earlier[(ram[0] + i) as u16] == values[i]);
        }
        assert forall|i: int| 0 <= i < count && is_last_to_place(places, i, count) implies after[(5
            + #[trigger] places[i]) as u16] == values[values.len() - 1 - i] by {
            if i < count - 1 {
                assert(places[count - 1] != places[i]);
                assert(is_last_to_place(places, i, count - 1));
            }
        }
    }
}

/// Pushes and pops mark no label.
proof fn lemma_no_labels(commands: Seq<Command>)
    requires
        forall|i: int| 0 <= i < commands.len() ==> !(#[trigger] commands[i] is Arithmetic),
    ensures
        labels_in(commands) == 0,
    decreases commands.len(),
{
    if commands.len() > 0 {
        assert forall|i: int| 0 <= i < commands.drop_last().len() implies !(
        #[trigger] commands.drop_last()[i] is Arithmetic) by {
            assert(commands.drop_last()[i] == commands[i]);
        }
        lemma_no_labels(commands.drop_last());
        assert(!(commands[commands.len() - 1] is Arithmetic));
    }
}

/// Last in, first out. Take the translation of pushes of literal values
/// followed by as many pops to cells of `temp`, and run it from its start
/// with a stack that lies above the cells of `temp` and has room for the
/// values. It runs to its end; the stack pointer is back where it was; and
/// the values are read back in reverse order: the cell of each pop that no
/// later pop overwrites holds the value of the push that it pairs with, the
/// first pop with the last push.
pub proof fn lemma_last_in_first_out(
    image: Image,
    machine: Machine,
    values: Seq<u32>,
    places: Seq<u32>,
)
    requires
        values.len() == places.len(),
        forall|i: int| 0 <= i < values.len() ==> #[trigger] values[i] < 0x8000,
        forall|i: int| 0 <= i < places.len() ==> #[trigger] places[i] < 8,
        13 <= machine.ram[0],
        machine.ram[0] + values.len() <= 0xffff,
        image.code == program(pushes(values) + pops(places), 0),
        machine.pc == 0,
    ensures
        ({
            let commands = pushes(values) + pops(places);
            let end = run(image, machine, steps_in(image.statics, machine.ram, commands, 0));
            &&& end.pc == image.code.len()
            &&& end.ram[0] == machine.ram[0]
            &&& forall|i: int|
                0 <= i < places.len() && is_last_to_place(places, i, places.len() as int)
                    ==> end.ram[(5 + #[trigger] places[i]) as u16] == values[values.len() - 1 - i]
        }),
{
    let commands = pushes(values) + pops(places);
    lemma_no_labels(commands);
    assert(have_room(commands)) by {
        assert forall|i: int| 0 <= i < commands.len() implies has_room(#[trigger] commands[i]) by {
            if i < values.len() {
                assert(commands[i] == Command::Push(Segment::Constant, values[i]));
            } else {
                assert(commands[i] == Command::Pop(Segment::Temp, places[i - values.len()]));
            }
        }
    }
    lemma_run_program(image, machine, commands, 0);
    assert(places.take(places.len() as int) =~= places);
    lemma_after_pops(image.statics, machine.ram, values, places, places.len() as int);
}

/// Segments do not share cells by accident: two segments that are reached
/// through pointers with different bases have different cells at one index.
pub proof fn lemma_segments_apart(
    statics: Map<u32, u16>,
    ram: Map<u16, u16>,
    first: Segment,
    second: Segment,
    index: u32,
)
    requires
        base_pointer(first) is Some,
        base_pointer(second) is Some,
        base(ram, first) != base(ram, second),
    ensures
        cell(statics, ram, first, index) != cell(statics, ram, second, index),
{
}

/// Segments are isolated: run on the same memory, the code that finds the
/// cell of one index in two segments that are reached through pointers with
/// different bases comes to two different addresses.
pub proof fn lemma_segment_isolation(
    image: Image,
    one: Machine,
    other: Machine,
    first: Segment,
    second: Segment,
    index: u32,
)
    requires
        base_pointer(first) is Some,
        base_pointer(second) is Some,
        stands_at(image, one.pc, locate(first, index)),
        stands_at(image, other.pc, locate(second, index)),
        one.ram == other.ram,
        base(one.ram, first) != base(one.ram, second),
    ensures
        run(image, one, locate(first, index).len()).a != run(
            image,
            other,
            locate(second, index).len(),
        ).a,
{
    lemma_run_locate(image, one, first, index);
    lemma_run_locate(image, other, second, index);
    lemma_segments_apart(image.statics, one.ram, first, second, index);
}

/// A pop moves the stack pointer down by one cell first, and then stores the
/// cell that the stack pointer names in the cell of the segment. No other
/// cell changes: so a pop leaves the base of every segment as it is, unless
/// it is told to store there.
pub proof fn lemma_pop_on_stack(
    statics: Map<u32, u16>,
    ram: Map<u16, u16>,
    segment: Segment,
    index: u32,
)
    requires
        segment != Segment::Constant,
        2 <= ram[0],
    ensures
        ({
            let after = effect(statics, ram, Command::Pop(segment, index));
            let at = cell(statics, ram, segment, index);
            &&& at != 0 ==> after[0] == ram[0] - 1
            &&& after[at] == ram[(ram[0] - 1) as u16]
            &&& forall|other: u16| other != 0 && other != at ==> #[trigger] after[other] == ram[other]
        }),
{
}

/// A push leaves its value in the cell that was the first free one, and the
/// stack pointer on the cell after it. The value of a push from the segment
/// of literal values is the index itself.
pub proof fn lemma_push_on_stack(
    statics: Map<u32, u16>,
    ram: Map<u16, u16>,
    segment: Segment,
    index: u32,
)
    requires
        1 <= ram[0] < 0xffff,
        segment == Segment::Constant ==> index < 0x8000,
    ensures
        ({
            let after = effect(statics, ram, Command::Push(segment, index));
            &&& after[0] == ram[0] + 1
            &&& after[ram[0]] == value_of(statics, ram, segment, index)
            &&& segment == Segment::Constant ==> after[ram[0]] as int == index as int
            &&& segment != Segment::Constant ==> after[ram[0]] == ram[cell(
                statics,
                ram,
                segment,
                index,
            )]
            &&& forall|at: u16| at != 0 && at != ram[0] ==> #[trigger] after[at] == ram[at]
        }),
{
}

/// An operation on two cells takes them off the stack and leaves its result
/// in their place: the cell that was pushed first is its left operand, so
/// that `sub` leaves the second cell from the top minus the top cell. An
/// operation on one cell changes the top cell in place.
pub proof fn lemma_operation_on_stack(
    statics: Map<u32, u16>,
    ram: Map<u16, u16>,
    operator: Operator,
)
    requires
        3 <= ram[0],
    ensures
        ({
            let after = effect(statics, ram, Command::Arithmetic(operator));
            let above = ram[(ram[0] - 1) as u16];
            let below = ram[(ram[0] - 2) as u16];
            if operator.is_unary() {
                &&& after[0] == ram[0]
                &&& after[(ram[0] - 1) as u16] == result_of(operator, 0, above)
            } else {
                &&& after[0] == ram[0] - 1
                &&& after[(ram[0] - 2) as u16] == result_of(operator, below, above)
            }
        }),
        result_of(Operator::Sub, 5, 3) == 2,
{
}

} // verus!
