//! The shapes of the lines that are instructions, and that `decode` accepts
//! these shapes and no others.

use vstd::prelude::*;
use crate::command::{
    lemma_operator_names, lemma_segment_names, operator_named, segment_named, Command, Fault,
    Operator, Segment,
};
use crate::decimal::read_number;
use crate::parser::{decode, decode_transfer, gap_end, transfer, word_end};

verus! {

/// A run of `count` spaces.
pub open spec fn spaces(count: nat) -> Seq<char> {
    Seq::new(count, |i: int| ' ')
}

/// A word: one or more characters, none of them a space.
pub open spec fn is_word(s: Seq<char>) -> bool {
    s.len() > 0 && forall|i: int| 0 <= i < s.len() ==> #[trigger] s[i] != ' '
}

/// The keyword of a push or of a pop.
pub open spec fn keyword(push: bool) -> Seq<char> {
    if push {
        "push"@
    } else {
        "pop"@
    }
}

/// The line that has the keyword of a push or of a pop, the name of a
/// segment and an operand, with runs of spaces between them.
pub open spec fn transfer_line(
    push: bool,
    first_gap: nat,
    segment: Segment,
    second_gap: nat,
    operand: Seq<char>,
) -> Seq<char> {
    keyword(push) + spaces(first_gap) + segment.name() + spaces(second_gap) + operand
}

/// `t` is a push line, or a pop line, on `segment` with the given operand:
/// keyword, segment and operand are parted by one or more spaces each, and
/// nothing stands before or after them.
pub open spec fn is_transfer_line(t: Seq<char>, push: bool, segment: Segment, operand: Seq<char>)
    -> bool {
    exists|first_gap: nat, second_gap: nat|
        first_gap >= 1 && second_gap >= 1 && #[trigger] transfer_line(
            push,
            first_gap,
            segment,
            second_gap,
            operand,
        ) == t
}

/// `t` has the shape of `command`: the name of its operation, for an
/// arithmetic instruction; for a push or a pop, keyword, segment and index,
/// the index as a number in decimal digits, on any of the eight segments.
pub open spec fn has_shape(t: Seq<char>, command: Command) -> bool {
    match command {
        Command::Arithmetic(operator) => t == operator.name(),
        Command::Push(segment, index) => exists|digits: Seq<char>|
            read_number(digits) == Some(index) && #[trigger] is_transfer_line(
                t,
                true,
                segment,
                digits,
            ),
        Command::Pop(segment, index) => exists|digits: Seq<char>|
            read_number(digits) == Some(index) && #[trigger] is_transfer_line(
                t,
                false,
                segment,
                digits,
            ),
    }
}

/// `t` is a push or a pop on a segment with an operand that is a word but no
/// number of 32 bits.
pub open spec fn has_invalid_operand(t: Seq<char>) -> bool {
    exists|push: bool, segment: Segment, operand: Seq<char>|
        is_word(operand) && read_number(operand) is None && #[trigger] is_transfer_line(
            t,
            push,
            segment,
            operand,
        )
}

proof fn lemma_word_end_is(s: Seq<char>, from: int, to: int)
    requires
        0 <= from <= to <= s.len(),
        forall|i: int| from <= i < to ==> #[trigger] s[i] != ' ',
        to == s.len() || s[to] == ' ',
    ensures
        word_end(s, from) == to,
    decreases to - from,
{
    if from < to {
        lemma_word_end_is(s, from + 1, to);
    }
}

proof fn lemma_gap_end_is(s: Seq<char>, from: int, to: int)
    requires
        0 <= from <= to <= s.len(),
        forall|i: int| from <= i < to ==> #[trigger] s[i] == ' ',
        to == s.len() || s[to] != ' ',
    ensures
        gap_end(s, from) == to,
    decreases to - from,
{
    if from < to {
        lemma_gap_end_is(s, from + 1, to);
    }
}

proof fn lemma_word_end_bounds(s: Seq<char>, from: int)
    requires
        0 <= from <= s.len(),
    ensures
        from <= word_end(s, from) <= s.len(),
        forall|i: int| from <= i < word_end(s, from) ==> #[trigger] s[i] != ' ',
        word_end(s, from) == s.len() || s[word_end(s, from)] == ' ',
    decreases s.len() - from,
{
    if from < s.len() && s[from] != ' ' {
        lemma_word_end_bounds(s, from + 1);
    }
}

proof fn lemma_gap_end_bounds(s: Seq<char>, from: int)
    requires
        0 <= from <= s.len(),
    ensures
        from <= gap_end(s, from) <= s.len(),
        forall|i: int| from <= i < gap_end(s, from) ==> #[trigger] s[i] == ' ',
        gap_end(s, from) == s.len() || s[gap_end(s, from)] != ' ',
    decreases s.len() - from,
{
    if from < s.len() && s[from] == ' ' {
        lemma_gap_end_bounds(s, from + 1);
    }
}

/// The two keywords are words of small letters, and different.
proof fn lemma_keywords(push: bool)
    ensures
        keyword(push).len() == if push {
            4nat
        } else {
            3nat
        },
        forall|i: int| 0 <= i < keyword(push).len() ==> 'a' <= #[trigger] keyword(push)[i] <= 'z',
        "push"@ != "pop"@,
{
    reveal_strlit("push");
    reveal_strlit("pop");
    assert("push"@.len() == 4 && "pop"@.len() == 3);
}

/// A push line or a pop line decodes to its command where its operand is a
/// number of 32 bits, and is at fault for its operand where it is not.
pub proof fn lemma_decode_transfer_line(
    push: bool,
    first_gap: nat,
    segment: Segment,
    second_gap: nat,
    operand: Seq<char>,
)
    requires
        first_gap >= 1,
        second_gap >= 1,
        is_word(operand),
    ensures
        decode(transfer_line(push, first_gap, segment, second_gap, operand)) == match read_number(
            operand,
        ) {
            Some(index) => Ok(
                Some(
                    if push {
                        Command::Push(segment, index)
                    } else {
                        Command::Pop(segment, index)
                    },
                ),
            ),
            None => Err::<Option<Command>, Fault>(Fault::InvalidOperand),
        },
{
    let t = transfer_line(push, first_gap, segment, second_gap, operand);
    let name = segment.name();
    lemma_keywords(push);
    lemma_segment_names(segment);
    let a = keyword(push).len() as int;
    let b = a + first_gap;
    let c = b + name.len();
    let d = c + second_gap;
    let e = d + operand.len();
    assert(t.len() == e);
    assert forall|i: int| 0 <= i < a implies #[trigger] t[i] != ' ' by {
        assert(t[i] == keyword(push)[i]);
    }
    assert forall|i: int| a <= i < b implies #[trigger] t[i] == ' ' by {
        assert(t[i] == spaces(first_gap)[i - a]);
    }
    assert forall|i: int| b <= i < c implies #[trigger] t[i] != ' ' by {
        assert(t[i] == name[i - b]);
    }
    assert forall|i: int| c <= i < d implies #[trigger] t[i] == ' ' by {
        assert(t[i] == spaces(second_gap)[i - c]);
    }
    assert forall|i: int| d <= i < e implies #[trigger] t[i] != ' ' by {
        assert(t[i] == operand[i - d]);
    }
    lemma_word_end_is(t, 0, a);
    lemma_gap_end_is(t, a, b);
    lemma_word_end_is(t, b, c);
    lemma_gap_end_is(t, c, d);
    lemma_word_end_is(t, d, e);
    assert(t.subrange(0, a) =~= keyword(push));
    assert(t.subrange(b, c) =~= name);
    assert(t.subrange(d, e) =~= operand);
    assert(t[0] == keyword(push)[0]);
    assert(decode(t) == decode_transfer(t));
}

/// A line that decodes to a push or a pop, or that is at fault for its
/// operand, is a push line or a pop line.
proof fn lemma_transfer_shape(t: Seq<char>) -> (shape: (bool, Segment, Seq<char>))
    requires
        decode(t) is Ok ==> decode(t)->Ok_0 is Some && !(decode(t)->Ok_0->0 is Arithmetic),
        decode(t) is Err ==> decode(t)->Err_0 == Fault::InvalidOperand,
    ensures
        is_transfer_line(t, shape.0, shape.1, shape.2),
        is_word(shape.2),
        decode(t) == match read_number(shape.2) {
            Some(index) => Ok(
                Some(
                    if shape.0 {
                        Command::Push(shape.1, index)
                    } else {
                        Command::Pop(shape.1, index)
                    },
                ),
            ),
            None => Err::<Option<Command>, Fault>(Fault::InvalidOperand),
        },
{
    assert(decode(t) == decode_transfer(t));
    let a = word_end(t, 0);
    let b = gap_end(t, a);
    let c = word_end(t, b);
    let d = gap_end(t, c);
    let e = word_end(t, d);
    assert(0 < a < b < c < d < e == t.len());
    lemma_word_end_bounds(t, 0);
    lemma_gap_end_bounds(t, a);
    lemma_word_end_bounds(t, b);
    lemma_gap_end_bounds(t, c);
    lemma_word_end_bounds(t, d);
    let segment = segment_named(t.subrange(b, c))->0;
    let operand = t.subrange(d, e);
    let push = t.subrange(0, a) == "push"@;
    assert(transfer(t.subrange(0, a), segment, 0) is Some);
    assert(t.subrange(0, a) == keyword(push));
    assert(t.subrange(b, c) == segment.name());
    let first_gap = (b - a) as nat;
    let second_gap = (d - c) as nat;
    assert(transfer_line(push, first_gap, segment, second_gap, operand) =~= t) by {
        let line = transfer_line(push, first_gap, segment, second_gap, operand);
        assert(line.len() == t.len());
        assert forall|i: int| 0 <= i < t.len() implies line[i] == t[i] by {
            if i < a {
                assert(line[i] == t.subrange(0, a)[i]);
            } else if i < b {
                assert(line[i] == spaces(first_gap)[i - a]);
            } else if i < c {
                assert(line[i] == t.subrange(b, c)[i - b]);
            } else if i < d {
                assert(line[i] == spaces(second_gap)[i - c]);
            } else {
                assert(line[i] == operand[i - d]);
            }
        }
    }
    (push, segment, operand)
}

/// A line that decodes to an arithmetic instruction is the name of its
/// operation, a word of two or three letters.
pub proof fn lemma_arithmetic_line(t: Seq<char>, operator: Operator)
    requires
        decode(t) == Ok::<Option<Command>, Fault>(Some(Command::Arithmetic(operator))),
    ensures
        t == operator.name(),
        2 <= t.len() <= 3,
{
    lemma_operator_names(operator);
    if word_end(t, 0) == t.len() {
        assert(operator_named(t) == Some(operator));
    }
}

/// The grammar of instructions: a line decodes to a command if, and only if,
/// it has the shape of that command. So every line has the shape of one
/// command at most.
pub proof fn lemma_decode_grammar(t: Seq<char>, command: Command)
    ensures
        decode(t) == Ok::<Option<Command>, Fault>(Some(command)) <==> has_shape(t, command),
{
    if has_shape(t, command) {
        match command {
            Command::Arithmetic(operator) => {
                lemma_operator_names(operator);
                lemma_word_end_is(t, 0, t.len() as int);
                assert(t[0] != '/');
            },
            Command::Push(segment, index) => {
                let digits = choose|digits: Seq<char>|
                    read_number(digits) == Some(index) && #[trigger] is_transfer_line(
                        t,
                        true,
                        segment,
                        digits,
                    );
                let (first_gap, second_gap) = choose|first_gap: nat, second_gap: nat|
                    first_gap >= 1 && second_gap >= 1 && #[trigger] transfer_line(
                        true,
                        first_gap,
                        segment,
                        second_gap,
                        digits,
                    ) == t;
                lemma_number_is_word(digits);
                lemma_decode_transfer_line(true, first_gap, segment, second_gap, digits);
            },
            Command::Pop(segment, index) => {
                let digits = choose|digits: Seq<char>|
                    read_number(digits) == Some(index) && #[trigger] is_transfer_line(
                        t,
                        false,
                        segment,
                        digits,
                    );
                let (first_gap, second_gap) = choose|first_gap: nat, second_gap: nat|
                    first_gap >= 1 && second_gap >= 1 && #[trigger] transfer_line(
                        false,
                        first_gap,
                        segment,
                        second_gap,
                        digits,
                    ) == t;
                lemma_number_is_word(digits);
                lemma_decode_transfer_line(false, first_gap, segment, second_gap, digits);
            },
        }
    }
    if decode(t) == Ok::<Option<Command>, Fault>(Some(command)) {
        match command {
            Command::Arithmetic(operator) => {
                if word_end(t, 0) == t.len() {
                    assert(operator_named(t) == Some(operator));
                }
            },
            _ => {
                let shape = lemma_transfer_shape(t);
                assert(is_transfer_line(t, shape.0, shape.1, shape.2));
            },
        }
    }
}

/// A line is at fault for its operand if, and only if, it is a push or a pop
/// on a segment with an operand that is no number of 32 bits.
pub proof fn lemma_decode_invalid_operand(t: Seq<char>)
    ensures
        decode(t) == Err::<Option<Command>, Fault>(Fault::InvalidOperand) <==> has_invalid_operand(
            t,
        ),
{
    if has_invalid_operand(t) {
        let (push, segment, operand) = choose|push: bool, segment: Segment, operand: Seq<char>|
            is_word(operand) && read_number(operand) is None && #[trigger] is_transfer_line(
                t,
                push,
                segment,
                operand,
            );
        let (first_gap, second_gap) = choose|first_gap: nat, second_gap: nat|
            first_gap >= 1 && second_gap >= 1 && #[trigger] transfer_line(
                push,
                first_gap,
                segment,
                second_gap,
                operand,
            ) == t;
        lemma_decode_transfer_line(push, first_gap, segment, second_gap, operand);
    }
    if decode(t) == Err::<Option<Command>, Fault>(Fault::InvalidOperand) {
        let shape = lemma_transfer_shape(t);
        assert(is_transfer_line(t, shape.0, shape.1, shape.2));
    }
}

/// A number in decimal digits is a word.
proof fn lemma_number_is_word(digits: Seq<char>)
    requires
        read_number(digits) is Some,
    ensures
        is_word(digits),
{
}

} // verus!
