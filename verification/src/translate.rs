//! The translation of a whole source text.

use vstd::prelude::*;
use crate::code::{code_of, labels_in, program};
use crate::code_writer::CodeWriter;
use crate::command::{Command, ParseError, ParseErrorView};
use crate::grammar::lemma_arithmetic_line;
use crate::hack::{lemma_listing_concat, listing};
use crate::parser::{decode, is_comment, lemma_line_len_bounds, line_len, Parser};
use crate::text::{is_line, lemma_trim_is_trimmed, trim};

verus! {

/// The lines of a source text, each with its line feed; only the last line
/// may lack one.
pub open spec fn lines_of(source: Seq<char>) -> Seq<Seq<char>>
    decreases source.len(),
    via lines_of_decreases
{
    if source.len() == 0 {
        Seq::empty()
    } else {
        seq![source.take(line_len(source) as int)] + lines_of(source.skip(line_len(source) as int))
    }
}

#[via_fn]
proof fn lines_of_decreases(source: Seq<char>) {
    lemma_line_len_bounds(source);
}

/// The instructions of the lines that stand before the first line at fault.
pub open spec fn commands_of(lines: Seq<Seq<char>>) -> Seq<Command>
    decreases lines.len(),
{
    if lines.len() == 0 {
        Seq::empty()
    } else {
        match decode(trim(lines.first())) {
            Ok(Some(command)) => seq![command] + commands_of(lines.drop_first()),
            Ok(None) => commands_of(lines.drop_first()),
            Err(_) => Seq::empty(),
        }
    }
}

/// The first line at fault, if there is one, where `number` lines stand
/// before `lines`.
pub open spec fn failure_of(lines: Seq<Seq<char>>, number: nat) -> Option<ParseErrorView>
    decreases lines.len(),
{
    if lines.len() == 0 {
        None
    } else {
        match decode(trim(lines.first())) {
            Ok(_) => failure_of(lines.drop_first(), number + 1),
            Err(fault) => Some(
                ParseErrorView { fault, line_number: number + 1, text: trim(lines.first()) },
            ),
        }
    }
}

/// What the translation of a source text comes to.
pub struct Outcome {
    /// The assembly of the instructions before the first line at fault.
    pub assembly: Seq<char>,
    /// The first line at fault.
    pub failure: Option<ParseErrorView>,
}

/// What the translation of `source`, as the module `module`, comes to.
pub open spec fn translation(source: Seq<char>, module: Seq<char>) -> Outcome {
    Outcome {
        assembly: listing(program(commands_of(lines_of(source)), 0), module),
        failure: failure_of(lines_of(source), 0),
    }
}

/// The result of a translation: the assembly that was written, and the line
/// that stopped it, if one did.
#[derive(Debug, PartialEq, Eq)]
pub struct Translation {
    pub assembly: String,
    pub failure: Option<ParseError>,
}

/// Translates `source` as the module `module_name`, line by line, up to its
/// end or to the first line that is no instruction, no comment and not blank.
pub fn translate(source: &str, module_name: &str) -> (t: Translation)
    ensures
        t.assembly@ == translation(source@, module_name@).assembly,
        match translation(source@, module_name@).failure {
            Some(error) => t.failure is Some && t.failure->0@ == error,
            None => t.failure is None,
        },
{
    let mut parser = Parser::new(source);
    let mut writer = CodeWriter::new(module_name);
    let total = parser.remaining_len();
    let ghost all = lines_of(source@);
    let ghost mut done: Seq<Command> = Seq::empty();
    assert(commands_of(all) =~= done + commands_of(all));
    loop
        invariant
            all == lines_of(source@),
            writer.current_translated_file_name@ == module_name@,
            writer.output@ == listing(program(done, 0), module_name@),
            writer.label_num == labels_in(done),
            writer.label_num + parser.remaining().len() <= total,
            commands_of(all) == done + commands_of(lines_of(parser.remaining())),
            failure_of(all, 0) == failure_of(lines_of(parser.remaining()), parser.lines_read()),
        decreases parser.remaining().len(),
    {
        let ghost rest = parser.remaining();
        let ghost taken = line_len(rest) as int;
        if parser.advance() == 0 {
            assert(done + commands_of(lines_of(rest)) =~= done);
            return Translation { assembly: writer.close(), failure: None };
        }
        proof {
            lemma_line_len_bounds(rest);
            lemma_trim_is_trimmed(rest.take(taken));
            assert(lines_of(rest).drop_first() =~= lines_of(rest.skip(taken)));
        }
        match parser.command() {
            Ok(None) => {},
            Ok(Some(command)) => {
                proof {
                    if let Command::Arithmetic(operator) = command {
                        lemma_arithmetic_line(parser.line(), operator);
                    }
                    lemma_listing_concat(
                        program(done, 0),
                        code_of(command, labels_in(done)),
                        module_name@,
                    );
                    assert(done.push(command).drop_last() =~= done);
                    assert(done + (seq![command] + commands_of(lines_of(parser.remaining())))
                        =~= done.push(command) + commands_of(lines_of(parser.remaining())));
                }
                writer.write_command(command);
                proof {
                    done = done.push(command);
                }
            },
            Err(error) => {
                assert(done + commands_of(lines_of(rest)) =~= done);
                return Translation { assembly: writer.close(), failure: Some(error) };
            },
        }
    }
}

/// The lines without those that are comments.
pub open spec fn without_comments(lines: Seq<Seq<char>>) -> Seq<Seq<char>> {
    lines.filter(|line: Seq<char>| !is_comment(trim(line)))
}

/// The lines of a source text.
pub open spec fn are_lines(lines: Seq<Seq<char>>) -> bool {
    forall|i: int| 0 <= i < lines.len() ==> is_line(#[trigger] lines[i], i == lines.len() - 1)
}

proof fn lemma_without_comments_step(first: Seq<char>, rest: Seq<Seq<char>>)
    ensures
        without_comments(seq![first] + rest) == if is_comment(trim(first)) {
            without_comments(rest)
        } else {
            seq![first] + without_comments(rest)
        },
{
    let keep = |line: Seq<char>| !is_comment(trim(line));
    Seq::filter_distributes_over_add(seq![first], rest, keep);
    reveal(Seq::filter);
    assert(seq![first].drop_last() =~= Seq::<Seq<char>>::empty());
    assert(seq![first].drop_last().filter(keep) =~= Seq::<Seq<char>>::empty());
    if keep(first) {
        assert(seq![first].filter(keep) =~= seq![first]);
    } else {
        assert(seq![first].filter(keep) =~= Seq::<Seq<char>>::empty());
        assert(seq![first].filter(keep) + rest.filter(keep) =~= rest.filter(keep));
    }
}

/// Comments do not count: the lines of a source text hold the same
/// instructions, up to the first line at fault, with their comment lines and
/// without them, and either both have a line at fault or neither has.
pub proof fn lemma_comments_do_not_count(lines: Seq<Seq<char>>)
    ensures
        commands_of(without_comments(lines)) == commands_of(lines),
        forall|m: nat, n: nat|
            (#[trigger] failure_of(without_comments(lines), m) is Some) == (#[trigger] failure_of(
                lines,
                n,
            ) is Some),
    decreases lines.len(),
{
    if lines.len() == 0 {
        assert(without_comments(lines) =~= Seq::<Seq<char>>::empty()) by {
            reveal(Seq::filter);
        }
    } else {
        let first = lines.first();
        let rest = lines.drop_first();
        assert(lines =~= seq![first] + rest);
        lemma_without_comments_step(first, rest);
        lemma_comments_do_not_count(rest);
        if !is_comment(trim(first)) {
            let kept = seq![first] + without_comments(rest);
            assert(kept.first() == first);
            assert(kept.drop_first() =~= without_comments(rest));
            assert forall|m: nat, n: nat|
                (#[trigger] failure_of(without_comments(lines), m) is Some) == (
                #[trigger] failure_of(lines, n) is Some) by {
                if decode(trim(first)) is Ok {
                    assert(failure_of(without_comments(rest), m + 1) is Some == failure_of(
                        rest,
                        n + 1,
                    ) is Some);
                }
            }
        } else {
            assert forall|m: nat, n: nat|
                (#[trigger] failure_of(without_comments(lines), m) is Some) == (
                #[trigger] failure_of(lines, n) is Some) by {
                assert(failure_of(without_comments(rest), m) is Some == failure_of(rest, n + 1)
                    is Some);
            }
        }
    }
}

/// The first line of a text that starts with a line is that line.
proof fn lemma_first_line(line: Seq<char>, rest: Seq<char>)
    requires
        is_line(line, rest.len() == 0),
    ensures
        line_len(line + rest) == line.len(),
    decreases line.len(),
{
    let text = line + rest;
    assert(text.len() > 0);
    assert(text[0] == line[0]);
    if line.len() == 1 {
        if rest.len() == 0 {
            assert(text.drop_first() =~= Seq::<char>::empty());
            assert(line_len(text.drop_first()) == 0);
        } else {
            assert(line.last() == '\n');
        }
    } else {
        assert(line[0] != '\n');
        assert(text.drop_first() =~= line.drop_first() + rest);
        assert(is_line(line.drop_first(), rest.len() == 0)) by {
            assert forall|i: int| 0 <= i < line.drop_first().len() - 1 implies line.drop_first()[i]
                != '\n' by {
                assert(line.drop_first()[i] == line[i + 1]);
            }
        }
        lemma_first_line(line.drop_first(), rest);
    }
}

/// A source text made of lines, one after another, has these lines.
pub proof fn lemma_lines_of_flatten(lines: Seq<Seq<char>>)
    requires
        are_lines(lines),
    ensures
        lines_of(lines.flatten()) == lines,
    decreases lines.len(),
{
    if lines.len() == 0 {
    } else {
        let first = lines.first();
        let rest = lines.drop_first();
        assert(is_line(lines[0], 0 == lines.len() - 1));
        assert(are_lines(rest)) by {
            assert forall|i: int| 0 <= i < rest.len() implies is_line(
                #[trigger] rest[i],
                i == rest.len() - 1,
            ) by {
                assert(rest[i] == lines[i + 1]);
            }
        }
        lemma_lines_of_flatten(rest);
        if rest.len() > 0 {
            assert(is_line(rest[0], 0 == rest.len() - 1));
        }
        lemma_first_line(first, rest.flatten());
        let text = lines.flatten();
        assert(text == first + rest.flatten());
        assert(text.take(first.len() as int) =~= first);
        assert(text.skip(first.len() as int) =~= rest.flatten());
        assert(lines_of(text) =~= lines);
    }
}

/// Without their comments the lines of a source text are still the lines of
/// one.
pub proof fn lemma_without_comments_are_lines(lines: Seq<Seq<char>>)
    requires
        are_lines(lines),
    ensures
        are_lines(without_comments(lines)),
    decreases lines.len(),
{
    if lines.len() == 0 {
        assert(without_comments(lines) =~= Seq::<Seq<char>>::empty()) by {
            reveal(Seq::filter);
        }
    } else {
        let first = lines.first();
        let rest = lines.drop_first();
        assert(lines =~= seq![first] + rest);
        assert(is_line(lines[0], 0 == lines.len() - 1));
        assert(are_lines(rest)) by {
            assert forall|i: int| 0 <= i < rest.len() implies is_line(
                #[trigger] rest[i],
                i == rest.len() - 1,
            ) by {
                assert(rest[i] == lines[i + 1]);
            }
        }
        lemma_without_comments_step(first, rest);
        lemma_without_comments_are_lines(rest);
        if !is_comment(trim(first)) {
            let kept = seq![first] + without_comments(rest);
            assert forall|i: int| 0 <= i < kept.len() implies is_line(
                #[trigger] kept[i],
                i == kept.len() - 1,
            ) by {
                if i > 0 {
                    assert(kept[i] == without_comments(rest)[i - 1]);
                }
            }
        }
    }
}

/// Comments do not count: a source text translates to the same assembly with
/// its comment lines and without them.
pub proof fn lemma_translation_without_comments(lines: Seq<Seq<char>>, module: Seq<char>)
    requires
        are_lines(lines),
    ensures
        translation(without_comments(lines).flatten(), module).assembly == translation(
            lines.flatten(),
            module,
        ).assembly,
        translation(without_comments(lines).flatten(), module).failure is Some == translation(
            lines.flatten(),
            module,
        ).failure is Some,
{
    lemma_without_comments_are_lines(lines);
    lemma_lines_of_flatten(lines);
    lemma_lines_of_flatten(without_comments(lines));
    lemma_comments_do_not_count(lines);
}

} // verus!
