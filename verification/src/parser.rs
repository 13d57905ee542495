//! Source lines and what they decode to.

use vstd::prelude::*;
use crate::command::{
    operator_at, operator_named, segment_at, segment_named, spells, Command, CommandType, Fault,
    ParseError, ParseErrorView, Segment,
};
use crate::decimal::{parse_number, read_number};
use crate::text::{
    byte_len, chars_of, is_trimmed, lemma_byte_len_concat, lemma_byte_len_part,
    lemma_trim_is_trimmed, string_of, trim, trim_bounds, utf8_len, utf8_width,
};

verus! {

/// Where the word that starts at `from` ends: the first place at or after
/// `from` that holds a space, or the end of `s`.
pub open spec fn word_end(s: Seq<char>, from: int) -> int
    decreases s.len() - from,
{
    if 0 <= from < s.len() && s[from] != ' ' {
        word_end(s, from + 1)
    } else {
        from
    }
}

/// Where the run of spaces that starts at `from` ends.
pub open spec fn gap_end(s: Seq<char>, from: int) -> int
    decreases s.len() - from,
{
    if 0 <= from < s.len() && s[from] == ' ' {
        gap_end(s, from + 1)
    } else {
        from
    }
}

/// A line whose first two characters are slashes.
pub open spec fn is_comment(t: Seq<char>) -> bool {
    t.len() >= 2 && t[0] == '/' && t[1] == '/'
}

/// What a push or pop line of the given keyword, segment and index means.
pub open spec fn transfer(keyword: Seq<char>, segment: Segment, index: u32) -> Option<Command> {
    if keyword == "push"@ {
        Some(Command::Push(segment, index))
    } else if keyword == "pop"@ {
        Some(Command::Pop(segment, index))
    } else {
        None
    }
}

/// What a line of three words, with runs of spaces between them, means.
pub open spec fn decode_transfer(t: Seq<char>) -> Result<Option<Command>, Fault> {
    let a = word_end(t, 0);
    let b = gap_end(t, a);
    let c = word_end(t, b);
    let d = gap_end(t, c);
    let e = word_end(t, d);
    if 0 < a < b < c < d < e == t.len() {
        match segment_named(t.subrange(b, c)) {
            Some(segment) => match transfer(t.subrange(0, a), segment, 0) {
                Some(_) => match read_number(t.subrange(d, e)) {
                    Some(index) => Ok(transfer(t.subrange(0, a), segment, index)),
                    None => Err(Fault::InvalidOperand),
                },
                None => Err(Fault::Malformed),
            },
            None => Err(Fault::Malformed),
        }
    } else {
        Err(Fault::Malformed)
    }
}

/// What a line without whitespace at its ends means: nothing, where it is
/// empty or a comment; an instruction, where it has the shape of one; and
/// otherwise the fault that it has.
pub open spec fn decode(t: Seq<char>) -> Result<Option<Command>, Fault> {
    if t.len() == 0 || is_comment(t) {
        Ok(None)
    } else if word_end(t, 0) == t.len() {
        match operator_named(t) {
            Some(operator) => Ok(Some(Command::Arithmetic(operator))),
            None => Err(Fault::Malformed),
        }
    } else {
        decode_transfer(t)
    }
}

/// The first operand of a line: the name of its operation or of its segment.
pub open spec fn first_operand(t: Seq<char>) -> Option<Seq<char>> {
    match decode(t) {
        Ok(Some(Command::Arithmetic(operator))) => Some(operator.name()),
        Ok(Some(Command::Push(segment, _))) => Some(segment.name()),
        Ok(Some(Command::Pop(segment, _))) => Some(segment.name()),
        _ => None,
    }
}

/// The second operand of a line: the index of a push or a pop.
pub open spec fn second_operand(t: Seq<char>) -> Option<u32> {
    match decode(t) {
        Ok(Some(Command::Push(_, index))) => Some(index),
        Ok(Some(Command::Pop(_, index))) => Some(index),
        _ => None,
    }
}

/// The length of the first line of `s`, its line feed included.
pub open spec fn line_len(s: Seq<char>) -> nat
    decreases s.len(),
{
    if s.len() == 0 {
        0
    } else if s[0] == '\n' {
        1
    } else {
        1 + line_len(s.drop_first())
    }
}

/// The first line of a text is part of the text, and is not empty unless the
/// text is.
pub proof fn lemma_line_len_bounds(s: Seq<char>)
    ensures
        line_len(s) <= s.len(),
        s.len() > 0 ==> line_len(s) > 0,
    decreases s.len(),
{
    if s.len() > 0 && s[0] != '\n' {
        lemma_line_len_bounds(s.drop_first());
    }
}

fn word_end_at(t: &Vec<char>, from: usize) -> (j: usize)
    requires
        from <= t.len(),
    ensures
        from <= j <= t.len(),
        j == word_end(t@, from as int),
{
    let mut j: usize = from;
    while j < t.len() && t[j] != ' '
        invariant
            from <= j <= t.len(),
            word_end(t@, j as int) == word_end(t@, from as int),
        decreases t.len() - j,
    {
        j += 1;
    }
    j
}

fn gap_end_at(t: &Vec<char>, from: usize) -> (j: usize)
    requires
        from <= t.len(),
    ensures
        from <= j <= t.len(),
        j == gap_end(t@, from as int),
{
    let mut j: usize = from;
    while j < t.len() && t[j] == ' '
        invariant
            from <= j <= t.len(),
            gap_end(t@, j as int) == gap_end(t@, from as int),
        decreases t.len() - j,
    {
        j += 1;
    }
    j
}

fn transfer_of(t: &Vec<char>, to: usize, segment: Segment, index: u32) -> (r: Option<Command>)
    requires
        to <= t.len(),
    ensures
        r == transfer(t@.subrange(0, to as int), segment, index),
{
    if spells(t, 0, to, "push") {
        Some(Command::Push(segment, index))
    } else if spells(t, 0, to, "pop") {
        Some(Command::Pop(segment, index))
    } else {
        None
    }
}

/// Decodes a line that has no whitespace at its ends.
pub(crate) fn classify_chars(t: &Vec<char>) -> (r: Result<Option<Command>, Fault>)
    ensures
        r == decode(t@),
{
    let n = t.len();
    if n == 0 || (n >= 2 && t[0] == '/' && t[1] == '/') {
        return Ok(None);
    }
    let a = word_end_at(t, 0);
    if a == n {
        assert(t@.subrange(0, n as int) =~= t@);
        return match operator_at(t, 0, n) {
            Some(operator) => Ok(Some(Command::Arithmetic(operator))),
            None => Err(Fault::Malformed),
        };
    }
    let b = gap_end_at(t, a);
    let c = word_end_at(t, b);
    let d = gap_end_at(t, c);
    let e = word_end_at(t, d);
    if !(0 < a && a < b && b < c && c < d && d < e && e == n) {
        return Err(Fault::Malformed);
    }
    match segment_at(t, b, c) {
        Some(segment) => match transfer_of(t, a, segment, 0) {
            Some(_) => match parse_number(t, d, e) {
                Some(index) => Ok(transfer_of(t, a, segment, index)),
                None => Err(Fault::InvalidOperand),
            },
            None => Err(Fault::Malformed),
        },
        None => Err(Fault::Malformed),
    }
}

/// Decodes one raw line of source text: the whitespace at its ends does not
/// count.
pub fn classify(line: &str) -> (r: Result<Option<Command>, Fault>)
    ensures
        r == decode(trim(line@)),
{
    let chars = chars_of(line);
    let (from, to) = trim_bounds(&chars, 0, chars.len());
    assert(chars@.subrange(0, chars.len() as int) =~= chars@);
    let mut t: Vec<char> = Vec::new();
    let mut i: usize = from;
    while i < to
        invariant
            from <= i <= to <= chars.len(),
            t@ == chars@.subrange(from as int, i as int),
        decreases to - i,
    {
        t.push(chars[i]);
        i += 1;
        assert(t@ =~= chars@.subrange(from as int, i as int));
    }
    classify_chars(&t)
}

/// A reader of source text, line by line.
pub struct Parser {
    source: Vec<char>,
    cursor: usize,
    line_number: usize,
    now_line: String,
}

impl Parser {
    #[verifier::type_invariant]
    spec fn valid(&self) -> bool {
        &&& self.line_number <= self.cursor <= self.source.len()
        &&& byte_len(self.source@) <= usize::MAX
        &&& is_trimmed(self.now_line@)
    }

    /// The source text that has not been read yet.
    pub closed spec fn remaining(&self) -> Seq<char> {
        self.source@.skip(self.cursor as int)
    }

    /// The current line, without the whitespace at its ends.
    pub closed spec fn line(&self) -> Seq<char> {
        self.now_line@
    }

    /// How many lines have been read.
    pub closed spec fn lines_read(&self) -> nat {
        self.line_number as nat
    }

    /// A parser at the start of `source`, with an empty current line.
    pub fn new(source: &str) -> (parser: Parser)
        ensures
            parser.remaining() == source@,
            parser.line() == Seq::<char>::empty(),
            parser.lines_read() == 0,
    {
        let chars = chars_of(source);
        let total: usize = utf8_len(source);
        assert(byte_len(chars@) == total);
        assert(chars@.skip(0) =~= chars@);
        Parser { source: chars, cursor: 0, line_number: 0, now_line: String::new() }
    }

    /// Reads the next line, up to its line feed and with it, and makes it the
    /// current one. Returns the number of bytes that the line takes in UTF-8,
    /// which is zero at the end of the source and only there.
    pub fn advance(&mut self) -> (n: usize)
        ensures
            n == byte_len(old(self).remaining().take(line_len(old(self).remaining()) as int)),
            n == 0 <==> old(self).remaining().len() == 0,
            final(self).remaining() == old(self).remaining().skip(
                line_len(old(self).remaining()) as int,
            ),
            final(self).line() == trim(
                old(self).remaining().take(line_len(old(self).remaining()) as int),
            ),
            final(self).lines_read() == old(self).lines_read() + (if n == 0 {
                0nat
            } else {
                1nat
            }),
    {
        proof {
            use_type_invariant(&*self);
        }
        let start = self.cursor;
        let len = self.source.len();
        let ghost all = self.source@;
        let ghost rest = all.skip(start as int);
        let mut i: usize = start;
        let mut bytes: usize = 0;
        assert(all.subrange(start as int, start as int) =~= Seq::<char>::empty());
        while i < len && self.source[i] != '\n'
            invariant
                start <= i <= len,
                len == self.source.len(),
                all == self.source@,
                byte_len(all) <= usize::MAX,
                line_len(rest) == (i - start) + line_len(all.skip(i as int)),
                bytes == byte_len(all.subrange(start as int, i as int)),
                i - start <= bytes,
            decreases len - i,
        {
            let width = utf8_width(self.source[i]);
            proof {
                assert(all.skip(i as int).drop_first() =~= all.skip(i + 1));
                assert(all.subrange(start as int, i + 1) =~= all.subrange(start as int, i as int)
                    + seq![all[i as int]]);
                lemma_byte_len_concat(all.subrange(start as int, i as int), seq![all[i as int]]);
                lemma_byte_len_part(all, start as int, i + 1);
            }
            bytes = bytes + width;
            i += 1;
        }
        let end: usize = if i < len {
            let width = utf8_width(self.source[i]);
            proof {
                assert(all.subrange(start as int, i + 1) =~= all.subrange(start as int, i as int)
                    + seq![all[i as int]]);
                lemma_byte_len_concat(all.subrange(start as int, i as int), seq![all[i as int]]);
                lemma_byte_len_part(all, start as int, i + 1);
            }
            bytes = bytes + width;
            i + 1
        } else {
            i
        };
        assert(line_len(rest) == end - start);
        let (from, to) = trim_bounds(&self.source, start, end);
        let text = string_of(&self.source, from, to);
        proof {
            assert(all.subrange(start as int, end as int) =~= rest.take(end - start));
            assert(all.skip(end as int) =~= rest.skip(end - start));
            lemma_trim_is_trimmed(rest.take(end - start));
            lemma_line_len_bounds(rest);
        }
        self.cursor = end;
        if end > start {
            self.line_number = self.line_number + 1;
        }
        self.now_line = text;
        bytes
    }

    /// How many characters of the source have not been read yet.
    pub fn remaining_len(&self) -> (n: usize)
        ensures
            n == self.remaining().len(),
    {
        proof {
            use_type_invariant(self);
        }
        self.source.len() - self.cursor
    }

    /// The current line, without the whitespace at its ends.
    pub fn now_line(&self) -> (s: &String)
        ensures
            s@ == self.line(),
    {
        &self.now_line
    }

    /// The number of the current line, counted from one; zero before the
    /// first line is read.
    pub fn line_number(&self) -> (n: usize)
        ensures
            n == self.lines_read(),
    {
        self.line_number
    }

    /// What the current line decodes to; a line that is no instruction, no
    /// comment and not blank is an error that names the line.
    pub fn command(&self) -> (r: Result<Option<Command>, ParseError>)
        ensures
            match decode(self.line()) {
                Ok(c) => r == Ok::<Option<Command>, ParseError>(c),
                Err(fault) => r is Err && r->Err_0@ == (ParseErrorView {
                    fault,
                    line_number: self.lines_read(),
                    text: self.line(),
                }),
            },
    {
        let chars = chars_of(self.now_line.as_str());
        match classify_chars(&chars) {
            Ok(c) => Ok(c),
            Err(fault) => Err(ParseError::new(fault, self.line_number, self.now_line.clone())),
        }
    }

    /// Whether the current line is an instruction or a comment. A blank line
    /// gives `false`, and so does a line at fault: `command_type` and
    /// `command` report such a line, this function cannot.
    pub fn has_more_commands(&self) -> (b: bool)
        ensures
            b == match decode(self.line()) {
                Ok(Some(_)) => true,
                Ok(None) => is_comment(self.line()),
                Err(_) => false,
            },
    {
        match self.command_type() {
            Ok(Some(_)) => true,
            _ => false,
        }
    }

    /// The kind of the current line: the kind of its instruction, `CComment`
    /// for a comment, none for a blank line. A line that is none of these is
    /// an error that names the line.
    pub fn command_type(&self) -> (r: Result<Option<CommandType>, ParseError>)
        ensures
            match decode(self.line()) {
                Ok(Some(c)) => r == Ok::<Option<CommandType>, ParseError>(Some(c.kind())),
                Ok(None) => r == Ok::<Option<CommandType>, ParseError>(
                    if is_comment(self.line()) {
                        Some(CommandType::CComment)
                    } else {
                        None
                    },
                ),
                Err(fault) => r is Err && r->Err_0@ == (ParseErrorView {
                    fault,
                    line_number: self.lines_read(),
                    text: self.line(),
                }),
            },
    {
        let chars = chars_of(self.now_line.as_str());
        match classify_chars(&chars) {
            Ok(Some(Command::Arithmetic(_))) => Ok(Some(CommandType::CArithmetic)),
            Ok(Some(Command::Push(_, _))) => Ok(Some(CommandType::CPush)),
            Ok(Some(Command::Pop(_, _))) => Ok(Some(CommandType::CPop)),
            Ok(None) => if chars.len() >= 2 && chars[0] == '/' && chars[1] == '/' {
                Ok(Some(CommandType::CComment))
            } else {
                Ok(None)
            },
            Err(fault) => Err(ParseError::new(fault, self.line_number, self.now_line.clone())),
        }
    }

    /// The first operand of the current line: the name of the operation of an
    /// arithmetic instruction, the name of the segment of a push or a pop.
    pub fn arg1(&self) -> (name: Option<String>)
        ensures
            match first_operand(self.line()) {
                Some(word) => name is Some && name->0@ == word,
                None => name is None,
            },
    {
        let chars = chars_of(self.now_line.as_str());
        match classify_chars(&chars) {
            Ok(Some(Command::Arithmetic(operator))) => Some(operator.as_str().to_owned()),
            Ok(Some(Command::Push(segment, _))) => Some(segment.as_str().to_owned()),
            Ok(Some(Command::Pop(segment, _))) => Some(segment.as_str().to_owned()),
            _ => None,
        }
    }

    /// The second operand of the current line: the index of a push or a pop.
    pub fn arg2(&self) -> (index: Option<u32>)
        ensures
            index == second_operand(self.line()),
    {
        let chars = chars_of(self.now_line.as_str());
        match classify_chars(&chars) {
            Ok(Some(Command::Push(_, index))) => Some(index),
            Ok(Some(Command::Pop(_, index))) => Some(index),
            _ => None,
        }
    }
}

} // verus!
