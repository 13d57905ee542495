use nand2vmtranslator::command::{Command, CommandType, Fault, Operator, ParseError, Segment};
use nand2vmtranslator::parser::{classify, Parser};

#[test]
fn classify_all_operators() {
    let cases = [
        ("add", Operator::Add),
        ("sub", Operator::Sub),
        ("and", Operator::And),
        ("or", Operator::Or),
        ("neg", Operator::Neg),
        ("not", Operator::Not),
        ("eq", Operator::Eq),
        ("gt", Operator::Gt),
        ("lt", Operator::Lt),
    ];
    for (line, operator) in cases {
        assert_eq!(classify(line), Ok(Some(Command::Arithmetic(operator))));
    }
}

#[test]
fn classify_push_on_every_segment() {
    let cases = [
        ("push constant 7", Segment::Constant, 7),
        ("push local 2", Segment::Local, 2),
        ("push argument 0", Segment::Argument, 0),
        ("push this 1", Segment::This, 1),
        ("push that 12", Segment::That, 12),
        ("push static 3", Segment::Static, 3),
        ("push temp 6", Segment::Temp, 6),
        ("push pointer 1", Segment::Pointer, 1),
    ];
    for (line, segment, index) in cases {
        assert_eq!(classify(line), Ok(Some(Command::Push(segment, index))));
    }
}

#[test]
fn classify_pop_on_every_segment() {
    let cases = [
        ("pop constant 7", Segment::Constant, 7),
        ("pop local 2", Segment::Local, 2),
        ("pop argument 0", Segment::Argument, 0),
        ("pop this 1", Segment::This, 1),
        ("pop that 12", Segment::That, 12),
        ("pop static 3", Segment::Static, 3),
        ("pop temp 6", Segment::Temp, 6),
        ("pop pointer 1", Segment::Pointer, 1),
    ];
    for (line, segment, index) in cases {
        assert_eq!(classify(line), Ok(Some(Command::Pop(segment, index))));
    }
}

#[test]
fn classify_pop_constant_is_a_pop() {
    assert_eq!(classify("pop constant 0"), Ok(Some(Command::Pop(Segment::Constant, 0))));
    assert_eq!(classify("pop  constant   12"), Ok(Some(Command::Pop(Segment::Constant, 12))));
}

#[test]
fn classify_blank_lines_are_skipped() {
    assert_eq!(classify(""), Ok(None));
    assert_eq!(classify("   "), Ok(None));
    assert_eq!(classify("\t"), Ok(None));
    assert_eq!(classify("\n"), Ok(None));
    assert_eq!(classify("\r\n"), Ok(None));
    assert_eq!(classify(" \u{a0}\u{3000} "), Ok(None));
}

#[test]
fn classify_comments_are_skipped() {
    assert_eq!(classify("// a comment"), Ok(None));
    assert_eq!(classify("//"), Ok(None));
    assert_eq!(classify("//push constant 1"), Ok(None));
    assert_eq!(classify("   // indented comment\n"), Ok(None));
}

#[test]
fn classify_single_slash_is_malformed() {
    assert_eq!(classify("/ not a comment"), Err(Fault::Malformed));
    assert_eq!(classify("/"), Err(Fault::Malformed));
}

#[test]
fn classify_ignores_whitespace_at_the_ends() {
    assert_eq!(classify("  add  \n"), Ok(Some(Command::Arithmetic(Operator::Add))));
    assert_eq!(
        classify("\tpush constant 5\r\n"),
        Ok(Some(Command::Push(Segment::Constant, 5)))
    );
}

#[test]
fn classify_takes_runs_of_spaces_between_words() {
    assert_eq!(
        classify("push    local      17"),
        Ok(Some(Command::Push(Segment::Local, 17)))
    );
    assert_eq!(classify("pop  temp   0"), Ok(Some(Command::Pop(Segment::Temp, 0))));
}

#[test]
fn classify_takes_only_spaces_between_words() {
    assert_eq!(classify("push\tconstant\t1"), Err(Fault::Malformed));
    assert_eq!(classify("push constant\t1"), Err(Fault::Malformed));
    assert_eq!(classify("push\u{a0}constant 1"), Err(Fault::Malformed));
}

#[test]
fn malformed_line_missing_index() {
    assert_eq!(classify("push constant"), Err(Fault::Malformed));
}

#[test]
fn malformed_line_unknown_segment() {
    assert_eq!(classify("push nosuchsegment 0"), Err(Fault::Malformed));
}

#[test]
fn malformed_line_unknown_word() {
    assert_eq!(classify("frobnicate"), Err(Fault::Malformed));
}

#[test]
fn malformed_line_trailing_content() {
    assert_eq!(classify("push constant 1 2"), Err(Fault::Malformed));
    assert_eq!(classify("push constant 1 // one"), Err(Fault::Malformed));
    assert_eq!(classify("add 1"), Err(Fault::Malformed));
    assert_eq!(classify("add sub"), Err(Fault::Malformed));
    assert_eq!(classify("add // sum"), Err(Fault::Malformed));
}

#[test]
fn malformed_line_wrong_case_or_keyword() {
    assert_eq!(classify("Push constant 1"), Err(Fault::Malformed));
    assert_eq!(classify("push Constant 1"), Err(Fault::Malformed));
    assert_eq!(classify("ADD"), Err(Fault::Malformed));
    assert_eq!(classify("pusha constant 1"), Err(Fault::Malformed));
    assert_eq!(classify("peek constant 1"), Err(Fault::Malformed));
    assert_eq!(classify("adds"), Err(Fault::Malformed));
}

#[test]
fn control_flow_lines_are_malformed() {
    assert_eq!(classify("label LOOP"), Err(Fault::Malformed));
    assert_eq!(classify("goto LOOP"), Err(Fault::Malformed));
    assert_eq!(classify("if-goto LOOP"), Err(Fault::Malformed));
    assert_eq!(classify("function Main.main 2"), Err(Fault::Malformed));
    assert_eq!(classify("call Main.main 2"), Err(Fault::Malformed));
    assert_eq!(classify("return"), Err(Fault::Malformed));
    assert_eq!(classify("label foo 3"), Err(Fault::Malformed));
}

#[test]
fn invalid_operand_not_a_number() {
    assert_eq!(classify("push constant x"), Err(Fault::InvalidOperand));
    assert_eq!(classify("push constant 1x"), Err(Fault::InvalidOperand));
    assert_eq!(classify("pop local seven"), Err(Fault::InvalidOperand));
}

#[test]
fn invalid_operand_signed_or_fractional() {
    assert_eq!(classify("push constant -1"), Err(Fault::InvalidOperand));
    assert_eq!(classify("push constant +1"), Err(Fault::InvalidOperand));
    assert_eq!(classify("push constant 1.5"), Err(Fault::InvalidOperand));
    assert_eq!(classify("push constant 1e3"), Err(Fault::InvalidOperand));
}

#[test]
fn invalid_operand_other_digits() {
    assert_eq!(classify("push constant \u{661}"), Err(Fault::InvalidOperand));
    assert_eq!(classify("push constant \u{ff11}"), Err(Fault::InvalidOperand));
}

#[test]
fn operand_at_the_limit_of_32_bits() {
    assert_eq!(
        classify("push constant 4294967295"),
        Ok(Some(Command::Push(Segment::Constant, 4294967295)))
    );
    assert_eq!(classify("push constant 4294967296"), Err(Fault::InvalidOperand));
    assert_eq!(
        classify("push constant 99999999999999999999999999"),
        Err(Fault::InvalidOperand)
    );
}

#[test]
fn operand_with_leading_zeros() {
    assert_eq!(classify("push constant 007"), Ok(Some(Command::Push(Segment::Constant, 7))));
    assert_eq!(
        classify("push constant 000000000000000000000000000012"),
        Ok(Some(Command::Push(Segment::Constant, 12)))
    );
    assert_eq!(classify("pop temp 0"), Ok(Some(Command::Pop(Segment::Temp, 0))));
}

#[test]
fn invalid_operand_only_on_a_valid_segment() {
    assert_eq!(classify("push nosuchsegment x"), Err(Fault::Malformed));
    assert_eq!(classify("pop constant x"), Err(Fault::InvalidOperand));
    assert_eq!(classify("pop nosuchsegment x"), Err(Fault::Malformed));
    assert_eq!(classify("peek constant x"), Err(Fault::Malformed));
}

#[test]
fn parser_starts_before_the_first_line() {
    let parser = Parser::new("add\n");
    assert_eq!(parser.now_line().as_str(), "");
    assert_eq!(parser.line_number(), 0);
    assert_eq!(parser.remaining_len(), 4);
    assert_eq!(parser.command_type(), Ok(None));
    assert!(!parser.has_more_commands());
}

#[test]
fn parser_advance_reads_line_by_line() {
    let mut parser = Parser::new("push constant 7\n  add  \r\n\n// done\nneg");
    assert_eq!(parser.advance(), 16);
    assert_eq!(parser.now_line().as_str(), "push constant 7");
    assert_eq!(parser.line_number(), 1);
    assert_eq!(parser.advance(), 9);
    assert_eq!(parser.now_line().as_str(), "add");
    assert_eq!(parser.line_number(), 2);
    assert_eq!(parser.advance(), 1);
    assert_eq!(parser.now_line().as_str(), "");
    assert_eq!(parser.line_number(), 3);
    assert_eq!(parser.advance(), 8);
    assert_eq!(parser.now_line().as_str(), "// done");
    assert_eq!(parser.line_number(), 4);
    assert_eq!(parser.advance(), 3);
    assert_eq!(parser.now_line().as_str(), "neg");
    assert_eq!(parser.line_number(), 5);
    assert_eq!(parser.remaining_len(), 0);
}

#[test]
fn parser_advance_at_the_end_returns_zero() {
    let mut parser = Parser::new("add\n");
    assert_eq!(parser.advance(), 4);
    assert_eq!(parser.advance(), 0);
    assert_eq!(parser.now_line().as_str(), "");
    assert_eq!(parser.line_number(), 1);
    assert_eq!(parser.advance(), 0);
    assert_eq!(parser.line_number(), 1);
}

#[test]
fn parser_on_empty_source() {
    let mut parser = Parser::new("");
    assert_eq!(parser.advance(), 0);
    assert_eq!(parser.command(), Ok(None));
}

#[test]
fn parser_advance_counts_bytes() {
    let mut parser = Parser::new("// caf\u{e9}\nadd\n// \u{2713}\r\n// \u{1f600}");
    assert_eq!(parser.remaining_len(), 22);
    assert_eq!(parser.advance(), 9);
    assert_eq!(parser.now_line().as_str(), "// caf\u{e9}");
    assert_eq!(parser.remaining_len(), 14);
    assert_eq!(parser.advance(), 4);
    assert_eq!(parser.now_line().as_str(), "add");
    assert_eq!(parser.advance(), 8);
    assert_eq!(parser.now_line().as_str(), "// \u{2713}");
    assert_eq!(parser.advance(), 7);
    assert_eq!(parser.now_line().as_str(), "// \u{1f600}");
    assert_eq!(parser.advance(), 0);
    assert_eq!(parser.line_number(), 4);
}

#[test]
fn parser_advance_counts_as_the_text_is_long() {
    let source = "push constant 1\n\u{a0}// \u{3b1}\u{3b2}\n\nadd";
    let mut parser = Parser::new(source);
    let mut total = 0;
    loop {
        let n = parser.advance();
        if n == 0 {
            break;
        }
        total += n;
    }
    assert_eq!(total, source.len());
}

#[test]
fn parser_command_type_of_each_kind() {
    let mut parser = Parser::new("add\npush local 1\npop that 2\n// note\n\n  \t\n");
    parser.advance();
    assert_eq!(parser.command_type(), Ok(Some(CommandType::CArithmetic)));
    assert!(parser.has_more_commands());
    parser.advance();
    assert_eq!(parser.command_type(), Ok(Some(CommandType::CPush)));
    assert!(parser.has_more_commands());
    parser.advance();
    assert_eq!(parser.command_type(), Ok(Some(CommandType::CPop)));
    assert!(parser.has_more_commands());
    parser.advance();
    assert_eq!(parser.command_type(), Ok(Some(CommandType::CComment)));
    assert!(parser.has_more_commands());
    parser.advance();
    assert_eq!(parser.command_type(), Ok(None));
    assert!(!parser.has_more_commands());
    parser.advance();
    assert_eq!(parser.command_type(), Ok(None));
    assert!(!parser.has_more_commands());
}

#[test]
fn parser_command_type_reports_a_malformed_line() {
    let mut parser = Parser::new("add\n\nfrobnicate\n");
    parser.advance();
    parser.advance();
    let blank = parser.command_type();
    assert_eq!(blank, Ok(None));
    parser.advance();
    let faulty = parser.command_type();
    assert_eq!(
        faulty,
        Err(ParseError::MalformedInstruction { line_number: 3, text: "frobnicate".to_string() })
    );
    assert_ne!(faulty, blank);
    assert!(!parser.has_more_commands());
}

#[test]
fn parser_command_type_reports_each_malformed_shape() {
    for line in ["push constant", "push nosuchsegment 0", "frobnicate", "push constant 1 2"] {
        let mut parser = Parser::new(line);
        parser.advance();
        assert_eq!(
            parser.command_type(),
            Err(ParseError::MalformedInstruction { line_number: 1, text: line.to_string() })
        );
        assert_eq!(parser.arg1(), None);
        assert_eq!(parser.arg2(), None);
    }
}

#[test]
fn parser_command_type_reports_an_invalid_operand() {
    for line in ["push constant -1", "push constant 1.5", "pop local 4294967296"] {
        let mut parser = Parser::new(line);
        parser.advance();
        assert_eq!(
            parser.command_type(),
            Err(ParseError::InvalidOperand { line_number: 1, text: line.to_string() })
        );
        assert_eq!(parser.arg1(), None);
        assert_eq!(parser.arg2(), None);
    }
}

#[test]
fn parser_command_type_agrees_with_command() {
    let source = "add\n// c\n\npush temp 1\npop constant 1\npush temp x\n";
    let mut parser = Parser::new(source);
    while parser.advance() > 0 {
        match (parser.command(), parser.command_type()) {
            (Ok(Some(_)), Ok(Some(kind))) => assert_ne!(kind, CommandType::CComment),
            (Ok(None), Ok(Some(kind))) => assert_eq!(kind, CommandType::CComment),
            (Ok(None), Ok(None)) => assert_eq!(parser.now_line().as_str(), ""),
            (Err(a), Err(b)) => assert_eq!(a, b),
            other => panic!("the two disagree: {:?}", other),
        }
    }
    assert_eq!(parser.line_number(), 6);
}

#[test]
fn driving_the_parser_by_kind_stops_at_the_line_at_fault() {
    let mut parser = Parser::new("push constant 1\n// note\n\nfrobnicate\nadd\n");
    let mut kinds = Vec::new();
    let mut failure = None;
    while parser.advance() > 0 {
        match parser.command_type() {
            Ok(Some(kind)) => kinds.push(kind),
            Ok(None) => {}
            Err(error) => {
                failure = Some(error);
                break;
            }
        }
    }
    assert_eq!(kinds, vec![CommandType::CPush, CommandType::CComment]);
    assert_eq!(
        failure,
        Some(ParseError::MalformedInstruction { line_number: 4, text: "frobnicate".to_string() })
    );
}

#[test]
fn parser_arg1_and_arg2() {
    let mut parser = Parser::new("sub\npush  argument  42\npop static 9\n// note\n\nbad line\n");
    parser.advance();
    assert_eq!(parser.arg1(), Some("sub".to_string()));
    assert_eq!(parser.arg2(), None);
    parser.advance();
    assert_eq!(parser.arg1(), Some("argument".to_string()));
    assert_eq!(parser.arg2(), Some(42));
    parser.advance();
    assert_eq!(parser.arg1(), Some("static".to_string()));
    assert_eq!(parser.arg2(), Some(9));
    parser.advance();
    assert_eq!(parser.arg1(), None);
    assert_eq!(parser.arg2(), None);
    parser.advance();
    assert_eq!(parser.arg1(), None);
    assert_eq!(parser.arg2(), None);
    parser.advance();
    assert_eq!(parser.arg1(), None);
    assert_eq!(parser.arg2(), None);
}

#[test]
fn parser_reads_back_push_and_pop_on_every_segment() {
    let segments =
        ["constant", "local", "argument", "this", "that", "static", "temp", "pointer"];
    for keyword in ["push", "pop"] {
        for segment in segments {
            for index in [0u32, 2, 32767, 4294967295] {
                let mut parser = Parser::new(&format!("{} {} {}", keyword, segment, index));
                parser.advance();
                assert_eq!(parser.arg1(), Some(segment.to_string()));
                assert_eq!(parser.arg2(), Some(index));
                let kind =
                    if keyword == "push" { CommandType::CPush } else { CommandType::CPop };
                assert_eq!(parser.command_type(), Ok(Some(kind)));
                assert!(parser.has_more_commands());
            }
        }
    }
}

#[test]
fn parser_arg1_names_every_operator() {
    for name in ["add", "sub", "and", "or", "neg", "not", "eq", "gt", "lt"] {
        let mut parser = Parser::new(name);
        parser.advance();
        assert_eq!(parser.arg1(), Some(name.to_string()));
    }
}

#[test]
fn parser_command_gives_the_instruction() {
    let mut parser = Parser::new("  push temp 3\n\n// x\nlt\n");
    parser.advance();
    assert_eq!(parser.command(), Ok(Some(Command::Push(Segment::Temp, 3))));
    parser.advance();
    assert_eq!(parser.command(), Ok(None));
    parser.advance();
    assert_eq!(parser.command(), Ok(None));
    parser.advance();
    assert_eq!(parser.command(), Ok(Some(Command::Arithmetic(Operator::Lt))));
}

#[test]
fn parser_command_names_the_malformed_line() {
    let mut parser = Parser::new("add\n\n   frobnicate now  \nsub\n");
    parser.advance();
    parser.advance();
    parser.advance();
    let error = parser.command().unwrap_err();
    assert_eq!(
        error,
        ParseError::MalformedInstruction { line_number: 3, text: "frobnicate now".to_string() }
    );
    assert_eq!(error.fault(), Fault::Malformed);
    assert_eq!(error.line_number(), 3);
    assert_eq!(error.text().as_str(), "frobnicate now");
}

#[test]
fn parser_command_names_the_invalid_operand() {
    let mut parser = Parser::new("push constant 1\npush constant one\n");
    parser.advance();
    parser.advance();
    let error = parser.command().unwrap_err();
    assert_eq!(
        error,
        ParseError::InvalidOperand { line_number: 2, text: "push constant one".to_string() }
    );
    assert_eq!(error.fault(), Fault::InvalidOperand);
    assert_eq!(error.line_number(), 2);
    assert_eq!(error.text().as_str(), "push constant one");
}

#[test]
fn parse_error_new_builds_each_variant() {
    assert_eq!(
        ParseError::new(Fault::Malformed, 4, "x".to_string()),
        ParseError::MalformedInstruction { line_number: 4, text: "x".to_string() }
    );
    assert_eq!(
        ParseError::new(Fault::InvalidOperand, 5, "y".to_string()),
        ParseError::InvalidOperand { line_number: 5, text: "y".to_string() }
    );
}

#[test]
fn segment_and_operator_names() {
    assert_eq!(Segment::Constant.as_str(), "constant");
    assert_eq!(Segment::Local.as_str(), "local");
    assert_eq!(Segment::Argument.as_str(), "argument");
    assert_eq!(Segment::This.as_str(), "this");
    assert_eq!(Segment::That.as_str(), "that");
    assert_eq!(Segment::Static.as_str(), "static");
    assert_eq!(Segment::Temp.as_str(), "temp");
    assert_eq!(Segment::Pointer.as_str(), "pointer");
    assert_eq!(Operator::Add.as_str(), "add");
    assert_eq!(Operator::Lt.as_str(), "lt");
}
