use nand2vmtranslator::code_writer::CodeWriter;
use nand2vmtranslator::command::{Command, CommandType, Operator, Segment};

const PUSH_D: &str = "@SP\nA=M\nM=D\n@SP\nM=M+1\n";
const POP_M: &str = "@SP\nM=M-1\nA=M\n";

fn push_text(module: &str, segment: Segment, index: u32) -> String {
    let mut writer = CodeWriter::new(module);
    writer.write_push_pop(CommandType::CPush, segment, index);
    writer.close()
}

fn pop_text(module: &str, segment: Segment, index: u32) -> String {
    let mut writer = CodeWriter::new(module);
    writer.write_push_pop(CommandType::CPop, segment, index);
    writer.close()
}

fn arithmetic_text(operator: Operator) -> String {
    let mut writer = CodeWriter::new("Main");
    writer.write_arithmetic(operator);
    writer.close()
}

#[test]
fn new_writer_is_empty() {
    let writer = CodeWriter::new("Main");
    assert_eq!(writer.output, "");
    assert_eq!(writer.label_num, 0);
    assert_eq!(writer.current_translated_file_name, "Main");
}

#[test]
fn push_constant_text() {
    assert_eq!(push_text("Main", Segment::Constant, 7), format!("@7\nD=A\n{}", PUSH_D));
    assert_eq!(push_text("Main", Segment::Constant, 0), format!("@0\nD=A\n{}", PUSH_D));
    assert_eq!(push_text("Main", Segment::Constant, 32767), format!("@32767\nD=A\n{}", PUSH_D));
    assert_eq!(
        push_text("Main", Segment::Constant, 4294967295),
        format!("@4294967295\nD=A\n{}", PUSH_D)
    );
}

#[test]
fn push_from_pointer_segments_text() {
    assert_eq!(
        push_text("Main", Segment::Local, 2),
        format!("@LCL\nA=M\nA=A+1\nA=A+1\nD=M\n{}", PUSH_D)
    );
    assert_eq!(push_text("Main", Segment::Argument, 0), format!("@ARG\nA=M\nD=M\n{}", PUSH_D));
    assert_eq!(push_text("Main", Segment::This, 1), format!("@THIS\nA=M\nA=A+1\nD=M\n{}", PUSH_D));
    assert_eq!(
        push_text("Main", Segment::That, 3),
        format!("@THAT\nA=M\nA=A+1\nA=A+1\nA=A+1\nD=M\n{}", PUSH_D)
    );
}

#[test]
fn push_from_fixed_segments_text() {
    assert_eq!(push_text("Main", Segment::Temp, 0), format!("@5\nD=M\n{}", PUSH_D));
    assert_eq!(
        push_text("Main", Segment::Temp, 3),
        format!("@5\nA=A+1\nA=A+1\nA=A+1\nD=M\n{}", PUSH_D)
    );
    assert_eq!(push_text("Main", Segment::Pointer, 0), format!("@3\nD=M\n{}", PUSH_D));
    assert_eq!(push_text("Main", Segment::Pointer, 1), format!("@3\nA=A+1\nD=M\n{}", PUSH_D));
}

#[test]
fn push_static_text() {
    assert_eq!(push_text("Foo", Segment::Static, 3), format!("@Foo.3\nD=M\n{}", PUSH_D));
    assert_eq!(push_text("", Segment::Static, 0), format!("@.0\nD=M\n{}", PUSH_D));
}

#[test]
fn pop_to_pointer_segments_text() {
    assert_eq!(
        pop_text("Main", Segment::Local, 2),
        format!("{}D=M\n@LCL\nA=M\nA=A+1\nA=A+1\nM=D\n", POP_M)
    );
    assert_eq!(pop_text("Main", Segment::Argument, 0), format!("{}D=M\n@ARG\nA=M\nM=D\n", POP_M));
    assert_eq!(
        pop_text("Main", Segment::This, 1),
        format!("{}D=M\n@THIS\nA=M\nA=A+1\nM=D\n", POP_M)
    );
    assert_eq!(
        pop_text("Main", Segment::That, 1),
        format!("{}D=M\n@THAT\nA=M\nA=A+1\nM=D\n", POP_M)
    );
}

#[test]
fn pop_to_fixed_segments_text() {
    assert_eq!(pop_text("Main", Segment::Temp, 0), format!("{}D=M\n@5\nM=D\n", POP_M));
    assert_eq!(
        pop_text("Main", Segment::Temp, 2),
        format!("{}D=M\n@5\nA=A+1\nA=A+1\nM=D\n", POP_M)
    );
    assert_eq!(pop_text("Main", Segment::Pointer, 1), format!("{}D=M\n@3\nA=A+1\nM=D\n", POP_M));
}

#[test]
fn pop_static_text() {
    assert_eq!(pop_text("Foo", Segment::Static, 3), format!("{}D=M\n@Foo.3\nM=D\n", POP_M));
}

#[test]
fn pop_constant_writes_nothing() {
    assert_eq!(pop_text("Main", Segment::Constant, 3), "");
}

#[test]
fn other_kinds_write_nothing() {
    for kind in [
        CommandType::CArithmetic,
        CommandType::CLabel,
        CommandType::CGoto,
        CommandType::CIf,
        CommandType::CFunction,
        CommandType::CReturn,
        CommandType::CCall,
        CommandType::CComment,
    ] {
        let mut writer = CodeWriter::new("Main");
        writer.write_push_pop(kind, Segment::Local, 1);
        assert_eq!(writer.output, "");
        assert_eq!(writer.label_num, 0);
    }
}

#[test]
fn binary_operations_text() {
    let take = format!("{}D=M\n{}", POP_M, POP_M);
    assert_eq!(arithmetic_text(Operator::Add), format!("{}D=D+M\n{}", take, PUSH_D));
    assert_eq!(arithmetic_text(Operator::Sub), format!("{}D=M-D\n{}", take, PUSH_D));
    assert_eq!(arithmetic_text(Operator::And), format!("{}D=D&M\n{}", take, PUSH_D));
    assert_eq!(arithmetic_text(Operator::Or), format!("{}D=D|M\n{}", take, PUSH_D));
}

#[test]
fn unary_operations_text() {
    assert_eq!(arithmetic_text(Operator::Neg), "@SP\nA=M-1\nM=-M\n");
    assert_eq!(arithmetic_text(Operator::Not), "@SP\nA=M-1\nM=!M\n");
}

fn comparison(jump: &str, holds: usize, join: usize) -> String {
    format!(
        "{}D=M\n{}D=M-D\n@LABEL{}\nD;{}\nD=0\n@LABEL{}\n0;JMP\n(LABEL{})\nD=-1\n(LABEL{})\n{}",
        POP_M, POP_M, holds, jump, join, holds, join, PUSH_D
    )
}

#[test]
fn comparison_operations_text() {
    assert_eq!(arithmetic_text(Operator::Eq), comparison("JEQ", 1, 2));
    assert_eq!(arithmetic_text(Operator::Gt), comparison("JGT", 1, 2));
    assert_eq!(arithmetic_text(Operator::Lt), comparison("JLT", 1, 2));
}

#[test]
fn comparisons_use_up_two_labels_each() {
    let mut writer = CodeWriter::new("Main");
    writer.write_arithmetic(Operator::Eq);
    assert_eq!(writer.label_num, 2);
    writer.write_arithmetic(Operator::Add);
    assert_eq!(writer.label_num, 2);
    writer.write_arithmetic(Operator::Neg);
    assert_eq!(writer.label_num, 2);
    writer.write_push_pop(CommandType::CPush, Segment::Constant, 1);
    assert_eq!(writer.label_num, 2);
    writer.write_arithmetic(Operator::Lt);
    assert_eq!(writer.label_num, 4);
    let text = writer.close();
    assert!(text.starts_with(&comparison("JEQ", 1, 2)));
    assert!(text.ends_with(&comparison("JLT", 3, 4)));
}

fn labels_marked(text: &str) -> Vec<String> {
    text.lines()
        .filter(|line| line.starts_with('('))
        .map(|line| line.to_string())
        .collect()
}

#[test]
fn two_consecutive_eq_never_share_a_label() {
    let mut writer = CodeWriter::new("Main");
    writer.write_arithmetic(Operator::Eq);
    let first = writer.take_output();
    writer.write_arithmetic(Operator::Eq);
    let second = writer.take_output();
    let first_labels = labels_marked(&first);
    let second_labels = labels_marked(&second);
    assert_eq!(first_labels, vec!["(LABEL1)".to_string(), "(LABEL2)".to_string()]);
    assert_eq!(second_labels, vec!["(LABEL3)".to_string(), "(LABEL4)".to_string()]);
    for label in &first_labels {
        assert!(!second_labels.contains(label));
    }
}

#[test]
fn labels_are_pairwise_distinct_across_many_comparisons() {
    let mut writer = CodeWriter::new("Main");
    let operators = [Operator::Eq, Operator::Gt, Operator::Lt];
    for round in 0..40 {
        writer.write_arithmetic(operators[round % 3]);
        writer.write_push_pop(CommandType::CPush, Segment::Constant, round as u32);
    }
    let labels = labels_marked(&writer.close());
    assert_eq!(labels.len(), 80);
    for i in 0..labels.len() {
        for j in (i + 1)..labels.len() {
            assert_ne!(labels[i], labels[j]);
        }
    }
}

#[test]
fn labels_go_on_after_a_change_of_module() {
    let mut writer = CodeWriter::new("Foo");
    writer.write_arithmetic(Operator::Eq);
    writer.set_file_name("Bar");
    assert_eq!(writer.label_num, 2);
    assert_eq!(writer.current_translated_file_name, "Bar");
    writer.write_arithmetic(Operator::Eq);
    let labels = labels_marked(&writer.close());
    assert_eq!(labels, vec!["(LABEL1)", "(LABEL2)", "(LABEL3)", "(LABEL4)"]);
}

fn static_symbol(module: &str, index: u32) -> String {
    let text = push_text(module, Segment::Static, index);
    text.lines().next().unwrap().to_string()
}

#[test]
fn static_symbols_differ_between_modules() {
    assert_eq!(static_symbol("Foo", 0), "@Foo.0");
    assert_eq!(static_symbol("Bar", 0), "@Bar.0");
    assert_ne!(static_symbol("Foo", 0), static_symbol("Bar", 0));
}

#[test]
fn static_symbols_agree_within_a_module() {
    let mut writer = CodeWriter::new("Foo");
    writer.write_push_pop(CommandType::CPush, Segment::Static, 0);
    let first = writer.take_output();
    writer.write_arithmetic(Operator::Eq);
    writer.take_output();
    writer.write_push_pop(CommandType::CPush, Segment::Static, 0);
    let second = writer.take_output();
    assert_eq!(first, second);
    assert_eq!(first.lines().next(), Some("@Foo.0"));
    writer.write_push_pop(CommandType::CPop, Segment::Static, 0);
    let third = writer.take_output();
    assert_eq!(third.lines().nth(4), Some("@Foo.0"));
}

#[test]
fn static_symbols_differ_between_indices() {
    assert_ne!(static_symbol("Foo", 1), static_symbol("Foo", 11));
    assert_ne!(static_symbol("Foo.1", 1), static_symbol("Foo", 11));
    assert_eq!(static_symbol("Foo.1", 1), "@Foo.1.1");
}

#[test]
fn set_file_name_changes_static_symbols_only() {
    let mut writer = CodeWriter::new("Foo");
    writer.write_push_pop(CommandType::CPush, Segment::Static, 2);
    writer.set_file_name("Bar");
    writer.write_push_pop(CommandType::CPush, Segment::Static, 2);
    assert_eq!(
        writer.close(),
        format!("@Foo.2\nD=M\n{}@Bar.2\nD=M\n{}", PUSH_D, PUSH_D)
    );
}

#[test]
fn take_output_hands_out_and_empties() {
    let mut writer = CodeWriter::new("Main");
    writer.write_arithmetic(Operator::Neg);
    assert_eq!(writer.take_output(), "@SP\nA=M-1\nM=-M\n");
    assert_eq!(writer.output, "");
    assert_eq!(writer.take_output(), "");
    writer.write_arithmetic(Operator::Not);
    assert_eq!(writer.close(), "@SP\nA=M-1\nM=!M\n");
}

#[test]
fn write_command_dispatches() {
    let mut writer = CodeWriter::new("Main");
    writer.write_command(Command::Push(Segment::Constant, 5));
    writer.write_command(Command::Pop(Segment::Temp, 1));
    writer.write_command(Command::Arithmetic(Operator::Gt));
    assert_eq!(writer.label_num, 2);
    assert_eq!(
        writer.close(),
        format!(
            "@5\nD=A\n{}{}D=M\n@5\nA=A+1\nM=D\n{}",
            PUSH_D,
            POP_M,
            comparison("JGT", 1, 2)
        )
    );
}

#[test]
fn output_appends_in_order() {
    let mut writer = CodeWriter::new("Main");
    writer.write_push_pop(CommandType::CPush, Segment::Constant, 1);
    let first = writer.output.clone();
    writer.write_arithmetic(Operator::Neg);
    assert!(writer.output.starts_with(&first));
    assert_eq!(&writer.output[first.len()..], "@SP\nA=M-1\nM=-M\n");
}

#[test]
fn every_line_ends_with_a_line_feed() {
    let mut writer = CodeWriter::new("Main");
    writer.write_command(Command::Push(Segment::Static, 1));
    writer.write_command(Command::Pop(Segment::Static, 2));
    writer.write_command(Command::Arithmetic(Operator::Neg));
    writer.write_command(Command::Arithmetic(Operator::Eq));
    let text = writer.close();
    assert!(text.ends_with('\n'));
    for line in text.lines() {
        assert!(!line.is_empty());
        assert!(!line.contains(' '));
        assert!(!line.contains('\''));
    }
    assert_eq!(text.lines().count(), 7 + 6 + 3 + 21);
}
