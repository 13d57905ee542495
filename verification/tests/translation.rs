use nand2vmtranslator::command::{Fault, ParseError};
use nand2vmtranslator::translate::translate;

const PUSH_D: &str = "@SP\nA=M\nM=D\n@SP\nM=M+1\n";
const POP_M: &str = "@SP\nM=M-1\nA=M\n";

#[test]
fn translate_empty_source() {
    let t = translate("", "Main");
    assert_eq!(t.assembly, "");
    assert_eq!(t.failure, None);
}

#[test]
fn translate_one_instruction() {
    let t = translate("push constant 7\n", "Main");
    assert_eq!(t.failure, None);
    assert_eq!(t.assembly, format!("@7\nD=A\n{}", PUSH_D));
}

#[test]
fn translate_in_the_order_of_the_lines() {
    let t = translate("push constant 5\npush constant 3\nsub\npop static 1", "Calc");
    assert_eq!(t.failure, None);
    assert_eq!(
        t.assembly,
        format!(
            "@5\nD=A\n{push}@3\nD=A\n{push}{pop}D=M\n{pop}D=M-D\n{push}{pop}D=M\n@Calc.1\nM=D\n",
            push = PUSH_D,
            pop = POP_M
        )
    );
}

#[test]
fn translate_skips_comments_and_blank_lines() {
    let with = "// start\n\npush constant 1\n   // middle\n\t\nneg\n// end";
    let without = "push constant 1\nneg\n";
    let a = translate(with, "Main");
    let b = translate(without, "Main");
    assert_eq!(a.failure, None);
    assert_eq!(b.failure, None);
    assert_eq!(a.assembly.as_bytes(), b.assembly.as_bytes());
    assert_eq!(a.assembly, format!("@1\nD=A\n{}@SP\nA=M-1\nM=-M\n", PUSH_D));
}

#[test]
fn comments_between_comparisons_do_not_change_the_labels() {
    let with = "// a\neq\n// b\n// c\ngt\n// d\nlt\n";
    let without = "eq\ngt\nlt\n";
    let a = translate(with, "Main");
    let b = translate(without, "Main");
    assert_eq!(a.assembly.as_bytes(), b.assembly.as_bytes());
    assert!(a.assembly.contains("(LABEL6)\n"));
    assert!(!a.assembly.contains("LABEL7"));
}

#[test]
fn comment_only_source_translates_to_nothing() {
    let t = translate("// one\n// two\n\n", "Main");
    assert_eq!(t.assembly, "");
    assert_eq!(t.failure, None);
}

#[test]
fn translate_stops_at_the_first_malformed_line() {
    let t = translate("push constant 1\n\nfrobnicate\npush constant 2\nalso bad\n", "Main");
    assert_eq!(t.assembly, format!("@1\nD=A\n{}", PUSH_D));
    assert_eq!(
        t.failure,
        Some(ParseError::MalformedInstruction { line_number: 3, text: "frobnicate".to_string() })
    );
}

#[test]
fn translate_reports_an_invalid_operand() {
    let t = translate("// head\npush constant 70000000000\nadd\n", "Main");
    assert_eq!(t.assembly, "");
    let error = t.failure.unwrap();
    assert_eq!(error.fault(), Fault::InvalidOperand);
    assert_eq!(error.line_number(), 2);
    assert_eq!(error.text().as_str(), "push constant 70000000000");
}

#[test]
fn translate_rejects_each_malformed_line() {
    for line in ["push constant", "push nosuchsegment 0", "frobnicate"] {
        let t = translate(line, "Main");
        assert_eq!(t.assembly, "");
        assert_eq!(
            t.failure,
            Some(ParseError::MalformedInstruction { line_number: 1, text: line.to_string() })
        );
    }
}

#[test]
fn translate_qualifies_statics_by_module() {
    let foo = translate("push static 0\n", "Foo");
    let bar = translate("push static 0\n", "Bar");
    assert_eq!(foo.assembly, format!("@Foo.0\nD=M\n{}", PUSH_D));
    assert_eq!(bar.assembly, format!("@Bar.0\nD=M\n{}", PUSH_D));
}

#[test]
fn translate_takes_carriage_returns() {
    let t = translate("push constant 2\r\nnot\r\n", "Main");
    assert_eq!(t.failure, None);
    assert_eq!(t.assembly, format!("@2\nD=A\n{}@SP\nA=M-1\nM=!M\n", PUSH_D));
}

#[test]
fn translate_numbers_labels_through_the_source() {
    let t = translate("eq\nadd\nlt\n", "Main");
    assert_eq!(t.failure, None);
    let marks: Vec<&str> = t.assembly.lines().filter(|l| l.starts_with('(')).collect();
    assert_eq!(marks, vec!["(LABEL1)", "(LABEL2)", "(LABEL3)", "(LABEL4)"]);
}

#[test]
fn translate_goes_on_after_a_pop_to_constant() {
    let t = translate("push constant 1\npop constant 0\npush constant 2\n", "Main");
    assert_eq!(t.failure, None);
    assert_eq!(t.assembly, format!("@1\nD=A\n{push}@2\nD=A\n{push}", push = PUSH_D));
}
