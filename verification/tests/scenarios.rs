use triax::ast::Statement;
use triax::diagnostics::report;
use triax::eval::{eval_all, Outcome};
use triax::parser::parse_lines;

fn parse(script: &str) -> Vec<Statement> {
    let lines: Vec<String> = script.lines().map(|l| l.to_string()).collect();
    parse_lines(&lines)
}

#[test]
fn main_prints_one_line() {
    let stmts = parse("func main {\n  let x = \"hi\";\n  console.print(x, \"there\");\n}");
    assert!(triax::diagnostics::run_tcas(&stmts, 3).is_ok());
    match eval_all(&stmts, 3) {
        Outcome::Finished(out) => assert_eq!(out, vec!["hi there".to_string()]),
        other => panic!("unexpected outcome: {:?}", other),
    }
}

#[test]
fn script_without_main_is_rejected_without_output() {
    let stmts = parse("let x = \"hi\";\nconsole.print(x, \"there\");");
    match eval_all(&stmts, 3) {
        Outcome::Rejected(issues) => {
            assert_eq!(issues.len(), 10);
            assert!(issues.iter().all(|i| i.code == "TCAS101" && i.level == "error"));
            let lines = report(&issues);
            assert_eq!(lines.len(), 10);
            assert!(lines.iter().all(|l| l == "[ERROR] TCAS101 → Missing required func(main)"));
        }
        other => panic!("unexpected outcome: {:?}", other),
    }
}

#[test]
fn undefined_token_fails_after_earlier_output() {
    let stmts = parse("func main {\n  console.print(\"before\");\n  console.print(undeclared);\n  console.print(\"after\");\n}");
    match eval_all(&stmts, 3) {
        Outcome::Failed(out, e) => {
            assert_eq!(out, vec!["before".to_string()]);
            assert_eq!(e.token, "undeclared");
            assert!(e.message().contains("'undeclared'"));
        }
        other => panic!("unexpected outcome: {:?}", other),
    }
}

#[test]
fn undefined_token_without_semicolon_is_named_with_its_bracket() {
    let stmts = parse("func main {\n  console.print(undeclared)\n}");
    match eval_all(&stmts, 3) {
        Outcome::Failed(out, e) => {
            assert!(out.is_empty());
            assert_eq!(e.token, "undeclared)");
            assert!(e.message().contains("undeclared"));
        }
        other => panic!("unexpected outcome: {:?}", other),
    }
}

#[test]
fn warnings_over_the_threshold_reject() {
    let stmts = parse("let a = 1;\nlet a = 2;\nfunc main {\n  console.print(a);\n}");
    match eval_all(&stmts, 3) {
        Outcome::Rejected(issues) => {
            assert_eq!(issues.len(), 10);
            assert!(issues.iter().all(|i| i.level == "warning" && i.line == Some(2)));
        }
        other => panic!("unexpected outcome: {:?}", other),
    }
}
