use triax::ast::{Statement, StatementKind};
use triax::eval::{
    eval_all, eval_block, eval_expr, Environment, EvalError, FunctionTable, Outcome,
};
use triax::parser::parse_lines;

fn parse(script: &str) -> Vec<Statement> {
    let lines: Vec<String> = script.lines().map(|l| l.to_string()).collect();
    parse_lines(&lines)
}

fn value(tok: &str, env: &Environment) -> Option<String> {
    match eval_expr(tok, env) {
        Ok(v) => Some(v),
        Err(e) => {
            assert_eq!(e.token, tok);
            None
        }
    }
}

fn run(script: &str, env: &mut Environment) -> (Vec<String>, Option<String>) {
    let stmts = parse(script);
    let funcs = FunctionTable::new();
    let mut out = Vec::new();
    let failure = eval_block(&stmts, env, &funcs, &mut out).err().map(|e| e.token);
    (out, failure)
}

#[test]
fn string_literal_gives_what_is_inside() {
    let env = Environment::new();
    assert_eq!(value("\"hello\"", &env).as_deref(), Some("hello"));
    assert_eq!(value("\"\"", &env).as_deref(), Some(""));
    assert_eq!(value("\"a \\n \"b\" c\"", &env).as_deref(), Some("a \\n \"b\" c"));
    assert_eq!(value("\"42\"", &env).as_deref(), Some("42"));
    assert_eq!(value("\"é→\"", &env).as_deref(), Some("é→"));
}

#[test]
fn numeral_gives_itself() {
    let env = Environment::new();
    assert_eq!(value("42", &env).as_deref(), Some("42"));
    assert_eq!(value("-3.50", &env).as_deref(), Some("-3.50"));
    assert_eq!(value("1e5", &env).as_deref(), Some("1e5"));
    assert_eq!(value("007", &env).as_deref(), Some("007"));
    assert_eq!(value("NaN", &env).as_deref(), Some("NaN"));
}

#[test]
fn variable_gives_its_latest_value() {
    let mut env = Environment::new();
    assert_eq!(value("x", &env), None);
    env.set("x".to_string(), "one".to_string());
    assert_eq!(value("x", &env).as_deref(), Some("one"));
    env.set("x".to_string(), "two".to_string());
    assert_eq!(value("x", &env).as_deref(), Some("two"));
    assert_eq!(value("y", &env), None);
    assert_eq!(value("X", &env), None);
}

#[test]
fn literals_come_before_variables() {
    let mut env = Environment::new();
    env.set("42".to_string(), "shadow".to_string());
    env.set("\"q\"".to_string(), "shadow".to_string());
    env.set("inf".to_string(), "shadow".to_string());
    assert_eq!(value("42", &env).as_deref(), Some("42"));
    assert_eq!(value("\"q\"", &env).as_deref(), Some("q"));
    assert_eq!(value("inf", &env).as_deref(), Some("inf"));
}

#[test]
fn unresolved_token_is_named() {
    let env = Environment::new();
    let e = eval_expr("undeclared", &env).expect_err("nothing is bound");
    assert_eq!(e.token, "undeclared");
    assert_eq!(
        e.message(),
        "🚫 ERROR: 'undeclared' is not a string literal, number, or defined variable"
    );
}

#[test]
fn tokens_that_are_neither_literal_nor_variable() {
    let env = Environment::new();
    for tok in ["", "\"", "\"open", "close\"", "a b", "1 + 2", "x)", " 42"] {
        assert_eq!(value(tok, &env), None, "{:?}", tok);
    }
}

#[test]
fn lone_quote_can_only_be_a_variable() {
    let mut env = Environment::new();
    env.set("\"".to_string(), "quote".to_string());
    assert_eq!(value("\"", &env).as_deref(), Some("quote"));
}

#[test]
fn environment_get_and_set() {
    let mut env = Environment::new();
    assert!(env.get("a").is_none());
    env.set("a".to_string(), "1".to_string());
    env.set("b".to_string(), "2".to_string());
    assert_eq!(env.get("a").map(|v| v.as_str()), Some("1"));
    assert_eq!(env.get("b").map(|v| v.as_str()), Some("2"));
    env.set("a".to_string(), "3".to_string());
    assert_eq!(env.get("a").map(|v| v.as_str()), Some("3"));
    assert_eq!(env.get("b").map(|v| v.as_str()), Some("2"));
    assert!(env.get("c").is_none());
}

#[test]
fn function_table_keeps_the_last_declaration() {
    let stmts = parse("func f {\nlet a = 1;\n}\nfunc f {\n}\nfunc g {\n}");
    let mut funcs = FunctionTable::new();
    assert!(funcs.lookup("f").is_none());
    for s in &stmts {
        funcs.register(s.func_name.clone().expect("a function has a name"), s);
    }
    assert_eq!(funcs.lookup("f").map(|s| s.line), Some(Some(4)));
    assert_eq!(funcs.lookup("f").map(|s| s.body.len()), Some(0));
    assert_eq!(funcs.lookup("g").map(|s| s.line), Some(Some(6)));
    assert!(funcs.lookup("h").is_none());
}

#[test]
fn block_binds_and_prints_in_order() {
    let mut env = Environment::new();
    let (out, failure) = run(
        "let a = \"x\";\nconsole.print(a);\nlet a = 2;\nconsole.print(a, a, \"end\");\nlet b = a;",
        &mut env,
    );
    assert_eq!(failure, None);
    assert_eq!(out, vec!["x".to_string(), "2 2 end".to_string()]);
    assert_eq!(env.get("a").map(|v| v.as_str()), Some("2"));
    assert_eq!(env.get("b").map(|v| v.as_str()), Some("2"));
}

#[test]
fn redeclaration_keeps_only_the_second_value() {
    let mut env = Environment::new();
    let (out, failure) = run("let v = \"first\";\nlet v = \"second\";", &mut env);
    assert_eq!(failure, None);
    assert!(out.is_empty());
    assert_eq!(env.get("v").map(|v| v.as_str()), Some("second"));
}

#[test]
fn initializer_sees_the_variables_so_far() {
    let mut env = Environment::new();
    env.set("seed".to_string(), "s".to_string());
    let (_, failure) = run("let a = seed;\nlet seed = a;\nlet c = later;\nlet later = 1;", &mut env);
    assert_eq!(failure.as_deref(), Some("later"));
    assert_eq!(env.get("a").map(|v| v.as_str()), Some("s"));
    assert_eq!(env.get("seed").map(|v| v.as_str()), Some("s"));
    assert!(env.get("c").is_none());
    assert!(env.get("later").is_none());
}

#[test]
fn block_appends_to_what_was_printed() {
    let mut env = Environment::new();
    let stmts = parse("console.print(1);");
    let funcs = FunctionTable::new();
    let mut out = vec!["before".to_string()];
    assert!(eval_block(&stmts, &mut env, &funcs, &mut out).is_ok());
    assert_eq!(out, vec!["before".to_string(), "1".to_string()]);
}

#[test]
fn block_stops_at_the_first_unresolved_token() {
    let mut env = Environment::new();
    let (out, failure) = run(
        "console.print(\"one\");\nconsole.print(\"two\", nope, never);\nconsole.print(\"three\");\nlet z = 1;",
        &mut env,
    );
    assert_eq!(failure.as_deref(), Some("nope"));
    assert_eq!(out, vec!["one".to_string()]);
    assert!(env.get("z").is_none());
}

#[test]
fn other_kinds_do_nothing() {
    let kinds = [
        StatementKind::Include,
        StatementKind::Func,
        StatementKind::Call,
        StatementKind::Input,
        StatementKind::Remove,
        StatementKind::Repeat,
        StatementKind::For,
        StatementKind::Foreach,
        StatementKind::While,
        StatementKind::Loop,
        StatementKind::If,
        StatementKind::Else,
    ];
    let mut stmts = Vec::new();
    for kind in kinds {
        let mut s = Statement::new(kind, None);
        s.args.push("unbound".to_string());
        s.func_name = Some("f".to_string());
        let mut inner = Statement::new(StatementKind::ConsolePrint, None);
        inner.args.push("\"inner\"".to_string());
        s.body.push(inner);
        stmts.push(s);
    }
    let mut env = Environment::new();
    let funcs = FunctionTable::new();
    let mut out = Vec::new();
    assert!(eval_block(&stmts, &mut env, &funcs, &mut out).is_ok());
    assert!(out.is_empty());
    assert!(env.get("unbound").is_none());
}

#[test]
fn print_without_arguments_prints_an_empty_line() {
    let s = Statement::new(StatementKind::ConsolePrint, None);
    let mut env = Environment::new();
    let funcs = FunctionTable::new();
    let mut out = Vec::new();
    assert!(eval_block(&[s], &mut env, &funcs, &mut out).is_ok());
    assert_eq!(out, vec![String::new()]);
}

#[test]
fn top_level_runs_before_main() {
    let script = "console.print(\"top\");\nfunc main {\nconsole.print(g, \"in main\");\n}\nlet g = \"late\";\nconsole.print(\"bottom\");";
    match eval_all(&parse(script), 3) {
        Outcome::Finished(out) => assert_eq!(
            out,
            vec!["top".to_string(), "bottom".to_string(), "late in main".to_string()]
        ),
        other => panic!("unexpected outcome: {:?}", other),
    }
}

#[test]
fn last_main_wins() {
    let script = "func main {\nconsole.print(1);\n}\nfunc main {\nconsole.print(2);\n}";
    match eval_all(&parse(script), 3) {
        Outcome::Finished(out) => assert_eq!(out, vec!["2".to_string()]),
        other => panic!("unexpected outcome: {:?}", other),
    }
}

#[test]
fn other_functions_are_not_run() {
    let script = "func helper {\nconsole.print(\"helper\");\n}\nfunc main {\nhelper\nfunc inner {\nconsole.print(\"inner\");\n}\n}";
    match eval_all(&parse(script), 3) {
        Outcome::Finished(out) => assert!(out.is_empty()),
        other => panic!("unexpected outcome: {:?}", other),
    }
}

#[test]
fn main_changes_the_global_variables() {
    let script = "let x = 1;\nfunc main {\nconsole.print(x);\nlet x = 2;\nconsole.print(x);\n}";
    match eval_all(&parse(script), 3) {
        Outcome::Finished(out) => assert_eq!(out, vec!["1".to_string(), "2".to_string()]),
        other => panic!("unexpected outcome: {:?}", other),
    }
}

#[test]
fn redeclaration_at_top_level_runs_within_the_threshold() {
    let script = "let x = \"a\";\nlet x = \"b\";\nfunc main {\nconsole.print(x);\n}";
    match eval_all(&parse(script), 10) {
        Outcome::Finished(out) => assert_eq!(out, vec!["b".to_string()]),
        other => panic!("unexpected outcome: {:?}", other),
    }
    match eval_all(&parse(script), 9) {
        Outcome::Rejected(issues) => assert_eq!(issues.len(), 10),
        other => panic!("unexpected outcome: {:?}", other),
    }
}

#[test]
fn failure_at_top_level_keeps_main_from_running() {
    let script = "console.print(\"a\");\nlet x = missing;\nfunc main {\nconsole.print(\"main\");\n}";
    match eval_all(&parse(script), 3) {
        Outcome::Failed(out, EvalError { token }) => {
            assert_eq!(out, vec!["a".to_string()]);
            assert_eq!(token, "missing");
        }
        other => panic!("unexpected outcome: {:?}", other),
    }
}
