//! The tree-walking evaluator.
//!
//! Evaluation is strict: a token that is neither a literal nor a bound
//! variable ends the run at once. What was printed before stays printed.
//! Nothing is printed here: the lines come back to the caller in order.

use vstd::prelude::*;
use vstd::string::*;
use vstd::hash_map::StringHashMap;
use crate::ast::{Statement, StatementKind, StatementView, views, all_well_formed, lemma_view_body};
use crate::diagnostics::{
    TCASError, TCASErrorView, finding_views, all_findings, rejects, run_tcas, has_entry_point,
    error_count, warning_count, lemma_entry_point_decides_errors,
};
use crate::text::{texts, join, join_with, to_chars};
use crate::token::{is_string_literal, literal_text, is_numeral, is_numeric};

verus! {

/// The variables of a run: each name with its current value.
pub struct Environment {
    vars: StringHashMap<String>,
}

impl View for Environment {
    type V = Map<Seq<char>, Seq<char>>;

    closed spec fn view(&self) -> Map<Seq<char>, Seq<char>> {
        self.vars@.map_values(|v: String| v@)
    }
}

impl Environment {
    /// An environment without variables.
    pub fn new() -> (env: Self)
        ensures
            env@ == Map::<Seq<char>, Seq<char>>::empty(),
    {
        let env = Environment { vars: StringHashMap::new() };
        env
    }

    /// The value of the variable `name`, if it is bound.
    pub fn get(&self, name: &str) -> (r: Option<&String>)
        ensures
            match r {
                Some(v) => self@.contains_key(name@) && self@[name@] == v@,
                None => !self@.contains_key(name@),
            },
    {
        self.vars.get(name)
    }

    /// Binds `name` to `value`. An earlier value of `name` is gone.
    pub fn set(&mut self, name: String, value: String)
        ensures
            final(self)@ == old(self)@.insert(name@, value@),
    {
        self.vars.insert(name, value);
    }
}

/// The functions of a run: each name with the statement that declares it.
pub struct FunctionTable<'a> {
    funcs: StringHashMap<&'a Statement>,
}

impl<'a> View for FunctionTable<'a> {
    type V = Map<Seq<char>, StatementView>;

    closed spec fn view(&self) -> Map<Seq<char>, StatementView> {
        self.funcs@.map_values(|s: &Statement| s@)
    }
}

impl<'a> FunctionTable<'a> {
    /// A table without functions.
    pub fn new() -> (table: Self)
        ensures
            table@ == Map::<Seq<char>, StatementView>::empty(),
    {
        let table = FunctionTable { funcs: StringHashMap::new() };
        table
    }

    /// Registers `decl` under `name`. An earlier declaration of `name` is
    /// gone.
    pub fn register(&mut self, name: String, decl: &'a Statement)
        ensures
            final(self)@ == old(self)@.insert(name@, decl@),
    {
        self.funcs.insert(name, decl);
    }

    /// The declaration of the function `name`, if there is one.
    pub fn lookup(&self, name: &str) -> (r: Option<&'a Statement>)
        ensures
            match r {
                Some(decl) => self@.contains_key(name@) && self@[name@] == decl@,
                None => !self@.contains_key(name@),
            },
    {
        match self.funcs.get(name) {
            Some(decl) => Some(*decl),
            None => None,
        }
    }
}

/// Why a run ended early: a token that is no literal and no bound variable.
#[derive(Debug)]
pub struct EvalError {
    pub token: String,
}

/// What is shown for an unresolved `token`.
pub open spec fn failure_text(token: Seq<char>) -> Seq<char> {
    "\u{1F6AB} ERROR: '"@ + token + "' is not a string literal, number, or defined variable"@
}

impl EvalError {
    /// The message for the user, which names the token.
    pub fn message(&self) -> (r: String)
        ensures
            r@ == failure_text(self.token@),
    {
        let mut r = String::from_str("\u{1F6AB} ERROR: '");
        r.append(self.token.as_str());
        r.append("' is not a string literal, number, or defined variable");
        r
    }
}

/// The value of the token `tok` where the variables are `env`: the inside
/// of a string literal, a numeral as it stands, or the value of the variable
/// of that name, in this order. `None` if `tok` is none of these.
pub open spec fn value_of(tok: Seq<char>, env: Map<Seq<char>, Seq<char>>) -> Option<Seq<char>> {
    if is_string_literal(tok) {
        Some(literal_text(tok))
    } else if is_numeral(tok) {
        Some(tok)
    } else if env.contains_key(tok) {
        Some(env[tok])
    } else {
        None
    }
}

/// The first of the first `n` tokens of `toks` that has no value, if any.
pub open spec fn first_unresolved(
    toks: Seq<Seq<char>>,
    env: Map<Seq<char>, Seq<char>>,
    n: nat,
) -> Option<Seq<char>>
    decreases n,
{
    if n == 0 {
        None
    } else if first_unresolved(toks, env, (n - 1) as nat) is Some {
        first_unresolved(toks, env, (n - 1) as nat)
    } else if value_of(toks[n - 1], env) is None {
        Some(toks[n - 1])
    } else {
        None
    }
}

/// The values of `toks`, in order.
pub open spec fn values_of(toks: Seq<Seq<char>>, env: Map<Seq<char>, Seq<char>>) -> Seq<Seq<char>> {
    toks.map_values(|t: Seq<char>| value_of(t, env).unwrap())
}

/// How far a run has come.
pub struct Progress {
    pub env: Map<Seq<char>, Seq<char>>,
    /// The lines printed so far.
    pub output: Seq<Seq<char>>,
    /// The token that ended the run, if one did.
    pub failure: Option<Seq<char>>,
}

/// The start of a run: no variables, nothing printed.
pub open spec fn start() -> Progress {
    Progress { env: Map::empty(), output: Seq::empty(), failure: None }
}

/// `p` after the statement `s`. A variable declaration binds its name to
/// the value of its initializer; a print statement prints the values of its
/// arguments, joined by single spaces; every other statement does nothing.
/// The first token without value ends the run, and after that nothing
/// changes any more.
pub open spec fn after_statement(p: Progress, s: StatementView) -> Progress {
    if p.failure is Some {
        p
    } else if s.kind == StatementKind::Let {
        match value_of(s.args[1], p.env) {
            Some(v) => Progress {
                env: p.env.insert(s.args[0], v),
                output: p.output,
                failure: None,
            },
            None => Progress { env: p.env, output: p.output, failure: Some(s.args[1]) },
        }
    } else if s.kind == StatementKind::ConsolePrint {
        match first_unresolved(s.args, p.env, s.args.len()) {
            Some(t) => Progress { env: p.env, output: p.output, failure: Some(t) },
            None => Progress {
                env: p.env,
                output: p.output.push(join(values_of(s.args, p.env), " "@)),
                failure: None,
            },
        }
    } else {
        p
    }
}

/// `p` after the first `n` statements of `stmts`.
pub open spec fn after_block(stmts: Seq<StatementView>, p: Progress, n: nat) -> Progress
    decreases n,
{
    if n == 0 || n > stmts.len() {
        p
    } else {
        after_statement(after_block(stmts, p, (n - 1) as nat), stmts[n - 1])
    }
}

/// The function table after the first `n` top-level statements: each
/// function declaration is registered under its name, a later one in place
/// of an earlier one.
pub open spec fn functions_of(stmts: Seq<StatementView>, n: nat) -> Map<Seq<char>, StatementView>
    decreases n,
{
    if n == 0 || n > stmts.len() {
        Map::empty()
    } else if stmts[n - 1].kind == StatementKind::Func {
        functions_of(stmts, (n - 1) as nat).insert(stmts[n - 1].func_name.unwrap(), stmts[n - 1])
    } else {
        functions_of(stmts, (n - 1) as nat)
    }
}

/// The whole run of a script: first the top-level statements in order,
/// then, if none of them failed and a function `main` is declared, the body
/// of `main`.
pub open spec fn run_of(stmts: Seq<StatementView>) -> Progress {
    let top = after_block(stmts, start(), stmts.len());
    let funcs = functions_of(stmts, stmts.len());
    if top.failure is None && funcs.contains_key("main"@) {
        after_block(funcs["main"@].body, top, funcs["main"@].body.len())
    } else {
        top
    }
}

/// Evaluates the token `tok` where the variables are `env`.
pub fn eval_expr(tok: &str, env: &Environment) -> (r: Result<String, EvalError>)
    ensures
        match r {
            Ok(v) => value_of(tok@, env@) == Some(v@),
            Err(e) => value_of(tok@, env@) is None && e.token@ == tok@,
        },
{
    let v = to_chars(tok);
    let n = v.len();
    if n >= 2 && v[0] == '"' && v[n - 1] == '"' {
        return Ok(String::from_str(tok.substring_char(1, n - 1)));
    }
    if is_numeric(tok) {
        return Ok(String::from_str(tok));
    }
    match env.get(tok) {
        Some(value) => Ok(value.clone()),
        None => Err(EvalError { token: String::from_str(tok) }),
    }
}

/// Evaluates the arguments of a print statement, in order, up to the first
/// that has no value.
fn eval_arguments(args: &Vec<String>, env: &Environment) -> (r: Result<Vec<String>, EvalError>)
    ensures
        match r {
            Ok(values) => {
                &&& first_unresolved(texts(args@), env@, args@.len()) is None
                &&& texts(values@) == values_of(texts(args@), env@)
            },
            Err(e) => first_unresolved(texts(args@), env@, args@.len()) == Some(e.token@),
        },
{
    let ghost toks = texts(args@);
    let ghost wanted = values_of(toks, env@);
    let mut values: Vec<String> = Vec::new();
    let mut i: usize = 0;
    while i < args.len()
        invariant
            i <= args.len(),
            toks == texts(args@),
            wanted == values_of(toks, env@),
            first_unresolved(toks, env@, i as nat) is None,
            texts(values@) == wanted.take(i as int),
        decreases args.len() - i,
    {
        match eval_expr(args[i].as_str(), env) {
            Ok(value) => {
                assert(texts(values@.push(value)) =~= texts(values@).push(value@));
                values.push(value);
            },
            Err(e) => {
                proof {
                    lemma_unresolved_stays(toks, env@, (i + 1) as nat, args@.len());
                }
                return Err(e);
            },
        }
        i += 1;
    }
    Ok(values)
}

/// Once a token without value has been met, it stays the first.
proof fn lemma_unresolved_stays(
    toks: Seq<Seq<char>>,
    env: Map<Seq<char>, Seq<char>>,
    k: nat,
    n: nat,
)
    requires
        k <= n,
        first_unresolved(toks, env, k) is Some,
    ensures
        first_unresolved(toks, env, n) == first_unresolved(toks, env, k),
    decreases n,
{
    if k < n {
        lemma_unresolved_stays(toks, env, k, (n - 1) as nat);
    }
}

/// Once a run has failed, the rest of the block changes nothing.
proof fn lemma_failure_stays(stmts: Seq<StatementView>, p: Progress, k: nat, n: nat)
    requires
        k <= n <= stmts.len(),
        after_block(stmts, p, k).failure is Some,
    ensures
        after_block(stmts, p, n) == after_block(stmts, p, k),
    decreases n,
{
    if k < n {
        lemma_failure_stays(stmts, p, k, (n - 1) as nat);
    }
}

/// Executes the statement `s`: a variable declaration or a print statement
/// takes effect, any other statement does nothing.
fn eval_statement(s: &Statement, env: &mut Environment, out: &mut Vec<String>) -> (r: Result<
    (),
    EvalError,
>)
    requires
        s@.node_ok(),
    ensures
        ({
            let p = after_statement(
                Progress { env: old(env)@, output: texts(old(out)@), failure: None },
                s@,
            );
            &&& final(env)@ == p.env
            &&& texts(final(out)@) == p.output
            &&& match r {
                Ok(_) => p.failure is None,
                Err(e) => p.failure == Some(e.token@),
            }
        }),
{
    match s.kind {
        StatementKind::Let => {
            match eval_expr(s.args[1].as_str(), env) {
                Ok(value) => {
                    env.set(s.args[0].clone(), value);
                    Ok(())
                },
                Err(e) => Err(e),
            }
        },
        StatementKind::ConsolePrint => {
            match eval_arguments(&s.args, env) {
                Ok(values) => {
                    let line = join_with(&values, " ");
                    out.push(line);
                    Ok(())
                },
                Err(e) => Err(e),
            }
        },
        _ => Ok(()),
    }
}

/// Executes the statements of a block in order. The lines that it prints
/// are appended to `out`. Stops at the first token that has no value; what
/// was bound and printed before stays.
///
/// `funcs` is the table of the functions that a block may refer to. No
/// statement kind that has an effect reads it yet.
#[allow(unused_variables)]
pub fn eval_block(
    stmts: &[Statement],
    env: &mut Environment,
    funcs: &FunctionTable,
    out: &mut Vec<String>,
) -> (r: Result<(), EvalError>)
    requires
        all_well_formed(views(stmts@)),
    ensures
        ({
            let p = after_block(
                views(stmts@),
                Progress { env: old(env)@, output: texts(old(out)@), failure: None },
                stmts@.len(),
            );
            &&& final(env)@ == p.env
            &&& texts(final(out)@) == p.output
            &&& match r {
                Ok(_) => p.failure is None,
                Err(e) => p.failure == Some(e.token@),
            }
        }),
{
    let ghost sv = views(stmts@);
    let ghost initial = Progress { env: env@, output: texts(out@), failure: None };
    let mut i: usize = 0;
    while i < stmts.len()
        invariant
            i <= stmts.len(),
            sv == views(stmts@),
            all_well_formed(sv),
            initial == (Progress { env: old(env)@, output: texts(old(out)@), failure: None }),
            after_block(sv, initial, i as nat) == (Progress {
                env: env@,
                output: texts(out@),
                failure: None,
            }),
        decreases stmts.len() - i,
    {
        assert(sv[i as int].well_formed());
        match eval_statement(&stmts[i], env, out) {
            Ok(_) => {},
            Err(e) => {
                proof {
                    lemma_failure_stays(sv, initial, (i + 1) as nat, stmts@.len());
                }
                return Err(e);
            },
        }
        i += 1;
    }
    Ok(())
}

/// How a run ended.
#[derive(Debug)]
pub enum Outcome {
    /// The preflight checks rejected the script: nothing was evaluated.
    /// Holds all findings.
    Rejected(Vec<TCASError>),
    /// The script ran to its end. Holds the lines that it printed.
    Finished(Vec<String>),
    /// A token had no value. Holds the lines printed before that, and the
    /// failure.
    Failed(Vec<String>, EvalError),
}

/// The mathematical value of an [`Outcome`].
pub enum OutcomeView {
    Rejected(Seq<TCASErrorView>),
    Finished(Seq<Seq<char>>),
    Failed(Seq<Seq<char>>, Seq<char>),
}

impl View for Outcome {
    type V = OutcomeView;

    open spec fn view(&self) -> OutcomeView {
        match self {
            Outcome::Rejected(issues) => OutcomeView::Rejected(finding_views(issues@)),
            Outcome::Finished(output) => OutcomeView::Finished(texts(output@)),
            Outcome::Failed(output, e) => OutcomeView::Failed(texts(output@), e.token@),
        }
    }
}

/// How the script `stmts` ends where `warning_threshold` warnings are
/// tolerated: rejected by the preflight checks with nothing evaluated, or
/// run as [`run_of`] says.
pub open spec fn outcome_of(stmts: Seq<StatementView>, warning_threshold: nat) -> OutcomeView {
    if rejects(all_findings(stmts), warning_threshold) {
        OutcomeView::Rejected(all_findings(stmts))
    } else {
        match run_of(stmts).failure {
            Some(token) => OutcomeView::Failed(run_of(stmts).output, token),
            None => OutcomeView::Finished(run_of(stmts).output),
        }
    }
}

/// Every registered function is one of the statements, and with them well
/// formed.
proof fn lemma_functions_well_formed(stmts: Seq<StatementView>, n: nat)
    requires
        all_well_formed(stmts),
    ensures
        forall|name: Seq<char>|
            functions_of(stmts, n).contains_key(name) ==> (#[trigger] functions_of(
                stmts,
                n,
            )[name]).well_formed(),
    decreases n,
{
    if 0 < n <= stmts.len() {
        lemma_functions_well_formed(stmts, (n - 1) as nat);
        let earlier = functions_of(stmts, (n - 1) as nat);
        let now = functions_of(stmts, n);
        let last = stmts[n - 1];
        assert(last.well_formed());
        assert forall|name: Seq<char>| now.contains_key(name) implies (
        #[trigger] now[name]).well_formed() by {
            if !(last.kind == StatementKind::Func && name == last.func_name.unwrap()) {
                assert(earlier[name].well_formed());
            }
        }
    }
}

/// Checks the script `stmts` and, if the checks let it pass, runs it: the
/// top-level statements in order, then the body of `main`.
pub fn eval_all(stmts: &[Statement], warning_threshold: usize) -> (r: Outcome)
    requires
        all_well_formed(views(stmts@)),
    ensures
        r@ == outcome_of(views(stmts@), warning_threshold as nat),
{
    let ghost sv = views(stmts@);
    match run_tcas(stmts, warning_threshold) {
        Ok(_) => {},
        Err(issues) => {
            return Outcome::Rejected(issues);
        },
    }
    let mut env = Environment::new();
    let mut funcs = FunctionTable::new();
    let mut out: Vec<String> = Vec::new();
    assert(texts(out@) =~= Seq::<Seq<char>>::empty());
    let mut i: usize = 0;
    while i < stmts.len()
        invariant
            i <= stmts.len(),
            sv == views(stmts@),
            all_well_formed(sv),
            !rejects(all_findings(sv), warning_threshold as nat),
            funcs@ == functions_of(sv, i as nat),
            after_block(sv, start(), i as nat) == (Progress {
                env: env@,
                output: texts(out@),
                failure: None,
            }),
        decreases stmts.len() - i,
    {
        let s = &stmts[i];
        assert(sv[i as int].well_formed());
        if s.kind == StatementKind::Func {
            match &s.func_name {
                Some(name) => {
                    funcs.register(name.clone(), s);
                },
                None => {},
            }
        } else {
            match eval_statement(s, &mut env, &mut out) {
                Ok(_) => {},
                Err(e) => {
                    proof {
                        lemma_failure_stays(sv, start(), (i + 1) as nat, stmts@.len());
                    }
                    return Outcome::Failed(out, e);
                },
            }
        }
        i += 1;
    }
    match funcs.lookup("main") {
        Some(main) => {
            proof {
                lemma_functions_well_formed(sv, stmts@.len() as nat);
                lemma_view_body(*main);
            }
            match eval_block(main.body.as_slice(), &mut env, &funcs, &mut out) {
                Ok(_) => Outcome::Finished(out),
                Err(e) => Outcome::Failed(out, e),
            }
        },
        None => Outcome::Finished(out),
    }
}

/// A script without entry point is rejected with its findings, whatever the
/// number of warnings that is tolerated: nothing is evaluated and nothing
/// printed.
pub proof fn lemma_no_entry_point_no_run(stmts: Seq<StatementView>, warning_threshold: nat)
    requires
        !has_entry_point(stmts),
    ensures
        outcome_of(stmts, warning_threshold) == OutcomeView::Rejected(all_findings(stmts)),
{
    lemma_entry_point_decides_errors(stmts, warning_threshold);
}

/// A script whose findings are all warnings runs exactly if the warnings
/// are no more than are tolerated. Else it is rejected with its findings:
/// nothing is evaluated and nothing printed.
pub proof fn lemma_threshold_decides(stmts: Seq<StatementView>, warning_threshold: nat)
    requires
        error_count(all_findings(stmts)) == 0,
    ensures
        warning_count(all_findings(stmts)) <= warning_threshold ==> outcome_of(
            stmts,
            warning_threshold,
        ) == match run_of(stmts).failure {
            Some(token) => OutcomeView::Failed(run_of(stmts).output, token),
            None => OutcomeView::Finished(run_of(stmts).output),
        },
        warning_count(all_findings(stmts)) > warning_threshold ==> outcome_of(
            stmts,
            warning_threshold,
        ) == OutcomeView::Rejected(all_findings(stmts)),
{
}

/// A text between double quotes evaluates to that text, whatever it holds
/// and whatever the variables are.
pub proof fn lemma_string_literal_value(text: Seq<char>, env: Map<Seq<char>, Seq<char>>)
    ensures
        value_of(seq!['"'] + text + seq!['"'], env) == Some(text),
{
}

/// A numeral is no string literal.
pub proof fn lemma_numeral_not_quoted(tok: Seq<char>)
    requires
        is_numeral(tok),
    ensures
        !is_string_literal(tok),
{
}

/// A numeral evaluates to itself, whatever the variables are.
pub proof fn lemma_numeral_value(tok: Seq<char>, env: Map<Seq<char>, Seq<char>>)
    requires
        is_numeral(tok),
    ensures
        value_of(tok, env) == Some(tok),
{
    lemma_numeral_not_quoted(tok);
}

/// A name that is neither string literal nor numeral evaluates to the value
/// that it was bound to last.
pub proof fn lemma_variable_value(
    name: Seq<char>,
    value: Seq<char>,
    env: Map<Seq<char>, Seq<char>>,
)
    requires
        !is_string_literal(name),
        !is_numeral(name),
    ensures
        value_of(name, env.insert(name, value)) == Some(value),
{
}

/// Two declarations of one variable, one after the other, leave the
/// variable with the value of the second initializer, and every other
/// variable as the first declaration left it. Neither fails as long as its
/// initializer has a value, and nothing is printed.
pub proof fn lemma_redeclaration(p: Progress, first: StatementView, second: StatementView)
    requires
        p.failure is None,
        first.kind == StatementKind::Let,
        second.kind == StatementKind::Let,
        first.args[0] == second.args[0],
        value_of(first.args[1], p.env) is Some,
        value_of(
            second.args[1],
            p.env.insert(first.args[0], value_of(first.args[1], p.env).unwrap()),
        ) is Some,
    ensures
        ({
            let name = first.args[0];
            let between = p.env.insert(name, value_of(first.args[1], p.env).unwrap());
            let last = value_of(second.args[1], between).unwrap();
            let q = after_statement(after_statement(p, first), second);
            &&& q.failure is None
            &&& q.output == p.output
            &&& q.env == p.env.insert(name, last)
            &&& q.env[name] == last
        }),
{
}

} // verus!
