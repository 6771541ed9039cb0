//! The line-oriented parser: one statement per line, function bodies between
//! `func <name> {` and `}`.
//!
//! A line is recognised by its shape after trimming. A line that starts like
//! a function header or a variable declaration but lacks the name or the `=`
//! is no such statement: like every other unrecognised line it is kept as a
//! call placeholder that holds the line itself. Function declarations that
//! are still open when the input ends are dropped.

use vstd::prelude::*;
use vstd::string::*;
use crate::ast::{Statement, StatementKind, StatementView, views, all_well_formed, lemma_view_body};
use crate::text::{
    texts, trimmed, without_prefixes, without_suffixes, find, split, trim, starts_with, ends_with,
    same_text, trim_start_matches, trim_end_matches, split_once, split_on,
};

verus! {

/// What the parser holds between two lines.
pub struct ParseState {
    /// The top-level statements finished so far.
    pub done: Seq<StatementView>,
    /// The function declarations that are open, innermost last.
    pub open: Seq<StatementView>,
}

/// A node without children.
pub open spec fn leaf(
    kind: StatementKind,
    args: Seq<Seq<char>>,
    func_name: Option<Seq<char>>,
    line: usize,
) -> StatementView {
    StatementView { kind, args, body: Seq::empty(), func_name, else_branch: None, line: Some(line) }
}

/// The name in a function header: what is left of the line after the
/// keyword, the trailing braces and the whitespace around the rest are gone.
pub open spec fn function_name(raw: Seq<char>) -> Seq<char> {
    trimmed(without_suffixes(without_prefixes(raw, "func "@), "{"@))
}

/// Whether the trimmed line `raw` opens a function declaration.
pub open spec fn opens_function(raw: Seq<char>) -> bool {
    &&& "func "@.is_prefix_of(raw)
    &&& "{"@.is_suffix_of(raw)
    &&& function_name(raw).len() > 0
}

/// Whether the trimmed line `raw` closes the innermost open function.
pub open spec fn closes_function(raw: Seq<char>) -> bool {
    raw == "}"@
}

/// A variable declaration without its keyword and trailing semicolons.
pub open spec fn declaration_text(raw: Seq<char>) -> Seq<char> {
    without_prefixes(without_suffixes(raw, ";"@), "let "@)
}

/// Whether the trimmed line `raw` declares a variable.
pub open spec fn declares_variable(raw: Seq<char>) -> bool {
    &&& "let "@.is_prefix_of(raw)
    &&& find(declaration_text(raw), '=') < declaration_text(raw).len()
}

/// Whether the trimmed line `raw` is a print statement.
pub open spec fn prints(raw: Seq<char>) -> bool {
    "console.print"@.is_prefix_of(raw)
}

/// The argument list of a print statement, between the brackets.
pub open spec fn argument_text(raw: Seq<char>) -> Seq<char> {
    without_suffixes(without_prefixes(without_prefixes(raw, "console.print"@), "("@), ");"@)
}

/// The statement that the trimmed, non-empty line `raw` stands for, where
/// it neither opens nor closes a function.
pub open spec fn statement_of(raw: Seq<char>, line: usize) -> StatementView {
    if declares_variable(raw) {
        let text = declaration_text(raw);
        let at = find(text, '=');
        leaf(
            StatementKind::Let,
            seq![trimmed(text.take(at)), trimmed(text.skip(at + 1))],
            None,
            line,
        )
    } else if prints(raw) {
        leaf(
            StatementKind::ConsolePrint,
            split(argument_text(raw), ',').map_values(|a: Seq<char>| trimmed(a)),
            None,
            line,
        )
    } else {
        leaf(StatementKind::Call, Seq::empty(), Some(raw), line)
    }
}

/// `st` with the statement `s` put where the next statement belongs: at the
/// end of the innermost open function's body, or at the top level.
pub open spec fn attach(st: ParseState, s: StatementView) -> ParseState {
    if st.open.len() == 0 {
        ParseState { done: st.done.push(s), open: st.open }
    } else {
        let top = st.open.last();
        ParseState {
            done: st.done,
            open: st.open.drop_last().push(
                StatementView {
                    kind: top.kind,
                    args: top.args,
                    body: top.body.push(s),
                    func_name: top.func_name,
                    else_branch: top.else_branch,
                    line: top.line,
                },
            ),
        }
    }
}

/// `st` after a closing brace: the innermost open function is finished and
/// put where it belongs. With no function open nothing changes.
pub open spec fn close(st: ParseState) -> ParseState {
    if st.open.len() == 0 {
        st
    } else {
        attach(ParseState { done: st.done, open: st.open.drop_last() }, st.open.last())
    }
}

/// `st` after the line `line`, which has the 1-based number `number`.
pub open spec fn step(st: ParseState, line: Seq<char>, number: usize) -> ParseState {
    let raw = trimmed(line);
    if raw.len() == 0 {
        st
    } else if opens_function(raw) {
        ParseState {
            done: st.done,
            open: st.open.push(
                leaf(StatementKind::Func, Seq::empty(), Some(function_name(raw)), number),
            ),
        }
    } else if closes_function(raw) {
        close(st)
    } else {
        attach(st, statement_of(raw, number))
    }
}

/// The parser's state after the first `n` of `lines`.
pub open spec fn state_after(lines: Seq<Seq<char>>, n: nat) -> ParseState
    decreases n,
{
    if n == 0 || n > lines.len() {
        ParseState { done: Seq::empty(), open: Seq::empty() }
    } else {
        step(state_after(lines, (n - 1) as nat), lines[n - 1], n as usize)
    }
}

/// The top-level statements of the script `lines`.
pub open spec fn parsed(lines: Seq<Seq<char>>) -> Seq<StatementView> {
    state_after(lines, lines.len()).done
}

/// The name of the function that the trimmed line `raw` opens, if it opens
/// one.
fn function_header(raw: &str) -> (r: Option<String>)
    ensures
        match r {
            Some(name) => opens_function(raw@) && name@ == function_name(raw@),
            None => !opens_function(raw@),
        },
{
    if starts_with(raw, "func ") && ends_with(raw, "{") {
        let name = trim(trim_end_matches(trim_start_matches(raw, "func "), "{"));
        if name.is_empty() {
            None
        } else {
            Some(String::from_str(name))
        }
    } else {
        None
    }
}

/// The variable declaration that the trimmed line `raw` holds, if it holds
/// one.
fn variable_declaration(raw: &str, number: usize) -> (r: Option<Statement>)
    ensures
        match r {
            Some(s) => declares_variable(raw@) && s@ == statement_of(raw@, number),
            None => !declares_variable(raw@),
        },
{
    if !starts_with(raw, "let ") {
        return None;
    }
    let text = trim_start_matches(trim_end_matches(raw, ";"), "let ");
    match split_once(text, '=') {
        Some((name, value)) => {
            let mut s = Statement::new(StatementKind::Let, Some(number));
            s.args.push(String::from_str(trim(name)));
            s.args.push(String::from_str(trim(value)));
            Some(s)
        },
        None => None,
    }
}

/// The print statement that the trimmed line `raw` holds.
fn print_statement(raw: &str, number: usize) -> (s: Statement)
    requires
        !declares_variable(raw@),
        prints(raw@),
    ensures
        s@ == statement_of(raw@, number),
{
    let inner = trim_end_matches(
        trim_start_matches(trim_start_matches(raw, "console.print"), "("),
        ");",
    );
    let pieces = split_on(inner, ',');
    let ghost wanted = split(inner@, ',').map_values(|a: Seq<char>| trimmed(a));
    let mut args: Vec<String> = Vec::new();
    let mut i: usize = 0;
    while i < pieces.len()
        invariant
            i <= pieces.len(),
            texts(pieces@) == split(inner@, ','),
            wanted == split(inner@, ',').map_values(|a: Seq<char>| trimmed(a)),
            texts(args@) == wanted.take(i as int),
        decreases pieces.len() - i,
    {
        let arg = String::from_str(trim(pieces[i]));
        assert(texts(args@.push(arg)) =~= texts(args@).push(arg@));
        args.push(arg);
        i += 1;
    }
    let mut s = Statement::new(StatementKind::ConsolePrint, Some(number));
    s.args = args;
    s
}

/// The placeholder for a line of no known shape.
fn placeholder(raw: &str, number: usize) -> (s: Statement)
    ensures
        s@ == leaf(StatementKind::Call, Seq::empty(), Some(raw@), number),
{
    let mut s = Statement::new(StatementKind::Call, Some(number));
    s.func_name = Some(String::from_str(raw));
    s
}

/// Puts `s` at the end of the innermost open function's body, or at the top
/// level if none is open.
fn attach_statement(done: &mut Vec<Statement>, open: &mut Vec<Statement>, s: Statement)
    ensures
        (ParseState { done: views(final(done)@), open: views(final(open)@) }) == attach(
            ParseState { done: views(old(done)@), open: views(old(open)@) },
            s@,
        ),
{
    let ghost before = ParseState { done: views(done@), open: views(open@) };
    match open.pop() {
        Some(mut top) => {
            let ghost old_top = top;
            let ghost rest = open@;
            top.body.push(s);
            proof {
                lemma_view_body(old_top);
                lemma_view_body(top);
                assert(views(top.body@) =~= views(old_top.body@).push(s@));
                assert(views(rest) =~= before.open.drop_last());
                assert(views(rest.push(top)) =~= views(rest).push(top@));
            }
            open.push(top);
        },
        None => {
            assert(views(done@.push(s)) =~= views(done@).push(s@));
            done.push(s);
        },
    }
}

/// Finishes the innermost open function, if there is one.
fn close_function(done: &mut Vec<Statement>, open: &mut Vec<Statement>)
    ensures
        (ParseState { done: views(final(done)@), open: views(final(open)@) }) == close(
            ParseState { done: views(old(done)@), open: views(old(open)@) },
        ),
{
    let ghost before = ParseState { done: views(done@), open: views(open@) };
    match open.pop() {
        Some(finished) => {
            assert(views(open@) =~= before.open.drop_last());
            attach_statement(done, open, finished);
        },
        None => {},
    }
}

/// Takes one line of the script, which has the 1-based number `number`.
fn take_line(done: &mut Vec<Statement>, open: &mut Vec<Statement>, line: &str, number: usize)
    ensures
        (ParseState { done: views(final(done)@), open: views(final(open)@) }) == step(
            ParseState { done: views(old(done)@), open: views(old(open)@) },
            line@,
            number,
        ),
{
    let raw = trim(line);
    if raw.is_empty() {
        return ;
    }
    if let Some(name) = function_header(raw) {
        let mut s = Statement::new(StatementKind::Func, Some(number));
        s.func_name = Some(name);
        assert(views(open@.push(s)) =~= views(open@).push(s@));
        open.push(s);
        return ;
    }
    if same_text(raw, "}") {
        close_function(done, open);
        return ;
    }
    let s = match variable_declaration(raw, number) {
        Some(s) => s,
        None => {
            if starts_with(raw, "console.print") {
                print_statement(raw, number)
            } else {
                placeholder(raw, number)
            }
        },
    };
    attach_statement(done, open, s);
}

/// Parses a script, given as its lines in order, into its top-level
/// statements.
pub fn parse_lines(lines: &[String]) -> (stmts: Vec<Statement>)
    ensures
        views(stmts@) == parsed(texts(lines@)),
        all_well_formed(views(stmts@)),
{
    proof {
        lemma_parsed_well_formed(texts(lines@));
    }
    let mut done: Vec<Statement> = Vec::new();
    let mut open: Vec<Statement> = Vec::new();
    let mut i: usize = 0;
    assert(views(done@) =~= Seq::<StatementView>::empty());
    while i < lines.len()
        invariant
            i <= lines.len(),
            (ParseState { done: views(done@), open: views(open@) }) == state_after(
                texts(lines@),
                i as nat,
            ),
        decreases lines.len() - i,
    {
        take_line(&mut done, &mut open, lines[i].as_str(), i + 1);
        i += 1;
    }
    done
}

/// Whether every tree that `st` holds is well formed.
pub open spec fn state_well_formed(st: ParseState) -> bool {
    all_well_formed(st.done) && all_well_formed(st.open)
}

proof fn lemma_attach_well_formed(st: ParseState, s: StatementView)
    requires
        state_well_formed(st),
        s.well_formed(),
    ensures
        state_well_formed(attach(st, s)),
{
    let after = attach(st, s);
    if st.open.len() > 0 {
        let old_body = st.open.last().body;
        let body = after.open.last().body;
        assert forall|i: int| 0 <= i < body.len() implies (#[trigger] body[i]).well_formed() by {
            if i < old_body.len() {
                assert(body[i] == old_body[i]);
            }
        }
    }
}

proof fn lemma_step_well_formed(st: ParseState, line: Seq<char>, number: usize)
    requires
        state_well_formed(st),
    ensures
        state_well_formed(step(st, line, number)),
{
    let raw = trimmed(line);
    if raw.len() > 0 && !opens_function(raw) {
        if closes_function(raw) {
            if st.open.len() > 0 {
                lemma_attach_well_formed(
                    ParseState { done: st.done, open: st.open.drop_last() },
                    st.open.last(),
                );
            }
        } else {
            lemma_attach_well_formed(st, statement_of(raw, number));
        }
    }
}

proof fn lemma_state_well_formed(lines: Seq<Seq<char>>, n: nat)
    ensures
        state_well_formed(state_after(lines, n)),
    decreases n,
{
    if 0 < n <= lines.len() {
        lemma_state_well_formed(lines, (n - 1) as nat);
        lemma_step_well_formed(state_after(lines, (n - 1) as nat), lines[n - 1], n as usize);
    }
}

/// Whatever the script holds, the parser's result is well formed: every
/// variable declaration in it has its name and its initializer, and every
/// function declaration has a non-empty name.
pub proof fn lemma_parsed_well_formed(lines: Seq<Seq<char>>)
    ensures
        all_well_formed(parsed(lines)),
{
    lemma_state_well_formed(lines, lines.len());
}

} // verus!
