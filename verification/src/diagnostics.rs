//! The preflight checks that run before any statement is evaluated.
//!
//! A fixed number of passes go over the top-level statements. Each pass
//! reports the same findings, and the findings of all passes are kept, so
//! one problem is reported once per pass. The script is rejected if any
//! finding is an error, or if there are more warnings than the caller
//! tolerates.

use vstd::prelude::*;
use vstd::string::*;
use vstd::hash_set::StringHashSet;
use crate::ast::{Statement, StatementKind, StatementView, views, all_well_formed};
use crate::text::{same_text, to_decimal, decimal, texts};

verus! {

/// How many passes the checks make.
pub const PASSES: usize = 10;

/// One finding of the preflight checks.
#[derive(Debug)]
pub struct TCASError {
    /// The stable code of the check, such as `TCAS101`.
    pub code: &'static str,
    /// `error` or `warning`.
    pub level: &'static str,
    pub message: String,
    /// The source line of the statement that the finding is about.
    pub line: Option<usize>,
}

/// The mathematical value of a [`TCASError`].
pub struct TCASErrorView {
    pub code: Seq<char>,
    pub level: Seq<char>,
    pub message: Seq<char>,
    pub line: Option<usize>,
}

impl View for TCASError {
    type V = TCASErrorView;

    open spec fn view(&self) -> TCASErrorView {
        TCASErrorView {
            code: self.code@,
            level: self.level@,
            message: self.message@,
            line: self.line,
        }
    }
}

/// The values of a sequence of findings.
pub open spec fn finding_views(issues: Seq<TCASError>) -> Seq<TCASErrorView> {
    issues.map_values(|e: TCASError| e@)
}

/// Whether `s` declares the entry point: a function named `main`.
pub open spec fn is_entry_point(s: StatementView) -> bool {
    s.kind == StatementKind::Func && s.func_name == Some("main"@)
}

/// Whether some top-level statement declares the entry point.
pub open spec fn has_entry_point(stmts: Seq<StatementView>) -> bool {
    exists|i: int| 0 <= i < stmts.len() && is_entry_point(#[trigger] stmts[i])
}

/// The finding for a script without entry point.
pub open spec fn missing_entry_point() -> TCASErrorView {
    TCASErrorView {
        code: "TCAS101"@,
        level: "error"@,
        message: "Missing required func(main)"@,
        line: None,
    }
}

/// The finding for a second or later top-level declaration of `name`, made
/// on `line`.
pub open spec fn duplicate_declaration(name: Seq<char>, line: Option<usize>) -> TCASErrorView {
    TCASErrorView {
        code: "TCAS202"@,
        level: "warning"@,
        message: "Duplicate global let("@ + name + ")"@,
        line,
    }
}

/// Whether the top-level statement `i` declares the variable `name`.
pub open spec fn declares(stmts: Seq<StatementView>, i: int, name: Seq<char>) -> bool {
    stmts[i].kind == StatementKind::Let && stmts[i].args[0] == name
}

/// Whether the top-level statement `i` declares a variable that an earlier
/// top-level statement has declared already.
pub open spec fn is_duplicate(stmts: Seq<StatementView>, i: int) -> bool {
    &&& stmts[i].kind == StatementKind::Let
    &&& exists|j: int| 0 <= j < i && #[trigger] declares(stmts, j, stmts[i].args[0])
}

/// The duplicate-declaration findings for the first `n` top-level
/// statements, in the order of the statements.
pub open spec fn duplicate_findings(stmts: Seq<StatementView>, n: nat) -> Seq<TCASErrorView>
    decreases n,
{
    if n == 0 {
        Seq::empty()
    } else if is_duplicate(stmts, n - 1) {
        duplicate_findings(stmts, (n - 1) as nat).push(
            duplicate_declaration(stmts[n - 1].args[0], stmts[n - 1].line),
        )
    } else {
        duplicate_findings(stmts, (n - 1) as nat)
    }
}

/// The entry-point finding of one pass: one error if no entry point is
/// declared, else nothing.
pub open spec fn entry_point_findings(stmts: Seq<StatementView>) -> Seq<TCASErrorView> {
    if has_entry_point(stmts) {
        Seq::empty()
    } else {
        seq![missing_entry_point()]
    }
}

/// The findings of one pass.
pub open spec fn pass_findings(stmts: Seq<StatementView>) -> Seq<TCASErrorView> {
    entry_point_findings(stmts) + duplicate_findings(stmts, stmts.len())
}

/// The findings of `passes` passes, one pass after the other.
pub open spec fn findings(stmts: Seq<StatementView>, passes: nat) -> Seq<TCASErrorView>
    decreases passes,
{
    if passes == 0 {
        Seq::empty()
    } else {
        findings(stmts, (passes - 1) as nat) + pass_findings(stmts)
    }
}

/// Everything that the preflight checks report on `stmts`.
pub open spec fn all_findings(stmts: Seq<StatementView>) -> Seq<TCASErrorView> {
    findings(stmts, PASSES as nat)
}

/// How many of `issues` are errors.
pub open spec fn error_count(issues: Seq<TCASErrorView>) -> nat
    decreases issues.len(),
{
    if issues.len() == 0 {
        0
    } else if issues.last().level == "error"@ {
        error_count(issues.drop_last()) + 1
    } else {
        error_count(issues.drop_last())
    }
}

/// How many of `issues` are warnings: all that are no errors.
pub open spec fn warning_count(issues: Seq<TCASErrorView>) -> nat {
    (issues.len() - error_count(issues)) as nat
}

/// Whether a script with the findings `issues` is rejected when
/// `warning_threshold` warnings are tolerated.
pub open spec fn rejects(issues: Seq<TCASErrorView>, warning_threshold: nat) -> bool {
    error_count(issues) > 0 || warning_count(issues) > warning_threshold
}

/// The upper-case form of `s`, as Unicode defines it.
pub uninterp spec fn uppercase(s: Seq<char>) -> Seq<char>;

/// Where a finding was made, as it is shown in a report: empty for a
/// finding without line.
pub open spec fn line_text(line: Option<usize>) -> Seq<char> {
    match line {
        Some(n) => " at line "@ + decimal(n as nat),
        None => Seq::empty(),
    }
}

/// The report line for `issue`, whose level is shown as `tag`.
pub open spec fn finding_text(tag: Seq<char>, issue: TCASErrorView) -> Seq<char> {
    "["@ + tag + "] "@ + issue.code + line_text(issue.line) + " \u{2192} "@ + issue.message
}

/// The report for `issues`: one line for each, in order.
pub open spec fn report_text(issues: Seq<TCASErrorView>) -> Seq<Seq<char>> {
    issues.map_values(|e: TCASErrorView| finding_text(uppercase(e.level), e))
}

/// Whether some top-level statement declares the entry point.
fn declares_entry_point(stmts: &[Statement]) -> (r: bool)
    ensures
        r == has_entry_point(views(stmts@)),
{
    let mut i: usize = 0;
    while i < stmts.len()
        invariant
            i <= stmts.len(),
            forall|j: int| 0 <= j < i ==> !is_entry_point(#[trigger] views(stmts@)[j]),
        decreases stmts.len() - i,
    {
        let s = &stmts[i];
        let found = s.kind == StatementKind::Func && match &s.func_name {
            Some(name) => same_text(name.as_str(), "main"),
            None => false,
        };
        assert(found == is_entry_point(views(stmts@)[i as int]));
        if found {
            return true;
        }
        i += 1;
    }
    false
}

/// Appends the duplicate-declaration findings of one pass to `issues`.
fn check_duplicates(stmts: &[Statement], issues: &mut Vec<TCASError>)
    requires
        all_well_formed(views(stmts@)),
    ensures
        finding_views(final(issues)@) == finding_views(old(issues)@) + duplicate_findings(
            views(stmts@),
            stmts@.len(),
        ),
{
    let ghost sv = views(stmts@);
    let ghost before = finding_views(issues@);
    let mut seen = StringHashSet::new();
    let mut i: usize = 0;
    while i < stmts.len()
        invariant
            i <= stmts.len(),
            sv == views(stmts@),
            all_well_formed(sv),
            forall|name: Seq<char>|
                seen@.contains(name) <==> exists|j: int|
                    0 <= j < i && #[trigger] declares(sv, j, name),
            finding_views(issues@) == before + duplicate_findings(sv, i as nat),
        decreases stmts.len() - i,
    {
        let s = &stmts[i];
        assert(sv[i as int] == s@);
        if s.kind == StatementKind::Let {
            let var = &s.args[0];
            let fresh = seen.insert(var.clone());
            assert(declares(sv, i as int, var@));
            if !fresh {
                let mut message = String::from_str("Duplicate global let(");
                message.append(var.as_str());
                message.append(")");
                let issue = TCASError { code: "TCAS202", level: "warning", message, line: s.line };
                assert(finding_views(issues@.push(issue)) =~= finding_views(issues@).push(issue@));
                issues.push(issue);
            }
        }
        i += 1;
    }
}

/// Appends the findings of one pass to `issues`.
fn check_once(stmts: &[Statement], issues: &mut Vec<TCASError>)
    requires
        all_well_formed(views(stmts@)),
    ensures
        finding_views(final(issues)@) == finding_views(old(issues)@) + pass_findings(
            views(stmts@),
        ),
{
    if !declares_entry_point(stmts) {
        let issue = TCASError {
            code: "TCAS101",
            level: "error",
            message: String::from_str("Missing required func(main)"),
            line: None,
        };
        issues.push(issue);
    }
    check_duplicates(stmts, issues);
}

/// How many of `issues` are errors.
pub fn count_errors(issues: &[TCASError]) -> (n: usize)
    ensures
        n == error_count(finding_views(issues@)),
        n <= issues@.len(),
{
    let ghost all = finding_views(issues@);
    let mut n: usize = 0;
    let mut i: usize = 0;
    while i < issues.len()
        invariant
            i <= issues.len(),
            n <= i,
            all == finding_views(issues@),
            n == error_count(all.take(i as int)),
        decreases issues.len() - i,
    {
        assert(all.take(i + 1).drop_last() =~= all.take(i as int));
        if same_text(issues[i].level, "error") {
            n += 1;
        }
        i += 1;
    }
    assert(all.take(i as int) =~= all);
    n
}

/// Runs the preflight checks on the top-level statements `stmts`.
///
/// Returns `Ok` if the script may run: no finding is an error and at most
/// `warning_threshold` are warnings. Else returns all findings, in the
/// order in which the passes made them.
pub fn run_tcas(stmts: &[Statement], warning_threshold: usize) -> (r: Result<(), Vec<TCASError>>)
    requires
        all_well_formed(views(stmts@)),
    ensures
        match r {
            Ok(_) => !rejects(all_findings(views(stmts@)), warning_threshold as nat),
            Err(issues) => {
                &&& rejects(all_findings(views(stmts@)), warning_threshold as nat)
                &&& finding_views(issues@) == all_findings(views(stmts@))
            },
        },
{
    let mut issues: Vec<TCASError> = Vec::new();
    let mut pass: usize = 0;
    while pass < PASSES
        invariant
            pass <= PASSES,
            all_well_formed(views(stmts@)),
            finding_views(issues@) == findings(views(stmts@), pass as nat),
        decreases PASSES - pass,
    {
        check_once(stmts, &mut issues);
        pass += 1;
    }
    let errs = count_errors(issues.as_slice());
    let warns = issues.len() - errs;
    if errs > 0 || warns > warning_threshold {
        Err(issues)
    } else {
        Ok(())
    }
}

/// Calls `str::to_uppercase`, which gives the upper-case form of a text by
/// Unicode's rules. Nothing is claimed of the result but that it is that
/// form.
#[verifier::external_body]
fn to_upper(s: &str) -> (r: String)
    ensures
        r@ == uppercase(s@),
{
    s.to_uppercase()
}

/// The report line for `issue`, with `tag` between the square brackets.
pub fn format_finding(tag: &str, issue: &TCASError) -> (r: String)
    ensures
        r@ == finding_text(tag@, issue@),
{
    let mut r = String::from_str("[");
    r.append(tag);
    r.append("] ");
    r.append(issue.code);
    match issue.line {
        Some(n) => {
            r.append(" at line ");
            r.append(to_decimal(n).as_str());
        },
        None => {},
    }
    r.append(" \u{2192} ");
    r.append(issue.message.as_str());
    r
}

/// The report line for `issue`: its level in upper case between square
/// brackets, its code, its line if it has one, an arrow and its message.
pub fn report_line(issue: &TCASError) -> (r: String)
    ensures
        r@ == finding_text(uppercase(issue@.level), issue@),
{
    let tag = to_upper(issue.level);
    format_finding(tag.as_str(), issue)
}

/// The report for `issues`: one line for each, in order.
pub fn report(issues: &[TCASError]) -> (lines: Vec<String>)
    ensures
        texts(lines@) == report_text(finding_views(issues@)),
{
    let ghost wanted = report_text(finding_views(issues@));
    let mut lines: Vec<String> = Vec::new();
    let mut i: usize = 0;
    while i < issues.len()
        invariant
            i <= issues.len(),
            wanted == report_text(finding_views(issues@)),
            texts(lines@) == wanted.take(i as int),
        decreases issues.len() - i,
    {
        let line = report_line(&issues[i]);
        assert(texts(lines@.push(line)) =~= texts(lines@).push(line@));
        lines.push(line);
        i += 1;
    }
    lines
}

/// How many of the first `n` top-level statements declare the variable
/// `name`.
pub open spec fn declaration_count(stmts: Seq<StatementView>, name: Seq<char>, n: nat) -> nat
    decreases n,
{
    if n == 0 {
        0
    } else if declares(stmts, n - 1, name) {
        declaration_count(stmts, name, (n - 1) as nat) + 1
    } else {
        declaration_count(stmts, name, (n - 1) as nat)
    }
}

/// Whether `e` is the duplicate-declaration finding for the variable `name`.
pub open spec fn is_about(e: TCASErrorView, name: Seq<char>) -> bool {
    e == duplicate_declaration(name, e.line)
}

/// How many of `issues` are duplicate-declaration findings for `name`.
pub open spec fn count_about(issues: Seq<TCASErrorView>, name: Seq<char>) -> nat
    decreases issues.len(),
{
    if issues.len() == 0 {
        0
    } else if is_about(issues.last(), name) {
        count_about(issues.drop_last(), name) + 1
    } else {
        count_about(issues.drop_last(), name)
    }
}

proof fn lemma_error_count_concat(a: Seq<TCASErrorView>, b: Seq<TCASErrorView>)
    ensures
        error_count(a + b) == error_count(a) + error_count(b),
    decreases b.len(),
{
    if b.len() > 0 {
        assert((a + b).drop_last() =~= a + b.drop_last());
        lemma_error_count_concat(a, b.drop_last());
    }
}

proof fn lemma_count_about_concat(a: Seq<TCASErrorView>, b: Seq<TCASErrorView>, name: Seq<char>)
    ensures
        count_about(a + b, name) == count_about(a, name) + count_about(b, name),
    decreases b.len(),
{
    if b.len() > 0 {
        assert((a + b).drop_last() =~= a + b.drop_last());
        lemma_count_about_concat(a, b.drop_last(), name);
    }
}

/// The finding for one name is the finding for no other.
proof fn lemma_finding_names_one(a: Seq<char>, b: Seq<char>, line: Option<usize>)
    requires
        is_about(duplicate_declaration(a, line), b),
    ensures
        a == b,
{
    let head = "Duplicate global let("@;
    let tail = ")"@;
    let m = head + a + tail;
    assert(m == head + b + tail);
    assert(a =~= m.subrange(head.len() as int, (head.len() + a.len()) as int));
}

proof fn lemma_levels_differ()
    ensures
        "warning"@ != "error"@,
        "TCAS101"@ != "TCAS202"@,
{
    reveal_strlit("warning");
    reveal_strlit("error");
    reveal_strlit("TCAS101");
    reveal_strlit("TCAS202");
    assert("warning"@.len() != "error"@.len());
    assert("TCAS101"@[4] != "TCAS202"@[4]);
}

proof fn lemma_declared_before(stmts: Seq<StatementView>, name: Seq<char>, n: nat)
    ensures
        declaration_count(stmts, name, n) > 0 <==> exists|j: int|
            0 <= j < n && #[trigger] declares(stmts, j, name),
    decreases n,
{
    if n > 0 {
        lemma_declared_before(stmts, name, (n - 1) as nat);
    }
}

/// Among the first `n` top-level statements, a variable that is declared
/// `k` times, `k` at least one, gets `k - 1` duplicate-declaration findings
/// in a pass: one for each declaration but the first.
pub proof fn lemma_duplicates_counted(stmts: Seq<StatementView>, name: Seq<char>, n: nat)
    requires
        n <= stmts.len(),
    ensures
        declaration_count(stmts, name, n) == 0 ==> count_about(
            duplicate_findings(stmts, n),
            name,
        ) == 0,
        declaration_count(stmts, name, n) > 0 ==> count_about(duplicate_findings(stmts, n), name)
            == declaration_count(stmts, name, n) - 1,
    decreases n,
{
    if n > 0 {
        let last = stmts[n - 1];
        let earlier = duplicate_findings(stmts, (n - 1) as nat);
        lemma_duplicates_counted(stmts, name, (n - 1) as nat);
        lemma_declared_before(stmts, name, (n - 1) as nat);
        if is_duplicate(stmts, n - 1) {
            assert(duplicate_findings(stmts, n).drop_last() =~= earlier);
            if is_about(duplicate_declaration(last.args[0], last.line), name) {
                lemma_finding_names_one(last.args[0], name, last.line);
            }
        }
    }
}

/// Every duplicate-declaration finding of a pass belongs to a top-level
/// declaration that repeats an earlier one, and carries the name and the
/// line of that later declaration.
pub proof fn lemma_duplicates_located(stmts: Seq<StatementView>, n: nat)
    requires
        n <= stmts.len(),
    ensures
        forall|k: int|
            0 <= k < duplicate_findings(stmts, n).len() ==> exists|i: int|
                0 <= i < n && is_duplicate(stmts, i) && (#[trigger] duplicate_findings(stmts, n)[k])
                    == duplicate_declaration(stmts[i].args[0], stmts[i].line),
    decreases n,
{
    if n > 0 {
        let earlier = duplicate_findings(stmts, (n - 1) as nat);
        let now = duplicate_findings(stmts, n);
        lemma_duplicates_located(stmts, (n - 1) as nat);
        assert forall|k: int| 0 <= k < now.len() implies exists|i: int|
            0 <= i < n && is_duplicate(stmts, i) && (#[trigger] now[k]) == duplicate_declaration(
                stmts[i].args[0],
                stmts[i].line,
            ) by {
            if k < earlier.len() {
                assert(now[k] == earlier[k]);
            }
        }
    }
}

/// Whether `e` is the finding for some top-level declaration of `stmts`
/// that repeats an earlier one, with the name and the line of that later
/// declaration.
pub open spec fn reports_duplicate(stmts: Seq<StatementView>, e: TCASErrorView) -> bool {
    exists|i: int|
        0 <= i < stmts.len() && #[trigger] is_duplicate(stmts, i) && e == duplicate_declaration(
            stmts[i].args[0],
            stmts[i].line,
        )
}

/// Every finding, of whatever pass, is either the missing entry point or
/// the finding for a top-level declaration that repeats an earlier one.
pub proof fn lemma_findings_located(stmts: Seq<StatementView>, passes: nat)
    ensures
        forall|k: int|
            0 <= k < findings(stmts, passes).len() ==> {
                let e = #[trigger] findings(stmts, passes)[k];
                e == missing_entry_point() || reports_duplicate(stmts, e)
            },
    decreases passes,
{
    if passes > 0 {
        let earlier = findings(stmts, (passes - 1) as nat);
        let head = entry_point_findings(stmts);
        let tail = duplicate_findings(stmts, stmts.len());
        let now = findings(stmts, passes);
        lemma_findings_located(stmts, (passes - 1) as nat);
        lemma_duplicates_located(stmts, stmts.len());
        assert forall|k: int| 0 <= k < now.len() implies {
            let e = #[trigger] now[k];
            e == missing_entry_point() || reports_duplicate(stmts, e)
        } by {
            if k < earlier.len() {
                assert(now[k] == earlier[k]);
            } else if k - earlier.len() < head.len() {
                assert(now[k] == missing_entry_point());
            } else {
                assert(now[k] == tail[k - earlier.len() - head.len()]);
            }
        }
    }
}

proof fn lemma_duplicates_are_warnings(stmts: Seq<StatementView>, n: nat)
    ensures
        error_count(duplicate_findings(stmts, n)) == 0,
    decreases n,
{
    if n > 0 {
        lemma_duplicates_are_warnings(stmts, (n - 1) as nat);
        lemma_levels_differ();
        if is_duplicate(stmts, n - 1) {
            assert(duplicate_findings(stmts, n).drop_last() =~= duplicate_findings(
                stmts,
                (n - 1) as nat,
            ));
        }
    }
}

proof fn lemma_pass_counts(stmts: Seq<StatementView>, name: Seq<char>)
    ensures
        error_count(pass_findings(stmts)) == if has_entry_point(stmts) {
            0nat
        } else {
            1nat
        },
        count_about(pass_findings(stmts), name) == count_about(
            duplicate_findings(stmts, stmts.len()),
            name,
        ),
{
    let first = entry_point_findings(stmts);
    let rest = duplicate_findings(stmts, stmts.len());
    lemma_error_count_concat(first, rest);
    lemma_count_about_concat(first, rest, name);
    lemma_duplicates_are_warnings(stmts, stmts.len());
    lemma_levels_differ();
    if !has_entry_point(stmts) {
        assert(error_count(first.drop_last()) == 0);
        assert(count_about(first.drop_last(), name) == 0);
    }
}

proof fn lemma_findings_counts(stmts: Seq<StatementView>, name: Seq<char>, passes: nat)
    ensures
        error_count(findings(stmts, passes)) == if has_entry_point(stmts) {
            0nat
        } else {
            passes
        },
        count_about(findings(stmts, passes), name) == passes * count_about(
            duplicate_findings(stmts, stmts.len()),
            name,
        ),
        findings(stmts, passes).len() == passes * pass_findings(stmts).len(),
    decreases passes,
{
    if passes > 0 {
        let earlier = findings(stmts, (passes - 1) as nat);
        lemma_findings_counts(stmts, name, (passes - 1) as nat);
        lemma_pass_counts(stmts, name);
        lemma_error_count_concat(earlier, pass_findings(stmts));
        lemma_count_about_concat(earlier, pass_findings(stmts), name);
        let c = count_about(duplicate_findings(stmts, stmts.len()), name);
        assert(passes * c == (passes - 1) * c + c) by (nonlinear_arith);
        let l = pass_findings(stmts).len();
        assert(passes * l == (passes - 1) * l + l) by (nonlinear_arith);
    }
}

/// A script without entry point has one error for each pass among its
/// findings, the first of them the missing entry point, and is rejected
/// whatever the number of warnings that is tolerated. A script with entry
/// point has no error among its findings.
pub proof fn lemma_entry_point_decides_errors(stmts: Seq<StatementView>, warning_threshold: nat)
    ensures
        has_entry_point(stmts) ==> error_count(all_findings(stmts)) == 0,
        !has_entry_point(stmts) ==> {
            &&& error_count(all_findings(stmts)) == PASSES
            &&& all_findings(stmts).len() > 0
            &&& all_findings(stmts)[0] == missing_entry_point()
            &&& rejects(all_findings(stmts), warning_threshold)
        },
{
    lemma_findings_counts(stmts, Seq::empty(), PASSES as nat);
    if !has_entry_point(stmts) {
        reveal_with_fuel(findings, 11);
    }
}

/// A variable that is declared `k` times at the top level, `k` at least
/// one, gets `k - 1` duplicate-declaration findings from each pass, and so
/// `PASSES * (k - 1)` in all.
pub proof fn lemma_duplicate_warnings_total(stmts: Seq<StatementView>, name: Seq<char>)
    requires
        declaration_count(stmts, name, stmts.len()) > 0,
    ensures
        count_about(pass_findings(stmts), name) == declaration_count(stmts, name, stmts.len()) - 1,
        count_about(all_findings(stmts), name) == PASSES * (declaration_count(
            stmts,
            name,
            stmts.len(),
        ) - 1),
{
    lemma_duplicates_counted(stmts, name, stmts.len());
    lemma_pass_counts(stmts, name);
    lemma_findings_counts(stmts, name, PASSES as nat);
}

/// Where no finding is an error, the script passes the checks exactly if
/// its warnings are no more than are tolerated.
pub proof fn lemma_warnings_against_threshold(issues: Seq<TCASErrorView>, warning_threshold: nat)
    requires
        error_count(issues) == 0,
    ensures
        rejects(issues, warning_threshold) <==> issues.len() > warning_threshold,
        warning_count(issues) == issues.len(),
{
}

} // verus!
