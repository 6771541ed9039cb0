//! The statement tree that the parser builds and the evaluator walks.

use vstd::prelude::*;
use vstd::string::*;
use crate::text::texts;

verus! {

/// The closed set of statement kinds.
#[derive(Clone, Copy, Debug, PartialEq, Eq, Structural)]
pub enum StatementKind {
    Let,
    ConsolePrint,
    Include,
    Func,
    Call,
    Input,
    Remove,
    Repeat,
    For,
    Foreach,
    While,
    Loop,
    If,
    Else,
}

/// One node of the statement tree.
///
/// What `args` means depends on `kind`: for `Let` it is the variable's name
/// followed by its initializer token, for `ConsolePrint` the argument tokens.
#[derive(Debug)]
pub struct Statement {
    pub kind: StatementKind,
    pub args: Vec<String>,
    pub body: Vec<Statement>,
    pub func_name: Option<String>,
    pub else_branch: Option<Box<Statement>>,
    pub line: Option<usize>,
}

/// The mathematical value of a [`Statement`]: text as character sequences,
/// children as sequences of node values.
#[verifier::ext_equal]
pub struct StatementView {
    pub kind: StatementKind,
    pub args: Seq<Seq<char>>,
    pub body: Seq<StatementView>,
    pub func_name: Option<Seq<char>>,
    pub else_branch: Option<Box<StatementView>>,
    pub line: Option<usize>,
}

/// The value of the tree under `s`.
pub open spec fn tree_value(s: Statement) -> StatementView
    decreases s,
{
    StatementView {
        kind: s.kind,
        args: texts(s.args@),
        body: Seq::new(
            s.body@.len(),
            |i: int|
                if 0 <= i < s.body@.len() {
                    tree_value(s.body@[i])
                } else {
                    arbitrary()
                },
        ),
        func_name: match s.func_name {
            Some(n) => Some(n@),
            None => None,
        },
        else_branch: match s.else_branch {
            Some(b) => Some(Box::new(tree_value(*b))),
            None => None,
        },
        line: s.line,
    }
}

impl View for Statement {
    type V = StatementView;

    open spec fn view(&self) -> StatementView {
        tree_value(*self)
    }
}

/// The values of a sequence of statements.
pub open spec fn views(stmts: Seq<Statement>) -> Seq<StatementView> {
    stmts.map_values(|s: Statement| s@)
}

/// The children of a node's value are the values of the node's children.
pub proof fn lemma_view_body(s: Statement)
    ensures
        s@.body == views(s.body@),
{
}

impl StatementView {
    /// What holds of this node alone in a well-formed tree: a variable
    /// declaration has its name and its initializer, a function declaration
    /// has a non-empty name.
    pub open spec fn node_ok(self) -> bool {
        &&& self.kind == StatementKind::Let ==> self.args.len() >= 2
        &&& self.kind == StatementKind::Func ==> self.func_name is Some
            && self.func_name.unwrap().len() > 0
    }

    /// Whether every node of the tree under `self` is in order.
    pub open spec fn well_formed(self) -> bool
        decreases self,
    {
        &&& self.node_ok()
        &&& forall|i: int| 0 <= i < self.body.len() ==> (#[trigger] self.body[i]).well_formed()
        &&& self.else_branch matches Some(b) ==> b.well_formed()
    }
}

/// Whether every tree of `stmts` is well formed.
pub open spec fn all_well_formed(stmts: Seq<StatementView>) -> bool {
    forall|i: int| 0 <= i < stmts.len() ==> (#[trigger] stmts[i]).well_formed()
}

impl Statement {
    /// A node of the given kind and source line with nothing else filled in.
    pub fn new(kind: StatementKind, line: Option<usize>) -> (s: Self)
        ensures
            s@ == (StatementView {
                kind,
                args: Seq::empty(),
                body: Seq::empty(),
                func_name: None,
                else_branch: None,
                line,
            }),
    {
        let s = Statement {
            kind,
            args: Vec::new(),
            body: Vec::new(),
            func_name: None,
            else_branch: None,
            line,
        };
        proof {
            assert(s@.body =~= Seq::<StatementView>::empty());
        }
        s
    }
}

impl Statement {
    /// Whether the tree under `self` is well formed.
    pub fn is_well_formed(&self) -> (r: bool)
        ensures
            r == self@.well_formed(),
        decreases self,
    {
        if self.kind == StatementKind::Let && self.args.len() < 2 {
            return false;
        }
        if self.kind == StatementKind::Func {
            match &self.func_name {
                Some(name) => {
                    if name.as_str().is_empty() {
                        return false;
                    }
                },
                None => {
                    return false;
                },
            }
        }
        proof {
            lemma_view_body(*self);
        }
        let mut i: usize = 0;
        while i < self.body.len()
            invariant
                i <= self.body.len(),
                self@.body == views(self.body@),
                forall|j: int| 0 <= j < i ==> (#[trigger] self@.body[j]).well_formed(),
            decreases self.body.len() - i,
        {
            if !self.body[i].is_well_formed() {
                assert(!self@.body[i as int].well_formed());
                return false;
            }
            i += 1;
        }
        match &self.else_branch {
            Some(branch) => branch.is_well_formed(),
            None => true,
        }
    }
}

/// Whether every tree of `stmts` is well formed.
pub fn are_well_formed(stmts: &[Statement]) -> (r: bool)
    ensures
        r == all_well_formed(views(stmts@)),
{
    let mut i: usize = 0;
    while i < stmts.len()
        invariant
            i <= stmts.len(),
            forall|j: int| 0 <= j < i ==> (#[trigger] views(stmts@)[j]).well_formed(),
        decreases stmts.len() - i,
    {
        if !stmts[i].is_well_formed() {
            assert(!views(stmts@)[i as int].well_formed());
            return false;
        }
        i += 1;
    }
    true
}

impl Clone for Statement {
    /// A copy of the whole tree under `self`.
    fn clone(&self) -> (copy: Self)
        ensures
            copy@ == self@,
        decreases self,
    {
        let mut args: Vec<String> = Vec::new();
        let mut i: usize = 0;
        while i < self.args.len()
            invariant
                i <= self.args.len(),
                texts(args@) == texts(self.args@).take(i as int),
            decreases self.args.len() - i,
        {
            let arg = self.args[i].clone();
            proof {
                assert(texts(self.args@).take(i as int).push(arg@) =~= texts(self.args@).take(
                    i + 1,
                ));
            }
            args.push(arg);
            i += 1;
        }
        let mut body: Vec<Statement> = Vec::new();
        let mut j: usize = 0;
        while j < self.body.len()
            invariant
                j <= self.body.len(),
                views(body@) == views(self.body@).take(j as int),
            decreases self.body.len() - j,
        {
            let child = self.body[j].clone();
            proof {
                assert(views(self.body@).take(j as int).push(child@) =~= views(self.body@).take(
                    j + 1,
                ));
            }
            body.push(child);
            j += 1;
        }
        assert(views(self.body@).take(j as int) =~= views(self.body@));
        let func_name = match &self.func_name {
            Some(name) => Some(name.clone()),
            None => None,
        };
        let else_branch = match &self.else_branch {
            Some(branch) => {
                let inner: &Statement = branch;
                Some(Box::new(inner.clone()))
            },
            None => None,
        };
        let copy = Statement {
            kind: self.kind,
            args,
            body,
            func_name,
            else_branch,
            line: self.line,
        };
        proof {
            lemma_view_body(copy);
            lemma_view_body(*self);
        }
        copy
    }
}

} // verus!
