//! The abstract syntax tree: a `Code` is an ordered list of functions, each
//! function has a name, positional parameter names, and a body that is a
//! single expression.  Ghost views (`CodeV`, `ExprV`, ...) model the tree
//! over mathematical sequences, and every contract in this crate speaks of
//! those views.

use vstd::prelude::*;

verus! {

/// Ghost model of an expression: the same shape as `Expr`, with names as
/// `Seq<char>` and integer literals as unbounded integers.
pub enum ExprV {
    Num(int),
    Var(Seq<char>),
    Neg(Box<ExprV>),
    Add(Box<ExprV>, Box<ExprV>),
    Sub(Box<ExprV>, Box<ExprV>),
    Mul(Box<ExprV>, Box<ExprV>),
    Div(Box<ExprV>, Box<ExprV>),
    Bigger(Box<ExprV>, Box<ExprV>),
    Smaller(Box<ExprV>, Box<ExprV>),
    Call(Seq<char>, Seq<ExprV>),
    If(Box<ExprV>, Box<ExprV>, Box<ExprV>),
}

/// An expression of the source language.  Children are owned by their parent
/// node; a `Call` refers to a function by name and a `Var` to a parameter of
/// the immediately enclosing function.
#[derive(Debug)]
pub enum Expr {
    Num(i64),
    Var(String),
    Neg(Box<Expr>),
    Add(Box<Expr>, Box<Expr>),
    Sub(Box<Expr>, Box<Expr>),
    Mul(Box<Expr>, Box<Expr>),
    Div(Box<Expr>, Box<Expr>),
    Bigger(Box<Expr>, Box<Expr>),
    Smaller(Box<Expr>, Box<Expr>),
    Call(String, Vec<Expr>),
    If(Box<Expr>, Box<Expr>, Box<Expr>),
}

impl Expr {
    pub open spec fn view(self) -> ExprV
        decreases self,
    {
        match self {
            Expr::Num(n) => ExprV::Num(n as int),
            Expr::Var(x) => ExprV::Var(x@),
            Expr::Neg(e) => ExprV::Neg(Box::new((*e).view())),
            Expr::Add(a, b) => ExprV::Add(Box::new((*a).view()), Box::new((*b).view())),
            Expr::Sub(a, b) => ExprV::Sub(Box::new((*a).view()), Box::new((*b).view())),
            Expr::Mul(a, b) => ExprV::Mul(Box::new((*a).view()), Box::new((*b).view())),
            Expr::Div(a, b) => ExprV::Div(Box::new((*a).view()), Box::new((*b).view())),
            Expr::Bigger(a, b) => ExprV::Bigger(Box::new((*a).view()), Box::new((*b).view())),
            Expr::Smaller(a, b) => ExprV::Smaller(Box::new((*a).view()), Box::new((*b).view())),
            Expr::Call(f, args) => ExprV::Call(f@, Expr::view_seq(args@)),
            Expr::If(c, a, b) => ExprV::If(
                Box::new((*c).view()),
                Box::new((*a).view()),
                Box::new((*b).view()),
            ),
        }
    }

    /// View of a sequence of expressions, element by element.
    pub open spec fn view_seq(s: Seq<Expr>) -> Seq<ExprV>
        decreases s,
    {
        if s.len() == 0 {
            Seq::empty()
        } else {
            seq![s[0].view()] + Expr::view_seq(s.subrange(1, s.len() as int))
        }
    }

    /// Appending an expression appends its view.
    pub proof fn lemma_view_seq_push(s: Seq<Expr>, x: Expr)
        ensures
            Expr::view_seq(s.push(x)) == Expr::view_seq(s).push(x.view()),
        decreases s.len(),
    {
        let sp = s.push(x);
        let tail = sp.subrange(1, sp.len() as int);
        assert(sp[0] == if s.len() == 0 { x } else { s[0] });
        assert(Expr::view_seq(sp) == seq![sp[0].view()] + Expr::view_seq(tail));
        if s.len() == 0 {
            assert(tail =~= Seq::<Expr>::empty());
            assert(Expr::view_seq(tail) == Seq::<ExprV>::empty());
            assert(Expr::view_seq(sp) =~= Expr::view_seq(s).push(x.view()));
        } else {
            let st = s.subrange(1, s.len() as int);
            assert(tail =~= st.push(x));
            Expr::lemma_view_seq_push(st, x);
            assert(Expr::view_seq(s) == seq![s[0].view()] + Expr::view_seq(st));
            assert(Expr::view_seq(sp) =~= Expr::view_seq(s).push(x.view()));
        }
    }

    /// `view_seq` is the pointwise view.
    pub proof fn lemma_view_seq(s: Seq<Expr>)
        ensures
            Expr::view_seq(s).len() == s.len(),
            forall|k: int| 0 <= k < s.len() ==> Expr::view_seq(s)[k] == #[trigger] s[k].view(),
        decreases s,
    {
        if s.len() > 0 {
            let tail = s.subrange(1, s.len() as int);
            Expr::lemma_view_seq(tail);
            assert forall|k: int| 0 <= k < s.len() implies
                Expr::view_seq(s)[k] == #[trigger] s[k].view() by {
                if k > 0 {
                    assert(tail[k - 1] == s[k]);
                    assert(Expr::view_seq(s)[k] == Expr::view_seq(tail)[k - 1]);
                }
            }
        }
    }
}

/// View of a sequence of strings, element by element.
pub open spec fn strs_view(v: Seq<String>) -> Seq<Seq<char>> {
    Seq::new(v.len(), |k: int| v[k]@)
}

/// Appending a string appends its view.
pub proof fn lemma_strs_view_push(v: Seq<String>, x: String)
    ensures
        strs_view(v.push(x)) == strs_view(v).push(x@),
{
    assert(strs_view(v.push(x)) =~= strs_view(v).push(x@));
}

/// Ghost model of a let binding.
pub struct LetV {
    pub name: Seq<char>,
    pub expr: ExprV,
}

/// A let binding.  The grammar reserves the node but no parsed program ever
/// populates it; a block's binding list is always empty.
#[derive(Debug)]
pub struct Let {
    pub name: String,
    pub expr: Expr,
}

impl Let {
    pub open spec fn view(self) -> LetV {
        LetV { name: self.name@, expr: self.expr.view() }
    }
}

/// Ghost model of a function body.
pub struct BlockV {
    pub lets: Seq<LetV>,
    pub ret: ExprV,
}

/// A function body: a (currently always empty) list of let bindings and the
/// single expression whose value the function returns.
#[derive(Debug)]
pub struct Block {
    pub lets: Vec<Let>,
    pub ret: Expr,
}

impl Block {
    pub open spec fn view(self) -> BlockV {
        BlockV {
            lets: Seq::new(self.lets@.len(), |k: int| self.lets@[k].view()),
            ret: self.ret.view(),
        }
    }
}

/// Ghost model of a function definition.
pub struct FnV {
    pub name: Seq<char>,
    pub args: Seq<Seq<char>>,
    pub body: BlockV,
}

/// A function definition: name, ordered parameter names, and one body block.
#[derive(Debug)]
pub struct Fn {
    pub name: String,
    pub args: Vec<String>,
    pub body: Block,
}

impl Fn {
    pub open spec fn view(self) -> FnV {
        FnV { name: self.name@, args: strs_view(self.args@), body: self.body.view() }
    }
}

/// View of a sequence of function definitions, element by element.
pub open spec fn fns_view(v: Seq<Fn>) -> Seq<FnV> {
    Seq::new(v.len(), |k: int| v[k].view())
}

/// Appending a function definition appends its view.
pub proof fn lemma_fns_view_push(v: Seq<Fn>, x: Fn)
    ensures
        fns_view(v.push(x)) == fns_view(v).push(x.view()),
{
    assert(fns_view(v.push(x)) =~= fns_view(v).push(x.view()));
}

/// Ghost model of a whole program.
pub struct CodeV {
    pub functions: Seq<FnV>,
}

/// A whole program: its function definitions in declaration order.
#[derive(Debug)]
pub struct Code {
    pub functions: Vec<Fn>,
}

impl Code {
    pub open spec fn view(self) -> CodeV {
        CodeV { functions: fns_view(self.functions@) }
    }
}

} // verus!
