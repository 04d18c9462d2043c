use vstd::prelude::*;

verus! {

/// The syntax tree of an expression.
///
/// A number is kept as its decimal text (digits with at most one `.`), so that
/// the tree is exact; a backend turns that text into its own number format.
#[derive(Debug, PartialEq)]
pub enum MathOp {
    Add { lhs: Box<MathOp>, rhs: Box<MathOp> },
    Sub { lhs: Box<MathOp>, rhs: Box<MathOp> },
    Mul { lhs: Box<MathOp>, rhs: Box<MathOp> },
    Div { lhs: Box<MathOp>, rhs: Box<MathOp> },
    Exp { lhs: Box<MathOp>, rhs: Box<MathOp> },
    Call { name: String, args: Vec<MathOp> },
    Neg(Box<MathOp>),
    Arg(char),
    Num(String),
}

/// The mathematical model of a `MathOp`: names and numbers as character
/// sequences, call arguments as a sequence of trees.
pub enum Ast {
    Add(Box<Ast>, Box<Ast>),
    Sub(Box<Ast>, Box<Ast>),
    Mul(Box<Ast>, Box<Ast>),
    Div(Box<Ast>, Box<Ast>),
    Exp(Box<Ast>, Box<Ast>),
    Call(Seq<char>, Seq<Ast>),
    Neg(Box<Ast>),
    Arg(char),
    Num(Seq<char>),
}

impl MathOp {
    pub open spec fn view(&self) -> Ast
        decreases self,
    {
        match self {
            MathOp::Add { lhs, rhs } => Ast::Add(Box::new(lhs.view()), Box::new(rhs.view())),
            MathOp::Sub { lhs, rhs } => Ast::Sub(Box::new(lhs.view()), Box::new(rhs.view())),
            MathOp::Mul { lhs, rhs } => Ast::Mul(Box::new(lhs.view()), Box::new(rhs.view())),
            MathOp::Div { lhs, rhs } => Ast::Div(Box::new(lhs.view()), Box::new(rhs.view())),
            MathOp::Exp { lhs, rhs } => Ast::Exp(Box::new(lhs.view()), Box::new(rhs.view())),
            MathOp::Call { name, args } => Ast::Call(
                name@,
                Seq::new(args.len() as nat, |k: int| {
                    if 0 <= k < args.len() {
                        proof {
                            assert(decreases_to!(args => args[k]));
                        }
                        args[k].view()
                    } else {
                        Ast::Arg(' ')
                    }
                }),
            ),
            MathOp::Neg(x) => Ast::Neg(Box::new(x.view())),
            MathOp::Arg(c) => Ast::Arg(*c),
            MathOp::Num(s) => Ast::Num(s@),
        }
    }
}

} // verus!
