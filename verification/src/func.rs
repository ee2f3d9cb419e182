//! Envelope function expression trees.
use vstd::prelude::*;

verus! {

/// A number as written: the text of a decimal literal. Its value is the
/// `f32` nearest to it.
pub type Numeral = String;

/// An envelope function of the argument `t`, the previous value, the
/// frequency, the velocity and four parameters, built from the operations
/// below. Numbers are held as `Numeral`s.
///
/// `==` compares numbers by their text, not by their value: `1` and `1.0`,
/// or `0` and `-0`, are different numerals of the same number.
#[derive(Debug, PartialEq)]
pub enum EnvFunction {
    // technical
    Arg,
    PrevVal,
    Frequency,
    Velocity,
    P1,
    P2,
    P3,
    P4,
    Constant(Numeral),
    // functions
    Id(Box<EnvFunction>),
    ConstMul(Box<EnvFunction>, Numeral),
    Exp(Box<EnvFunction>),
    Sigmoid(Box<EnvFunction>),
    Ln(Box<EnvFunction>),
    Sin(Box<EnvFunction>),
    Cos(Box<EnvFunction>),
    // transformation
    Linear(Box<EnvFunction>, Numeral, Numeral),
    Powf(Box<EnvFunction>, Numeral),
    /// The exponent is the numeral's value truncated toward zero to an `i32`
    /// (saturating).
    Powi(Box<EnvFunction>, Numeral),
    Periodic(Box<EnvFunction>, Numeral),
    InvVal(Box<EnvFunction>),
    Neg(Box<EnvFunction>),
    Abs(Box<EnvFunction>),
    Oct(Box<EnvFunction>, Box<EnvFunction>),
    Sum(Box<EnvFunction>, Box<EnvFunction>),
    Dif(Box<EnvFunction>, Box<EnvFunction>),
    Mul(Box<EnvFunction>, Box<EnvFunction>),
    Div(Box<EnvFunction>, Box<EnvFunction>),
}

/// `EnvFunction` with its numerals taken as character sequences.
pub enum EnvFunctionV {
    Arg,
    PrevVal,
    Frequency,
    Velocity,
    P1,
    P2,
    P3,
    P4,
    Constant(Seq<char>),
    Id(Box<EnvFunctionV>),
    ConstMul(Box<EnvFunctionV>, Seq<char>),
    Exp(Box<EnvFunctionV>),
    Sigmoid(Box<EnvFunctionV>),
    Ln(Box<EnvFunctionV>),
    Sin(Box<EnvFunctionV>),
    Cos(Box<EnvFunctionV>),
    Linear(Box<EnvFunctionV>, Seq<char>, Seq<char>),
    Powf(Box<EnvFunctionV>, Seq<char>),
    Powi(Box<EnvFunctionV>, Seq<char>),
    Periodic(Box<EnvFunctionV>, Seq<char>),
    InvVal(Box<EnvFunctionV>),
    Neg(Box<EnvFunctionV>),
    Abs(Box<EnvFunctionV>),
    Oct(Box<EnvFunctionV>, Box<EnvFunctionV>),
    Sum(Box<EnvFunctionV>, Box<EnvFunctionV>),
    Dif(Box<EnvFunctionV>, Box<EnvFunctionV>),
    Mul(Box<EnvFunctionV>, Box<EnvFunctionV>),
    Div(Box<EnvFunctionV>, Box<EnvFunctionV>),
}

/// The view of an expression tree.
pub open spec fn view_of(f: EnvFunction) -> EnvFunctionV
    decreases f,
{
    match f {
        EnvFunction::Arg => EnvFunctionV::Arg,
        EnvFunction::PrevVal => EnvFunctionV::PrevVal,
        EnvFunction::Frequency => EnvFunctionV::Frequency,
        EnvFunction::Velocity => EnvFunctionV::Velocity,
        EnvFunction::P1 => EnvFunctionV::P1,
        EnvFunction::P2 => EnvFunctionV::P2,
        EnvFunction::P3 => EnvFunctionV::P3,
        EnvFunction::P4 => EnvFunctionV::P4,
        EnvFunction::Constant(n) => EnvFunctionV::Constant(n@),
        EnvFunction::Id(a) => EnvFunctionV::Id(Box::new(view_of(*a))),
        EnvFunction::ConstMul(a, c) => EnvFunctionV::ConstMul(Box::new(view_of(*a)), c@),
        EnvFunction::Exp(a) => EnvFunctionV::Exp(Box::new(view_of(*a))),
        EnvFunction::Sigmoid(a) => EnvFunctionV::Sigmoid(Box::new(view_of(*a))),
        EnvFunction::Ln(a) => EnvFunctionV::Ln(Box::new(view_of(*a))),
        EnvFunction::Sin(a) => EnvFunctionV::Sin(Box::new(view_of(*a))),
        EnvFunction::Cos(a) => EnvFunctionV::Cos(Box::new(view_of(*a))),
        EnvFunction::Linear(a, k, b) => EnvFunctionV::Linear(Box::new(view_of(*a)), k@, b@),
        EnvFunction::Powf(a, p) => EnvFunctionV::Powf(Box::new(view_of(*a)), p@),
        EnvFunction::Powi(a, p) => EnvFunctionV::Powi(Box::new(view_of(*a)), p@),
        EnvFunction::Periodic(a, p) => EnvFunctionV::Periodic(Box::new(view_of(*a)), p@),
        EnvFunction::InvVal(a) => EnvFunctionV::InvVal(Box::new(view_of(*a))),
        EnvFunction::Neg(a) => EnvFunctionV::Neg(Box::new(view_of(*a))),
        EnvFunction::Abs(a) => EnvFunctionV::Abs(Box::new(view_of(*a))),
        EnvFunction::Oct(a, b) => EnvFunctionV::Oct(Box::new(view_of(*a)), Box::new(view_of(*b))),
        EnvFunction::Sum(a, b) => EnvFunctionV::Sum(Box::new(view_of(*a)), Box::new(view_of(*b))),
        EnvFunction::Dif(a, b) => EnvFunctionV::Dif(Box::new(view_of(*a)), Box::new(view_of(*b))),
        EnvFunction::Mul(a, b) => EnvFunctionV::Mul(Box::new(view_of(*a)), Box::new(view_of(*b))),
        EnvFunction::Div(a, b) => EnvFunctionV::Div(Box::new(view_of(*a)), Box::new(view_of(*b))),
    }
}

impl View for EnvFunction {
    type V = EnvFunctionV;

    open spec fn view(&self) -> EnvFunctionV {
        view_of(*self)
    }
}

/// A copy of the tree `f`.
fn copy_tree(f: &EnvFunction) -> (r: EnvFunction)
    ensures
        r@ == f@,
    decreases f,
{
    match f {
        EnvFunction::Arg => EnvFunction::Arg,
        EnvFunction::PrevVal => EnvFunction::PrevVal,
        EnvFunction::Frequency => EnvFunction::Frequency,
        EnvFunction::Velocity => EnvFunction::Velocity,
        EnvFunction::P1 => EnvFunction::P1,
        EnvFunction::P2 => EnvFunction::P2,
        EnvFunction::P3 => EnvFunction::P3,
        EnvFunction::P4 => EnvFunction::P4,
        EnvFunction::Constant(n) => EnvFunction::Constant(n.clone()),
        EnvFunction::Id(a) => EnvFunction::Id(Box::new(copy_tree(a))),
        EnvFunction::ConstMul(a, c) => EnvFunction::ConstMul(Box::new(copy_tree(a)), c.clone()),
        EnvFunction::Exp(a) => EnvFunction::Exp(Box::new(copy_tree(a))),
        EnvFunction::Sigmoid(a) => EnvFunction::Sigmoid(Box::new(copy_tree(a))),
        EnvFunction::Ln(a) => EnvFunction::Ln(Box::new(copy_tree(a))),
        EnvFunction::Sin(a) => EnvFunction::Sin(Box::new(copy_tree(a))),
        EnvFunction::Cos(a) => EnvFunction::Cos(Box::new(copy_tree(a))),
        EnvFunction::Linear(a, k, b) => EnvFunction::Linear(Box::new(copy_tree(a)), k.clone(), b.clone()),
        EnvFunction::Powf(a, p) => EnvFunction::Powf(Box::new(copy_tree(a)), p.clone()),
        EnvFunction::Powi(a, p) => EnvFunction::Powi(Box::new(copy_tree(a)), p.clone()),
        EnvFunction::Periodic(a, p) => EnvFunction::Periodic(Box::new(copy_tree(a)), p.clone()),
        EnvFunction::InvVal(a) => EnvFunction::InvVal(Box::new(copy_tree(a))),
        EnvFunction::Neg(a) => EnvFunction::Neg(Box::new(copy_tree(a))),
        EnvFunction::Abs(a) => EnvFunction::Abs(Box::new(copy_tree(a))),
        EnvFunction::Oct(a, b) => EnvFunction::Oct(Box::new(copy_tree(a)), Box::new(copy_tree(b))),
        EnvFunction::Sum(a, b) => EnvFunction::Sum(Box::new(copy_tree(a)), Box::new(copy_tree(b))),
        EnvFunction::Dif(a, b) => EnvFunction::Dif(Box::new(copy_tree(a)), Box::new(copy_tree(b))),
        EnvFunction::Mul(a, b) => EnvFunction::Mul(Box::new(copy_tree(a)), Box::new(copy_tree(b))),
        EnvFunction::Div(a, b) => EnvFunction::Div(Box::new(copy_tree(a)), Box::new(copy_tree(b))),
    }
}

impl Clone for EnvFunction {
    fn clone(&self) -> (r: EnvFunction)
        ensures
            r@ == self@,
    {
        copy_tree(self)
    }
}

impl Default for EnvFunction {
    /// The argument itself.
    fn default() -> (f: EnvFunction)
        ensures
            f@ == EnvFunctionV::Arg,
    {
        EnvFunction::Arg
    }
}

} // verus!
