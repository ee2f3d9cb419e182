//! From s-expressions to `EnvFunction` trees.
use vstd::prelude::*;
use crate::func::{EnvFunction, EnvFunctionV};
use crate::parser::ast::{
    Atom, AtomV, SExpr, SExprV, lemma_items_literals, lemma_list_view, items_view,
    numbers_in_sexpr_are_literals,
};
use crate::parser::lexer::float_literal;
use crate::parser::error::{ErrorKind, ErrorKindV, ParseError, ParseErrorV, ParseResult, conversion_error};
use crate::text::str_eq;

verus! {

/// The operations that a list can apply, by the name in its head.
#[derive(Clone, Copy, PartialEq, Eq, Structural)]
pub enum Op {
    Id,
    Exp,
    Sigmoid,
    Ln,
    Sin,
    Cos,
    Neg,
    Abs,
    InvVal,
    Oct,
    ConstMul,
    Powf,
    Periodic,
    Linear,
    Powi,
    Sum,
    Dif,
    Mul,
    Div,
}

/// The operation named `name`, if any.
pub open spec fn op_named(name: Seq<char>) -> Option<Op> {
    if name == "id"@ {
        Some(Op::Id)
    } else if name == "exp"@ {
        Some(Op::Exp)
    } else if name == "sigmoid"@ {
        Some(Op::Sigmoid)
    } else if name == "ln"@ {
        Some(Op::Ln)
    } else if name == "sin"@ {
        Some(Op::Sin)
    } else if name == "cos"@ {
        Some(Op::Cos)
    } else if name == "neg"@ {
        Some(Op::Neg)
    } else if name == "abs"@ {
        Some(Op::Abs)
    } else if name == "inv"@ || name == "inv-val"@ {
        Some(Op::InvVal)
    } else if name == "oct"@ {
        Some(Op::Oct)
    } else if name == "const-mul"@ {
        Some(Op::ConstMul)
    } else if name == "powf"@ {
        Some(Op::Powf)
    } else if name == "periodic"@ {
        Some(Op::Periodic)
    } else if name == "linear"@ {
        Some(Op::Linear)
    } else if name == "powi"@ {
        Some(Op::Powi)
    } else if name == "+"@ {
        Some(Op::Sum)
    } else if name == "-"@ {
        Some(Op::Dif)
    } else if name == "*"@ {
        Some(Op::Mul)
    } else if name == "/"@ {
        Some(Op::Div)
    } else {
        None
    }
}

/// Operations of one expression argument.
pub open spec fn is_unary(op: Op) -> bool {
    op is Id || op is Exp || op is Sigmoid || op is Ln || op is Sin || op is Cos || op is Neg
        || op is Abs || op is InvVal
}

/// Operations of one expression argument and one number.
pub open spec fn is_param(op: Op) -> bool {
    op is Oct || op is ConstMul || op is Powf || op is Periodic
}

/// How many arguments an operation takes.
pub open spec fn arity(op: Op) -> usize {
    if is_unary(op) {
        1
    } else if op is Linear {
        3
    } else {
        2
    }
}

/// The node that a unary operation makes of its argument.
pub open spec fn unary_node(op: Op, a: EnvFunctionV) -> EnvFunctionV {
    match op {
        Op::Id => EnvFunctionV::Id(Box::new(a)),
        Op::Exp => EnvFunctionV::Exp(Box::new(a)),
        Op::Sigmoid => EnvFunctionV::Sigmoid(Box::new(a)),
        Op::Ln => EnvFunctionV::Ln(Box::new(a)),
        Op::Sin => EnvFunctionV::Sin(Box::new(a)),
        Op::Cos => EnvFunctionV::Cos(Box::new(a)),
        Op::Neg => EnvFunctionV::Neg(Box::new(a)),
        Op::Abs => EnvFunctionV::Abs(Box::new(a)),
        _ => EnvFunctionV::InvVal(Box::new(a)),
    }
}

/// The node that an operation of an expression and a number makes. `oct`
/// takes its second operand as the constant `p`.
pub open spec fn param_node(op: Op, a: EnvFunctionV, p: Seq<char>) -> EnvFunctionV {
    match op {
        Op::Oct => EnvFunctionV::Oct(Box::new(a), Box::new(EnvFunctionV::Constant(p))),
        Op::ConstMul => EnvFunctionV::ConstMul(Box::new(a), p),
        Op::Powf => EnvFunctionV::Powf(Box::new(a), p),
        _ => EnvFunctionV::Periodic(Box::new(a), p),
    }
}

/// The node that a binary operation makes of its arguments.
pub open spec fn binary_node(op: Op, a: EnvFunctionV, b: EnvFunctionV) -> EnvFunctionV {
    match op {
        Op::Sum => EnvFunctionV::Sum(Box::new(a), Box::new(b)),
        Op::Dif => EnvFunctionV::Dif(Box::new(a), Box::new(b)),
        Op::Mul => EnvFunctionV::Mul(Box::new(a), Box::new(b)),
        _ => EnvFunctionV::Div(Box::new(a), Box::new(b)),
    }
}

/// The numeral of PI as an `f32`.
pub open spec fn pi_numeral() -> Seq<char> {
    "3.1415927"@
}

/// The numeral of TAU (2 PI) as an `f32`.
pub open spec fn tau_numeral() -> Seq<char> {
    "6.2831855"@
}

/// The numeral of E as an `f32`.
pub open spec fn e_numeral() -> Seq<char> {
    "2.7182817"@
}

/// The numeral of the golden ratio as an `f32`.
pub open spec fn phi_numeral() -> Seq<char> {
    "1.618034"@
}

/// What a symbol standing alone means, if anything: an input or parameter,
/// or a named constant.
pub open spec fn symbol_value(sym: Seq<char>) -> Option<EnvFunctionV> {
    if sym == "arg"@ {
        Some(EnvFunctionV::Arg)
    } else if sym == "prval"@ {
        Some(EnvFunctionV::PrevVal)
    } else if sym == "vel"@ {
        Some(EnvFunctionV::Velocity)
    } else if sym == "freq"@ {
        Some(EnvFunctionV::Frequency)
    } else if sym == "p1"@ {
        Some(EnvFunctionV::P1)
    } else if sym == "p2"@ {
        Some(EnvFunctionV::P2)
    } else if sym == "p3"@ {
        Some(EnvFunctionV::P3)
    } else if sym == "p4"@ {
        Some(EnvFunctionV::P4)
    } else if sym == "PI"@ || sym == "π"@ {
        Some(EnvFunctionV::Constant(pi_numeral()))
    } else if sym == "TAU"@ || sym == "TWOPI"@ || sym == "τ"@ {
        Some(EnvFunctionV::Constant(tau_numeral()))
    } else if sym == "E"@ {
        Some(EnvFunctionV::Constant(e_numeral()))
    } else if sym == "PHI"@ || sym == "φ"@ {
        Some(EnvFunctionV::Constant(phi_numeral()))
    } else {
        None
    }
}

/// The numeral that a number argument holds, or a `ConversionError` saying
/// `what` was expected.
pub open spec fn number_arg(e: SExprV, what: Seq<char>) -> Result<Seq<char>, ParseErrorV> {
    match e {
        SExprV::Atom(AtomV::Number(n)) => Ok(n),
        _ => Err(conversion_error(ErrorKindV::ConversionError(what))),
    }
}

pub open spec fn f32_expected() -> Seq<char> {
    "expected f32 literal"@
}

pub open spec fn int_expected() -> Seq<char> {
    "expected integer literal"@
}

/// The `EnvFunction` that an s-expression denotes, or the first error found.
///
/// A number is a constant; a symbol is looked up by `symbol_value`. A list
/// is an operation named by its head symbol, applied to the rest. Errors,
/// in the order they are checked: an empty list (`UnexpectedEof`), a head
/// that is no symbol (`UnknownSymbol("<non-symbol>")`), an unknown name
/// (`UnknownSymbol`), a wrong number of arguments (`WrongArity`), then the
/// number arguments from left to right (`ConversionError`), then the
/// expression arguments from left to right.
pub open spec fn convert(e: SExprV) -> Result<EnvFunctionV, ParseErrorV>
    decreases e,
{
    match e {
        SExprV::Atom(AtomV::Number(n)) => Ok(EnvFunctionV::Constant(n)),
        SExprV::Atom(AtomV::Symbol(s)) => match symbol_value(s) {
            Some(f) => Ok(f),
            None => Err(conversion_error(ErrorKindV::UnknownSymbol(s))),
        },
        SExprV::List(items) => if items.len() == 0 {
            Err(conversion_error(ErrorKindV::UnexpectedEof))
        } else {
            match items[0] {
                SExprV::Atom(AtomV::Symbol(name)) => match op_named(name) {
                    None => Err(conversion_error(ErrorKindV::UnknownSymbol(name))),
                    Some(op) => {
                        if items.len() - 1 != arity(op) {
                            Err(
                                conversion_error(
                                    ErrorKindV::WrongArity {
                                        symbol: name,
                                        expected: arity(op),
                                        got: (items.len() - 1) as usize,
                                    },
                                ),
                            )
                        } else if is_unary(op) {
                            match convert(items[1]) {
                                Ok(a) => Ok(unary_node(op, a)),
                                Err(x) => Err(x),
                            }
                        } else if is_param(op) {
                            match number_arg(items[2], f32_expected()) {
                                Err(x) => Err(x),
                                Ok(p) => match convert(items[1]) {
                                    Ok(a) => Ok(param_node(op, a, p)),
                                    Err(x) => Err(x),
                                },
                            }
                        } else if op is Linear {
                            match number_arg(items[2], f32_expected()) {
                                Err(x) => Err(x),
                                Ok(k) => match number_arg(items[3], f32_expected()) {
                                    Err(x) => Err(x),
                                    Ok(b) => match convert(items[1]) {
                                        Ok(a) => Ok(EnvFunctionV::Linear(Box::new(a), k, b)),
                                        Err(x) => Err(x),
                                    },
                                },
                            }
                        } else if op is Powi {
                            match number_arg(items[2], int_expected()) {
                                Err(x) => Err(x),
                                Ok(p) => match convert(items[1]) {
                                    Ok(a) => Ok(EnvFunctionV::Powi(Box::new(a), p)),
                                    Err(x) => Err(x),
                                },
                            }
                        } else {
                            match convert(items[1]) {
                                Err(x) => Err(x),
                                Ok(a) => match convert(items[2]) {
                                    Ok(b) => Ok(binary_node(op, a, b)),
                                    Err(x) => Err(x),
                                },
                            }
                        }
                    },
                },
                _ => Err(conversion_error(ErrorKindV::UnknownSymbol("<non-symbol>"@))),
            }
        },
    }
}

/// Every numeral in `f` is a float literal.
pub open spec fn numerals_are_literals(f: EnvFunctionV) -> bool
    decreases f,
{
    match f {
        EnvFunctionV::Constant(n) => float_literal(n),
        EnvFunctionV::Id(a) => numerals_are_literals(*a),
        EnvFunctionV::ConstMul(a, c) => numerals_are_literals(*a) && float_literal(c),
        EnvFunctionV::Exp(a) => numerals_are_literals(*a),
        EnvFunctionV::Sigmoid(a) => numerals_are_literals(*a),
        EnvFunctionV::Ln(a) => numerals_are_literals(*a),
        EnvFunctionV::Sin(a) => numerals_are_literals(*a),
        EnvFunctionV::Cos(a) => numerals_are_literals(*a),
        EnvFunctionV::Linear(a, k, b) => numerals_are_literals(*a) && float_literal(k)
            && float_literal(b),
        EnvFunctionV::Powf(a, p) => numerals_are_literals(*a) && float_literal(p),
        EnvFunctionV::Powi(a, p) => numerals_are_literals(*a) && float_literal(p),
        EnvFunctionV::Periodic(a, p) => numerals_are_literals(*a) && float_literal(p),
        EnvFunctionV::InvVal(a) => numerals_are_literals(*a),
        EnvFunctionV::Neg(a) => numerals_are_literals(*a),
        EnvFunctionV::Abs(a) => numerals_are_literals(*a),
        EnvFunctionV::Oct(a, b) => numerals_are_literals(*a) && numerals_are_literals(*b),
        EnvFunctionV::Sum(a, b) => numerals_are_literals(*a) && numerals_are_literals(*b),
        EnvFunctionV::Dif(a, b) => numerals_are_literals(*a) && numerals_are_literals(*b),
        EnvFunctionV::Mul(a, b) => numerals_are_literals(*a) && numerals_are_literals(*b),
        EnvFunctionV::Div(a, b) => numerals_are_literals(*a) && numerals_are_literals(*b),
        _ => true,
    }
}

/// The numerals of the named constants are float literals.
pub proof fn lemma_constant_numerals_are_literals()
    ensures
        float_literal(pi_numeral()),
        float_literal(tau_numeral()),
        float_literal(e_numeral()),
        float_literal(phi_numeral()),
{
    reveal_strlit("3.1415927");
    reveal_strlit("6.2831855");
    reveal_strlit("2.7182817");
    reveal_strlit("1.618034");
    reveal_with_fuel(crate::parser::lexer::span, 10);
}

/// Conversion keeps numerals as they are written and adds only float
/// literals: if every number atom of `e` is a float literal, so is every
/// numeral of what `e` converts to.
pub proof fn lemma_convert_numerals_are_literals(e: SExprV)
    requires
        numbers_in_sexpr_are_literals(e),
    ensures
        convert(e) matches Ok(f) ==> numerals_are_literals(f),
    decreases e,
{
    lemma_constant_numerals_are_literals();
    if let SExprV::List(items) = e {
        lemma_items_literals(items, items.len() as int);
        if items.len() >= 2 {
            lemma_convert_numerals_are_literals(items[1]);
        }
        if items.len() >= 3 {
            assert(numbers_in_sexpr_are_literals(items[2]));
            lemma_convert_numerals_are_literals(items[2]);
        }
        if items.len() >= 4 {
            assert(numbers_in_sexpr_are_literals(items[3]));
        }
        if let Ok(f) = convert(e) {
            if let SExprV::Atom(AtomV::Symbol(name)) = items[0] {
                let op = op_named(name)->0;
                if is_param(op) {
                    let p = number_arg(items[2], f32_expected())->Ok_0;
                    assert(float_literal(p));
                    if op is Oct {
                        assert(numerals_are_literals(EnvFunctionV::Constant(p)));
                    }
                }
            }
        }
    }
}

/// The list `(name x)`.
pub open spec fn call1(name: Seq<char>, x: SExprV) -> SExprV {
    SExprV::List(seq![SExprV::Atom(AtomV::Symbol(name)), x])
}

/// The list `(name x y)`.
pub open spec fn call2(name: Seq<char>, x: SExprV, y: SExprV) -> SExprV {
    SExprV::List(seq![SExprV::Atom(AtomV::Symbol(name)), x, y])
}

/// The list `(name x y z)`.
pub open spec fn call3(name: Seq<char>, x: SExprV, y: SExprV, z: SExprV) -> SExprV {
    SExprV::List(seq![SExprV::Atom(AtomV::Symbol(name)), x, y, z])
}

/// The number atom written `n`.
pub open spec fn number(n: Seq<char>) -> SExprV {
    SExprV::Atom(AtomV::Number(n))
}

/// The operation that each name of an operation names.
proof fn lemma_op_names()
    ensures
        op_named("id"@) == Some(Op::Id),
        op_named("exp"@) == Some(Op::Exp),
        op_named("sigmoid"@) == Some(Op::Sigmoid),
        op_named("ln"@) == Some(Op::Ln),
        op_named("sin"@) == Some(Op::Sin),
        op_named("cos"@) == Some(Op::Cos),
        op_named("neg"@) == Some(Op::Neg),
        op_named("abs"@) == Some(Op::Abs),
        op_named("inv"@) == Some(Op::InvVal),
        op_named("inv-val"@) == Some(Op::InvVal),
        op_named("oct"@) == Some(Op::Oct),
        op_named("const-mul"@) == Some(Op::ConstMul),
        op_named("powf"@) == Some(Op::Powf),
        op_named("periodic"@) == Some(Op::Periodic),
        op_named("linear"@) == Some(Op::Linear),
        op_named("powi"@) == Some(Op::Powi),
        op_named("+"@) == Some(Op::Sum),
        op_named("-"@) == Some(Op::Dif),
        op_named("*"@) == Some(Op::Mul),
        op_named("/"@) == Some(Op::Div),
{
    reveal_strlit("id");
    assert("id"@.len() == 2);
    reveal_strlit("exp");
    assert("exp"@.len() == 3);
    reveal_strlit("sigmoid");
    assert("sigmoid"@.len() == 7);
    reveal_strlit("ln");
    assert("ln"@.len() == 2);
    reveal_strlit("sin");
    assert("sin"@.len() == 3);
    reveal_strlit("cos");
    assert("cos"@.len() == 3);
    reveal_strlit("neg");
    assert("neg"@.len() == 3);
    reveal_strlit("abs");
    assert("abs"@.len() == 3);
    reveal_strlit("inv");
    assert("inv"@.len() == 3);
    reveal_strlit("inv-val");
    assert("inv-val"@.len() == 7);
    reveal_strlit("oct");
    assert("oct"@.len() == 3);
    reveal_strlit("const-mul");
    assert("const-mul"@.len() == 9);
    reveal_strlit("powf");
    assert("powf"@.len() == 4);
    reveal_strlit("periodic");
    assert("periodic"@.len() == 8);
    reveal_strlit("linear");
    assert("linear"@.len() == 6);
    reveal_strlit("powi");
    assert("powi"@.len() == 4);
    reveal_strlit("+");
    assert("+"@.len() == 1);
    reveal_strlit("-");
    assert("-"@.len() == 1);
    reveal_strlit("*");
    assert("*"@.len() == 1);
    reveal_strlit("/");
    assert("/"@.len() == 1);
    assert("ln"@[0] != "id"@[0]);
    assert("sin"@[0] != "exp"@[0]);
    assert("cos"@[0] != "exp"@[0]);
    assert("cos"@[0] != "sin"@[0]);
    assert("neg"@[0] != "exp"@[0]);
    assert("neg"@[0] != "sin"@[0]);
    assert("neg"@[0] != "cos"@[0]);
    assert("abs"@[0] != "exp"@[0]);
    assert("abs"@[0] != "sin"@[0]);
    assert("abs"@[0] != "cos"@[0]);
    assert("abs"@[0] != "neg"@[0]);
    assert("inv"@[0] != "exp"@[0]);
    assert("inv"@[0] != "sin"@[0]);
    assert("inv"@[0] != "cos"@[0]);
    assert("inv"@[0] != "neg"@[0]);
    assert("inv"@[0] != "abs"@[0]);
    assert("inv-val"@[0] != "sigmoid"@[0]);
    assert("oct"@[0] != "exp"@[0]);
    assert("oct"@[0] != "sin"@[0]);
    assert("oct"@[0] != "cos"@[0]);
    assert("oct"@[0] != "neg"@[0]);
    assert("oct"@[0] != "abs"@[0]);
    assert("oct"@[0] != "inv"@[0]);
    assert("powi"@[3] != "powf"@[3]);
    assert("-"@[0] != "+"@[0]);
    assert("*"@[0] != "+"@[0]);
    assert("*"@[0] != "-"@[0]);
    assert("/"@[0] != "+"@[0]);
    assert("/"@[0] != "-"@[0]);
    assert("/"@[0] != "*"@[0]);
}

/// The list whose head is the symbol `name` and whose arguments are `args`.
pub open spec fn call_with(name: Seq<char>, args: Seq<SExprV>) -> SExprV {
    SExprV::List(seq![SExprV::Atom(AtomV::Symbol(name))] + args)
}

/// A list that is empty, or whose head is no symbol, is an error; so is an
/// operation given a wrong number of arguments, whatever they are: the
/// error names the operation, the number it takes (one for the operations
/// of one expression, three for `linear`, two for the others) and the
/// number it got.
pub proof fn lemma_convert_shape_errors(args: Seq<SExprV>, head: SExprV)
    ensures
        convert(SExprV::List(Seq::empty())) == Err::<EnvFunctionV, ParseErrorV>(
            conversion_error(ErrorKindV::UnexpectedEof),
        ),
        !(head is Atom && head->Atom_0 is Symbol) ==> convert(SExprV::List(seq![head] + args))
            == Err::<EnvFunctionV, ParseErrorV>(
            conversion_error(ErrorKindV::UnknownSymbol("<non-symbol>"@)),
        ),
        args.len() != 1 ==> convert(call_with("id"@, args)) == Err::<EnvFunctionV, ParseErrorV>(
            conversion_error(
                ErrorKindV::WrongArity { symbol: "id"@, expected: 1, got: args.len() as usize },
            ),
        ),
        args.len() != 1 ==> convert(call_with("exp"@, args)) == Err::<EnvFunctionV, ParseErrorV>(
            conversion_error(
                ErrorKindV::WrongArity { symbol: "exp"@, expected: 1, got: args.len() as usize },
            ),
        ),
        args.len() != 1 ==> convert(call_with("sigmoid"@, args)) == Err::<EnvFunctionV, ParseErrorV>(
            conversion_error(
                ErrorKindV::WrongArity { symbol: "sigmoid"@, expected: 1, got: args.len() as usize },
            ),
        ),
        args.len() != 1 ==> convert(call_with("ln"@, args)) == Err::<EnvFunctionV, ParseErrorV>(
            conversion_error(
                ErrorKindV::WrongArity { symbol: "ln"@, expected: 1, got: args.len() as usize },
            ),
        ),
        args.len() != 1 ==> convert(call_with("sin"@, args)) == Err::<EnvFunctionV, ParseErrorV>(
            conversion_error(
                ErrorKindV::WrongArity { symbol: "sin"@, expected: 1, got: args.len() as usize },
            ),
        ),
        args.len() != 1 ==> convert(call_with("cos"@, args)) == Err::<EnvFunctionV, ParseErrorV>(
            conversion_error(
                ErrorKindV::WrongArity { symbol: "cos"@, expected: 1, got: args.len() as usize },
            ),
        ),
        args.len() != 1 ==> convert(call_with("neg"@, args)) == Err::<EnvFunctionV, ParseErrorV>(
            conversion_error(
                ErrorKindV::WrongArity { symbol: "neg"@, expected: 1, got: args.len() as usize },
            ),
        ),
        args.len() != 1 ==> convert(call_with("abs"@, args)) == Err::<EnvFunctionV, ParseErrorV>(
            conversion_error(
                ErrorKindV::WrongArity { symbol: "abs"@, expected: 1, got: args.len() as usize },
            ),
        ),
        args.len() != 1 ==> convert(call_with("inv"@, args)) == Err::<EnvFunctionV, ParseErrorV>(
            conversion_error(
                ErrorKindV::WrongArity { symbol: "inv"@, expected: 1, got: args.len() as usize },
            ),
        ),
        args.len() != 1 ==> convert(call_with("inv-val"@, args)) == Err::<EnvFunctionV, ParseErrorV>(
            conversion_error(
                ErrorKindV::WrongArity { symbol: "inv-val"@, expected: 1, got: args.len() as usize },
            ),
        ),
        args.len() != 2 ==> convert(call_with("oct"@, args)) == Err::<EnvFunctionV, ParseErrorV>(
            conversion_error(
                ErrorKindV::WrongArity { symbol: "oct"@, expected: 2, got: args.len() as usize },
            ),
        ),
        args.len() != 2 ==> convert(call_with("const-mul"@, args)) == Err::<EnvFunctionV, ParseErrorV>(
            conversion_error(
                ErrorKindV::WrongArity { symbol: "const-mul"@, expected: 2, got: args.len() as usize },
            ),
        ),
        args.len() != 2 ==> convert(call_with("powf"@, args)) == Err::<EnvFunctionV, ParseErrorV>(
            conversion_error(
                ErrorKindV::WrongArity { symbol: "powf"@, expected: 2, got: args.len() as usize },
            ),
        ),
        args.len() != 2 ==> convert(call_with("periodic"@, args)) == Err::<EnvFunctionV, ParseErrorV>(
            conversion_error(
                ErrorKindV::WrongArity { symbol: "periodic"@, expected: 2, got: args.len() as usize },
            ),
        ),
        args.len() != 2 ==> convert(call_with("powi"@, args)) == Err::<EnvFunctionV, ParseErrorV>(
            conversion_error(
                ErrorKindV::WrongArity { symbol: "powi"@, expected: 2, got: args.len() as usize },
            ),
        ),
        args.len() != 2 ==> convert(call_with("+"@, args)) == Err::<EnvFunctionV, ParseErrorV>(
            conversion_error(
                ErrorKindV::WrongArity { symbol: "+"@, expected: 2, got: args.len() as usize },
            ),
        ),
        args.len() != 2 ==> convert(call_with("-"@, args)) == Err::<EnvFunctionV, ParseErrorV>(
            conversion_error(
                ErrorKindV::WrongArity { symbol: "-"@, expected: 2, got: args.len() as usize },
            ),
        ),
        args.len() != 2 ==> convert(call_with("*"@, args)) == Err::<EnvFunctionV, ParseErrorV>(
            conversion_error(
                ErrorKindV::WrongArity { symbol: "*"@, expected: 2, got: args.len() as usize },
            ),
        ),
        args.len() != 2 ==> convert(call_with("/"@, args)) == Err::<EnvFunctionV, ParseErrorV>(
            conversion_error(
                ErrorKindV::WrongArity { symbol: "/"@, expected: 2, got: args.len() as usize },
            ),
        ),
        args.len() != 3 ==> convert(call_with("linear"@, args)) == Err::<EnvFunctionV, ParseErrorV>(
            conversion_error(
                ErrorKindV::WrongArity { symbol: "linear"@, expected: 3, got: args.len() as usize },
            ),
        ),
{
    lemma_op_names();
    assert((seq![head] + args)[0] == head);
}

/// A number converts to the constant written the same way.
pub proof fn lemma_convert_number(n: Seq<char>)
    ensures
        convert(number(n)) == Ok::<EnvFunctionV, ParseErrorV>(EnvFunctionV::Constant(n)),
{
}

/// An operation of one argument applies to what that argument converts
/// to, whatever its shape: `(abs x)` is the absolute value of `x`'s
/// function, `(sin x)` its sine, and so on. An argument that fails fails
/// the whole with its error.
pub proof fn lemma_convert_unary(x: SExprV)
    ensures
        match convert(x) {
            Ok(a) => {
                &&& convert(call1("id"@, x)) == Ok::<EnvFunctionV, ParseErrorV>(EnvFunctionV::Id(Box::new(a)))
                &&& convert(call1("exp"@, x)) == Ok::<EnvFunctionV, ParseErrorV>(EnvFunctionV::Exp(Box::new(a)))
                &&& convert(call1("sigmoid"@, x)) == Ok::<EnvFunctionV, ParseErrorV>(EnvFunctionV::Sigmoid(Box::new(a)))
                &&& convert(call1("ln"@, x)) == Ok::<EnvFunctionV, ParseErrorV>(EnvFunctionV::Ln(Box::new(a)))
                &&& convert(call1("sin"@, x)) == Ok::<EnvFunctionV, ParseErrorV>(EnvFunctionV::Sin(Box::new(a)))
                &&& convert(call1("cos"@, x)) == Ok::<EnvFunctionV, ParseErrorV>(EnvFunctionV::Cos(Box::new(a)))
                &&& convert(call1("neg"@, x)) == Ok::<EnvFunctionV, ParseErrorV>(EnvFunctionV::Neg(Box::new(a)))
                &&& convert(call1("abs"@, x)) == Ok::<EnvFunctionV, ParseErrorV>(EnvFunctionV::Abs(Box::new(a)))
                &&& convert(call1("inv"@, x)) == Ok::<EnvFunctionV, ParseErrorV>(EnvFunctionV::InvVal(Box::new(a)))
                &&& convert(call1("inv-val"@, x)) == Ok::<EnvFunctionV, ParseErrorV>(EnvFunctionV::InvVal(Box::new(a)))
            },
            Err(e) => {
                &&& convert(call1("id"@, x)) == Err::<EnvFunctionV, ParseErrorV>(e)
                &&& convert(call1("exp"@, x)) == Err::<EnvFunctionV, ParseErrorV>(e)
                &&& convert(call1("sigmoid"@, x)) == Err::<EnvFunctionV, ParseErrorV>(e)
                &&& convert(call1("ln"@, x)) == Err::<EnvFunctionV, ParseErrorV>(e)
                &&& convert(call1("sin"@, x)) == Err::<EnvFunctionV, ParseErrorV>(e)
                &&& convert(call1("cos"@, x)) == Err::<EnvFunctionV, ParseErrorV>(e)
                &&& convert(call1("neg"@, x)) == Err::<EnvFunctionV, ParseErrorV>(e)
                &&& convert(call1("abs"@, x)) == Err::<EnvFunctionV, ParseErrorV>(e)
                &&& convert(call1("inv"@, x)) == Err::<EnvFunctionV, ParseErrorV>(e)
                &&& convert(call1("inv-val"@, x)) == Err::<EnvFunctionV, ParseErrorV>(e)
            },
        },
{
    lemma_op_names();
}

/// An operation of two expressions takes the first argument as its left
/// operand and the second as its right one, whatever their shapes:
/// `(- x y)` is `x`'s function minus `y`'s. The first failing argument,
/// from the left, fails the whole with its error.
pub proof fn lemma_convert_binary(x: SExprV, y: SExprV)
    ensures
        match (convert(x), convert(y)) {
            (Ok(a), Ok(b)) => {
                &&& convert(call2("+"@, x, y)) == Ok::<EnvFunctionV, ParseErrorV>(EnvFunctionV::Sum(Box::new(a), Box::new(b)))
                &&& convert(call2("-"@, x, y)) == Ok::<EnvFunctionV, ParseErrorV>(EnvFunctionV::Dif(Box::new(a), Box::new(b)))
                &&& convert(call2("*"@, x, y)) == Ok::<EnvFunctionV, ParseErrorV>(EnvFunctionV::Mul(Box::new(a), Box::new(b)))
                &&& convert(call2("/"@, x, y)) == Ok::<EnvFunctionV, ParseErrorV>(EnvFunctionV::Div(Box::new(a), Box::new(b)))
            },
            (Err(e), _) => {
                &&& convert(call2("+"@, x, y)) == Err::<EnvFunctionV, ParseErrorV>(e)
                &&& convert(call2("-"@, x, y)) == Err::<EnvFunctionV, ParseErrorV>(e)
                &&& convert(call2("*"@, x, y)) == Err::<EnvFunctionV, ParseErrorV>(e)
                &&& convert(call2("/"@, x, y)) == Err::<EnvFunctionV, ParseErrorV>(e)
            },
            (Ok(_), Err(e)) => {
                &&& convert(call2("+"@, x, y)) == Err::<EnvFunctionV, ParseErrorV>(e)
                &&& convert(call2("-"@, x, y)) == Err::<EnvFunctionV, ParseErrorV>(e)
                &&& convert(call2("*"@, x, y)) == Err::<EnvFunctionV, ParseErrorV>(e)
                &&& convert(call2("/"@, x, y)) == Err::<EnvFunctionV, ParseErrorV>(e)
            },
        },
{
    lemma_op_names();
}

/// An operation of an expression and a number applies the number written
/// `n` to what the expression converts to: `(const-mul x n)` is `x`'s
/// function times `n`, and `(oct x n)` takes the constant `n` as its
/// second operand. A second argument that is no number is an error
/// whatever the first.
pub proof fn lemma_convert_param(x: SExprV, n: Seq<char>, y: SExprV)
    ensures
        match convert(x) {
            Ok(a) => {
                &&& convert(call2("const-mul"@, x, number(n))) == Ok::<EnvFunctionV, ParseErrorV>(EnvFunctionV::ConstMul(Box::new(a), n))
                &&& convert(call2("powf"@, x, number(n))) == Ok::<EnvFunctionV, ParseErrorV>(EnvFunctionV::Powf(Box::new(a), n))
                &&& convert(call2("periodic"@, x, number(n))) == Ok::<EnvFunctionV, ParseErrorV>(EnvFunctionV::Periodic(Box::new(a), n))
                &&& convert(call2("oct"@, x, number(n))) == Ok::<EnvFunctionV, ParseErrorV>(EnvFunctionV::Oct(Box::new(a), Box::new(EnvFunctionV::Constant(n))))
            },
            Err(e) => {
                &&& convert(call2("const-mul"@, x, number(n))) == Err::<EnvFunctionV, ParseErrorV>(e)
                &&& convert(call2("powf"@, x, number(n))) == Err::<EnvFunctionV, ParseErrorV>(e)
                &&& convert(call2("periodic"@, x, number(n))) == Err::<EnvFunctionV, ParseErrorV>(e)
                &&& convert(call2("oct"@, x, number(n))) == Err::<EnvFunctionV, ParseErrorV>(e)
            },
        },
        !(y is Atom && y->Atom_0 is Number) ==> convert(call2("const-mul"@, x, y)) == Err::<EnvFunctionV, ParseErrorV>(conversion_error(ErrorKindV::ConversionError(f32_expected()))),
        !(y is Atom && y->Atom_0 is Number) ==> convert(call2("powf"@, x, y)) == Err::<EnvFunctionV, ParseErrorV>(conversion_error(ErrorKindV::ConversionError(f32_expected()))),
        !(y is Atom && y->Atom_0 is Number) ==> convert(call2("periodic"@, x, y)) == Err::<EnvFunctionV, ParseErrorV>(conversion_error(ErrorKindV::ConversionError(f32_expected()))),
        !(y is Atom && y->Atom_0 is Number) ==> convert(call2("oct"@, x, y)) == Err::<EnvFunctionV, ParseErrorV>(conversion_error(ErrorKindV::ConversionError(f32_expected()))),
{
    lemma_op_names();
}

/// `(linear x k b)` scales what `x` converts to by the number written `k`
/// and offsets it by the number written `b`: the first number is the scale
/// and the second the offset, whatever they are. Either being no number is
/// an error, the scale checked first.
pub proof fn lemma_convert_linear(x: SExprV, k: Seq<char>, b: Seq<char>, y: SExprV, z: SExprV)
    ensures
        match convert(x) {
            Ok(a) => convert(call3("linear"@, x, number(k), number(b))) == Ok::<EnvFunctionV, ParseErrorV>(EnvFunctionV::Linear(Box::new(a), k, b)),
            Err(e) => convert(call3("linear"@, x, number(k), number(b))) == Err::<EnvFunctionV, ParseErrorV>(e),
        },
        !(y is Atom && y->Atom_0 is Number) ==> convert(call3("linear"@, x, y, z)) == Err::<EnvFunctionV, ParseErrorV>(conversion_error(ErrorKindV::ConversionError(f32_expected()))),
        !(z is Atom && z->Atom_0 is Number) ==> convert(call3("linear"@, x, number(k), z)) == Err::<EnvFunctionV, ParseErrorV>(conversion_error(ErrorKindV::ConversionError(f32_expected()))),
{
    lemma_op_names();
}

/// `(powi x p)` raises what `x` converts to to the power written `p`; a
/// second argument that is no number is an error.
pub proof fn lemma_convert_powi(x: SExprV, p: Seq<char>, y: SExprV)
    ensures
        match convert(x) {
            Ok(a) => convert(call2("powi"@, x, number(p))) == Ok::<EnvFunctionV, ParseErrorV>(EnvFunctionV::Powi(Box::new(a), p)),
            Err(e) => convert(call2("powi"@, x, number(p))) == Err::<EnvFunctionV, ParseErrorV>(e),
        },
        !(y is Atom && y->Atom_0 is Number) ==> convert(call2("powi"@, x, y)) == Err::<EnvFunctionV, ParseErrorV>(conversion_error(ErrorKindV::ConversionError(int_expected()))),
{
    lemma_op_names();
}

/// A conversion error of kind `kind`: line 0, column 0, no snippet.
fn conv_error(kind: ErrorKind) -> (e: ParseError)
    ensures
        e@ == conversion_error(kind@),
{
    ParseError { kind, line: 0, column: 0, snippet: String::new() }
}

/// The operation named `name`, if any (see `op_named`).
fn op_named_exec(name: &str) -> (r: Option<Op>)
    ensures
        r == op_named(name@),
{
    if str_eq(name, "id") {
        Some(Op::Id)
    } else if str_eq(name, "exp") {
        Some(Op::Exp)
    } else if str_eq(name, "sigmoid") {
        Some(Op::Sigmoid)
    } else if str_eq(name, "ln") {
        Some(Op::Ln)
    } else if str_eq(name, "sin") {
        Some(Op::Sin)
    } else if str_eq(name, "cos") {
        Some(Op::Cos)
    } else if str_eq(name, "neg") {
        Some(Op::Neg)
    } else if str_eq(name, "abs") {
        Some(Op::Abs)
    } else if str_eq(name, "inv") || str_eq(name, "inv-val") {
        Some(Op::InvVal)
    } else if str_eq(name, "oct") {
        Some(Op::Oct)
    } else if str_eq(name, "const-mul") {
        Some(Op::ConstMul)
    } else if str_eq(name, "powf") {
        Some(Op::Powf)
    } else if str_eq(name, "periodic") {
        Some(Op::Periodic)
    } else if str_eq(name, "linear") {
        Some(Op::Linear)
    } else if str_eq(name, "powi") {
        Some(Op::Powi)
    } else if str_eq(name, "+") {
        Some(Op::Sum)
    } else if str_eq(name, "-") {
        Some(Op::Dif)
    } else if str_eq(name, "*") {
        Some(Op::Mul)
    } else if str_eq(name, "/") {
        Some(Op::Div)
    } else {
        None
    }
}

fn arity_exec(op: Op) -> (n: usize)
    ensures
        n == arity(op),
{
    match op {
        Op::Id | Op::Exp | Op::Sigmoid | Op::Ln | Op::Sin | Op::Cos | Op::Neg | Op::Abs
        | Op::InvVal => 1,
        Op::Linear => 3,
        _ => 2,
    }
}

/// A constant holding `text`.
fn constant(text: &str) -> (f: EnvFunction)
    ensures
        f@ == EnvFunctionV::Constant(text@),
{
    EnvFunction::Constant(String::from_str(text))
}

/// What a symbol standing alone means (see `symbol_value`), or an
/// `UnknownSymbol` error.
fn symbol_to_env(sym: &str) -> (res: ParseResult<EnvFunction>)
    ensures
        match symbol_value(sym@) {
            Some(f) => res matches Ok(x) && x@ == f,
            None => res matches Err(x) && x@ == conversion_error(ErrorKindV::UnknownSymbol(sym@)),
        },
{
    if str_eq(sym, "arg") {
        Ok(EnvFunction::Arg)
    } else if str_eq(sym, "prval") {
        Ok(EnvFunction::PrevVal)
    } else if str_eq(sym, "vel") {
        Ok(EnvFunction::Velocity)
    } else if str_eq(sym, "freq") {
        Ok(EnvFunction::Frequency)
    } else if str_eq(sym, "p1") {
        Ok(EnvFunction::P1)
    } else if str_eq(sym, "p2") {
        Ok(EnvFunction::P2)
    } else if str_eq(sym, "p3") {
        Ok(EnvFunction::P3)
    } else if str_eq(sym, "p4") {
        Ok(EnvFunction::P4)
    } else if str_eq(sym, "PI") || str_eq(sym, "π") {
        Ok(constant("3.1415927"))
    } else if str_eq(sym, "TAU") || str_eq(sym, "TWOPI") || str_eq(sym, "τ") {
        Ok(constant("6.2831855"))
    } else if str_eq(sym, "E") {
        Ok(constant("2.7182817"))
    } else if str_eq(sym, "PHI") || str_eq(sym, "φ") {
        Ok(constant("1.618034"))
    } else {
        Err(conv_error(ErrorKind::UnknownSymbol(String::from_str(sym))))
    }
}

/// Checks that the list `list` (head included) has `expected` arguments.
fn require_args(list: &Vec<SExpr>, expected: usize, func: &str) -> (res: ParseResult<()>)
    requires
        list@.len() >= 1,
    ensures
        list@.len() - 1 == expected ==> res is Ok,
        list@.len() - 1 != expected ==> (res matches Err(x) && x@ == conversion_error(
            ErrorKindV::WrongArity {
                symbol: func@,
                expected,
                got: (list@.len() - 1) as usize,
            },
        )),
{
    let got = list.len() - 1;
    if got == expected {
        Ok(())
    } else {
        Err(
            conv_error(
                ErrorKind::WrongArity { symbol: String::from_str(func), expected, got },
            ),
        )
    }
}

/// The numeral of a number argument, or a `ConversionError`.
fn extract_f32(expr: &SExpr) -> (res: ParseResult<String>)
    ensures
        match number_arg(expr@, f32_expected()) {
            Ok(n) => res matches Ok(x) && x@ == n,
            Err(e) => res matches Err(x) && x@ == e,
        },
{
    match expr {
        SExpr::Atom(Atom::Number(n)) => Ok(n.clone()),
        _ => Err(conv_error(ErrorKind::ConversionError(String::from_str("expected f32 literal")))),
    }
}

/// The numeral of an integer argument (its value truncated to an `i32`
/// is the exponent), or a `ConversionError`.
fn extract_i32(expr: &SExpr) -> (res: ParseResult<String>)
    ensures
        match number_arg(expr@, int_expected()) {
            Ok(n) => res matches Ok(x) && x@ == n,
            Err(e) => res matches Err(x) && x@ == e,
        },
{
    match expr {
        SExpr::Atom(Atom::Number(n)) => Ok(n.clone()),
        _ => Err(
            conv_error(ErrorKind::ConversionError(String::from_str("expected integer literal"))),
        ),
    }
}

fn make_unary(op: Op, a: EnvFunction) -> (r: EnvFunction)
    ensures
        r@ == unary_node(op, a@),
{
    match op {
        Op::Id => EnvFunction::Id(Box::new(a)),
        Op::Exp => EnvFunction::Exp(Box::new(a)),
        Op::Sigmoid => EnvFunction::Sigmoid(Box::new(a)),
        Op::Ln => EnvFunction::Ln(Box::new(a)),
        Op::Sin => EnvFunction::Sin(Box::new(a)),
        Op::Cos => EnvFunction::Cos(Box::new(a)),
        Op::Neg => EnvFunction::Neg(Box::new(a)),
        Op::Abs => EnvFunction::Abs(Box::new(a)),
        _ => EnvFunction::InvVal(Box::new(a)),
    }
}

fn make_param(op: Op, a: EnvFunction, p: String) -> (r: EnvFunction)
    ensures
        r@ == param_node(op, a@, p@),
{
    match op {
        Op::Oct => {
            let c = EnvFunction::Constant(p);
            assert(c@ == EnvFunctionV::Constant(p@));
            EnvFunction::Oct(Box::new(a), Box::new(c))
        },
        Op::ConstMul => EnvFunction::ConstMul(Box::new(a), p),
        Op::Powf => EnvFunction::Powf(Box::new(a), p),
        _ => EnvFunction::Periodic(Box::new(a), p),
    }
}

fn make_binary(op: Op, a: EnvFunction, b: EnvFunction) -> (r: EnvFunction)
    ensures
        r@ == binary_node(op, a@, b@),
{
    match op {
        Op::Sum => EnvFunction::Sum(Box::new(a), Box::new(b)),
        Op::Dif => EnvFunction::Dif(Box::new(a), Box::new(b)),
        Op::Mul => EnvFunction::Mul(Box::new(a), Box::new(b)),
        _ => EnvFunction::Div(Box::new(a), Box::new(b)),
    }
}

/// The `EnvFunction` that `expr` denotes (see `convert`), or the first
/// error found.
pub fn to_env(expr: SExpr) -> (res: ParseResult<EnvFunction>)
    ensures
        match convert(expr@) {
            Ok(f) => res matches Ok(x) && x@ == f,
            Err(e) => res matches Err(x) && x@ == e,
        },
{
    to_env_ref(&expr)
}

fn to_env_ref(expr: &SExpr) -> (res: ParseResult<EnvFunction>)
    ensures
        match convert(expr@) {
            Ok(f) => res matches Ok(x) && x@ == f,
            Err(e) => res matches Err(x) && x@ == e,
        },
    decreases *expr, 1int,
{
    match expr {
        SExpr::Atom(Atom::Number(n)) => Ok(EnvFunction::Constant(n.clone())),
        SExpr::Atom(Atom::Symbol(s)) => symbol_to_env(s.as_str()),
        SExpr::List(list) => {
            proof {
                lemma_list_view(*list);
                assert(decreases_to!(*expr => (*expr)->List_0));
            }
            list_to_env(list)
        },
    }
}

/// The `EnvFunction` that the list `list` denotes.
fn list_to_env(list: &Vec<SExpr>) -> (res: ParseResult<EnvFunction>)
    ensures
        match convert(SExprV::List(items_view(list@))) {
            Ok(f) => res matches Ok(x) && x@ == f,
            Err(e) => res matches Err(x) && x@ == e,
        },
    decreases *list, 0int,
{
    let ghost items = items_view(list@);
    proof {
        broadcast use vstd::std_specs::vec::axiom_vec_decreases_to_view;

        assert(decreases_to!(*list => list@));
    }
    if list.len() == 0 {
        return Err(conv_error(ErrorKind::UnexpectedEof));
    }
    let func_name: &String = match &list[0] {
        SExpr::Atom(Atom::Symbol(s)) => s,
        _ => {
            return Err(conv_error(ErrorKind::UnknownSymbol(String::from_str("<non-symbol>"))));
        },
    };
    assert(items[0] == SExprV::Atom(AtomV::Symbol(func_name@)));
    let op = match op_named_exec(func_name.as_str()) {
        Some(op) => op,
        None => {
            return Err(conv_error(ErrorKind::UnknownSymbol(func_name.clone())));
        },
    };
    match require_args(list, arity_exec(op), func_name.as_str()) {
        Ok(()) => {},
        Err(e) => {
            return Err(e);
        },
    }
    proof {
        assert(decreases_to!(list@ => list@[1]));
        assert(items[1] == list@[1]@);
    }
    match op {
        Op::Id | Op::Exp | Op::Sigmoid | Op::Ln | Op::Sin | Op::Cos | Op::Neg | Op::Abs
        | Op::InvVal => {
            let a = match to_env_ref(&list[1]) {
                Ok(a) => a,
                Err(e) => {
                    return Err(e);
                },
            };
            Ok(make_unary(op, a))
        },
        Op::Oct | Op::ConstMul | Op::Powf | Op::Periodic => {
            proof {
                assert(items[2] == list@[2]@);
            }
            let param = match extract_f32(&list[2]) {
                Ok(p) => p,
                Err(e) => {
                    return Err(e);
                },
            };
            let a = match to_env_ref(&list[1]) {
                Ok(a) => a,
                Err(e) => {
                    return Err(e);
                },
            };
            Ok(make_param(op, a, param))
        },
        Op::Linear => {
            proof {
                assert(items[2] == list@[2]@);
                assert(items[3] == list@[3]@);
            }
            let scale = match extract_f32(&list[2]) {
                Ok(p) => p,
                Err(e) => {
                    return Err(e);
                },
            };
            let offset = match extract_f32(&list[3]) {
                Ok(p) => p,
                Err(e) => {
                    return Err(e);
                },
            };
            let a = match to_env_ref(&list[1]) {
                Ok(a) => a,
                Err(e) => {
                    return Err(e);
                },
            };
            Ok(EnvFunction::Linear(Box::new(a), scale, offset))
        },
        Op::Powi => {
            proof {
                assert(items[2] == list@[2]@);
            }
            let exp = match extract_i32(&list[2]) {
                Ok(p) => p,
                Err(e) => {
                    return Err(e);
                },
            };
            let a = match to_env_ref(&list[1]) {
                Ok(a) => a,
                Err(e) => {
                    return Err(e);
                },
            };
            Ok(EnvFunction::Powi(Box::new(a), exp))
        },
        Op::Sum | Op::Dif | Op::Mul | Op::Div => {
            proof {
                assert(items[2] == list@[2]@);
                assert(decreases_to!(list@ => list@[2]));
            }
            let a = match to_env_ref(&list[1]) {
                Ok(a) => a,
                Err(e) => {
                    return Err(e);
                },
            };
            let b = match to_env_ref(&list[2]) {
                Ok(b) => b,
                Err(e) => {
                    return Err(e);
                },
            };
            Ok(make_binary(op, a, b))
        },
    }
}

} // verus!
