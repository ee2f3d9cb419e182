use env_function::func::EnvFunction;
use env_function::parser::error::ErrorKind;
use env_function::parser::{parse_env_batch, parse_func};
use std::f32::consts::{E, PI, TAU};

/// The value of a numeral, as an `f32`.
fn num(s: &str) -> f32 {
    s.parse::<f32>().unwrap()
}

/// The exponent that a `powi` numeral stands for.
fn exponent(s: &str) -> i32 {
    num(s) as i32
}

#[test]
fn test_nested_parse() {
    let input = "(sin (const-mul arg 2.0))";
    println!("Sexpr parsing test: parsing {input}");
    let result = parse_func(input);

    assert!(result.is_ok(), "Ошибка: {:?}", result);

    if let Ok(EnvFunction::Sin(inner)) = result {
        if let EnvFunction::ConstMul(inner2, factor) = *inner {
            assert!(matches!(*inner2, EnvFunction::Arg));
            assert!((num(&factor) - 2.0).abs() < 1e-5);
        } else {
            panic!("Ожидался ConstMul внутри Sin");
        }
    } else {
        panic!("Ожидался Sin на верхнем уровне");
    }
}

#[test]
fn sub_test() {
    let input = "(sigmoid (- arg 2))";
    println!("Sexpr parsing test: parsing {input}");
    let result = parse_func(input);

    assert!(result.is_ok(), "Error: {:?}", result);

    if let Ok(EnvFunction::Sigmoid(inner)) = result {
        if let EnvFunction::Dif(inner2, inner3) = *inner {
            assert!(matches!(*inner2, EnvFunction::Arg));
            assert!(matches!(*inner3, EnvFunction::Constant(ref c) if num(c) == 2.0));
        } else {
            panic!("Expected Difference");
        }
    } else {
        panic!("Expected Sigmoid");
    }
}

#[test]
fn numbers_test() {
    let input = [
        "-2", "-0", "1", "-3.14", "3.14", "-3e-8", "-3e8", "3e-8", "3e8",
    ];
    let expected = [-2.0, 0.0, 1.0, -3.14, 3.14, -3e-8, -3e8, 3e-8, 3e8];

    for (src, exp) in input.iter().zip(expected) {
        let wrapped_res = parse_func(src);
        if let Ok(res) = wrapped_res {
            match res {
                EnvFunction::Constant(v) => assert!(
                    (num(&v) - exp).abs() < 1e-5,
                    "failed at '{}': got {}, expected {}",
                    src,
                    v,
                    exp
                ),
                other => panic!("failed at '{}': expected Constant, got {:?}", src, other),
            }
        } else {
            panic!("Error {:?}", wrapped_res);
        }
    }
}

#[test]
fn mod_test_arg() {
    let f = parse_func("arg").unwrap();
    assert!(matches!(f, EnvFunction::Arg));
}

#[test]
fn test_constant() {
    let cases = [
        ("0.0", 0.0),
        ("1.0", 1.0),
        ("-3.14", -3.14),
        ("1e-5", 1e-5),
        ("2.5E3", 2500.0),
    ];
    for (src, expected) in cases {
        let f = parse_func(src).unwrap();
        if let EnvFunction::Constant(v) = f {
            assert!((num(&v) - expected).abs() < 1e-5, "failed at '{}'", src);
        } else {
            panic!("expected Constant at '{}', got {:?}", src, f);
        }
    }
}

#[test]
fn mod_test_id() {
    let f = parse_func("(id arg)").unwrap();
    assert!(matches!(f, EnvFunction::Id(inner) if matches!(*inner, EnvFunction::Arg)));
}

#[test]
fn test_exp() {
    let f = parse_func("(exp arg)").unwrap();
    assert!(matches!(f, EnvFunction::Exp(inner) if matches!(*inner, EnvFunction::Arg)));
}

#[test]
fn test_sigmoid() {
    let f = parse_func("(sigmoid arg)").unwrap();
    assert!(matches!(f, EnvFunction::Sigmoid(inner) if matches!(*inner, EnvFunction::Arg)));
}

#[test]
fn test_ln() {
    let f = parse_func("(ln arg)").unwrap();
    assert!(matches!(f, EnvFunction::Ln(inner) if matches!(*inner, EnvFunction::Arg)));
}

#[test]
fn test_sin() {
    let f = parse_func("(sin arg)").unwrap();
    assert!(matches!(f, EnvFunction::Sin(inner) if matches!(*inner, EnvFunction::Arg)));
}

#[test]
fn test_cos() {
    let f = parse_func("(cos arg)").unwrap();
    assert!(matches!(f, EnvFunction::Cos(inner) if matches!(*inner, EnvFunction::Arg)));
}

#[test]
fn test_neg() {
    let f = parse_func("(neg arg)").unwrap();
    assert!(matches!(f, EnvFunction::Neg(inner) if matches!(*inner, EnvFunction::Arg)));
}

#[test]
fn test_abs() {
    let f = parse_func("(abs arg)").unwrap();
    assert!(matches!(f, EnvFunction::Abs(inner) if matches!(*inner, EnvFunction::Arg)));
}

#[test]
fn test_inv_val() {
    let f1 = parse_func("(inv arg)").unwrap();
    let f2 = parse_func("(inv-val arg)").unwrap();
    assert!(matches!(f1, EnvFunction::InvVal(_)));
    assert!(matches!(f2, EnvFunction::InvVal(_)));
}

#[test]
fn test_sum() {
    let f = parse_func("(+ arg 1.0)").unwrap();
    assert!(matches!(f, EnvFunction::Sum(a, b)
        if matches!(*a, EnvFunction::Arg) && matches!(*b, EnvFunction::Constant(_))));
}

#[test]
fn test_dif() {
    let f = parse_func("(- arg 2.0)").unwrap();
    assert!(matches!(f, EnvFunction::Dif(a, b)
        if matches!(*a, EnvFunction::Arg) && matches!(*b, EnvFunction::Constant(_))));
}

#[test]
fn test_mul() {
    let f = parse_func("(* arg 0.5)").unwrap();
    assert!(matches!(f, EnvFunction::Mul(a, b)
        if matches!(*a, EnvFunction::Arg) && matches!(*b, EnvFunction::Constant(_))));
}

#[test]
fn test_div() {
    let f = parse_func("(/ arg 2.0)").unwrap();
    assert!(matches!(f, EnvFunction::Div(a, b)
        if matches!(*a, EnvFunction::Arg) && matches!(*b, EnvFunction::Constant(_))));
}

#[test]
fn test_const_mul() {
    let cases = [
        ("(const-mul arg 1.0)", 1.0),
        ("(const-mul arg -2.5)", -2.5),
        ("(const-mul arg 1e-3)", 1e-3),
    ];
    for (src, expected_k) in cases {
        let f = parse_func(src).unwrap();
        if let EnvFunction::ConstMul(inner, k) = f {
            assert!(matches!(*inner, EnvFunction::Arg), "inner should be Arg at '{}'", src);
            assert!((num(&k) - expected_k).abs() < 1e-5, "k mismatch at '{}'", src);
        } else {
            panic!("expected ConstMul at '{}', got {:?}", src, f);
        }
    }
}

#[test]
fn test_linear() {
    let f = parse_func("(linear arg 2.0 -0.5)").unwrap();
    if let EnvFunction::Linear(inner, scale, offset) = f {
        assert!(matches!(*inner, EnvFunction::Arg));
        assert!((num(&scale) - 2.0).abs() < 1e-5);
        assert!((num(&offset) + 0.5).abs() < 1e-5);
    } else {
        panic!("expected Linear, got {:?}", f);
    }
}

#[test]
fn test_powf() {
    let f = parse_func("(powf arg 0.5)").unwrap();
    if let EnvFunction::Powf(inner, exp) = f {
        assert!(matches!(*inner, EnvFunction::Arg));
        assert!((num(&exp) - 0.5).abs() < 1e-5);
    } else {
        panic!("expected Powf, got {:?}", f);
    }
}

#[test]
fn test_powi() {
    let cases = [
        ("(powi arg 2)", 2),
        ("(powi arg -3)", -3),
        ("(powi arg 0)", 0),
    ];
    for (src, expected_exp) in cases {
        let f = parse_func(src).unwrap();
        if let EnvFunction::Powi(inner, exp) = f {
            assert!(matches!(*inner, EnvFunction::Arg), "inner should be Arg at '{}'", src);
            assert_eq!(exponent(&exp), expected_exp, "exp mismatch at '{}'", src);
        } else {
            panic!("expected Powi at '{}', got {:?}", src, f);
        }
    }
}

#[test]
fn test_periodic() {
    let f = parse_func("(periodic arg 6.283185)").unwrap();
    if let EnvFunction::Periodic(inner, period) = f {
        assert!(matches!(*inner, EnvFunction::Arg));
        assert!((num(&period) - 6.283185).abs() < 1e-5);
    } else {
        panic!("expected Periodic, got {:?}", f);
    }
}

#[test]
fn test_nested_binary() {
    let f = parse_func("(+ (* arg 2.0) (- arg 1.0))").unwrap();
    assert!(matches!(f, EnvFunction::Sum(_, _)));
}

#[test]
fn test_mixed_composition() {
    let f = parse_func("(linear (sin (const-mul arg 440.0)) 0.5 0.0)").unwrap();
    if let EnvFunction::Linear(inner, s, o) = f {
        assert!(matches!(*inner, EnvFunction::Sin(_)));
        assert!((num(&s) - 0.5).abs() < 1e-5);
        assert!((num(&o) - 0.0).abs() < 1e-5);
    } else {
        panic!("expected Linear, got {:?}", f);
    }
}

#[test]
fn test_minus_operator_vs_negative_number() {
    let f1 = parse_func("(- arg 1.0)").unwrap();
    assert!(matches!(f1, EnvFunction::Dif(_, _)));

    let f2 = parse_func("(const-mul arg -2.5)").unwrap();
    if let EnvFunction::ConstMul(_, k) = f2 {
        assert!((num(&k) + 2.5).abs() < 1e-5);
    } else {
        panic!("expected ConstMul with negative number");
    }
}

#[test]
fn test_math_constants() {
    let cases = [
        ("PI", PI),
        ("π", PI),
        ("E", E),
        ("TAU", TAU),
        ("τ", TAU),
        ("PHI", 1.618033988749895),
    ];

    for (src, expected) in cases {
        let f = parse_func(src).unwrap();
        if let EnvFunction::Constant(v) = f {
            assert!((num(&v) - expected).abs() < 1e-5, "failed at '{}'", src);
        } else {
            panic!("expected Constant at '{}', got {:?}", src, f);
        }
    }
}

#[test]
fn check_error() {
    let a = parse_func("(* (+ arg .-) 0.3)").unwrap_err();
    println!("{}", a.message());
}

#[test]
fn batch_holds_the_one_function() {
    let v = parse_env_batch("(sin arg)").unwrap();
    assert_eq!(v.len(), 1);
    assert!(matches!(&v[0], EnvFunction::Sin(inner) if matches!(**inner, EnvFunction::Arg)));
    assert!(parse_env_batch("(sin").is_err());
}

#[test]
fn batch_reads_every_expression() {
    let v = parse_env_batch("arg\n(sin arg)").unwrap();
    assert_eq!(v.len(), 2);
    assert!(matches!(v[0], EnvFunction::Arg));
    assert!(matches!(&v[1], EnvFunction::Sin(inner) if matches!(**inner, EnvFunction::Arg)));
}

#[test]
fn batch_separated_by_spaces_and_comments() {
    let v = parse_env_batch("(+ arg 1)  ; first\n  (neg arg) PI").unwrap();
    assert_eq!(v.len(), 3);
    assert!(matches!(&v[0], EnvFunction::Sum(_, _)));
    assert!(matches!(&v[1], EnvFunction::Neg(inner) if matches!(**inner, EnvFunction::Arg)));
    assert!(matches!(&v[2], EnvFunction::Constant(_)));
}

#[test]
fn batch_fails_on_a_later_expression() {
    let e = parse_env_batch("(sin arg)\n(cos arg").unwrap_err();
    assert_eq!(e.kind, ErrorKind::MismatchedParens);
    let e = parse_env_batch("(sin arg) (frobnicate arg)").unwrap_err();
    assert_eq!(e, parse_func("(frobnicate arg)").unwrap_err());
}

#[test]
fn batch_of_nothing_is_an_error() {
    let e = parse_env_batch("  ; only a comment\n").unwrap_err();
    assert_eq!(e.kind, ErrorKind::UnexpectedEof);
}
