use rebop::expr::{Expr, PExpr, RateParseError};

fn text(e: &PExpr) -> String {
    e.to_text().unwrap()
}

#[test]
fn test_constant() {
    let e: PExpr = "3".parse().unwrap();
    assert_eq!(text(&e), "3");
    let e: PExpr = ".23".parse().unwrap();
    assert_eq!(text(&e), "0.23");
    let e: PExpr = "1.23".parse().unwrap();
    assert_eq!(text(&e), "1.23");
    let e: PExpr = "2e-3".parse().unwrap();
    assert_eq!(text(&e), "0.002");
    let e: PExpr = "2.04e3".parse().unwrap();
    assert_eq!(text(&e), "2040");
    let e: PExpr = "-2.04e3".parse().unwrap();
    assert_eq!(text(&e), "-2040");
    let e: PExpr = "+2.04e3".parse().unwrap();
    assert_eq!(text(&e), "2040");
}

#[test]
fn test_concentration() {
    let e: PExpr = "a".parse().unwrap();
    assert_eq!(text(&e), "a");
    let e: PExpr = "_".parse().unwrap();
    assert_eq!(text(&e), "_");
    let e: PExpr = "exp".parse().unwrap();
    assert_eq!(text(&e), "exp");
    let e: PExpr = "PhoP3".parse().unwrap();
    assert_eq!(text(&e), "PhoP3");
    let e: PExpr = "Mono1_Mono2_".parse().unwrap();
    assert_eq!(text(&e), "Mono1_Mono2_");
}

#[test]
fn test_exp() {
    let e: PExpr = "exp(3)".parse().unwrap();
    assert_eq!(text(&e), "exp(3)");
}

#[test]
fn test_pow() {
    let e: PExpr = "3^4".parse().unwrap();
    assert_eq!(text(&e), "(3 ^ 4)");
    let e: PExpr = "3 ^4".parse().unwrap();
    assert_eq!(text(&e), "(3 ^ 4)");
    let e: PExpr = "3^ 4".parse().unwrap();
    assert_eq!(text(&e), "(3 ^ 4)");
    let e: PExpr = "3 ^ 4".parse().unwrap();
    assert_eq!(text(&e), "(3 ^ 4)");
}

#[test]
fn test_mul_div() {
    let e: PExpr = "3*4".parse().unwrap();
    assert_eq!(text(&e), "(3 * 4)");
    let e: PExpr = "3 *4".parse().unwrap();
    assert_eq!(text(&e), "(3 * 4)");
    let e: PExpr = "3* 4".parse().unwrap();
    assert_eq!(text(&e), "(3 * 4)");
    let e: PExpr = "3 * 4".parse().unwrap();
    assert_eq!(text(&e), "(3 * 4)");
    let e: PExpr = "3*4/2".parse().unwrap();
    assert_eq!(text(&e), "((3 * 4) / 2)");
    let e: PExpr = "3*4 /2".parse().unwrap();
    assert_eq!(text(&e), "((3 * 4) / 2)");
    let e: PExpr = "3*4/ 2".parse().unwrap();
    assert_eq!(text(&e), "((3 * 4) / 2)");
    let e: PExpr = "3*4 / 2".parse().unwrap();
    assert_eq!(text(&e), "((3 * 4) / 2)");
}

#[test]
fn test_add_sub() {
    let e: PExpr = "3+4".parse().unwrap();
    assert_eq!(text(&e), "(3 + 4)");
    let e: PExpr = "3-4+1".parse().unwrap();
    assert_eq!(text(&e), "((3 - 4) + 1)");
    let e: PExpr = "3-4-1".parse().unwrap();
    assert_eq!(text(&e), "((3 - 4) - 1)");
}

#[test]
fn test_expr() {
    let e: PExpr = "1.20 * A*B".parse().unwrap();
    assert_eq!(text(&e), "((1.2 * A) * B)");
    let e: PExpr = "1.20*Sugar / (3.5+Sugar)".parse().unwrap();
    assert_eq!(text(&e), "((1.2 * Sugar) / (3.5 + Sugar))");
}

#[test]
fn test_fail() {
    let e: Result<PExpr, _> = "+".parse();
    assert_eq!(e, Result::Err(RateParseError));
    let e: Result<PExpr, _> = "1+".parse();
    assert_eq!(e, Result::Err(RateParseError));
}

#[test]
fn test_float_names() {
    // inf
    let e: PExpr = "inf".parse().unwrap();
    assert_eq!(PExpr::Variable("inf".to_string()), e);
    // starts with inf
    let e: PExpr = "infect".parse().unwrap();
    assert_eq!(PExpr::Variable("infect".to_string()), e);
    // nan
    let e: PExpr = "nan".parse().unwrap();
    assert_eq!(PExpr::Variable("nan".to_string()), e);
    // starts with nan
    let e: PExpr = "nanny".parse().unwrap();
    assert_eq!(PExpr::Variable("nanny".to_string()), e);
    // E
    let e: PExpr = "E".parse().unwrap();
    assert_eq!(PExpr::Variable("E".to_string()), e);
    // e
    let e: PExpr = "e".parse().unwrap();
    assert_eq!(PExpr::Variable("e".to_string()), e);
    // exp
    let e: PExpr = "exp".parse().unwrap();
    assert_eq!(PExpr::Variable("exp".to_string()), e);
    // starts with exp
    let e: PExpr = "explicit".parse().unwrap();
    assert_eq!(PExpr::Variable("explicit".to_string()), e);
}

#[test]
fn test_conversion() {
    let pe: PExpr = "1.21 * C + B - A / D ^ E * (F + exp(D))".parse().unwrap();
    let e = Expr::Sub(
        Box::new(Expr::Add(
            Box::new(Expr::Mul(
                Box::new(Expr::Constant(1.21f64.to_bits())),
                Box::new(Expr::Concentration(2)),
            )),
            Box::new(Expr::Concentration(1)),
        )),
        Box::new(Expr::Mul(
            Box::new(Expr::Div(
                Box::new(Expr::Concentration(0)),
                Box::new(Expr::Pow(
                    Box::new(Expr::Concentration(3)),
                    Box::new(Expr::Concentration(4)),
                )),
            )),
            Box::new(Expr::Add(
                Box::new(Expr::Concentration(5)),
                Box::new(Expr::Exp(Box::new(Expr::Concentration(3)))),
            )),
        )),
    );
    let species = vec![
        "A".to_string(),
        "B".to_string(),
        "C".to_string(),
        "D".to_string(),
        "E".to_string(),
        "F".to_string(),
    ];
    let params: Vec<(String, u64)> = Vec::new();
    assert_eq!(pe.to_expr(&species, &params), Ok(e));
}

#[test]
fn test_eval() {
    let pe: PExpr = "1.21 * C + B - A / D ^ E * (F + exp(D))".parse().unwrap();
    let species_names = vec![
        "A".to_string(),
        "B".to_string(),
        "C".to_string(),
        "D".to_string(),
        "E".to_string(),
        "F".to_string(),
    ];
    let params: Vec<(String, u64)> = Vec::new();
    let species: Vec<isize> = vec![2, 3, 5, 7, 11, 13];
    let v = pe.to_expr(&species_names, &params).unwrap().eval(&species);
    assert_eq!(f64::from_bits(v), 9.049998877643098);
}

#[test]
fn negative_base_integer_exponents() {
    let species: Vec<isize> = Vec::new();
    let pow = |a: f64, b: f64| {
        Expr::Pow(
            Box::new(Expr::Constant(a.to_bits())),
            Box::new(Expr::Constant(b.to_bits())),
        )
        .eval(&species)
    };
    // even exponent: positive power of the magnitude
    let v = f64::from_bits(pow(-2.0, 2.0));
    assert!(v > 3.9999999 && v < 4.0000001);
    // odd exponent: negative power
    let v = f64::from_bits(pow(-2.0, 3.0));
    assert!(v < -7.9999999 && v > -8.0000001);
    // non-integer exponent on a negative base: NaN
    assert!(f64::from_bits(pow(-2.0, 0.5)).is_nan());
    // the exact special cases
    assert_eq!(pow(-0.0, -3.0), f64::NEG_INFINITY.to_bits());
    assert_eq!(pow(-0.0, 2.0), 0.0f64.to_bits());
    assert_eq!(pow(-1.0, f64::INFINITY), 1.0f64.to_bits());
    assert_eq!(pow(f64::NEG_INFINITY, 3.0), f64::NEG_INFINITY.to_bits());
    assert_eq!(pow(f64::NEG_INFINITY, -2.0), 0.0f64.to_bits());
    assert_eq!(pow(3.5, 0.0), 1.0f64.to_bits());
}
