use std::rc::Rc;

use fomoscript::{eval, parse_eval, Ctx, HostFn, Native, Op, N};

fn num(x: f64) -> N {
    N::Num(x.to_bits())
}

fn as_f64(n: &N) -> f64 {
    match n {
        N::Num(bits) => f64::from_bits(*bits),
        _ => panic!("not a number"),
    }
}

#[test]
fn right_associativity() {
    let res = parse_eval("{3-2-1}");
    assert_eq!(as_f64(&res), 2.0);
}

#[test]
fn missing_args_plus() {
    let code = r#"{
        let f = (a,b,c)=> a+b+c
        f(1,2)
        }"#;
    let res = parse_eval(&code);
    assert!(matches!(res, N::Unit));
}

#[test]
fn reevaluate_same_node() {
    let mut parse_ctx = Ctx::new();
    parse_ctx.insert_code("x+1");
    let node = parse_ctx.parse_next_expr().unwrap();

    let mut c1 = Ctx::new();
    c1.set_val("x", num(2.0));
    let mut c2 = Ctx::new();
    c2.set_val("x", num(2.0));

    let r1 = eval(&node, &mut c1);
    let r2 = eval(&node, &mut c2);
    assert_eq!(as_f64(&r1), 3.0);
    assert_eq!(as_f64(&r2), 3.0);
}

#[test]
fn division() {
    let res = parse_eval("{10/4}");
    assert_eq!(as_f64(&res), 2.5);
}

#[test]
fn fractional_literals() {
    let res = parse_eval("{2.5+0.25}");
    assert_eq!(as_f64(&res), 2.75);
}

#[test]
fn modulus() {
    let res = parse_eval("{7%4}");
    assert_eq!(as_f64(&res), 3.0);
}

#[test]
fn comparisons() {
    assert_eq!(as_f64(&parse_eval("{1<2}")), 1.0);
    assert_eq!(as_f64(&parse_eval("{2<1}")), 0.0);
    assert_eq!(as_f64(&parse_eval("{2>1}")), 1.0);
    assert_eq!(as_f64(&parse_eval("{1==1}")), 1.0);
    assert_eq!(as_f64(&parse_eval("{1!=1}")), 0.0);
}

#[test]
fn string_equality() {
    assert_eq!(as_f64(&parse_eval(r#"{"ab"=="ab"}"#)), 1.0);
    assert_eq!(as_f64(&parse_eval(r#"{"ab"=="cd"}"#)), 0.0);
    assert_eq!(as_f64(&parse_eval(r#"{"ab"!="cd"}"#)), 1.0);
}

#[test]
fn array_filter() {
    let code = r#"
    let a = [1,2,3,4]
    a & ((e) => e>2)
"#;
    let res = parse_eval(&code);
    if let N::Array(v) = res {
        assert_eq!(v.len(), 2);
        assert_eq!(as_f64(&v[0]), 3.0);
        assert_eq!(as_f64(&v[1]), 4.0);
    } else {
        panic!("not an array");
    }
}

#[test]
fn array_fold() {
    let code = r#"
    let a = [1,2,3,4]
    a | ((acc,e) => acc+e)
"#;
    let res = parse_eval(&code);
    assert_eq!(as_f64(&res), 10.0);
}

#[test]
fn array_length() {
    let code = r#"
    let a = [1,2,3]
    a()
"#;
    let res = parse_eval(&code);
    assert_eq!(as_f64(&res), 3.0);
}

#[test]
fn empty_block_is_unit() {
    assert!(matches!(parse_eval("{}"), N::Unit));
}

#[test]
fn assign_unknown_is_unit() {
    let res = parse_eval("{x = 5\n x}");
    assert!(matches!(res, N::Unit));
}

#[test]
fn number_to_text_concat() {
    let res = parse_eval(r#"{"x=" + 5}"#);
    if let N::Str(s) = res {
        assert_eq!(s, String::from("x=5"));
    } else {
        panic!("not a string");
    }
}

#[test]
fn to_str_and_to_bool() {
    assert_eq!(num(1.5).to_str(), String::from("1.5"));
    assert_eq!(N::Str(String::from("hey")).to_str(), String::from("hey"));
    assert_eq!(N::Unit.to_str(), String::from("Unit"));
    assert!(num(2.0).to_bool());
    assert!(!num(0.0).to_bool());
    assert!(!N::Unit.to_bool());
    assert!(N::Str(String::from("a")).to_bool());
    assert!(!N::Str(String::new()).to_bool());
}

#[test]
fn op_term_separate() {
    assert!(!Op::Mul.term_separate());
    assert!(!Op::Div.term_separate());
    assert!(Op::Plus.term_separate());
    assert!(Op::Assign.term_separate());
}

#[test]
fn padding_width() {
    assert_eq!(fomoscript::pa(0), String::new());
    assert_eq!(fomoscript::pa(2), String::from("          "));
}

#[test]
fn parse_error_reported() {
    let mut ctx = Ctx::new();
    ctx.insert_code("}");
    assert!(ctx.parse_next_expr().is_err());
}

#[test]
fn incremental_parsing() {
    let mut ctx = Ctx::new();
    ctx.insert_code("let x = 4");
    let first = ctx.parse_next_expr().unwrap();
    let _ = eval(&first, &mut ctx);
    ctx.insert_code("\nx*x");
    let second = ctx.parse_next_expr().unwrap();
    let res = eval(&second, &mut ctx);
    assert_eq!(as_f64(&res), 16.0);
}

struct AddHost;

impl HostFn for AddHost {
    fn call4(&self, a: N, b: N, _c: N, _d: N) -> N {
        match (a, b) {
            (N::Num(x), N::Num(y)) => N::Num((f64::from_bits(x) + f64::from_bits(y)).to_bits()),
            _ => N::Unit,
        }
    }
}

#[test]
fn native_callback() {
    let mut ctx = Ctx::new();
    ctx.set_val("host_add", N::FuncNativeDef(Native::new(Rc::new(AddHost))));
    ctx.insert_code("host_add(2,3)");
    let node = ctx.parse_next_expr().unwrap();
    let res = eval(&node, &mut ctx);
    assert_eq!(as_f64(&res), 5.0);
}

#[test]
fn find_var_resolves_last_binding() {
    let mut ctx = Ctx::new();
    ctx.set_val("a", num(1.0));
    ctx.set_val("b", num(2.0));
    ctx.set_val("a", num(3.0));
    assert_eq!(ctx.find_var("a"), Some(2));
    assert_eq!(ctx.find_var("b"), Some(1));
    assert_eq!(ctx.find_var("c"), None);
    ctx.drain(2);
    assert_eq!(ctx.find_var("a"), Some(0));
}

#[test]
fn dup_substitutes_resolved_names() {
    let mut ctx = Ctx::new();
    ctx.set_val("a", num(7.0));
    let mut protected: Vec<String> = vec![String::from("p")];
    let body = N::Binary(
        Op::Plus,
        Box::new(N::Get(String::from("a"))),
        Box::new(N::Get(String::from("p"))),
    );
    let duplicated = fomoscript::dup(&mut protected, &body, &ctx);
    if let N::Binary(Op::Plus, l, r) = duplicated {
        assert_eq!(as_f64(&l), 7.0);
        assert!(matches!(*r, N::Get(_)));
    } else {
        panic!("unexpected shape");
    }
}
