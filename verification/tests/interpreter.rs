use holyrig::interpreter::{
    apply_binary_op, interpolate_variable, process_interpolation, Context, Env, EvalError, InterpolationError, Value,
};
use holyrig::name_map::NameMap;
use holyrig::parser::{BinaryOp, Enum, InterpolationPart};

fn env() -> Env {
    let mut outer = Env::new();
    outer.set("freq".to_string(), Value::Integer(14_074_000));
    outer.set("mode".to_string(), Value::EnumVariant {
        enum_name: "Mode".to_string(),
        variant_name: "CW".to_string(),
        value: 3,
    });
    let mut inner = Env::with_parent(outer);
    inner.set("name".to_string(), Value::String("IC".to_string()));
    inner.set("on".to_string(), Value::Boolean(true));
    inner.set("level".to_string(), Value::Float("0.5".to_string()));
    inner
}

#[test]
fn scopes_see_their_parents() {
    let e = env();
    assert!(matches!(e.get("freq"), Some(Value::Integer(14_074_000))));
    assert!(matches!(e.get("name"), Some(Value::String(s)) if s == "IC"));
    assert!(e.get("missing").is_none());
    let mut inner = Env::with_parent(e);
    inner.set("freq".to_string(), Value::Integer(7));
    assert!(matches!(inner.get("freq"), Some(Value::Integer(7))));
}

#[test]
fn variables_are_interpolated_by_their_specification() {
    let e = env();
    assert_eq!(interpolate_variable("freq", &e).unwrap(), vec![144, 192, 214, 0]);
    assert_eq!(interpolate_variable("freq:2", &e).unwrap_err().message(), "Number 14074000 is too long to fit in 2 bytes");
    assert_eq!(interpolate_variable("mode", &e).unwrap(), vec![3]);
    assert_eq!(interpolate_variable("mode:2", &e).unwrap(), vec![3, 0]);
    assert_eq!(interpolate_variable("mode:int_bu:2", &e).unwrap(), vec![0, 3]);
    assert_eq!(interpolate_variable("name", &e).unwrap(), b"IC".to_vec());
    assert_eq!(interpolate_variable("name:4", &e).unwrap(), vec![b'I', b'C', 0, 0]);
    assert_eq!(interpolate_variable("name:bcd_bu:1", &e).unwrap(), vec![b'I']);
}

#[test]
fn interpolation_errors() {
    let e = env();
    let message = |spec: &str| interpolate_variable(spec, &e).unwrap_err().message();
    assert_eq!(message("nope"), "Undefined variable: nope");
    assert_eq!(message("freq:x"), "Invalid length: x");
    assert_eq!(message("freq:hex:2"), "Invalid format: hex");
    assert_eq!(message("a:b:c:d"), "Invalid variable specification: a:b:c:d");
    assert_eq!(message("on"), "Cannot interpolate value type: Boolean(true)");
    assert_eq!(message("level:2"), "Cannot interpolate value type: Float(0.5)");
    assert!(matches!(interpolate_variable("x:1", &e), Err(InterpolationError::UndefinedVariable(n)) if n == "x"));
}

fn integer_of(v: Result<Value, EvalError>) -> i64 {
    match v {
        Ok(Value::Integer(i)) => i,
        other => panic!("{other:?}"),
    }
}

fn boolean(v: Result<Value, EvalError>) -> bool {
    match v {
        Ok(Value::Boolean(b)) => b,
        other => panic!("{other:?}"),
    }
}

#[test]
fn integer_operations_round_toward_zero() {
    let i = |n: i64| Value::Integer(n);
    assert_eq!(integer_of(apply_binary_op(&i(10), BinaryOp::Add, &i(5))), 15);
    assert_eq!(integer_of(apply_binary_op(&i(10), BinaryOp::Subtract, &i(15))), -5);
    assert_eq!(integer_of(apply_binary_op(&i(-7), BinaryOp::Multiply, &i(3))), -21);
    assert_eq!(integer_of(apply_binary_op(&i(-7), BinaryOp::Divide, &i(2))), -3);
    assert_eq!(integer_of(apply_binary_op(&i(7), BinaryOp::Divide, &i(-2))), -3);
    assert_eq!(integer_of(apply_binary_op(&i(-7), BinaryOp::Modulo, &i(2))), -1);
    assert_eq!(integer_of(apply_binary_op(&i(7), BinaryOp::Modulo, &i(-2))), 1);
    assert_eq!(integer_of(apply_binary_op(&i(i64::MIN), BinaryOp::Divide, &i(2))), i64::MIN / 2);
    assert!(boolean(apply_binary_op(&i(1), BinaryOp::Less, &i(2))));
    assert!(!boolean(apply_binary_op(&i(1), BinaryOp::And, &i(0))));
    assert!(boolean(apply_binary_op(&i(1), BinaryOp::Or, &i(0))));
    assert_eq!(apply_binary_op(&i(1), BinaryOp::Divide, &i(0)).unwrap_err().message(), "Division by zero");
    assert_eq!(apply_binary_op(&i(1), BinaryOp::Modulo, &i(0)).unwrap_err().message(), "Modulo by zero");
}

#[test]
fn strings_and_booleans() {
    let s = |t: &str| Value::String(t.to_string());
    assert!(matches!(apply_binary_op(&s("ab"), BinaryOp::Add, &s("cd")), Ok(Value::String(r)) if r == "abcd"));
    assert!(boolean(apply_binary_op(&s("a"), BinaryOp::Equal, &s("a"))));
    assert_eq!(
        apply_binary_op(&s("a"), BinaryOp::Less, &s("b")).unwrap_err().message(),
        "Invalid operation Less for strings"
    );
    let b = |x: bool| Value::Boolean(x);
    assert!(!boolean(apply_binary_op(&b(true), BinaryOp::And, &b(false))));
    assert_eq!(
        apply_binary_op(&b(true), BinaryOp::Add, &b(false)).unwrap_err().message(),
        "Invalid operation Add for booleans"
    );
    assert_eq!(
        apply_binary_op(&Value::Integer(1), BinaryOp::Add, &s("x")).unwrap_err().message(),
        "Type mismatch in binary operation: Integer(1) Add String(\"x\")"
    );
}

fn var(name: &str, format: Option<&str>, length: usize) -> InterpolationPart {
    InterpolationPart::Variable { name: name.to_string(), format: format.map(|f| f.to_string()), length }
}

#[test]
fn parsed_interpolations_become_upper_case_hex() {
    let e = env();
    let parts = vec![
        InterpolationPart::Literal(vec![0xFE, 0xFE]),
        var("freq", None, 4),
        InterpolationPart::Literal(vec![0xFD]),
    ];
    assert!(matches!(process_interpolation(&parts, &e), Ok(Value::String(s)) if s == "FEFE90C0D600FD"));
    let parts = vec![var("mode", Some("int_bu"), 2), var("name", None, 3)];
    assert!(matches!(process_interpolation(&parts, &e), Ok(Value::String(s)) if s == "0003494300"));
    assert!(matches!(process_interpolation(&Vec::new(), &e), Ok(Value::String(s)) if s.is_empty()));
}

#[test]
fn parsed_interpolation_errors() {
    let e = env();
    let parts = vec![InterpolationPart::Literal(vec![1]), var("nope", None, 1)];
    assert_eq!(process_interpolation(&parts, &e).unwrap_err().message(), "Undefined variable: nope");
    let parts = vec![var("freq", Some("hex"), 2)];
    assert_eq!(process_interpolation(&parts, &e).unwrap_err().message(), "Invalid format: hex");
    let parts = vec![var("on", None, 1)];
    assert_eq!(process_interpolation(&parts, &e).unwrap_err().message(), "Cannot interpolate value type: Boolean(true)");
    let parts = vec![var("freq", None, 2)];
    assert_eq!(process_interpolation(&parts, &e).unwrap_err().message(), "Number 14074000 is too long to fit in 2 bytes");
}

fn vfo_enum(names: &[(&str, u32)]) -> Enum {
    let mut variants = NameMap::new();
    for (n, v) in names {
        variants.insert(n.to_string(), *v);
    }
    Enum { name: "Vfo".to_string(), variants }
}

#[test]
fn registered_enums_give_their_variants() {
    let mut c = Context::new();
    assert_eq!(c.get_enum_variant("Vfo", "A"), None);
    c.register_enum(&vfo_enum(&[("A", 0), ("B", 1)]));
    assert_eq!(c.get_enum_variant("Vfo", "A"), Some(0));
    assert_eq!(c.get_enum_variant("Vfo", "B"), Some(1));
    assert_eq!(c.get_enum_variant("Vfo", "C"), None);
    assert_eq!(c.get_enum_variant("Mode", "A"), None);
    c.register_enum(&vfo_enum(&[("Main", 7)]));
    assert_eq!(c.get_enum_variant("Vfo", "Main"), Some(7));
    assert_eq!(c.get_enum_variant("Vfo", "A"), None);
    assert!(c.output.is_empty());
    assert!(c.environment.get("x").is_none());
}
