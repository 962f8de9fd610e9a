use rustc_hash::FxHashMap;
use std::sync::Arc;
use wrk3::args::{
    check_default_readable, read_default, ArgError, ArgTy, ArgValue, ArgsState, FloatArg,
};
use wrk3::config::{check_config_readable, load_config, Stage, WorkloadConfig};
use wrk3::dt::{Binary64, LuaDt};
use wrk3::value::{ScriptError, ScriptTable, ScriptValue, ValueKind};

fn value(kind: ValueKind) -> ScriptValue {
    ScriptValue {
        kind,
        as_int: Err("no integer".to_string()),
        as_float: Err("no number".to_string()),
        as_text: Err("no text".to_string()),
    }
}

fn nil() -> ScriptValue {
    value(ValueKind::Nil)
}

fn text(s: &str) -> ScriptValue {
    ScriptValue { as_text: Ok(s.to_string()), ..value(ValueKind::Text) }
}

fn integer(i: i64) -> ScriptValue {
    ScriptValue {
        as_int: Ok(i),
        as_float: Ok(Binary64 { bits: (i as f64).to_bits() }),
        as_text: Ok(i.to_string()),
        ..value(ValueKind::Integer(i))
    }
}

fn float(n: f64) -> ScriptValue {
    let bits = n.to_bits();
    ScriptValue {
        as_float: Ok(Binary64 { bits }),
        as_text: Ok(n.to_string()),
        ..value(ValueKind::Number(Binary64 { bits }))
    }
}

fn table(fields: Vec<(&str, ScriptValue)>) -> ScriptValue {
    let fields = fields.into_iter().map(|(k, v)| (k.to_string(), v)).collect();
    value(ValueKind::Table(ScriptTable { fields, items: vec![], pairs: vec![] }))
}

fn list(items: Vec<ScriptValue>) -> ScriptValue {
    value(ValueKind::Table(ScriptTable { fields: vec![], items, pairs: vec![] }))
}

fn dt(s: &str) -> LuaDt {
    LuaDt::from_lua(&text(s)).ok().unwrap()
}

fn no_number() -> Result<FloatArg, String> {
    Err("invalid float literal".to_string())
}

fn runtime(args: Vec<(&str, &str)>) -> ArgsState {
    let args: FxHashMap<String, String> =
        args.into_iter().map(|(k, v)| (k.to_string(), v.to_string())).collect();
    ArgsState::Runtime { args: Arc::new(args) }
}

#[test]
fn dt_arithmetic() {
    // `w.dt'10s' - 2 == w.dt'8s'`
    let two = LuaDt::from_lua(&integer(2)).ok().unwrap();
    assert!(dt("10s").sub(&two).same(&dt("8s")));
    // `w.dt'2s':secs() == 2`
    assert_eq!(f64::from_bits(dt("2s").secs().bits), 2.0);
}

#[test]
fn traces_args() {
    let mut state = ArgsState::Trace { expected_args: vec![] };
    let bar = table(vec![("default", text("default value"))]);
    let a = table(vec![("default", text("10s"))]);

    // `w.args.int 'foo'`
    let default = read_default(&nil(), ArgTy::Int, String::new()).ok().unwrap();
    state.get_arg("foo", ArgTy::Int, default, no_number()).ok().unwrap();
    // `w.args.string('bar', { default = 'default value' })`
    let default = read_default(&bar, ArgTy::String, String::new()).ok().unwrap();
    state.get_arg("bar", ArgTy::String, default, no_number()).ok().unwrap();
    // `w.args.dt('a', { default = '10s' })`
    let default = read_default(&a, ArgTy::Dt, String::new()).ok().unwrap();
    state.get_arg("a", ArgTy::Dt, default, no_number()).ok().unwrap();

    let args = state.take_expected();
    assert_eq!(args.len(), 3);
    assert_eq!(args[0].name, "foo");
    assert_eq!(args[0].ty, ArgTy::Int);
    assert!(args[0].default_value.is_none());
    assert_eq!(args[1].name, "bar");
    assert_eq!(args[1].ty, ArgTy::String);
    assert!(matches!(&args[1].default_value, Some(ArgValue::String(s)) if s == "default value"));
    assert_eq!(args[2].name, "a");
    assert_eq!(args[2].ty, ArgTy::Dt);
    assert!(
        matches!(&args[2].default_value, Some(ArgValue::Dt(t)) if t.debug_text() == "LuaDt(\"10s\")")
    );
    assert!(state.take_expected().is_empty());
}

#[test]
fn loads_config() {
    let mut args = runtime(vec![("duration", "5s")]);
    let duration = match args.get_arg("duration", ArgTy::Dt, None, no_number()) {
        Ok(ArgValue::Dt(t)) => t,
        _ => panic!("no duration"),
    };
    let module = table(vec![(
        "config",
        table(vec![(
            "stages",
            list(vec![
                table(vec![("duration", text("10s")), ("rate", float(20.5))]),
                table(vec![("duration", value(ValueKind::Dt(duration))), ("rate", integer(300))]),
            ]),
        )]),
    )]);
    assert!(check_config_readable(&module));
    let config = load_config(&module).ok().unwrap();
    let rates: Vec<String> =
        config.stages.iter().map(|s| format!("{:?}", f64::from_bits(s.rate.bits))).collect();
    assert_eq!(
        config.debug_text(&rates),
        r#"Config {
    stages: [
        Stage {
            duration: LuaDt(
                "10s",
            ),
            rate: 20.5,
        },
        Stage {
            duration: LuaDt(
                "5s",
            ),
            rate: 300.0,
        },
    ],
}"#
    );
}

#[test]
fn stages_keep_their_order() {
    let items = |order: [i64; 3]| {
        list(
            order
                .iter()
                .map(|&n| table(vec![("duration", integer(n)), ("rate", integer(10 * n))]))
                .collect(),
        )
    };
    for order in [[1, 2, 3], [3, 1, 2]] {
        let config = table(vec![("stages", items(order))]);
        let config = WorkloadConfig::from_lua(&config).ok().unwrap();
        let read: Vec<u64> = config.stages.iter().map(|s| s.duration.as_secs()).collect();
        assert_eq!(read, order.map(|n| n as u64));
        for stage in &config.stages {
            assert_eq!(f64::from_bits(stage.rate.bits), 10.0 * stage.duration.as_secs() as f64);
        }
    }
    let empty = WorkloadConfig { stages: vec![] };
    assert_eq!(empty.debug_text(&vec![]), "Config {\n    stages: [],\n}");
}

#[test]
fn config_errors() {
    let message = |v: &ScriptValue| load_config(v).err().and_then(|e| e.message());
    assert_eq!(message(&nil()).unwrap(), "error converting Lua nil to table");
    assert_eq!(message(&integer(3)).unwrap(), "error converting Lua integer to table");
    assert_eq!(message(&table(vec![])).unwrap(), "missing field config");
    assert_eq!(
        message(&table(vec![("config", nil())])).unwrap(),
        "error converting Lua nil to table"
    );
    let with_stages = |stages| table(vec![("config", table(vec![("stages", stages)]))]);
    assert_eq!(
        message(&with_stages(text("none"))).unwrap(),
        "error converting Lua string to Vec<Stage> (expected table)"
    );
    let bad_rate = list(vec![table(vec![("duration", integer(1)), ("rate", text("fast"))])]);
    assert_eq!(message(&with_stages(bad_rate)).unwrap(), "no number");
    let bad_duration = list(vec![table(vec![("duration", nil()), ("rate", integer(1))])]);
    assert_eq!(message(&with_stages(bad_duration)).unwrap(), "nil cannot be converted to dt");
    let negative = table(vec![("duration", integer(-1)), ("rate", integer(1))]);
    assert!(matches!(Stage::from_lua(&negative), Err(ScriptError::Dt(_))));
}

#[test]
fn unreadable_stages_are_told() {
    let huge = || table(vec![("duration", float(1e300)), ("rate", integer(1))]);
    let good = || table(vec![("duration", integer(1)), ("rate", integer(1))]);
    let config = |items| table(vec![("stages", list(items))]);
    assert!(!Stage::check_readable(&huge()));
    assert!(!WorkloadConfig::check_readable(&config(vec![good(), huge()])));
    // What follows an error is not read.
    assert!(WorkloadConfig::check_readable(&config(vec![nil(), huge()])));
    assert!(WorkloadConfig::check_readable(&config(vec![good(), good()])));
}

#[test]
fn given_arguments_are_read_by_type() {
    let mut args = runtime(vec![
        ("n", "-42"),
        ("big", "9223372036854775808"),
        ("plus", "+7"),
        ("f", "1.5"),
        ("yes", "true"),
        ("no", "false"),
        ("maybe", "True"),
        ("s", "some text"),
        ("t", "1m 30s"),
        ("bad", "soon"),
    ]);
    let number = || Ok(FloatArg { value: Binary64 { bits: 1.5f64.to_bits() }, text: "1.5".into() });
    assert!(matches!(args.get_arg("n", ArgTy::Int, None, number()), Ok(ArgValue::Int(-42))));
    assert!(matches!(args.get_arg("plus", ArgTy::Int, None, number()), Ok(ArgValue::Int(7))));
    assert!(matches!(
        args.get_arg("big", ArgTy::Int, None, number()),
        Err(ArgError::IntFormat(_))
    ));
    assert!(matches!(args.get_arg("s", ArgTy::Int, None, number()), Err(ArgError::IntFormat(_))));
    match args.get_arg("f", ArgTy::Float, None, number()) {
        Ok(ArgValue::Float(f)) => assert_eq!(f64::from_bits(f.value.bits), 1.5),
        _ => panic!("no number"),
    }
    match args.get_arg("s", ArgTy::Float, None, no_number()) {
        Err(e) => assert_eq!(e.message().unwrap(), "invalid float literal"),
        Ok(_) => panic!("a number"),
    }
    assert!(matches!(args.get_arg("yes", ArgTy::Bool, None, number()), Ok(ArgValue::Bool(true))));
    assert!(matches!(args.get_arg("no", ArgTy::Bool, None, number()), Ok(ArgValue::Bool(false))));
    match args.get_arg("maybe", ArgTy::Bool, None, number()) {
        Err(e) => assert_eq!(e.message().unwrap(), "expected 'true' or 'false'"),
        Ok(_) => panic!("neither true nor false"),
    }
    match args.get_arg("s", ArgTy::String, None, number()) {
        Ok(ArgValue::String(s)) => assert_eq!(s, "some text"),
        _ => panic!("no text"),
    }
    match args.get_arg("t", ArgTy::Dt, None, number()) {
        Ok(ArgValue::Dt(t)) => assert_eq!(t, LuaDt::from_secs(90)),
        _ => panic!("no length of time"),
    }
    assert!(matches!(args.get_arg("bad", ArgTy::Dt, None, number()), Err(ArgError::DtFormat(_))));
    match args.get_arg("absent", ArgTy::Int, None, number()) {
        Err(e) => assert_eq!(e.message().unwrap(), "missing required argument 'absent'"),
        Ok(_) => panic!("an argument"),
    }
    assert_eq!(args.given_text("s").map(|s| s.as_str()), Some("some text"));
    assert!(args.given_text("absent").is_none());
}

#[test]
fn defaults_stand_in_for_absent_arguments() {
    let mut args = runtime(vec![("n", "1")]);
    let default = || Some(ArgValue::Int(5));
    assert!(matches!(args.get_arg("m", ArgTy::Int, default(), no_number()), Ok(ArgValue::Int(5))));
    assert!(matches!(args.get_arg("n", ArgTy::Int, default(), no_number()), Ok(ArgValue::Int(1))));
}

#[test]
fn stand_ins_while_tracing() {
    let mut state = ArgsState::Trace { expected_args: vec![] };
    assert!(matches!(state.get_arg("i", ArgTy::Int, None, no_number()), Ok(ArgValue::Int(0))));
    match state.get_arg("f", ArgTy::Float, None, no_number()) {
        Ok(ArgValue::Float(f)) => {
            assert_eq!(f64::from_bits(f.value.bits), 0.0);
            assert_eq!(f.text, format!("{}", 0.0));
        }
        _ => panic!("no number"),
    }
    assert!(matches!(state.get_arg("b", ArgTy::Bool, None, no_number()), Ok(ArgValue::Bool(false))));
    match state.get_arg("s", ArgTy::String, None, no_number()) {
        Ok(ArgValue::String(s)) => assert_eq!(s, ""),
        _ => panic!("no text"),
    }
    match state.get_arg("t", ArgTy::Dt, None, no_number()) {
        Ok(ArgValue::Dt(t)) => assert_eq!(t, LuaDt::zero()),
        _ => panic!("no length of time"),
    }
    let names: Vec<String> = state.take_expected().into_iter().map(|e| e.name).collect();
    assert_eq!(names, ["i", "f", "b", "s", "t"]);
}

#[test]
fn shown_values_read_back() {
    let values = vec![
        (ArgValue::Int(i64::MIN), ArgTy::Int, "-9223372036854775808"),
        (ArgValue::Int(i64::MAX), ArgTy::Int, "9223372036854775807"),
        (ArgValue::Int(0), ArgTy::Int, "0"),
        (ArgValue::Bool(true), ArgTy::Bool, "true"),
        (ArgValue::Bool(false), ArgTy::Bool, "false"),
        (ArgValue::String("a b".to_string()), ArgTy::String, "a b"),
        (ArgValue::Dt(LuaDt::from_parts(61, 5)), ArgTy::Dt, "1m 1s 5ns"),
    ];
    for (v, ty, shown) in values {
        let s = v.to_text();
        assert_eq!(s, shown);
        let mut args = runtime(vec![("x", s.as_str())]);
        let back = args.get_arg("x", ty, None, no_number()).ok().unwrap();
        assert_eq!(back.to_text(), shown);
    }
    let f = FloatArg { value: Binary64 { bits: 2.5f64.to_bits() }, text: "2.5".to_string() };
    assert_eq!(ArgValue::Float(f).to_text(), "2.5");
}

#[test]
fn options_of_arguments() {
    let options = |v| table(vec![("default", v)]);
    let read = |v, ty| read_default(&options(v), ty, "shown".to_string());
    assert!(matches!(read(integer(3), ArgTy::Int), Ok(Some(ArgValue::Int(3)))));
    assert!(matches!(read(nil(), ArgTy::Int), Ok(None)));
    assert!(matches!(read(text("x"), ArgTy::Int), Err(ScriptError::Conversion(m)) if m == "no integer"));
    match read(float(0.5), ArgTy::Float) {
        Ok(Some(ArgValue::Float(f))) => {
            assert_eq!(f64::from_bits(f.value.bits), 0.5);
            assert_eq!(f.text, "shown");
        }
        _ => panic!("no default"),
    }
    assert!(matches!(read(text("x"), ArgTy::Bool), Ok(Some(ArgValue::Bool(true)))));
    assert!(matches!(
        read(value(ValueKind::Boolean(false)), ArgTy::Bool),
        Ok(Some(ArgValue::Bool(false)))
    ));
    assert!(matches!(read(integer(9), ArgTy::String), Ok(Some(ArgValue::String(s))) if s == "9"));
    assert!(matches!(read(integer(9), ArgTy::Dt), Ok(Some(ArgValue::Dt(t))) if t == LuaDt::from_secs(9)));
    assert!(matches!(read_default(&table(vec![]), ArgTy::Int, String::new()), Ok(None)));
    assert!(matches!(
        read_default(&integer(1), ArgTy::Int, String::new()),
        Err(ScriptError::NotTable(t)) if t == "integer"
    ));
    assert!(!check_default_readable(&options(float(1e300)), ArgTy::Dt));
    assert!(check_default_readable(&options(float(1e300)), ArgTy::Float));
}

#[test]
fn lengths_of_time_from_values() {
    assert_eq!(LuaDt::from_lua(&value(ValueKind::Dt(dt("3s")))).ok(), Some(LuaDt::from_secs(3)));
    assert_eq!(LuaDt::from_lua(&float(0.25)).ok(), Some(LuaDt::from_parts(0, 250_000_000)));
    let not_dt = |v: ScriptValue| LuaDt::from_lua(&v).err().and_then(|e| e.message()).unwrap();
    assert_eq!(not_dt(nil()), "nil cannot be converted to dt");
    assert_eq!(not_dt(value(ValueKind::Boolean(true))), "boolean cannot be converted to dt");
    assert_eq!(not_dt(value(ValueKind::UserData)), "userdata cannot be converted to dt");
    assert_eq!(
        not_dt(value(ValueKind::Other("function".to_string()))),
        "function cannot be converted to dt"
    );
    assert!(matches!(LuaDt::from_lua(&text("soon")), Err(ScriptError::Dt(_))));
    assert!(matches!(
        LuaDt::from_lua(&ScriptValue { as_text: Err("not UTF-8".into()), ..text("") }),
        Err(ScriptError::Conversion(m)) if m == "not UTF-8"
    ));
}
