use wrk3::dt::{Binary64, LuaDt};
use wrk3::forms::formdata;
use wrk3::metric::{
    check_option_at_readable, read_option_at, ColType, DataPoint, MetricData, MetricSchema,
};
use wrk3::value::{ScriptError, ScriptTable, ScriptValue, ValueKind};

fn value(kind: ValueKind) -> ScriptValue {
    ScriptValue {
        kind,
        as_int: Err("no integer".to_string()),
        as_float: Err("no number".to_string()),
        as_text: Err("no text".to_string()),
    }
}

fn nil() -> ScriptValue {
    value(ValueKind::Nil)
}

fn text(s: &str) -> ScriptValue {
    ScriptValue { as_text: Ok(s.to_string()), ..value(ValueKind::Text) }
}

fn integer(i: i64) -> ScriptValue {
    ScriptValue {
        as_int: Ok(i),
        as_float: Ok(Binary64 { bits: (i as f64).to_bits() }),
        as_text: Ok(i.to_string()),
        ..value(ValueKind::Integer(i))
    }
}

fn float(n: f64) -> ScriptValue {
    let bits = n.to_bits();
    ScriptValue {
        as_float: Ok(Binary64 { bits }),
        as_text: Ok(n.to_string()),
        ..value(ValueKind::Number(Binary64 { bits }))
    }
}

fn boolean(b: bool) -> ScriptValue {
    value(ValueKind::Boolean(b))
}

fn table(fields: Vec<(&str, ScriptValue)>) -> ScriptValue {
    let fields = fields.into_iter().map(|(k, v)| (k.to_string(), v)).collect();
    value(ValueKind::Table(ScriptTable { fields, items: vec![], pairs: vec![] }))
}

fn dictionary(pairs: Vec<(ScriptValue, ScriptValue)>) -> ScriptValue {
    value(ValueKind::Table(ScriptTable { fields: vec![], items: vec![], pairs }))
}

fn schema() -> MetricSchema {
    let cols = dictionary(vec![
        (text("t"), text("DT")),
        (text("i"), text("int")),
        (text("f"), text("Float")),
        (text("b"), text("bool")),
    ]);
    let v = table(vec![("name", text("latency")), ("cols", cols)]);
    MetricSchema::from_lua(&v).ok().unwrap()
}

#[test]
fn a_schema_is_read() {
    let schema = schema();
    assert_eq!(schema.name, "latency");
    assert_eq!(schema.cols.len(), 4);
    assert_eq!(schema.cols.get("t"), Some(&ColType::Dt));
    assert_eq!(schema.cols.get("i"), Some(&ColType::Int));
    assert_eq!(schema.cols.get("f"), Some(&ColType::Float));
    assert_eq!(schema.cols.get("b"), Some(&ColType::Bool));
}

#[test]
fn schema_errors() {
    let message = |v: &ScriptValue| MetricSchema::from_lua(v).err().and_then(|e| e.message());
    assert_eq!(message(&nil()).unwrap(), "error converting Lua nil to table");
    assert_eq!(message(&table(vec![("name", nil())])).unwrap(), "no text");
    assert_eq!(message(&table(vec![("name", text("n"))])).unwrap(), "missing field cols");
    let with = |cols| table(vec![("name", text("n")), ("cols", cols)]);
    assert_eq!(
        message(&with(nil())).unwrap(),
        "error converting Lua nil to HashMap<String, ColType, FxBuildHasher> (expected table)"
    );
    assert_eq!(
        message(&with(dictionary(vec![(text("a"), text("real"))]))).unwrap(),
        "expected a valid column type"
    );
    assert_eq!(message(&with(dictionary(vec![(text("a"), nil())]))).unwrap(), "no text");
    assert_eq!(message(&with(dictionary(vec![(nil(), text("int"))]))).unwrap(), "no text");
    // The first error counts.
    let two = dictionary(vec![(text("a"), text("real")), (nil(), nil())]);
    assert_eq!(message(&with(two)).unwrap(), "expected a valid column type");
}

#[test]
fn columns_keep_their_types() {
    let pairs = vec![
        (text("t"), text("5ms")),
        (text("i"), integer(-3)),
        (text("f"), integer(2)),
        (text("b"), nil()),
    ];
    let schema = schema();
    assert!(schema.check_data_readable(&pairs));
    let at = LuaDt::from_secs(7);
    let point = schema.data_point(&pairs, Some(at), LuaDt::zero()).ok().unwrap();
    assert_eq!(point.metric, "latency");
    assert_eq!(point.timestamp, at);
    assert_eq!(point.values.len(), 4);
    assert!(matches!(point.values.get("t"), Some(MetricData::Dt(t)) if t.as_nanos() == 5_000_000));
    assert!(matches!(point.values.get("i"), Some(MetricData::Int(-3))));
    assert!(matches!(
        point.values.get("f"),
        Some(MetricData::Float(n)) if f64::from_bits(n.bits) == 2.0
    ));
    assert!(matches!(point.values.get("b"), Some(MetricData::Bool(false))));
}

#[test]
fn other_keys_take_the_type_of_the_value() {
    let pairs = vec![
        (text("flag"), boolean(true)),
        (text("count"), integer(9)),
        (text("part"), float(0.5)),
        (text("time"), value(ValueKind::Dt(LuaDt::from_secs(1)))),
    ];
    let now = LuaDt::from_secs(3);
    let point = schema().data_point(&pairs, None, now).ok().unwrap();
    assert_eq!(point.timestamp, now);
    assert!(matches!(point.values.get("flag"), Some(MetricData::Bool(true))));
    assert!(matches!(point.values.get("count"), Some(MetricData::Int(9))));
    assert!(matches!(
        point.values.get("part"),
        Some(MetricData::Float(n)) if f64::from_bits(n.bits) == 0.5
    ));
    assert!(matches!(point.values.get("time"), Some(MetricData::Dt(t)) if t.as_secs() == 1));
}

#[test]
fn later_values_take_the_place_of_earlier_ones() {
    let pairs = vec![(text("1"), integer(1)), (integer(1), integer(2))];
    let point = schema().data_point(&pairs, None, LuaDt::zero()).ok().unwrap();
    assert_eq!(point.values.len(), 1);
    assert!(matches!(point.values.get("1"), Some(MetricData::Int(2))));
}

#[test]
fn data_errors() {
    let message = |pairs: Vec<(ScriptValue, ScriptValue)>| {
        schema().data_point(&pairs, None, LuaDt::zero()).err().and_then(|e| e.message())
    };
    assert_eq!(message(vec![(text("x"), text("y"))]).unwrap(), "unsupported value type");
    assert_eq!(message(vec![(text("i"), text("y"))]).unwrap(), "no integer");
    assert_eq!(message(vec![(text("f"), text("y"))]).unwrap(), "no number");
    assert_eq!(message(vec![(nil(), integer(1))]).unwrap(), "no text");
    assert_eq!(
        message(vec![(text("x"), value(ValueKind::UserData))]).unwrap(),
        "userdata cannot be converted to dt"
    );
    assert_eq!(
        message(vec![(text("t"), boolean(true))]).unwrap(),
        "boolean cannot be converted to dt"
    );
    assert!(matches!(
        schema().data_point(&vec![(text("t"), integer(-1))], None, LuaDt::zero()),
        Err(ScriptError::Dt(_))
    ));
    let unreadable = vec![(text("t"), float(1e300))];
    assert!(!schema().check_data_readable(&unreadable));
    let after_error = vec![(text("x"), nil()), (text("t"), float(1e300))];
    assert!(schema().check_data_readable(&after_error));
    let other_column = vec![(text("f"), float(1e300))];
    assert!(schema().check_data_readable(&other_column));
}

#[test]
fn the_time_of_a_data_point() {
    assert!(matches!(read_option_at(&nil()), Ok(None)));
    assert!(matches!(read_option_at(&table(vec![])), Ok(None)));
    assert!(matches!(read_option_at(&table(vec![("at", nil())])), Ok(None)));
    let given = table(vec![("at", text("2s"))]);
    assert_eq!(read_option_at(&given).ok().unwrap(), Some(LuaDt::from_secs(2)));
    assert!(matches!(read_option_at(&integer(1)), Err(ScriptError::NotTable(_))));
    assert!(matches!(read_option_at(&table(vec![("at", text("x"))])), Err(ScriptError::Dt(_))));
    assert!(!check_option_at_readable(&table(vec![("at", float(f64::INFINITY))])));
}

#[test]
fn single_values() {
    let t = LuaDt::from_secs(1);
    let point = DataPoint::single(t, "m", "k", MetricData::Bool(true));
    assert_eq!((point.metric.as_str(), point.timestamp), ("m", t));
    assert!(matches!(point.values.get("k"), Some(MetricData::Bool(true))));
    assert_eq!(point.values.len(), 1);
}

#[test]
fn form_data() {
    let pairs = vec![
        (text("key"), text("a value")),
        (text("a&b"), text("c=d")),
        (integer(1), text("*-._09azAZ~")),
        (text("ü"), text("€/?")),
        (text(""), text("")),
    ];
    assert_eq!(
        formdata(&pairs).ok().unwrap(),
        "key=a+value&a%26b=c%3Dd&1=*-._09azAZ%7E&%C3%BC=%E2%82%AC%2F%3F&="
    );
    assert_eq!(formdata(&vec![]).ok().unwrap(), "");
    let bad = vec![(text("a"), text("b")), (text("c"), nil())];
    assert!(matches!(formdata(&bad), Err(ScriptError::Conversion(m)) if m == "no text"));
}
