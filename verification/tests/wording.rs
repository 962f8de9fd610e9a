use mlua::FromLua;
use rustc_hash::FxHashMap;
use wrk3::config::WorkloadConfig;
use wrk3::metric::MetricSchema;
use wrk3::value::{ScriptError, ScriptTable, ScriptValue, ValueKind};

struct Stage;

impl FromLua for Stage {
    fn from_lua(_: mlua::Value, _: &mlua::Lua) -> mlua::Result<Self> {
        Ok(Stage)
    }
}

#[derive(PartialEq, Eq)]
enum ColType {
    Int,
}

impl FromLua for ColType {
    fn from_lua(_: mlua::Value, _: &mlua::Lua) -> mlua::Result<Self> {
        Ok(ColType::Int)
    }
}

fn value(kind: ValueKind) -> ScriptValue {
    ScriptValue {
        kind,
        as_int: Err(String::new()),
        as_float: Err(String::new()),
        as_text: Ok("text".to_string()),
    }
}

fn table(fields: Vec<(&str, ScriptValue)>) -> ScriptValue {
    let fields = fields.into_iter().map(|(k, v)| (k.to_string(), v)).collect();
    value(ValueKind::Table(ScriptTable { fields, items: vec![], pairs: vec![] }))
}

fn message(e: Option<ScriptError>) -> String {
    e.and_then(|e| e.message()).unwrap()
}

#[test]
fn conversion_errors_are_worded_as_in_lua() {
    let lua = mlua::Lua::new();
    let values = [
        (mlua::Value::Nil, ValueKind::Nil),
        (mlua::Value::Boolean(true), ValueKind::Boolean(true)),
        (mlua::Value::Integer(1), ValueKind::Integer(1)),
    ];
    for (given, kind) in values {
        let no_table = mlua::Table::from_lua(given.clone(), &lua).err().unwrap().to_string();
        let no_list = Vec::<Stage>::from_lua(given.clone(), &lua).err().unwrap().to_string();
        let no_map =
            FxHashMap::<String, ColType>::from_lua(given, &lua).err().unwrap().to_string();
        let v = value(kind);
        assert_eq!(message(WorkloadConfig::from_lua(&v).err()), no_table);
        assert_eq!(message(MetricSchema::from_lua(&v).err()), no_table);
        let schema = table(vec![("name", value(ValueKind::Text)), ("cols", v)]);
        assert_eq!(message(MetricSchema::from_lua(&schema).err()), no_map);
        let kind = match schema.kind {
            ValueKind::Table(mut t) => t.fields.pop().unwrap().1.kind,
            _ => panic!("a table"),
        };
        let config = table(vec![("stages", value(kind))]);
        assert_eq!(message(WorkloadConfig::from_lua(&config).err()), no_list);
    }
}
