//! Values that a script hands over.
use crate::binary64;
use crate::dt;
use crate::dt::{Binary64, LuaDt, ParseDtError, RawDtValue};
use crate::text::{concat, concat3};
use vstd::prelude::*;
use vstd::string::*;

verus! {

/// What a value of a script is.
#[derive(Debug)]
pub enum ValueKind {
    Nil,
    Boolean(bool),
    Integer(i64),
    Number(Binary64),
    /// A string; its text is what the value reads as.
    Text,
    /// A length of time that the script holds.
    Dt(LuaDt),
    /// Any other userdata.
    UserData,
    Table(ScriptTable),
    /// A value of any other type, by the name of the type.
    Other(String),
}

/// A value of a script, and what the script language's own conversions make of it: a value
/// of the type asked for, or the message of the conversion error.
#[derive(Debug)]
pub struct ScriptValue {
    pub kind: ValueKind,
    pub as_int: Result<i64, String>,
    pub as_float: Result<Binary64, String>,
    pub as_text: Result<String, String>,
}

/// A table of a script, as far as it was looked at: fields that were looked up by name, the
/// values of its sequence, and all its keys with their values.
#[derive(Debug)]
pub struct ScriptTable {
    pub fields: Vec<(String, ScriptValue)>,
    pub items: Vec<ScriptValue>,
    pub pairs: Vec<(ScriptValue, ScriptValue)>,
}

/// Why a value is not what was asked for.
pub enum ScriptError {
    /// The script language does not convert it; this is the message.
    Conversion(String),
    /// It is not a table but of the type with this name.
    NotTable(String),
    /// It is not a table, but of the type with the first name, where a collection of the type
    /// with the second name was asked for.
    NotCollection(String, String),
    /// It is of the type with this name, which never is a length of time.
    NotDt(String),
    /// It is no length of time.
    Dt(ParseDtError),
    /// The table has no field with this name.
    Missing(String),
    /// It does not name an HTTP method.
    Method,
    /// It does not name a column type.
    ColType,
    /// It is not of a type that a metric can have.
    Unsupported,
}

/// Why a value is not what was asked for, in terms of plain values.
pub enum ScriptErrorView {
    Conversion(Seq<char>),
    NotTable(Seq<char>),
    NotCollection(Seq<char>, Seq<char>),
    NotDt(Seq<char>),
    MustBePositive,
    InvalidFormat(humantime::DurationError),
    Missing(Seq<char>),
    Method,
    ColType,
    Unsupported,
}

/// Why a value is no length of time.
pub open spec fn dt_refusal(e: ParseDtError) -> ScriptErrorView {
    match e {
        ParseDtError::MustBePositive => ScriptErrorView::MustBePositive,
        ParseDtError::InvalidFormat(reason) => ScriptErrorView::InvalidFormat(reason),
    }
}

impl View for ScriptError {
    type V = ScriptErrorView;

    open spec fn view(&self) -> ScriptErrorView {
        match self {
            ScriptError::Conversion(m) => ScriptErrorView::Conversion(m@),
            ScriptError::NotTable(t) => ScriptErrorView::NotTable(t@),
            ScriptError::NotCollection(t, to) => ScriptErrorView::NotCollection(t@, to@),
            ScriptError::NotDt(t) => ScriptErrorView::NotDt(t@),
            ScriptError::Dt(e) => dt_refusal(*e),
            ScriptError::Missing(name) => ScriptErrorView::Missing(name@),
            ScriptError::Method => ScriptErrorView::Method,
            ScriptError::ColType => ScriptErrorView::ColType,
            ScriptError::Unsupported => ScriptErrorView::Unsupported,
        }
    }
}

impl ScriptError {
    /// The message, apart from one on a length of time, which humantime words.
    pub fn message(&self) -> (r: Option<String>)
        ensures
            r is None == (self is Dt),
            r matches Some(m) ==> match self@ {
                ScriptErrorView::Conversion(c) => m@ == c,
                ScriptErrorView::NotTable(t) => m@ == "error converting Lua "@ + t + " to table"@,
                ScriptErrorView::NotCollection(t, to) => m@ == "error converting Lua "@ + t + " to "@
                    + to + " (expected table)"@,
                ScriptErrorView::NotDt(t) => m@ == t + " cannot be converted to dt"@,
                ScriptErrorView::Missing(name) => m@ == "missing field "@ + name,
                ScriptErrorView::Method => m@ == "expected a valid HTTP method"@,
                ScriptErrorView::ColType => m@ == "expected a valid column type"@,
                ScriptErrorView::Unsupported => m@ == "unsupported value type"@,
                _ => false,
            },
    {
        match self {
            ScriptError::Conversion(m) => Some(m.clone()),
            ScriptError::NotTable(t) => Some(
                concat3("error converting Lua ", t.as_str(), " to table"),
            ),
            ScriptError::NotCollection(t, to) => {
                let start = concat3("error converting Lua ", t.as_str(), " to ");
                Some(concat3(start.as_str(), to.as_str(), " (expected table)"))
            },
            ScriptError::NotDt(t) => Some(concat(t.as_str(), " cannot be converted to dt")),
            ScriptError::Dt(_) => None,
            ScriptError::Missing(name) => Some(concat("missing field ", name.as_str())),
            ScriptError::Method => Some("expected a valid HTTP method".to_owned()),
            ScriptError::ColType => Some("expected a valid column type".to_owned()),
            ScriptError::Unsupported => Some("unsupported value type".to_owned()),
        }
    }
}

impl ScriptValue {
    /// The name of the value's type.
    pub open spec fn type_label(self) -> Seq<char> {
        match self.kind {
            ValueKind::Nil => "nil"@,
            ValueKind::Boolean(_) => "boolean"@,
            ValueKind::Integer(_) => "integer"@,
            ValueKind::Number(_) => "number"@,
            ValueKind::Text => "string"@,
            ValueKind::Dt(_) => "userdata"@,
            ValueKind::UserData => "userdata"@,
            ValueKind::Table(_) => "table"@,
            ValueKind::Other(name) => name@,
        }
    }

    /// The name of the value's type.
    pub fn type_text(&self) -> (r: String)
        ensures
            r@ == self.type_label(),
    {
        match &self.kind {
            ValueKind::Nil => "nil".to_owned(),
            ValueKind::Boolean(_) => "boolean".to_owned(),
            ValueKind::Integer(_) => "integer".to_owned(),
            ValueKind::Number(_) => "number".to_owned(),
            ValueKind::Text => "string".to_owned(),
            ValueKind::Dt(_) => "userdata".to_owned(),
            ValueKind::UserData => "userdata".to_owned(),
            ValueKind::Table(_) => "table".to_owned(),
            ValueKind::Other(name) => name.clone(),
        }
    }

    /// The value as text.
    pub open spec fn text(self) -> Result<Seq<char>, ScriptErrorView> {
        match self.as_text {
            Ok(s) => Ok(s@),
            Err(m) => Err(ScriptErrorView::Conversion(m@)),
        }
    }

    /// The value as text.
    pub fn read_text(&self) -> (r: Result<String, ScriptError>)
        ensures
            r matches Ok(s) ==> self.text() == Ok::<Seq<char>, ScriptErrorView>(s@),
            r matches Err(e) ==> self.text() == Err::<Seq<char>, ScriptErrorView>(e@),
    {
        match &self.as_text {
            Ok(s) => Ok(s.clone()),
            Err(m) => Err(ScriptError::Conversion(m.clone())),
        }
    }

    /// The value as a binary64 number.
    pub open spec fn number(self) -> Result<u64, ScriptErrorView> {
        match self.as_float {
            Ok(n) => Ok(n.bits),
            Err(m) => Err(ScriptErrorView::Conversion(m@)),
        }
    }

    /// The value as a binary64 number.
    pub fn read_number(&self) -> (r: Result<Binary64, ScriptError>)
        ensures
            r matches Ok(n) ==> self.number() == Ok::<u64, ScriptErrorView>(n.bits),
            r matches Err(e) ==> self.number() == Err::<u64, ScriptErrorView>(e@),
    {
        match &self.as_float {
            Ok(n) => Ok(*n),
            Err(m) => Err(ScriptError::Conversion(m.clone())),
        }
    }

    /// The value as a 64-bit integer.
    pub open spec fn integer(self) -> Result<i64, ScriptErrorView> {
        match self.as_int {
            Ok(i) => Ok(i),
            Err(m) => Err(ScriptErrorView::Conversion(m@)),
        }
    }

    /// The value as a 64-bit integer.
    pub fn read_integer(&self) -> (r: Result<i64, ScriptError>)
        ensures
            r matches Ok(i) ==> self.integer() == Ok::<i64, ScriptErrorView>(i),
            r matches Err(e) ==> self.integer() == Err::<i64, ScriptErrorView>(e@),
    {
        match &self.as_int {
            Ok(i) => Ok(*i),
            Err(m) => Err(ScriptError::Conversion(m.clone())),
        }
    }

    /// Whether the value counts as true: all but nil and false do.
    pub open spec fn truth(self) -> bool {
        match self.kind {
            ValueKind::Nil => false,
            ValueKind::Boolean(b) => b,
            _ => true,
        }
    }

    /// Whether the value counts as true.
    pub fn read_truth(&self) -> (r: bool)
        ensures
            r == self.truth(),
    {
        match &self.kind {
            ValueKind::Nil => false,
            ValueKind::Boolean(b) => *b,
            _ => true,
        }
    }

    /// The table that the value is.
    pub open spec fn table(self) -> Result<ScriptTable, ScriptErrorView> {
        match self.kind {
            ValueKind::Table(t) => Ok(t),
            _ => Err(ScriptErrorView::NotTable(self.type_label())),
        }
    }

    /// The table that the value is.
    pub fn read_table(&self) -> (r: Result<&ScriptTable, ScriptError>)
        ensures
            r matches Ok(t) ==> self.table() == Ok::<ScriptTable, ScriptErrorView>(*t),
            r matches Err(e) ==> self.table() == Err::<ScriptTable, ScriptErrorView>(e@),
    {
        match &self.kind {
            ValueKind::Table(t) => Ok(t),
            _ => Err(ScriptError::NotTable(self.type_text())),
        }
    }

    /// The table that the value is, as a collection of the type with this name.
    pub open spec fn collection(self, to: Seq<char>) -> Result<ScriptTable, ScriptErrorView> {
        match self.kind {
            ValueKind::Table(t) => Ok(t),
            _ => Err(ScriptErrorView::NotCollection(self.type_label(), to)),
        }
    }

    /// The table that the value is, as a collection of the type with this name.
    pub fn read_collection(&self, to: &str) -> (r: Result<&ScriptTable, ScriptError>)
        ensures
            r matches Ok(t) ==> self.collection(to@) == Ok::<ScriptTable, ScriptErrorView>(*t),
            r matches Err(e) ==> self.collection(to@) == Err::<ScriptTable, ScriptErrorView>(e@),
    {
        match &self.kind {
            ValueKind::Table(t) => Ok(t),
            _ => Err(ScriptError::NotCollection(self.type_text(), to.to_owned())),
        }
    }

    /// The value as what a length of time can be read from.
    pub open spec fn raw_dt(self) -> Result<RawDtValue, ScriptErrorView> {
        match self.kind {
            ValueKind::Dt(t) => Ok(RawDtValue::Dt(t)),
            ValueKind::Integer(i) => Ok(RawDtValue::I64(i)),
            ValueKind::Number(n) => Ok(RawDtValue::F64(n)),
            ValueKind::Text => match self.as_text {
                Ok(s) => Ok(RawDtValue::String(s)),
                Err(m) => Err(ScriptErrorView::Conversion(m@)),
            },
            _ => Err(ScriptErrorView::NotDt(self.type_label())),
        }
    }

    /// Whether reading a length of time from the value ends with one or with an error.
    pub open spec fn dt_readable(self) -> bool {
        self.raw_dt() matches Ok(raw) ==> raw.convertible()
    }

    /// The value as a length of time, in nanoseconds.
    pub open spec fn dt(self) -> Result<nat, ScriptErrorView> {
        match self.raw_dt() {
            Ok(raw) => match raw.nanos() {
                Some(t) => Ok(t),
                None => Err(dt_refusal(raw.refusal())),
            },
            Err(e) => Err(e),
        }
    }

    /// The value as what a length of time can be read from.
    fn read_raw_dt(&self) -> (r: Result<RawDtValue, ScriptError>)
        ensures
            r matches Ok(raw) ==> self.raw_dt() == Ok::<RawDtValue, ScriptErrorView>(raw),
            r matches Err(e) ==> self.raw_dt() == Err::<RawDtValue, ScriptErrorView>(e@),
    {
        match &self.kind {
            ValueKind::Dt(t) => Ok(RawDtValue::Dt(*t)),
            ValueKind::Integer(i) => Ok(RawDtValue::I64(*i)),
            ValueKind::Number(n) => Ok(RawDtValue::F64(*n)),
            ValueKind::Text => match &self.as_text {
                Ok(s) => Ok(RawDtValue::String(s.clone())),
                Err(m) => Err(ScriptError::Conversion(m.clone())),
            },
            _ => Err(ScriptError::NotDt(self.type_text())),
        }
    }

    /// Tells whether reading a length of time from the value ends with one or with an error.
    pub fn check_dt_readable(&self) -> (r: bool)
        ensures
            r == self.dt_readable(),
    {
        match self.read_raw_dt() {
            Ok(raw) => raw.check_convertible(),
            Err(_) => true,
        }
    }
}

impl LuaDt {
    /// Reads a length of time: one that the script holds, a number of seconds, or a text.
    pub fn from_lua(value: &ScriptValue) -> (r: Result<LuaDt, ScriptError>)
        requires
            value.dt_readable(),
        ensures
            r matches Ok(t) ==> value.dt() == Ok::<nat, ScriptErrorView>(t@),
            r matches Err(e) ==> value.dt() == Err::<nat, ScriptErrorView>(e@),
    {
        match value.read_raw_dt() {
            Ok(raw) => match raw.into_lua_dt() {
                Ok(t) => Ok(t),
                Err(e) => Err(ScriptError::Dt(e)),
            },
            Err(e) => Err(e),
        }
    }
}

impl ScriptTable {
    /// The value of a field: the first one under the name.
    pub open spec fn field(self, name: Seq<char>) -> Option<ScriptValue> {
        field_in(self.fields@, name)
    }

    /// The value of a field. Without one, a script reads nil.
    pub fn get(&self, name: &str) -> (r: Option<&ScriptValue>)
        ensures
            r is Some == self.field(name@) is Some,
            r matches Some(v) ==> self.field(name@) == Some(*v),
    {
        let wanted = name.to_owned();
        let mut i: usize = 0;
        assert(self.fields@.skip(0) =~= self.fields@);
        while i < self.fields.len()
            invariant
                i <= self.fields@.len(),
                wanted@ == name@,
                field_in(self.fields@.skip(i as int), name@) == self.field(name@),
            decreases self.fields@.len() - i,
        {
            assert(self.fields@.skip(i as int).drop_first() =~= self.fields@.skip(i + 1));
            if self.fields[i].0 == wanted {
                return Some(&self.fields[i].1);
            }
            i = i + 1;
        }
        None
    }

    /// The value of a field that is there and is not nil.
    pub open spec fn given(self, name: Seq<char>) -> Option<ScriptValue> {
        match self.field(name) {
            Some(v) => if v.kind is Nil {
                None
            } else {
                Some(v)
            },
            None => None,
        }
    }

    /// The value of a field that is there and is not nil.
    pub fn get_given(&self, name: &str) -> (r: Option<&ScriptValue>)
        ensures
            r is Some == self.given(name@) is Some,
            r matches Some(v) ==> self.given(name@) == Some(*v),
    {
        match self.get(name) {
            Some(v) => match &v.kind {
                ValueKind::Nil => None,
                _ => Some(v),
            },
            None => None,
        }
    }

    /// The value of a field that must have been looked up.
    pub open spec fn required(self, name: Seq<char>) -> Result<ScriptValue, ScriptErrorView> {
        match self.field(name) {
            Some(v) => Ok(v),
            None => Err(ScriptErrorView::Missing(name)),
        }
    }

    /// The value of a field that must have been looked up.
    pub fn get_required(&self, name: &str) -> (r: Result<&ScriptValue, ScriptError>)
        ensures
            r matches Ok(v) ==> self.required(name@) == Ok::<ScriptValue, ScriptErrorView>(*v),
            r matches Err(e) ==> self.required(name@) == Err::<ScriptValue, ScriptErrorView>(e@),
    {
        match self.get(name) {
            Some(v) => Ok(v),
            None => Err(ScriptError::Missing(name.to_owned())),
        }
    }

    /// The text of a field.
    pub open spec fn required_text(self, name: Seq<char>) -> Result<Seq<char>, ScriptErrorView> {
        match self.required(name) {
            Ok(v) => v.text(),
            Err(e) => Err(e),
        }
    }

    /// The text of a field.
    pub fn get_required_text(&self, name: &str) -> (r: Result<String, ScriptError>)
        ensures
            r matches Ok(s) ==> self.required_text(name@) == Ok::<Seq<char>, ScriptErrorView>(s@),
            r matches Err(e) ==> self.required_text(name@) == Err::<Seq<char>, ScriptErrorView>(
                e@,
            ),
    {
        match self.get_required(name) {
            Ok(v) => v.read_text(),
            Err(e) => Err(e),
        }
    }
}

/// The first value under a name in a list.
pub open spec fn field_in(fields: Seq<(String, ScriptValue)>, name: Seq<char>) -> Option<
    ScriptValue,
>
    decreases fields.len(),
{
    if fields.len() == 0 {
        None
    } else if fields.first().0@ == name {
        Some(fields.first().1)
    } else {
        field_in(fields.drop_first(), name)
    }
}

/// Scripts get from the conversions of their language what these make of a value, unchanged: its
/// text, its number and its integer, or their errors. Whatever is neither nil nor false is true.
pub proof fn law_conversions_are_passed_on(
    v: ScriptValue,
    text: Result<String, ScriptError>,
    number: Result<Binary64, ScriptError>,
    integer: Result<i64, ScriptError>,
    truth: bool,
)
    requires
        call_ensures(ScriptValue::read_text, (&v,), text),
        call_ensures(ScriptValue::read_number, (&v,), number),
        call_ensures(ScriptValue::read_integer, (&v,), integer),
        call_ensures(ScriptValue::read_truth, (&v,), truth),
    ensures
        match v.as_text {
            Ok(s) => text matches Ok(t) && t@ == s@,
            Err(m) => text matches Err(ScriptError::Conversion(c)) && c@ == m@,
        },
        match v.as_float {
            Ok(n) => number matches Ok(x) && x.bits == n.bits,
            Err(m) => number matches Err(ScriptError::Conversion(c)) && c@ == m@,
        },
        match v.as_int {
            Ok(i) => integer matches Ok(x) && x == i,
            Err(m) => integer matches Err(ScriptError::Conversion(c)) && c@ == m@,
        },
        truth == !(v.kind is Nil || v.kind == ValueKind::Boolean(false)),
{
}

/// A value is a table, or a collection, exactly where the script made it one, and then that very
/// table.
pub proof fn law_tables_are_passed_on(
    v: ScriptValue,
    to: &str,
    table: Result<&ScriptTable, ScriptError>,
    collection: Result<&ScriptTable, ScriptError>,
)
    requires
        call_ensures(ScriptValue::read_table, (&v,), table),
        call_ensures(ScriptValue::read_collection, (&v, to), collection),
    ensures
        match v.kind {
            ValueKind::Table(t) => table matches Ok(a) && *a == t && (collection matches Ok(b) && *b
                == t),
            _ => table matches Err(ScriptError::NotTable(_)) && (
            collection matches Err(ScriptError::NotCollection(_, b)) && b@ == to@),
        },
{
}

/// A length of time is what the script holds as one, or a number of seconds, or what humantime
/// reads from a text. Whole seconds are exact, and other numbers of seconds are off by no more
/// than half a nanosecond, with the even one of two that are equally near. A negative number is
/// refused, and so is what is none of these.
pub proof fn law_lengths_of_time(v: ScriptValue, r: Result<LuaDt, ScriptError>)
    requires
        call_ensures(LuaDt::from_lua, (&v,), r),
    ensures
        match v.kind {
            ValueKind::Dt(t) => r matches Ok(d) && d@ == t@,
            ValueKind::Integer(i) => if i >= 0 {
                r matches Ok(d) && d@ == i * 1_000_000_000
            } else {
                r matches Err(ScriptError::Dt(ParseDtError::MustBePositive))
            },
            ValueKind::Number(n) => {
                &&& n.bits >= binary64::SIGN ==> (r matches Err(
                    ScriptError::Dt(ParseDtError::MustBePositive),
                ))
                &&& n.bits < binary64::INFINITE ==> (r matches Ok(d) && binary64::is_nearest_count(
                    binary64::units(n.bits as nat) * 1_000_000_000,
                    binary64::one(),
                    d@,
                ))
            },
            ValueKind::Text => match v.as_text {
                Ok(s) => match dt::humantime_parse(s@) {
                    Some(p) => r matches Ok(d) && d@ == p.0 * 1_000_000_000 + p.1,
                    None => r matches Err(ScriptError::Dt(ParseDtError::InvalidFormat(e))) && e
                        == dt::humantime_error(s@),
                },
                Err(m) => r matches Err(ScriptError::Conversion(c)) && c@ == m@,
            },
            _ => r matches Err(ScriptError::NotDt(_)),
        },
{
    if let ValueKind::Number(n) = v.kind {
        vstd::arithmetic::power2::lemma_pow2_pos(1074);
        binary64::lemma_half_even(
            binary64::units(n.bits as nat) * 1_000_000_000,
            binary64::one(),
        );
    }
}

/// The value of a field is the first one under its name, whatever stands before it under other
/// names or after it. A field that is nil is there, but is not given. Without a field of the name
/// there is none, and to ask for one that is required is an error.
pub proof fn law_fields_by_name(
    t: ScriptTable,
    name: &str,
    found: Option<&ScriptValue>,
    given: Option<&ScriptValue>,
    required: Result<&ScriptValue, ScriptError>,
)
    requires
        call_ensures(ScriptTable::get, (&t, name), found),
        call_ensures(ScriptTable::get_given, (&t, name), given),
        call_ensures(ScriptTable::get_required, (&t, name), required),
    ensures
        forall|i: int|
            0 <= i < t.fields@.len() && (#[trigger] t.fields@[i]).0@ == name@ && (forall|j: int|
                0 <= j < i ==> (#[trigger] t.fields@[j]).0@ != name@) ==> {
                let v = t.fields@[i].1;
                &&& t.field(name@) == Some(v)
                &&& found matches Some(x) && *x == v
                &&& required matches Ok(x) && *x == v
                &&& v.kind is Nil ==> given is None
                &&& !(v.kind is Nil) ==> (given matches Some(x) && *x == v)
            },
        (forall|i: int| 0 <= i < t.fields@.len() ==> (#[trigger] t.fields@[i]).0@ != name@) ==> {
            &&& t.field(name@) is None
            &&& found is None
            &&& given is None
            &&& required matches Err(ScriptError::Missing(n)) && n@ == name@
        },
{
    assert forall|i: int|
        0 <= i < t.fields@.len() && (#[trigger] t.fields@[i]).0@ == name@ && (forall|j: int|
            0 <= j < i ==> (#[trigger] t.fields@[j]).0@ != name@) implies t.field(name@) == Some(
        t.fields@[i].1,
    ) by {
        lemma_first_field(t.fields@, name@, i);
    }
    if forall|i: int| 0 <= i < t.fields@.len() ==> (#[trigger] t.fields@[i]).0@ != name@ {
        lemma_no_field(t.fields@, name@);
    }
}

/// The first value under a name is found.
proof fn lemma_first_field(fields: Seq<(String, ScriptValue)>, name: Seq<char>, i: int)
    requires
        0 <= i < fields.len(),
        fields[i].0@ == name,
        forall|j: int| 0 <= j < i ==> (#[trigger] fields[j]).0@ != name,
    ensures
        field_in(fields, name) == Some(fields[i].1),
    decreases i,
{
    if i > 0 {
        let rest = fields.drop_first();
        assert(fields.first() == fields[0]);
        assert forall|j: int| 0 <= j < i - 1 implies (#[trigger] rest[j]).0@ != name by {
            assert(rest[j] == fields[j + 1]);
        }
        lemma_first_field(rest, name, i - 1);
    }
}

/// Without a name in the list, there is no value under it.
proof fn lemma_no_field(fields: Seq<(String, ScriptValue)>, name: Seq<char>)
    requires
        forall|j: int| 0 <= j < fields.len() ==> (#[trigger] fields[j]).0@ != name,
    ensures
        field_in(fields, name) is None,
    decreases fields.len(),
{
    if fields.len() > 0 {
        let rest = fields.drop_first();
        assert(fields.first() == fields[0]);
        assert forall|j: int| 0 <= j < rest.len() implies (#[trigger] rest[j]).0@ != name by {
            assert(rest[j] == fields[j + 1]);
        }
        lemma_no_field(rest, name);
    }
}

/// The text of the key of a pair.
pub open spec fn key_text(pair: (ScriptValue, ScriptValue)) -> Seq<char> {
    pair.0.as_text->Ok_0@
}

/// Whether no later pair has the same text as its key.
pub open spec fn last_of_its_key(pairs: Seq<(ScriptValue, ScriptValue)>, i: int) -> bool {
    forall|j: int| i < j < pairs.len() ==> key_text(#[trigger] pairs[j]) != key_text(pairs[i])
}

/// A length of time can be read, or refused, from every value but a number of seconds that is not
/// negative and is 2^64 or more, or no number, and a text that is out of range.
pub proof fn law_which_times_can_be_read(v: ScriptValue, r: bool)
    requires
        call_ensures(ScriptValue::check_dt_readable, (&v,), r),
    ensures
        r == v.dt_readable(),
        match v.kind {
            ValueKind::Number(n) => r == RawDtValue::F64(n).convertible(),
            ValueKind::Text => v.as_text matches Ok(s) ==> r == dt::text_in_range(s@),
            _ => r,
        },
        v.kind is Text && v.as_text is Err ==> r,
{
}

/// The names of types are those of the script language, which knows integers apart from other
/// numbers; a length of time is userdata to it.
pub proof fn law_names_of_types(v: ScriptValue, r: String)
    requires
        call_ensures(ScriptValue::type_text, (&v,), r),
    ensures
        match v.kind {
            ValueKind::Nil => r@ == "nil"@,
            ValueKind::Boolean(_) => r@ == "boolean"@,
            ValueKind::Integer(_) => r@ == "integer"@,
            ValueKind::Number(_) => r@ == "number"@,
            ValueKind::Text => r@ == "string"@,
            ValueKind::Dt(_) | ValueKind::UserData => r@ == "userdata"@,
            ValueKind::Table(_) => r@ == "table"@,
            ValueKind::Other(name) => r@ == name@,
        },
{
}

/// An error names what was wrong: the type that a value has, the field that is missing, or the
/// message of the conversion as it is.
pub proof fn law_errors_name_what_is_wrong(e: ScriptError, r: Option<String>)
    requires
        call_ensures(ScriptError::message, (&e,), r),
    ensures
        e is Dt ==> r is None,
        !(e is Dt) ==> r is Some,
        e matches ScriptError::Conversion(m) ==> r->Some_0@ == m@,
        e matches ScriptError::Missing(name) ==> r->Some_0@ == "missing field "@ + name@,
        e matches ScriptError::NotTable(t) ==> r->Some_0@ == "error converting Lua "@ + t@
            + " to table"@,
        e matches ScriptError::NotCollection(t, to) ==> r->Some_0@ == "error converting Lua "@ + t@
            + " to "@ + to@ + " (expected table)"@,
        e matches ScriptError::NotDt(t) ==> r->Some_0@ == t@ + " cannot be converted to dt"@,
{
}

} // verus!
