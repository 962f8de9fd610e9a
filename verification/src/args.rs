//! The arguments that a script asks for.
use crate::binary64;
use crate::dt;
use crate::dt::{check_text_range, Binary64, LuaDt, ParseDtError};
use crate::maps;
use crate::maps::get_text;
use crate::text;
use crate::text::{concat3, integer_text};
use crate::value::{ScriptError, ScriptErrorView, ScriptValue, ValueKind};
use rustc_hash::FxHashMap;
use std::num::ParseIntError;
use std::sync::Arc;
use vstd::prelude::*;
use vstd::string::*;

verus! {

/// A binary64 number and the text that shows it.
#[derive(Clone, Debug)]
pub struct FloatArg {
    pub value: Binary64,
    pub text: String,
}

/// The value of an argument.
#[derive(Clone, Debug)]
pub enum ArgValue {
    Int(i64),
    Float(FloatArg),
    Bool(bool),
    String(String),
    Dt(LuaDt),
}

/// The value of an argument, in terms of plain values.
pub enum ArgView {
    Int(i64),
    Float(u64, Seq<char>),
    Bool(bool),
    Text(Seq<char>),
    Dt(nat),
}

impl View for ArgValue {
    type V = ArgView;

    open spec fn view(&self) -> ArgView {
        match self {
            ArgValue::Int(i) => ArgView::Int(*i),
            ArgValue::Float(f) => ArgView::Float(f.value.bits, f.text@),
            ArgValue::Bool(b) => ArgView::Bool(*b),
            ArgValue::String(s) => ArgView::Text(s@),
            ArgValue::Dt(t) => ArgView::Dt(t@),
        }
    }
}

/// The text that shows the value of an argument.
pub open spec fn shown(v: ArgView) -> Seq<char> {
    match v {
        ArgView::Int(i) => text::signed_decimal(i as int),
        ArgView::Float(_, t) => t,
        ArgView::Bool(b) => if b {
            "true"@
        } else {
            "false"@
        },
        ArgView::Text(t) => t,
        ArgView::Dt(t) => dt::dt_text(t),
    }
}

impl ArgValue {
    /// The text that shows the value.
    pub fn to_text(&self) -> (r: String)
        ensures
            r@ == shown(self@),
            self@ matches ArgView::Dt(t) ==> dt::humantime_parse(r@) == Some(dt::parts(t))
                && dt::text_in_range(r@),
    {
        match self {
            ArgValue::Int(i) => integer_text(*i),
            ArgValue::Float(f) => f.text.clone(),
            ArgValue::Bool(b) => if *b {
                "true".to_owned()
            } else {
                "false".to_owned()
            },
            ArgValue::String(s) => s.clone(),
            ArgValue::Dt(t) => t.to_text(),
        }
    }
}

/// The type that a script gives an argument.
#[derive(Clone, Copy, PartialEq, Eq, Structural, Debug)]
pub enum ArgTy {
    Int,
    Float,
    Bool,
    String,
    Dt,
}

/// Whether a value is of a type.
pub open spec fn has_type(v: ArgView, ty: ArgTy) -> bool {
    match ty {
        ArgTy::Int => v is Int,
        ArgTy::Float => v is Float,
        ArgTy::Bool => v is Bool,
        ArgTy::String => v is Text,
        ArgTy::Dt => v is Dt,
    }
}

/// An argument that a script asks for.
#[derive(Debug)]
pub struct ExpectedArg {
    pub name: String,
    pub ty: ArgTy,
    pub default_value: Option<ArgValue>,
}

/// An argument that a script asks for, in terms of plain values.
pub struct ExpectedView {
    pub name: Seq<char>,
    pub ty: ArgTy,
    pub default_value: Option<ArgView>,
}

/// The view of an optional value.
pub open spec fn option_view(v: Option<ArgValue>) -> Option<ArgView> {
    match v {
        Some(v) => Some(v@),
        None => None,
    }
}

impl View for ExpectedArg {
    type V = ExpectedView;

    open spec fn view(&self) -> ExpectedView {
        ExpectedView {
            name: self.name@,
            ty: self.ty,
            default_value: option_view(self.default_value),
        }
    }
}

/// The views of the arguments of a list.
pub open spec fn expected_views(v: Seq<ExpectedArg>) -> Seq<ExpectedView> {
    v.map_values(|e: ExpectedArg| e@)
}

/// Arguments by name.
pub type ArgsMap = Arc<FxHashMap<String, String>>;

/// Where the values of arguments come from.
pub enum ArgsState {
    /// Arguments that were given, as text.
    Runtime { args: ArgsMap },
    /// No arguments: what the script asks for is noted down.
    Trace { expected_args: Vec<ExpectedArg> },
}

/// Why an argument has no value.
pub enum ArgError {
    IntFormat(ParseIntError),
    FloatFormat(String),
    ExpectedBool,
    DtFormat(ParseDtError),
    Missing(String),
}

/// Why an argument has no value, in terms of plain values.
pub enum ArgErrorView {
    IntFormat(ParseIntError),
    FloatFormat(Seq<char>),
    ExpectedBool,
    DtFormat(humantime::DurationError),
    DtNegative,
    Missing(Seq<char>),
}

impl View for ArgError {
    type V = ArgErrorView;

    open spec fn view(&self) -> ArgErrorView {
        match self {
            ArgError::IntFormat(e) => ArgErrorView::IntFormat(*e),
            ArgError::FloatFormat(s) => ArgErrorView::FloatFormat(s@),
            ArgError::ExpectedBool => ArgErrorView::ExpectedBool,
            ArgError::DtFormat(ParseDtError::InvalidFormat(e)) => ArgErrorView::DtFormat(*e),
            ArgError::DtFormat(ParseDtError::MustBePositive) => ArgErrorView::DtNegative,
            ArgError::Missing(s) => ArgErrorView::Missing(s@),
        }
    }
}

impl ArgError {
    /// The message of the error, where it is not that of a parser.
    pub fn message(&self) -> (r: Option<String>)
        ensures
            r is Some == (self is FloatFormat || self is ExpectedBool || self is Missing),
            r matches Some(m) ==> match self {
                ArgError::FloatFormat(reason) => m@ == reason@,
                ArgError::ExpectedBool => m@ == "expected 'true' or 'false'"@,
                ArgError::Missing(name) => m@ == "missing required argument '"@ + name@ + "'"@,
                _ => false,
            },
    {
        match self {
            ArgError::FloatFormat(reason) => Some(reason.clone()),
            ArgError::ExpectedBool => Some("expected 'true' or 'false'".to_owned()),
            ArgError::Missing(name) => Some(
                concat3("missing required argument '", name.as_str(), "'"),
            ),
            _ => None,
        }
    }
}

/// The error of std's integer parser.
#[verifier::external_type_specification]
#[verifier::external_body]
pub struct ExParseIntError(ParseIntError);

/// The error of std's parser for a text that is not a 64-bit integer.
pub uninterp spec fn int_error(s: Seq<char>) -> ParseIntError;

/// Calls `str::parse` for a 64-bit integer: decimal digits after an optional sign, within
/// the range of the type, and an error for any other text, which is named `int_error`.
#[verifier::external_body]
fn parse_int(s: &str) -> (r: Result<i64, ParseIntError>)
    ensures
        r matches Ok(i) ==> text::integer_value(s@) == Some(i),
        r is Err ==> text::integer_value(s@) is None,
        r matches Err(e) ==> e == int_error(s@),
{
    s.parse()
}

/// What std's parser makes of the text of a number: the number, or the message of its
/// error.
pub type FloatReading = Result<FloatArg, String>;

/// The value that the text of an argument stands for.
pub open spec fn read_text(
    s: Seq<char>,
    ty: ArgTy,
    number: FloatReading,
) -> Result<ArgView, ArgErrorView> {
    match ty {
        ArgTy::Int => match text::integer_value(s) {
            Some(i) => Ok(ArgView::Int(i)),
            None => Err(ArgErrorView::IntFormat(int_error(s))),
        },
        ArgTy::Float => match number {
            Ok(f) => Ok(ArgView::Float(f.value.bits, f.text@)),
            Err(e) => Err(ArgErrorView::FloatFormat(e@)),
        },
        ArgTy::Bool => if s == "true"@ {
            Ok(ArgView::Bool(true))
        } else if s == "false"@ {
            Ok(ArgView::Bool(false))
        } else {
            Err(ArgErrorView::ExpectedBool)
        },
        ArgTy::String => Ok(ArgView::Text(s)),
        ArgTy::Dt => match dt::humantime_parse(s) {
            Some(p) => Ok(ArgView::Dt((p.0 * 1_000_000_000 + p.1) as nat)),
            None => Err(ArgErrorView::DtFormat(dt::humantime_error(s))),
        },
    }
}

/// The value of an argument among those that were given.
pub open spec fn given_value(
    args: Map<Seq<char>, Seq<char>>,
    name: Seq<char>,
    ty: ArgTy,
    default_value: Option<ArgView>,
    number: FloatReading,
) -> Result<ArgView, ArgErrorView> {
    if args.contains_key(name) {
        read_text(args[name], ty, number)
    } else {
        match default_value {
            Some(v) => Ok(v),
            None => Err(ArgErrorView::Missing(name)),
        }
    }
}

/// The value that stands in for an argument while what the script asks for is noted down.
pub open spec fn stand_in(ty: ArgTy) -> ArgView {
    match ty {
        ArgTy::Int => ArgView::Int(0),
        ArgTy::Float => ArgView::Float(0, "0"@),
        ArgTy::Bool => ArgView::Bool(false),
        ArgTy::String => ArgView::Text(Seq::empty()),
        ArgTy::Dt => ArgView::Dt(0),
    }
}

/// Whether the result of reading an argument is the one described.
pub open spec fn is_result(r: Result<ArgValue, ArgError>, v: Result<ArgView, ArgErrorView>) -> bool {
    match r {
        Ok(a) => v == Ok::<ArgView, ArgErrorView>(a@),
        Err(e) => v == Err::<ArgView, ArgErrorView>(e@),
    }
}

/// Reads the text of an argument. `number` is what std's parser for binary64 makes of the
/// text; only an argument of that type reads it.
pub fn parse_argument(s: &String, ty: ArgTy, number: FloatReading) -> (r: Result<ArgValue, ArgError>)
    requires
        ty == ArgTy::Dt ==> dt::text_in_range(s@),
    ensures
        is_result(r, read_text(s@, ty, number)),
        r matches Err(ArgError::DtFormat(e)) ==> e is InvalidFormat,
{
    match ty {
        ArgTy::Int => match parse_int(s.as_str()) {
            Ok(i) => Ok(ArgValue::Int(i)),
            Err(e) => Err(ArgError::IntFormat(e)),
        },
        ArgTy::Float => match number {
            Ok(f) => Ok(ArgValue::Float(f)),
            Err(e) => Err(ArgError::FloatFormat(e)),
        },
        ArgTy::Bool => {
            if *s == "true".to_owned() {
                Ok(ArgValue::Bool(true))
            } else if *s == "false".to_owned() {
                Ok(ArgValue::Bool(false))
            } else {
                Err(ArgError::ExpectedBool)
            }
        },
        ArgTy::String => Ok(ArgValue::String(s.clone())),
        ArgTy::Dt => match LuaDt::from_str(s.as_str()) {
            Ok(t) => Ok(ArgValue::Dt(t)),
            Err(e) => Err(ArgError::DtFormat(e)),
        },
    }
}

impl ArgsState {
    /// Whether the argument can be read: the text of a length of time stays in the range
    /// that humantime adds up.
    pub open spec fn readable(self, name: Seq<char>, ty: ArgTy) -> bool {
        match self {
            ArgsState::Runtime { args } => ty == ArgTy::Dt && maps::text_map(*args).contains_key(
                name,
            ) ==> dt::text_in_range(maps::text_map(*args)[name]),
            ArgsState::Trace { .. } => true,
        }
    }

    /// The text of an argument that was given.
    pub fn given_text(&self, name: &str) -> (r: Option<&String>)
        ensures
            r is Some == (self matches ArgsState::Runtime { args } && maps::text_map(
                **args,
            ).contains_key(name@)),
            r matches Some(s) ==> self matches ArgsState::Runtime { args } && s@
                == maps::text_map(**args)[name@],
    {
        match self {
            ArgsState::Runtime { args } => get_text(&**args, name),
            ArgsState::Trace { .. } => None,
        }
    }

    /// Tells whether the argument can be read.
    pub fn check_readable(&self, name: &str, ty: ArgTy) -> (r: bool)
        ensures
            r == self.readable(name@, ty),
    {
        if let ArgTy::Dt = ty {
            match self.given_text(name) {
                Some(s) => check_text_range(s.as_str()),
                None => true,
            }
        } else {
            true
        }
    }

    /// The value of an argument. Of those given, it is the value that the argument's text
    /// stands for, or else the default. While what the script asks for is noted down, the
    /// argument is put on the list, and a value of its type stands in for it.
    pub fn get_arg(
        &mut self,
        name: &str,
        expected_type: ArgTy,
        default_value: Option<ArgValue>,
        number: FloatReading,
    ) -> (r: Result<ArgValue, ArgError>)
        requires
            old(self).readable(name@, expected_type),
        ensures
            r matches Err(ArgError::DtFormat(e)) ==> e is InvalidFormat,
            match *old(self) {
                ArgsState::Runtime { args } => {
                    &&& *final(self) == *old(self)
                    &&& is_result(
                        r,
                        given_value(
                            maps::text_map(*args),
                            name@,
                            expected_type,
                            option_view(default_value),
                            number,
                        ),
                    )
                },
                ArgsState::Trace { expected_args } => {
                    &&& *final(self) matches ArgsState::Trace { expected_args: after }
                    &&& expected_views(after@) == expected_views(expected_args@).push(
                        ExpectedView {
                            name: name@,
                            ty: expected_type,
                            default_value: option_view(default_value),
                        },
                    )
                    &&& is_result(r, Ok(stand_in(expected_type)))
                },
            },
    {
        match self {
            ArgsState::Runtime { args } => {
                match get_text(&**args, name) {
                    Some(s) => parse_argument(s, expected_type, number),
                    None => match default_value {
                        Some(v) => Ok(v),
                        None => Err(ArgError::Missing(name.to_owned())),
                    },
                }
            },
            ArgsState::Trace { expected_args } => {
                let ghost before = expected_args@;
                let noted = ExpectedArg { name: name.to_owned(), ty: expected_type, default_value };
                let ghost view = noted@;
                expected_args.push(noted);
                assert(expected_views(expected_args@) =~= expected_views(before).push(view));
                match expected_type {
                    ArgTy::Int => Ok(ArgValue::Int(0)),
                    ArgTy::Float => Ok(
                        ArgValue::Float(
                            FloatArg { value: Binary64 { bits: 0 }, text: "0".to_owned() },
                        ),
                    ),
                    ArgTy::Bool => Ok(ArgValue::Bool(false)),
                    ArgTy::String => Ok(ArgValue::String(String::new())),
                    ArgTy::Dt => Ok(ArgValue::Dt(LuaDt::zero())),
                }
            },
        }
    }

    /// Takes the list of what the script asked for, and leaves an empty one.
    pub fn take_expected(&mut self) -> (r: Vec<ExpectedArg>)
        ensures
            match *old(self) {
                ArgsState::Runtime { .. } => r@.len() == 0 && *final(self) == *old(self),
                ArgsState::Trace { expected_args } => r@ == expected_args@ && (*final(self) matches ArgsState::Trace {
                    expected_args: after,
                } && after@.len() == 0),
            },
    {
        match self {
            ArgsState::Runtime { .. } => Vec::new(),
            ArgsState::Trace { expected_args } => {
                let mut taken: Vec<ExpectedArg> = Vec::new();
                std::mem::swap(&mut taken, expected_args);
                taken
            },
        }
    }
}

/// The text that shows the value of an argument reads back as that value, where std reads back
/// the text of a binary64 number: an argument that is given as that text can be read, and has
/// the value.
pub proof fn law_shown_value_reads_back(
    a: ArgValue,
    s: String,
    ty: ArgTy,
    number: FloatReading,
    args: ArgsMap,
    name: Seq<char>,
    default_value: Option<ArgView>,
)
    requires
        has_type(a@, ty),
        a@ matches ArgView::Dt(t) ==> t < binary64::time_limit(),
        a matches ArgValue::Float(f) ==> number == Ok::<FloatArg, String>(f),
        call_ensures(ArgValue::to_text, (&a,), s),
        maps::text_map(*args).contains_key(name),
        maps::text_map(*args)[name] == s@,
    ensures
        read_text(s@, ty, number) == Ok::<ArgView, ArgErrorView>(a@),
        (ArgsState::Runtime { args }).readable(name, ty),
        given_value(maps::text_map(*args), name, ty, default_value, number) == Ok::<
            ArgView,
            ArgErrorView,
        >(a@),
{
    match a@ {
        ArgView::Int(i) => {
            text::lemma_integer_round_trip(i);
        },
        ArgView::Bool(b) => {
            reveal_strlit("true");
            reveal_strlit("false");
            assert("true"@[0] != "false"@[0]);
        },
        _ => {},
    }
}

/// An argument has a value of the type that the script gives it, whether it is given,
/// noted down, or absent with a default of that type.
pub proof fn law_value_has_type(
    args: Map<Seq<char>, Seq<char>>,
    name: Seq<char>,
    ty: ArgTy,
    default_value: Option<ArgView>,
    number: FloatReading,
)
    requires
        default_value matches Some(v) ==> has_type(v, ty),
    ensures
        given_value(args, name, ty, default_value, number) matches Ok(v) ==> has_type(v, ty),
        has_type(stand_in(ty), ty),
{
}

/// An argument that is given does not depend on the default.
pub proof fn law_given_overrides_default(
    args: Map<Seq<char>, Seq<char>>,
    name: Seq<char>,
    ty: ArgTy,
    a: Option<ArgView>,
    b: Option<ArgView>,
    number: FloatReading,
)
    requires
        args.contains_key(name),
    ensures
        given_value(args, name, ty, a, number) == given_value(args, name, ty, b, number),
{
}

/// The value of an argument of a type that a value of a script stands for. A number is shown
/// by the text that comes with it.
pub open spec fn typed_value(value: ScriptValue, ty: ArgTy, number_text: Seq<char>) -> Result<
    ArgView,
    ScriptErrorView,
> {
    match ty {
        ArgTy::Int => match value.integer() {
            Ok(i) => Ok(ArgView::Int(i)),
            Err(e) => Err(e),
        },
        ArgTy::Float => match value.number() {
            Ok(n) => Ok(ArgView::Float(n, number_text)),
            Err(e) => Err(e),
        },
        ArgTy::Bool => Ok(ArgView::Bool(value.truth())),
        ArgTy::String => match value.text() {
            Ok(t) => Ok(ArgView::Text(t)),
            Err(e) => Err(e),
        },
        ArgTy::Dt => match value.dt() {
            Ok(t) => Ok(ArgView::Dt(t)),
            Err(e) => Err(e),
        },
    }
}

/// The default in the options of an argument: nil is no options, and there is no default where
/// the field is nil.
pub open spec fn default_of(options: ScriptValue, ty: ArgTy, number_text: Seq<char>) -> Result<
    Option<ArgView>,
    ScriptErrorView,
> {
    if options.kind is Nil {
        Ok(None)
    } else {
        match options.table() {
            Ok(t) => match t.given("default"@) {
                Some(v) => match typed_value(v, ty, number_text) {
                    Ok(default) => Ok(Some(default)),
                    Err(e) => Err(e),
                },
                None => Ok(None),
            },
            Err(e) => Err(e),
        }
    }
}

/// Whether reading the default ends with one or with an error.
pub open spec fn default_readable(options: ScriptValue, ty: ArgTy) -> bool {
    ty == ArgTy::Dt ==> (options.table() matches Ok(t) ==> (t.given("default"@) matches Some(v)
        ==> v.dt_readable()))
}

/// Tells whether the default can be read from the options.
pub fn check_default_readable(options: &ScriptValue, ty: ArgTy) -> (r: bool)
    ensures
        r == default_readable(*options, ty),
{
    match ty {
        ArgTy::Dt => match options.read_table() {
            Ok(t) => match t.get_given("default") {
                Some(v) => v.check_dt_readable(),
                None => true,
            },
            Err(_) => true,
        },
        _ => true,
    }
}

/// Reads the value of an argument of a type.
fn read_typed(value: &ScriptValue, ty: ArgTy, number_text: String) -> (r: Result<
    ArgValue,
    ScriptError,
>)
    requires
        ty == ArgTy::Dt ==> value.dt_readable(),
    ensures
        r matches Ok(v) ==> typed_value(*value, ty, number_text@) == Ok::<ArgView, ScriptErrorView>(
            v@,
        ),
        r matches Err(e) ==> typed_value(*value, ty, number_text@) == Err::<
            ArgView,
            ScriptErrorView,
        >(e@),
{
    match ty {
        ArgTy::Int => match value.read_integer() {
            Ok(i) => Ok(ArgValue::Int(i)),
            Err(e) => Err(e),
        },
        ArgTy::Float => match value.read_number() {
            Ok(n) => Ok(ArgValue::Float(FloatArg { value: n, text: number_text })),
            Err(e) => Err(e),
        },
        ArgTy::Bool => Ok(ArgValue::Bool(value.read_truth())),
        ArgTy::String => match value.read_text() {
            Ok(t) => Ok(ArgValue::String(t)),
            Err(e) => Err(e),
        },
        ArgTy::Dt => match LuaDt::from_lua(value) {
            Ok(t) => Ok(ArgValue::Dt(t)),
            Err(e) => Err(e),
        },
    }
}

/// Reads the default in the options of an argument.
pub fn read_default(options: &ScriptValue, ty: ArgTy, number_text: String) -> (r: Result<
    Option<ArgValue>,
    ScriptError,
>)
    requires
        default_readable(*options, ty),
    ensures
        r matches Ok(default) ==> default_of(*options, ty, number_text@) == Ok::<
            Option<ArgView>,
            ScriptErrorView,
        >(option_view(default)),
        r matches Err(e) ==> default_of(*options, ty, number_text@) == Err::<
            Option<ArgView>,
            ScriptErrorView,
        >(e@),
{
    match &options.kind {
        ValueKind::Nil => {
            return Ok(None);
        },
        _ => {},
    }
    match options.read_table() {
        Ok(t) => match t.get_given("default") {
            Some(v) => match read_typed(v, ty, number_text) {
                Ok(default) => Ok(Some(default)),
                Err(e) => Err(e),
            },
            None => Ok(None),
        },
        Err(e) => Err(e),
    }
}

/// A default that is read is of the type of its argument.
pub proof fn law_default_has_type(options: ScriptValue, ty: ArgTy, number_text: Seq<char>)
    requires
        default_of(options, ty, number_text) is Ok,
    ensures
        default_of(options, ty, number_text)->Ok_0 matches Some(v) ==> has_type(v, ty),
{
}

/// Whether a result is what the text of an argument of a type stands for: text is taken as it is,
/// an integer is read in decimal, `true` and `false` and nothing else are truth values, a length
/// of time is what humantime reads, and a number what std's parser makes of the text.
pub open spec fn is_reading(
    s: Seq<char>,
    ty: ArgTy,
    number: FloatReading,
    r: Result<ArgValue, ArgError>,
) -> bool {
    match ty {
        ArgTy::String => r matches Ok(ArgValue::String(t)) && t@ == s,
        ArgTy::Int => match text::integer_value(s) {
            Some(i) => r matches Ok(ArgValue::Int(x)) && x == i,
            None => r matches Err(ArgError::IntFormat(e)) && e == int_error(s),
        },
        ArgTy::Bool => if s == "true"@ {
            r matches Ok(ArgValue::Bool(b)) && b
        } else if s == "false"@ {
            r matches Ok(ArgValue::Bool(b)) && !b
        } else {
            r matches Err(ArgError::ExpectedBool)
        },
        ArgTy::Dt => match dt::humantime_parse(s) {
            Some(p) => r matches Ok(ArgValue::Dt(d)) && d@ == p.0 * 1_000_000_000 + p.1,
            None => r matches Err(ArgError::DtFormat(ParseDtError::InvalidFormat(e))) && e
                == dt::humantime_error(s),
        },
        ArgTy::Float => match number {
            Ok(f) => r matches Ok(ArgValue::Float(g)) && g.value.bits == f.value.bits && g.text@
                == f.text@,
            Err(m) => r matches Err(ArgError::FloatFormat(e)) && e@ == m@,
        },
    }
}

/// An argument that is given has the value that its text stands for, whatever the default; one
/// that is not given has its default, and without one it is missing. To ask for an argument
/// changes nothing.
pub proof fn law_argument_is_given_or_default(
    state: &mut ArgsState,
    args: ArgsMap,
    name: &str,
    ty: ArgTy,
    default_value: Option<ArgValue>,
    number: FloatReading,
    r: Result<ArgValue, ArgError>,
)
    requires
        *old(state) == (ArgsState::Runtime { args }),
        call_ensures(ArgsState::get_arg, (state, name, ty, default_value, number), r),
    ensures
        *final(state) == *old(state),
        if maps::text_map(*args).contains_key(name@) {
            is_reading(maps::text_map(*args)[name@], ty, number, r)
        } else {
            match default_value {
                Some(v) => r matches Ok(a) && a@ == v@,
                None => r matches Err(ArgError::Missing(n)) && n@ == name@,
            }
        },
{
    reveal_strlit("true");
    reveal_strlit("false");
    assert("true"@[0] != "false"@[0]);
}

/// While what a script asks for is noted down, each argument is put at the end of the list, with
/// its name, its type and its default, and the others stay as they are. What stands in for it is
/// zero, false or empty, and of its type.
pub proof fn law_argument_is_noted_down(
    state: &mut ArgsState,
    before: Vec<ExpectedArg>,
    name: &str,
    ty: ArgTy,
    default_value: Option<ArgValue>,
    number: FloatReading,
    r: Result<ArgValue, ArgError>,
)
    requires
        *old(state) == (ArgsState::Trace { expected_args: before }),
        call_ensures(ArgsState::get_arg, (state, name, ty, default_value, number), r),
    ensures
        *final(state) matches ArgsState::Trace { expected_args: after } && {
            &&& after@.len() == before@.len() + 1
            &&& forall|i: int| 0 <= i < before@.len() ==> (#[trigger] after@[i])@ == before@[i]@
            &&& after@.last().name@ == name@
            &&& after@.last().ty == ty
            &&& match default_value {
                Some(v) => after@.last().default_value matches Some(d) && d@ == v@,
                None => after@.last().default_value is None,
            }
        },
        match ty {
            ArgTy::Int => r matches Ok(ArgValue::Int(i)) && i == 0,
            ArgTy::Float => r matches Ok(ArgValue::Float(f)) && f.value.bits == 0,
            ArgTy::Bool => r matches Ok(ArgValue::Bool(b)) && !b,
            ArgTy::String => r matches Ok(ArgValue::String(s)) && s@.len() == 0,
            ArgTy::Dt => r matches Ok(ArgValue::Dt(d)) && d@ == 0,
        },
{
    if let ArgsState::Trace { expected_args: after } = *final(state) {
        let views = expected_views(after@);
        assert(views.len() == after@.len());
        assert forall|i: int| 0 <= i < before@.len() implies (#[trigger] after@[i])@
            == before@[i]@ by {
            assert(views[i] == after@[i]@);
            assert(expected_views(before@)[i] == before@[i]@);
        }
        assert(views[before@.len() as int] == after@.last()@);
    }
}

/// The list of what a script asked for is handed out whole, and an empty one is left.
pub proof fn law_noted_arguments_are_taken_once(state: &mut ArgsState, taken: Vec<ExpectedArg>)
    requires
        call_ensures(ArgsState::take_expected, (state,), taken),
    ensures
        *old(state) matches ArgsState::Trace { expected_args: before } ==> {
            &&& taken@ == before@
            &&& *final(state) matches ArgsState::Trace { expected_args: after } && after@.len() == 0
        },
{
}

/// The text that shows a value of an argument: text as it is, an integer in decimal digits that
/// stand for it, after a minus sign where it is negative, `true` or `false`, the text of a number,
/// and for a length of time what humantime writes, and reads as that length.
pub proof fn law_shown_values(a: ArgValue, s: String)
    requires
        call_ensures(ArgValue::to_text, (&a,), s),
        a@ matches ArgView::Dt(t) ==> t < binary64::time_limit(),
    ensures
        s@ == shown(a@),
        match a {
            ArgValue::String(t) => s@ == t@,
            ArgValue::Float(f) => s@ == f.text@,
            ArgValue::Bool(b) => s@ == if b {
                "true"@
            } else {
                "false"@
            },
            ArgValue::Int(i) => {
                let digits = if i < 0 {
                    s@.skip(1)
                } else {
                    s@
                };
                &&& i < 0 ==> s@.len() > 0 && s@[0] == '-'
                &&& text::all_digits(digits)
                &&& digits.len() > 0
                &&& digits.len() > 1 ==> digits[0] != '0'
                &&& text::digits_value(digits) == if i < 0 {
                    -i
                } else {
                    i as int
                }
            },
            ArgValue::Dt(d) => dt::humantime_parse(s@) matches Some(p) && p.0 * 1_000_000_000 + p.1
                == d@,
        },
{
    if let ArgValue::Int(i) = a {
        if i < 0 {
            text::law_decimal_digits((-i) as nat);
            assert(s@.skip(1) =~= text::decimal((-i) as nat));
        } else {
            text::law_decimal_digits(i as nat);
        }
    }
}

/// The default of an argument is the value in the field `default` of its options, as the type of
/// the argument asks for: its integer, its number with the text that shows it, its text, its
/// length of time, or whether it is neither nil nor false. Without options, and where the field is
/// absent or nil, there is none.
pub proof fn law_default_is_what_the_options_give(
    options: ScriptValue,
    ty: ArgTy,
    number_text: String,
    r: Result<Option<ArgValue>, ScriptError>,
)
    requires
        call_ensures(read_default, (&options, ty, number_text), r),
    ensures
        match options.kind {
            ValueKind::Nil => r matches Ok(None),
            ValueKind::Table(t) => match t.field("default"@) {
                None => r matches Ok(None),
                Some(v) => if v.kind is Nil {
                    r matches Ok(None)
                } else {
                    match ty {
                        ArgTy::Int => match v.as_int {
                            Ok(i) => r matches Ok(Some(ArgValue::Int(x))) && x == i,
                            Err(m) => r matches Err(ScriptError::Conversion(c)) && c@ == m@,
                        },
                        ArgTy::Float => match v.as_float {
                            Ok(n) => r matches Ok(Some(ArgValue::Float(f))) && f.value.bits == n.bits
                                && f.text@ == number_text@,
                            Err(m) => r matches Err(ScriptError::Conversion(c)) && c@ == m@,
                        },
                        ArgTy::Bool => r matches Ok(Some(ArgValue::Bool(b))) && b == !(v.kind
                            == ValueKind::Boolean(false)),
                        ArgTy::String => match v.as_text {
                            Ok(s) => r matches Ok(Some(ArgValue::String(x))) && x@ == s@,
                            Err(m) => r matches Err(ScriptError::Conversion(c)) && c@ == m@,
                        },
                        ArgTy::Dt => match v.dt() {
                            Ok(d) => r matches Ok(Some(ArgValue::Dt(x))) && x@ == d,
                            Err(why) => r matches Err(e) && e@ == why,
                        },
                    }
                },
            },
            _ => r matches Err(ScriptError::NotTable(_)),
        },
{
}

/// A default can be read, or refused, wherever it is not to be a length of time, or can be read as
/// one; and an argument that is given wherever it is not to be a length of time, or its text is in
/// range.
pub proof fn law_which_arguments_can_be_read(
    options: ScriptValue,
    ty: ArgTy,
    default_readable: bool,
    state: ArgsState,
    name: &str,
    readable: bool,
)
    requires
        call_ensures(check_default_readable, (&options, ty), default_readable),
        call_ensures(ArgsState::check_readable, (&state, name, ty), readable),
    ensures
        ty != ArgTy::Dt ==> default_readable && readable,
        match options.kind {
            ValueKind::Table(t) => match t.field("default"@) {
                Some(v) => v.dt_readable() ==> default_readable,
                None => default_readable,
            },
            _ => default_readable,
        },
        match state {
            ArgsState::Trace { .. } => readable,
            ArgsState::Runtime { args } => {
                &&& !maps::text_map(*args).contains_key(name@) ==> readable
                &&& dt::text_in_range(maps::text_map(*args)[name@]) ==> readable
            },
        },
{
}

/// An error on an argument names the argument that is missing, and passes the reason of a number on
/// as it is. Those on integers and lengths of time are left to their parsers.
pub proof fn law_argument_errors_name_what_is_wrong(e: ArgError, r: Option<String>)
    requires
        call_ensures(ArgError::message, (&e,), r),
    ensures
        match e {
            ArgError::Missing(name) => r matches Some(m) && m@ == "missing required argument '"@
                + name@ + "'"@,
            ArgError::FloatFormat(reason) => r matches Some(m) && m@ == reason@,
            ArgError::ExpectedBool => r matches Some(m) && m@ == "expected 'true' or 'false'"@,
            ArgError::IntFormat(_) | ArgError::DtFormat(_) => r is None,
        },
{
}

} // verus!
