//! Metrics: what scripts and the load generator measure.
use crate::dt::{Binary64, LuaDt};
use crate::text;
use crate::text::to_lowercase;
use crate::value;
use crate::value::{ScriptError, ScriptErrorView, ScriptTable, ScriptValue, ValueKind};
use rustc_hash::FxHashMap;
use vstd::prelude::*;
use vstd::string::*;

verus! {

/// A measured value.
#[derive(Clone, Copy, Debug)]
pub enum MetricData {
    Int(i64),
    Float(Binary64),
    Dt(LuaDt),
    Bool(bool),
}

/// A measured value, in terms of plain values.
pub enum MetricView {
    Int(i64),
    Float(u64),
    Dt(nat),
    Bool(bool),
}

impl View for MetricData {
    type V = MetricView;

    open spec fn view(&self) -> MetricView {
        match self {
            MetricData::Int(i) => MetricView::Int(*i),
            MetricData::Float(n) => MetricView::Float(n.bits),
            MetricData::Dt(t) => MetricView::Dt(t@),
            MetricData::Bool(b) => MetricView::Bool(*b),
        }
    }
}

/// The type of a column of a metric.
#[derive(Clone, Copy, PartialEq, Eq, Structural, Debug)]
pub enum ColType {
    Dt,
    Int,
    Float,
    Bool,
}

impl ColType {
    /// The type that a text in lower case names.
    pub open spec fn named(s: Seq<char>) -> Option<ColType> {
        if s == "dt"@ {
            Some(ColType::Dt)
        } else if s == "int"@ {
            Some(ColType::Int)
        } else if s == "float"@ {
            Some(ColType::Float)
        } else if s == "bool"@ {
            Some(ColType::Bool)
        } else {
            None
        }
    }

    /// The type that a text in lower case names.
    pub fn from_name(s: &String) -> (r: Option<ColType>)
        ensures
            r == ColType::named(s@),
    {
        if *s == "dt".to_owned() {
            Some(ColType::Dt)
        } else if *s == "int".to_owned() {
            Some(ColType::Int)
        } else if *s == "float".to_owned() {
            Some(ColType::Float)
        } else if *s == "bool".to_owned() {
            Some(ColType::Bool)
        } else {
            None
        }
    }

    /// The type that a value of a script names.
    pub open spec fn of(value: ScriptValue) -> Result<ColType, ScriptErrorView> {
        match value.text() {
            Ok(s) => match ColType::named(text::lowercase(s)) {
                Some(ty) => Ok(ty),
                None => Err(ScriptErrorView::ColType),
            },
            Err(e) => Err(e),
        }
    }

    /// Reads a type by its name, in small or capital letters.
    pub fn from_lua(value: &ScriptValue) -> (r: Result<ColType, ScriptError>)
        ensures
            r matches Ok(ty) ==> ColType::of(*value) == Ok::<ColType, ScriptErrorView>(ty),
            r matches Err(e) ==> ColType::of(*value) == Err::<ColType, ScriptErrorView>(e@),
    {
        match value.read_text() {
            Ok(s) => {
                let lower = to_lowercase(s.as_str());
                match ColType::from_name(&lower) {
                    Some(ty) => Ok(ty),
                    None => Err(ScriptError::ColType),
                }
            },
            Err(e) => Err(e),
        }
    }
}

/// What a map from text to column types holds.
pub uninterp spec fn column_map(m: FxHashMap<String, ColType>) -> Map<Seq<char>, ColType>;

/// Calls `FxHashMap::default`, which makes a map that holds nothing.
#[verifier::external_body]
fn new_column_map() -> (r: FxHashMap<String, ColType>)
    ensures
        column_map(r).dom() == Set::<Seq<char>>::empty(),
{
    FxHashMap::default()
}

/// Calls `HashMap::insert`: the key then has the value, in place of one it had before.
#[verifier::external_body]
fn insert_column(m: &mut FxHashMap<String, ColType>, key: String, value: ColType)
    ensures
        column_map(*final(m)) == column_map(*old(m)).insert(key@, value),
{
    m.insert(key, value);
}

/// Calls `HashMap::get`: the value of a key, where the map holds the key.
#[verifier::external_body]
fn get_column(m: &FxHashMap<String, ColType>, key: &str) -> (r: Option<ColType>)
    ensures
        r is Some == column_map(*m).contains_key(key@),
        r matches Some(ty) ==> ty == column_map(*m)[key@],
{
    m.get(key).copied()
}

/// What a map from text to measured values holds.
pub uninterp spec fn data_map(m: FxHashMap<String, MetricData>) -> Map<Seq<char>, MetricView>;

/// Calls `FxHashMap::default`, which makes a map that holds nothing.
#[verifier::external_body]
fn new_data_map() -> (r: FxHashMap<String, MetricData>)
    ensures
        data_map(r).dom() == Set::<Seq<char>>::empty(),
{
    FxHashMap::default()
}

/// Calls `HashMap::insert`: the key then has the value, in place of one it had before.
#[verifier::external_body]
fn insert_data(m: &mut FxHashMap<String, MetricData>, key: String, value: MetricData)
    ensures
        data_map(*final(m)) == data_map(*old(m)).insert(key@, value@),
{
    m.insert(key, value);
}

/// The name of a metric and the types of its columns.
pub struct MetricSchema {
    pub name: String,
    pub cols: FxHashMap<String, ColType>,
}

/// The name of a metric and the types of its columns, in terms of plain values.
pub struct SchemaView {
    pub name: Seq<char>,
    pub cols: Map<Seq<char>, ColType>,
}

impl View for MetricSchema {
    type V = SchemaView;

    open spec fn view(&self) -> SchemaView {
        SchemaView { name: self.name@, cols: column_map(self.cols) }
    }
}

/// The columns that the keys and values of a table describe, or the error of the first that
/// describe none. A later column takes the place of an earlier one with its name.
pub open spec fn columns_of(pairs: Seq<(ScriptValue, ScriptValue)>) -> Result<
    Map<Seq<char>, ColType>,
    ScriptErrorView,
>
    decreases pairs.len(),
{
    if pairs.len() == 0 {
        Ok(Map::empty())
    } else {
        match columns_of(pairs.drop_last()) {
            Ok(cols) => match pairs.last().0.text() {
                Ok(name) => match ColType::of(pairs.last().1) {
                    Ok(ty) => Ok(cols.insert(name, ty)),
                    Err(e) => Err(e),
                },
                Err(e) => Err(e),
            },
            Err(e) => Err(e),
        }
    }
}

/// Once a pair describes no column, what follows does not matter.
proof fn lemma_first_column_error_stays(pairs: Seq<(ScriptValue, ScriptValue)>, n: int)
    requires
        0 <= n <= pairs.len(),
        columns_of(pairs.take(n)) is Err,
    ensures
        columns_of(pairs) == columns_of(pairs.take(n)),
    decreases pairs.len() - n,
{
    if n == pairs.len() {
        assert(pairs.take(n) =~= pairs);
    } else {
        assert(pairs.take(n + 1).drop_last() =~= pairs.take(n));
        lemma_first_column_error_stays(pairs, n + 1);
    }
}

/// Reads the columns that the keys and values of a table describe.
fn read_columns(pairs: &Vec<(ScriptValue, ScriptValue)>) -> (r: Result<
    FxHashMap<String, ColType>,
    ScriptError,
>)
    ensures
        r matches Ok(cols) ==> columns_of(pairs@) == Ok::<
            Map<Seq<char>, ColType>,
            ScriptErrorView,
        >(column_map(cols)),
        r matches Err(e) ==> columns_of(pairs@) == Err::<Map<Seq<char>, ColType>, ScriptErrorView>(
            e@,
        ),
{
    let mut cols = new_column_map();
    let mut i: usize = 0;
    assert(column_map(cols) =~= Map::<Seq<char>, ColType>::empty());
    while i < pairs.len()
        invariant
            i <= pairs@.len(),
            columns_of(pairs@.take(i as int)) == Ok::<Map<Seq<char>, ColType>, ScriptErrorView>(
                column_map(cols),
            ),
        decreases pairs@.len() - i,
    {
        proof {
            assert(pairs@.take(i + 1).drop_last() =~= pairs@.take(i as int));
            assert(pairs@.take(i + 1).last() == pairs@[i as int]);
        }
        let name = match pairs[i].0.read_text() {
            Ok(name) => name,
            Err(e) => {
                proof {
                    lemma_first_column_error_stays(pairs@, i + 1);
                }
                return Err(e);
            },
        };
        match ColType::from_lua(&pairs[i].1) {
            Ok(ty) => {
                insert_column(&mut cols, name, ty);
            },
            Err(e) => {
                proof {
                    lemma_first_column_error_stays(pairs@, i + 1);
                }
                return Err(e);
            },
        }
        i = i + 1;
    }
    assert(pairs@.take(i as int) =~= pairs@);
    Ok(cols)
}

impl MetricSchema {
    /// The metric that a table describes.
    pub open spec fn of(value: ScriptValue) -> Result<SchemaView, ScriptErrorView> {
        match value.table() {
            Ok(t) => match t.required_text("name"@) {
                Ok(name) => match t.required("cols"@) {
                    Ok(cols) => match cols.collection("HashMap<String, ColType, FxBuildHasher>"@) {
                        Ok(cols) => match columns_of(cols.pairs@) {
                            Ok(cols) => Ok(SchemaView { name, cols }),
                            Err(e) => Err(e),
                        },
                        Err(e) => Err(e),
                    },
                    Err(e) => Err(e),
                },
                Err(e) => Err(e),
            },
            Err(e) => Err(e),
        }
    }

    /// Reads a metric from a table: its name, then its columns.
    pub fn from_lua(value: &ScriptValue) -> (r: Result<MetricSchema, ScriptError>)
        ensures
            r matches Ok(schema) ==> MetricSchema::of(*value) == Ok::<SchemaView, ScriptErrorView>(
                schema@,
            ),
            r matches Err(e) ==> MetricSchema::of(*value) == Err::<SchemaView, ScriptErrorView>(
                e@,
            ),
    {
        let t = match value.read_table() {
            Ok(t) => t,
            Err(e) => {
                return Err(e);
            },
        };
        let name = match t.get_required_text("name") {
            Ok(name) => name,
            Err(e) => {
                return Err(e);
            },
        };
        let cols = match t.get_required("cols") {
            Ok(cols) => match cols.read_collection("HashMap<String, ColType, FxBuildHasher>") {
                Ok(cols) => cols,
                Err(e) => {
                    return Err(e);
                },
            },
            Err(e) => {
                return Err(e);
            },
        };
        match read_columns(&cols.pairs) {
            Ok(cols) => Ok(MetricSchema { name, cols }),
            Err(e) => Err(e),
        }
    }
}

/// What was measured at a point in time, for a metric.
#[derive(Debug)]
pub struct DataPoint {
    pub metric: String,
    pub timestamp: LuaDt,
    pub values: FxHashMap<String, MetricData>,
}

/// What was measured at a point in time, in terms of plain values.
pub struct DataPointView {
    pub metric: Seq<char>,
    pub timestamp: nat,
    pub values: Map<Seq<char>, MetricView>,
}

impl View for DataPoint {
    type V = DataPointView;

    open spec fn view(&self) -> DataPointView {
        DataPointView {
            metric: self.metric@,
            timestamp: self.timestamp@,
            values: data_map(self.values),
        }
    }
}

/// A data point with a single value.
pub open spec fn single(
    timestamp: nat,
    metric: Seq<char>,
    key: Seq<char>,
    value: MetricView,
) -> DataPointView {
    DataPointView { metric, timestamp, values: Map::empty().insert(key, value) }
}

/// A data point that counts one event.
pub open spec fn counted(timestamp: nat, metric: Seq<char>) -> DataPointView {
    single(timestamp, metric, "value"@, MetricView::Int(1))
}

/// A data point that holds a length of time.
pub open spec fn timed(timestamp: nat, metric: Seq<char>, duration: nat) -> DataPointView {
    single(timestamp, metric, "duration"@, MetricView::Dt(duration))
}

impl DataPoint {
    /// A data point with a single value.
    pub fn single(timestamp: LuaDt, metric: &str, key: &str, value: MetricData) -> (r: DataPoint)
        ensures
            r@ == single(timestamp@, metric@, key@, value@),
    {
        let mut values = new_data_map();
        assert(data_map(values) =~= Map::<Seq<char>, MetricView>::empty());
        insert_data(&mut values, key.to_owned(), value);
        DataPoint { metric: metric.to_owned(), timestamp, values }
    }

    /// A data point that counts one event.
    pub fn count(timestamp: LuaDt, metric: &str) -> (r: DataPoint)
        ensures
            r@ == counted(timestamp@, metric@),
    {
        DataPoint::single(timestamp, metric, "value", MetricData::Int(1))
    }

    /// A data point that holds a length of time.
    pub fn time(timestamp: LuaDt, metric: &str, duration: LuaDt) -> (r: DataPoint)
        ensures
            r@ == timed(timestamp@, metric@, duration@),
    {
        DataPoint::single(timestamp, metric, "duration", MetricData::Dt(duration))
    }
}

/// Whether a value is read as a length of time for a column.
pub open spec fn reads_dt(
    cols: Map<Seq<char>, ColType>,
    key: Seq<char>,
    value: ScriptValue,
) -> bool {
    if cols.contains_key(key) {
        cols[key] == ColType::Dt
    } else {
        value.kind is Dt || value.kind is UserData
    }
}

/// The measured value under a key: of the type of the column, or, without a column, of the
/// type that the value has.
pub open spec fn datum(
    cols: Map<Seq<char>, ColType>,
    key: Seq<char>,
    value: ScriptValue,
) -> Result<MetricView, ScriptErrorView> {
    if reads_dt(cols, key, value) {
        match value.dt() {
            Ok(t) => Ok(MetricView::Dt(t)),
            Err(e) => Err(e),
        }
    } else if cols.contains_key(key) {
        match cols[key] {
            ColType::Int => match value.integer() {
                Ok(i) => Ok(MetricView::Int(i)),
                Err(e) => Err(e),
            },
            ColType::Float => match value.number() {
                Ok(n) => Ok(MetricView::Float(n)),
                Err(e) => Err(e),
            },
            _ => Ok(MetricView::Bool(value.truth())),
        }
    } else {
        match value.kind {
            ValueKind::Boolean(b) => Ok(MetricView::Bool(b)),
            ValueKind::Integer(i) => Ok(MetricView::Int(i)),
            ValueKind::Number(n) => Ok(MetricView::Float(n.bits)),
            _ => Err(ScriptErrorView::Unsupported),
        }
    }
}

/// The values that a script measured, or the error of the first that is none. A later value
/// takes the place of an earlier one under its key.
pub open spec fn data_of(
    cols: Map<Seq<char>, ColType>,
    pairs: Seq<(ScriptValue, ScriptValue)>,
) -> Result<Map<Seq<char>, MetricView>, ScriptErrorView>
    decreases pairs.len(),
{
    if pairs.len() == 0 {
        Ok(Map::empty())
    } else {
        match data_of(cols, pairs.drop_last()) {
            Ok(data) => match pairs.last().0.text() {
                Ok(key) => match datum(cols, key, pairs.last().1) {
                    Ok(value) => Ok(data.insert(key, value)),
                    Err(e) => Err(e),
                },
                Err(e) => Err(e),
            },
            Err(e) => Err(e),
        }
    }
}

/// Whether reading the value of a pair ends with one or with an error.
pub open spec fn datum_readable(
    cols: Map<Seq<char>, ColType>,
    pair: (ScriptValue, ScriptValue),
) -> bool {
    pair.0.text() matches Ok(key) ==> (reads_dt(cols, key, pair.1) ==> pair.1.dt_readable())
}

/// Whether reading the values, up to the first that is none, comes to an end.
pub open spec fn data_readable(
    cols: Map<Seq<char>, ColType>,
    pairs: Seq<(ScriptValue, ScriptValue)>,
) -> bool {
    forall|i: int|
        0 <= i < pairs.len() && data_of(cols, pairs.take(i)) is Ok ==> datum_readable(
            cols,
            #[trigger] pairs[i],
        )
}

/// Once a pair holds no value, what follows does not matter.
proof fn lemma_first_datum_error_stays(
    cols: Map<Seq<char>, ColType>,
    pairs: Seq<(ScriptValue, ScriptValue)>,
    n: int,
)
    requires
        0 <= n <= pairs.len(),
        data_of(cols, pairs.take(n)) is Err,
    ensures
        data_of(cols, pairs) == data_of(cols, pairs.take(n)),
    decreases pairs.len() - n,
{
    if n == pairs.len() {
        assert(pairs.take(n) =~= pairs);
    } else {
        assert(pairs.take(n + 1).drop_last() =~= pairs.take(n));
        lemma_first_datum_error_stays(cols, pairs, n + 1);
    }
}

/// A key with a column of a type holds a value of that type.
pub proof fn law_columns_keep_their_types(
    cols: Map<Seq<char>, ColType>,
    pairs: Seq<(ScriptValue, ScriptValue)>,
    key: Seq<char>,
)
    requires
        data_of(cols, pairs) is Ok,
        data_of(cols, pairs)->Ok_0.contains_key(key),
        cols.contains_key(key),
    ensures
        match cols[key] {
            ColType::Dt => data_of(cols, pairs)->Ok_0[key] is Dt,
            ColType::Int => data_of(cols, pairs)->Ok_0[key] is Int,
            ColType::Float => data_of(cols, pairs)->Ok_0[key] is Float,
            ColType::Bool => data_of(cols, pairs)->Ok_0[key] is Bool,
        },
    decreases pairs.len(),
{
    if pairs.len() > 0 && pairs.last().0.text() != Ok::<Seq<char>, ScriptErrorView>(key) {
        law_columns_keep_their_types(cols, pairs.drop_last(), key);
    }
}

impl MetricSchema {
    /// Reads the measured value under a key.
    fn read_datum(&self, key: &String, value: &ScriptValue) -> (r: Result<MetricData, ScriptError>)
        requires
            reads_dt(self@.cols, key@, *value) ==> value.dt_readable(),
        ensures
            r matches Ok(data) ==> datum(self@.cols, key@, *value) == Ok::<
                MetricView,
                ScriptErrorView,
            >(data@),
            r matches Err(e) ==> datum(self@.cols, key@, *value) == Err::<
                MetricView,
                ScriptErrorView,
            >(e@),
    {
        match get_column(&self.cols, key.as_str()) {
            Some(ColType::Dt) => match LuaDt::from_lua(value) {
                Ok(t) => Ok(MetricData::Dt(t)),
                Err(e) => Err(e),
            },
            Some(ColType::Int) => match value.read_integer() {
                Ok(i) => Ok(MetricData::Int(i)),
                Err(e) => Err(e),
            },
            Some(ColType::Float) => match value.read_number() {
                Ok(n) => Ok(MetricData::Float(n)),
                Err(e) => Err(e),
            },
            Some(ColType::Bool) => Ok(MetricData::Bool(value.read_truth())),
            None => match &value.kind {
                ValueKind::Boolean(b) => Ok(MetricData::Bool(*b)),
                ValueKind::Integer(i) => Ok(MetricData::Int(*i)),
                ValueKind::Number(n) => Ok(MetricData::Float(*n)),
                ValueKind::Dt(_) | ValueKind::UserData => match LuaDt::from_lua(value) {
                    Ok(t) => Ok(MetricData::Dt(t)),
                    Err(e) => Err(e),
                },
                _ => Err(ScriptError::Unsupported),
            },
        }
    }

    /// Tells whether reading the value of a pair ends with one or with an error.
    fn check_datum_readable(&self, pair: &(ScriptValue, ScriptValue)) -> (r: bool)
        ensures
            r == datum_readable(self@.cols, *pair),
    {
        match pair.0.read_text() {
            Ok(key) => {
                let reads = match get_column(&self.cols, key.as_str()) {
                    Some(ColType::Dt) => true,
                    Some(_) => false,
                    None => match &pair.1.kind {
                        ValueKind::Dt(_) | ValueKind::UserData => true,
                        _ => false,
                    },
                };
                !reads || pair.1.check_dt_readable()
            },
            Err(_) => true,
        }
    }

    /// Tells whether a data point can be made of the pairs.
    pub fn check_data_readable(&self, pairs: &Vec<(ScriptValue, ScriptValue)>) -> (r: bool)
        ensures
            r == data_readable(self@.cols, pairs@),
    {
        let mut i: usize = 0;
        while i < pairs.len()
            invariant
                i <= pairs@.len(),
                data_of(self@.cols, pairs@.take(i as int)) is Ok,
                forall|j: int| 0 <= j < i ==> datum_readable(self@.cols, #[trigger] pairs@[j]),
            decreases pairs@.len() - i,
        {
            proof {
                assert(pairs@.take(i + 1).drop_last() =~= pairs@.take(i as int));
                assert(pairs@.take(i + 1).last() == pairs@[i as int]);
            }
            if !self.check_datum_readable(&pairs[i]) {
                assert(!datum_readable(self@.cols, pairs@[i as int]));
                return false;
            }
            let is_value = match pairs[i].0.read_text() {
                Ok(key) => match self.read_datum(&key, &pairs[i].1) {
                    Ok(_) => true,
                    Err(_) => false,
                },
                Err(_) => false,
            };
            if !is_value {
                proof {
                    assert forall|j: int| i < j < pairs@.len() implies data_of(
                        self@.cols,
                        pairs@.take(j),
                    ) is Err by {
                        assert(pairs@.take(j).take(i + 1) =~= pairs@.take(i + 1));
                        lemma_first_datum_error_stays(self@.cols, pairs@.take(j), i + 1);
                    }
                }
                return true;
            }
            i = i + 1;
        }
        true
    }

    /// Reads the values that a script measured.
    fn read_data(&self, pairs: &Vec<(ScriptValue, ScriptValue)>) -> (r: Result<
        FxHashMap<String, MetricData>,
        ScriptError,
    >)
        requires
            data_readable(self@.cols, pairs@),
        ensures
            r matches Ok(data) ==> data_of(self@.cols, pairs@) == Ok::<
                Map<Seq<char>, MetricView>,
                ScriptErrorView,
            >(data_map(data)),
            r matches Err(e) ==> data_of(self@.cols, pairs@) == Err::<
                Map<Seq<char>, MetricView>,
                ScriptErrorView,
            >(e@),
    {
        let mut data = new_data_map();
        let mut i: usize = 0;
        assert(data_map(data) =~= Map::<Seq<char>, MetricView>::empty());
        while i < pairs.len()
            invariant
                i <= pairs@.len(),
                data_readable(self@.cols, pairs@),
                data_of(self@.cols, pairs@.take(i as int)) == Ok::<
                    Map<Seq<char>, MetricView>,
                    ScriptErrorView,
                >(data_map(data)),
            decreases pairs@.len() - i,
        {
            proof {
                assert(pairs@.take(i + 1).drop_last() =~= pairs@.take(i as int));
                assert(pairs@.take(i + 1).last() == pairs@[i as int]);
                assert(datum_readable(self@.cols, pairs@[i as int]));
            }
            let key = match pairs[i].0.read_text() {
                Ok(key) => key,
                Err(e) => {
                    proof {
                        lemma_first_datum_error_stays(self@.cols, pairs@, i + 1);
                    }
                    return Err(e);
                },
            };
            match self.read_datum(&key, &pairs[i].1) {
                Ok(value) => {
                    insert_data(&mut data, key, value);
                },
                Err(e) => {
                    proof {
                        lemma_first_datum_error_stays(self@.cols, pairs@, i + 1);
                    }
                    return Err(e);
                },
            }
            i = i + 1;
        }
        assert(pairs@.take(i as int) =~= pairs@);
        Ok(data)
    }

    /// The data point of this metric with what a script measured, at the time that the script
    /// gives or else now.
    pub fn data_point(
        &self,
        pairs: &Vec<(ScriptValue, ScriptValue)>,
        at: Option<LuaDt>,
        now: LuaDt,
    ) -> (r: Result<DataPoint, ScriptError>)
        requires
            data_readable(self@.cols, pairs@),
        ensures
            r matches Ok(point) ==> data_of(self@.cols, pairs@) == Ok::<
                Map<Seq<char>, MetricView>,
                ScriptErrorView,
            >(point@.values) && point@.metric == self@.name && point@.timestamp == match at {
                Some(t) => t@,
                None => now@,
            },
            r matches Err(e) ==> data_of(self@.cols, pairs@) == Err::<
                Map<Seq<char>, MetricView>,
                ScriptErrorView,
            >(e@),
    {
        let timestamp = match at {
            Some(t) => t,
            None => now,
        };
        match self.read_data(pairs) {
            Ok(values) => Ok(DataPoint { metric: self.name.clone(), timestamp, values }),
            Err(e) => Err(e),
        }
    }
}

/// The time in the options of a data point: nil is no options, and no time is given where the
/// field is nil.
pub open spec fn option_at(options: ScriptValue) -> Result<Option<nat>, ScriptErrorView> {
    if options.kind is Nil {
        Ok(None)
    } else {
        match options.table() {
            Ok(t) => match t.given("at"@) {
                Some(v) => match v.dt() {
                    Ok(at) => Ok(Some(at)),
                    Err(e) => Err(e),
                },
                None => Ok(None),
            },
            Err(e) => Err(e),
        }
    }
}

/// Whether reading the time in the options ends with one or with an error.
pub open spec fn option_at_readable(options: ScriptValue) -> bool {
    options.table() matches Ok(t) ==> (t.given("at"@) matches Some(v) ==> v.dt_readable())
}

/// Tells whether the time can be read from the options.
pub fn check_option_at_readable(options: &ScriptValue) -> (r: bool)
    ensures
        r == option_at_readable(*options),
{
    match options.read_table() {
        Ok(t) => match t.get_given("at") {
            Some(v) => v.check_dt_readable(),
            None => true,
        },
        Err(_) => true,
    }
}

/// Reads the time in the options of a data point.
pub fn read_option_at(options: &ScriptValue) -> (r: Result<Option<LuaDt>, ScriptError>)
    requires
        option_at_readable(*options),
    ensures
        r matches Ok(at) ==> option_at(*options) == Ok::<Option<nat>, ScriptErrorView>(
            match at {
                Some(t) => Some(t@),
                None => None,
            },
        ),
        r matches Err(e) ==> option_at(*options) == Err::<Option<nat>, ScriptErrorView>(e@),
{
    match &options.kind {
        ValueKind::Nil => {
            return Ok(None);
        },
        _ => {},
    }
    match options.read_table() {
        Ok(t) => match t.get_given("at") {
            Some(v) => match LuaDt::from_lua(v) {
                Ok(at) => Ok(Some(at)),
                Err(e) => Err(e),
            },
            None => Ok(None),
        },
        Err(e) => Err(e),
    }
}

/// The measured value that a value of a script is in a column of a type: for `int` its integer,
/// for `float` its number, for `dt` its length of time, and for `bool` whether it is neither nil
/// nor false.
pub open spec fn measured_as(v: ScriptValue, ty: ColType, data: MetricView) -> bool {
    match ty {
        ColType::Int => v.as_int matches Ok(i) && data == MetricView::Int(i),
        ColType::Float => v.as_float matches Ok(n) && data == MetricView::Float(n.bits),
        ColType::Dt => v.dt() matches Ok(t) && data == MetricView::Dt(t),
        ColType::Bool => data == MetricView::Bool(
            !(v.kind is Nil || v.kind == ValueKind::Boolean(false)),
        ),
    }
}

/// The measured value that a value of a script is by itself.
pub open spec fn measured_alone(v: ScriptValue, data: MetricView) -> bool {
    match v.kind {
        ValueKind::Boolean(b) => data == MetricView::Bool(b),
        ValueKind::Integer(i) => data == MetricView::Int(i),
        ValueKind::Number(n) => data == MetricView::Float(n.bits),
        ValueKind::Dt(t) => data == MetricView::Dt(t@),
        _ => false,
    }
}

/// Whether a value is the measured one under a key.
pub open spec fn measured(
    cols: Map<Seq<char>, ColType>,
    key: Seq<char>,
    v: ScriptValue,
    data: MetricView,
) -> bool {
    if cols.contains_key(key) {
        measured_as(v, cols[key], data)
    } else {
        measured_alone(v, data)
    }
}

/// A data point bears the name of its metric and the time that the script gives, or else the time
/// now. Under each key of the table it holds the value of the key, as the column asks for or,
/// without a column, as the value is; the last one where a key comes more than once. It holds
/// nothing else.
pub proof fn law_data_point_holds_what_was_measured(
    schema: MetricSchema,
    pairs: Vec<(ScriptValue, ScriptValue)>,
    at: Option<LuaDt>,
    now: LuaDt,
    point: DataPoint,
)
    requires
        call_ensures(
            MetricSchema::data_point,
            (&schema, &pairs, at, now),
            Ok::<DataPoint, ScriptError>(point),
        ),
    ensures
        point.metric@ == schema.name@,
        at matches Some(t) ==> point.timestamp@ == t@,
        at is None ==> point.timestamp@ == now@,
        forall|i: int|
            0 <= i < pairs@.len() ==> {
                &&& (#[trigger] pairs@[i]).0.as_text matches Ok(key)
                &&& data_map(point.values).contains_key(key@)
                &&& value::last_of_its_key(pairs@, i) ==> measured(
                    column_map(schema.cols),
                    key@,
                    pairs@[i].1,
                    data_map(point.values)[key@],
                )
            },
        forall|key: Seq<char>| #[trigger]
            data_map(point.values).contains_key(key) ==> exists|i: int|
                0 <= i < pairs@.len() && value::key_text(#[trigger] pairs@[i]) == key,
{
    let cols = column_map(schema.cols);
    assert forall|i: int| 0 <= i < pairs@.len() implies {
        &&& (#[trigger] pairs@[i]).0.as_text matches Ok(key)
        &&& data_map(point.values).contains_key(key@)
        &&& value::last_of_its_key(pairs@, i) ==> measured(
            cols,
            key@,
            pairs@[i].1,
            data_map(point.values)[key@],
        )
    } by {
        lemma_datum_under_key(cols, pairs@, i);
    }
    assert forall|key: Seq<char>| #[trigger]
        data_map(point.values).contains_key(key) implies exists|i: int|
        0 <= i < pairs@.len() && value::key_text(#[trigger] pairs@[i]) == key by {
        lemma_data_keys(cols, pairs@, key);
    }
}

/// A data point is made exactly where every key is text and every value can be measured under its
/// key.
pub proof fn law_data_point_is_made_of_values(
    schema: MetricSchema,
    pairs: Vec<(ScriptValue, ScriptValue)>,
    at: Option<LuaDt>,
    now: LuaDt,
    r: Result<DataPoint, ScriptError>,
)
    requires
        call_ensures(MetricSchema::data_point, (&schema, &pairs, at, now), r),
    ensures
        r is Ok == (forall|i: int|
            0 <= i < pairs@.len() ==> {
                &&& (#[trigger] pairs@[i]).0.as_text matches Ok(key)
                &&& exists|data: MetricView| #[trigger]
                    measured(column_map(schema.cols), key@, pairs@[i].1, data)
            }),
{
    lemma_data_exists(column_map(schema.cols), pairs@);
}

/// What is measured under a key is what the value is.
proof fn lemma_datum(cols: Map<Seq<char>, ColType>, key: Seq<char>, v: ScriptValue)
    ensures
        datum(cols, key, v) matches Ok(data) ==> measured(cols, key, v, data),
        forall|data: MetricView| #[trigger]
            measured(cols, key, v, data) ==> datum(cols, key, v) == Ok::<
                MetricView,
                ScriptErrorView,
            >(data),
{
}

/// Whether a pair has text as its key and a value that can be measured under it.
pub open spec fn measurable(cols: Map<Seq<char>, ColType>, pair: (ScriptValue, ScriptValue)) -> bool {
    &&& pair.0.as_text matches Ok(key)
    &&& exists|data: MetricView| #[trigger] measured(cols, key@, pair.1, data)
}

/// Values are read where each of them can be measured.
proof fn lemma_data_exists(cols: Map<Seq<char>, ColType>, pairs: Seq<(ScriptValue, ScriptValue)>)
    ensures
        data_of(cols, pairs) is Ok == (forall|i: int|
            0 <= i < pairs.len() ==> measurable(cols, #[trigger] pairs[i])),
    decreases pairs.len(),
{
    if pairs.len() > 0 {
        let less = pairs.drop_last();
        let last = pairs.last();
        lemma_data_exists(cols, less);
        assert(pairs[pairs.len() - 1] == last);
        if let Ok(key) = last.0.text() {
            lemma_datum(cols, key, last.1);
            if let Ok(data) = datum(cols, key, last.1) {
                assert(measured(cols, key, last.1, data));
            }
        }
        if data_of(cols, pairs) is Ok {
            assert forall|i: int| 0 <= i < pairs.len() implies measurable(
                cols,
                #[trigger] pairs[i],
            ) by {
                if i < less.len() {
                    assert(less[i] == pairs[i]);
                }
            }
        }
        if forall|i: int| 0 <= i < pairs.len() ==> measurable(cols, #[trigger] pairs[i]) {
            assert forall|i: int| 0 <= i < less.len() implies measurable(
                cols,
                #[trigger] less[i],
            ) by {
                assert(less[i] == pairs[i]);
            }
        }
    }
}

/// A value that is read stands under its key.
proof fn lemma_datum_under_key(
    cols: Map<Seq<char>, ColType>,
    pairs: Seq<(ScriptValue, ScriptValue)>,
    i: int,
)
    requires
        data_of(cols, pairs) is Ok,
        0 <= i < pairs.len(),
    ensures
        pairs[i].0.as_text is Ok,
        data_of(cols, pairs)->Ok_0.contains_key(value::key_text(pairs[i])),
        value::last_of_its_key(pairs, i) ==> measured(
            cols,
            value::key_text(pairs[i]),
            pairs[i].1,
            data_of(cols, pairs)->Ok_0[value::key_text(pairs[i])],
        ),
    decreases pairs.len(),
{
    let less = pairs.drop_last();
    let n = less.len() as int;
    if i < n {
        lemma_datum_under_key(cols, less, i);
        assert(less[i] == pairs[i]);
        if value::last_of_its_key(pairs, i) {
            assert(value::key_text(pairs[n]) != value::key_text(pairs[i]));
            assert(value::last_of_its_key(less, i)) by {
                assert forall|j: int| i < j < less.len() implies value::key_text(#[trigger] less[j])
                    != value::key_text(less[i]) by {
                    assert(less[j] == pairs[j]);
                }
            }
        }
    } else {
        lemma_datum(cols, value::key_text(pairs[n]), pairs[n].1);
    }
}

/// There are no values but those under the keys.
proof fn lemma_data_keys(
    cols: Map<Seq<char>, ColType>,
    pairs: Seq<(ScriptValue, ScriptValue)>,
    key: Seq<char>,
)
    requires
        data_of(cols, pairs) is Ok,
        data_of(cols, pairs)->Ok_0.contains_key(key),
    ensures
        exists|i: int| 0 <= i < pairs.len() && value::key_text(#[trigger] pairs[i]) == key,
    decreases pairs.len(),
{
    let less = pairs.drop_last();
    let n = less.len() as int;
    if value::key_text(pairs[n]) != key {
        lemma_data_keys(cols, less, key);
        let i = choose|i: int| 0 <= i < less.len() && value::key_text(#[trigger] less[i]) == key;
        assert(value::key_text(pairs[i]) == key);
    }
}

/// The name of a column type.
pub open spec fn column_name(ty: ColType) -> Seq<char> {
    match ty {
        ColType::Dt => "dt"@,
        ColType::Int => "int"@,
        ColType::Float => "float"@,
        ColType::Bool => "bool"@,
    }
}

/// A column type is read by its name, in small or capital letters, and by no other text.
pub proof fn law_column_types_by_name(v: ScriptValue, ty: ColType, r: Result<ColType, ScriptError>)
    requires
        call_ensures(ColType::from_lua, (&v,), r),
    ensures
        r == Ok::<ColType, ScriptError>(ty) <==> (v.as_text matches Ok(s) && text::lowercase(s@)
            == column_name(ty)),
{
    reveal_strlit("dt");
    reveal_strlit("int");
    reveal_strlit("float");
    reveal_strlit("bool");
    assert("dt"@[0] == 'd' && "int"@[0] == 'i' && "float"@[0] == 'f' && "bool"@[0] == 'b');
}

/// A metric has the name in its field `name`, and for each key in its field `cols` a column with
/// the type that the value names, the last one where a key comes more than once; and no others.
pub proof fn law_metric_has_the_columns_listed(
    v: ScriptValue,
    t: ScriptTable,
    cols: ScriptValue,
    list: ScriptTable,
    schema: MetricSchema,
)
    requires
        v.kind == ValueKind::Table(t),
        t.field("cols"@) == Some(cols),
        cols.kind == ValueKind::Table(list),
        call_ensures(MetricSchema::from_lua, (&v,), Ok::<MetricSchema, ScriptError>(schema)),
    ensures
        t.field("name"@) matches Some(name) && (name.as_text matches Ok(s) && schema.name@ == s@),
        forall|i: int|
            0 <= i < list.pairs@.len() ==> {
                &&& (#[trigger] list.pairs@[i]).0.as_text matches Ok(key)
                &&& list.pairs@[i].1.as_text matches Ok(s)
                &&& column_map(schema.cols).contains_key(key@)
                &&& value::last_of_its_key(list.pairs@, i) ==> text::lowercase(s@) == column_name(
                    column_map(schema.cols)[key@],
                )
            },
        forall|key: Seq<char>| #[trigger]
            column_map(schema.cols).contains_key(key) ==> exists|i: int|
                0 <= i < list.pairs@.len() && value::key_text(#[trigger] list.pairs@[i]) == key,
{
    let pairs = list.pairs@;
    assert forall|i: int| 0 <= i < pairs.len() implies {
        &&& (#[trigger] pairs[i]).0.as_text matches Ok(key)
        &&& pairs[i].1.as_text matches Ok(s)
        &&& column_map(schema.cols).contains_key(key@)
        &&& value::last_of_its_key(pairs, i) ==> text::lowercase(s@) == column_name(
            column_map(schema.cols)[key@],
        )
    } by {
        lemma_column_under_key(pairs, i);
    }
    assert forall|key: Seq<char>| #[trigger]
        column_map(schema.cols).contains_key(key) implies exists|i: int|
        0 <= i < pairs.len() && value::key_text(#[trigger] pairs[i]) == key by {
        lemma_column_keys(pairs, key);
    }
}

/// A column that is read stands under its key.
proof fn lemma_column_under_key(pairs: Seq<(ScriptValue, ScriptValue)>, i: int)
    requires
        columns_of(pairs) is Ok,
        0 <= i < pairs.len(),
    ensures
        pairs[i].0.as_text is Ok,
        pairs[i].1.as_text is Ok,
        columns_of(pairs)->Ok_0.contains_key(value::key_text(pairs[i])),
        value::last_of_its_key(pairs, i) ==> text::lowercase(pairs[i].1.as_text->Ok_0@) == column_name(
            columns_of(pairs)->Ok_0[value::key_text(pairs[i])],
        ),
    decreases pairs.len(),
{
    let less = pairs.drop_last();
    let n = less.len() as int;
    if i < n {
        lemma_column_under_key(less, i);
        assert(less[i] == pairs[i]);
        if value::last_of_its_key(pairs, i) {
            assert(value::key_text(pairs[n]) != value::key_text(pairs[i]));
            assert(value::last_of_its_key(less, i)) by {
                assert forall|j: int| i < j < less.len() implies value::key_text(#[trigger] less[j])
                    != value::key_text(less[i]) by {
                    assert(less[j] == pairs[j]);
                }
            }
        }
    }
}

/// There are no columns but those under the keys.
proof fn lemma_column_keys(pairs: Seq<(ScriptValue, ScriptValue)>, key: Seq<char>)
    requires
        columns_of(pairs) is Ok,
        columns_of(pairs)->Ok_0.contains_key(key),
    ensures
        exists|i: int| 0 <= i < pairs.len() && value::key_text(#[trigger] pairs[i]) == key,
    decreases pairs.len(),
{
    let less = pairs.drop_last();
    let n = less.len() as int;
    if value::key_text(pairs[n]) != key {
        lemma_column_keys(less, key);
        let i = choose|i: int| 0 <= i < less.len() && value::key_text(#[trigger] less[i]) == key;
        assert(value::key_text(pairs[i]) == key);
    }
}

/// A point that counts an event holds the integer one, and a point that holds a length of time
/// that very length. Each bears the metric and the time given, and holds no other value.
pub proof fn law_single_values(
    time: LuaDt,
    name: &str,
    length: LuaDt,
    counted: DataPoint,
    timed: DataPoint,
)
    requires
        call_ensures(DataPoint::count, (time, name), counted),
        call_ensures(DataPoint::time, (time, name, length), timed),
    ensures
        counted.metric@ == name@ && timed.metric@ == name@,
        counted.timestamp@ == time@ && timed.timestamp@ == time@,
        data_map(counted.values).dom() =~= set!["value"@],
        data_map(counted.values)["value"@] == MetricView::Int(1),
        data_map(timed.values).dom() =~= set!["duration"@],
        data_map(timed.values)["duration"@] == MetricView::Dt(length@),
{
}

/// The time of a data point is the length of time in the field `at` of its options. Without
/// options, and where the field is absent or nil, no time is given.
pub proof fn law_time_in_the_options(options: ScriptValue, r: Result<Option<LuaDt>, ScriptError>)
    requires
        call_ensures(read_option_at, (&options,), r),
    ensures
        match options.kind {
            ValueKind::Nil => r matches Ok(None),
            ValueKind::Table(t) => match t.field("at"@) {
                None => r matches Ok(None),
                Some(v) => if v.kind is Nil {
                    r matches Ok(None)
                } else {
                    match v.dt() {
                        Ok(at) => r matches Ok(Some(d)) && d@ == at,
                        Err(why) => r matches Err(e) && e@ == why,
                    }
                },
            },
            _ => r matches Err(ScriptError::NotTable(_)),
        },
{
}

/// Data can be read, or refused, where each value can that is to be a length of time: one whose
/// column asks for it, or, without a column, one that is userdata.
pub proof fn law_which_data_can_be_read(
    schema: MetricSchema,
    pairs: Vec<(ScriptValue, ScriptValue)>,
    r: bool,
)
    requires
        call_ensures(MetricSchema::check_data_readable, (&schema, &pairs), r),
    ensures
        (forall|i: int|
            0 <= i < pairs@.len() ==> {
                let key = value::key_text(#[trigger] pairs@[i]);
                let time = if column_map(schema.cols).contains_key(key) {
                    column_map(schema.cols)[key] == ColType::Dt
                } else {
                    pairs@[i].1.kind is Dt || pairs@[i].1.kind is UserData
                };
                time ==> pairs@[i].1.dt_readable()
            }) ==> r,
{
    let cols = column_map(schema.cols);
    if forall|i: int|
        0 <= i < pairs@.len() ==> {
            let key = value::key_text(#[trigger] pairs@[i]);
            let time = if cols.contains_key(key) {
                cols[key] == ColType::Dt
            } else {
                pairs@[i].1.kind is Dt || pairs@[i].1.kind is UserData
            };
            time ==> pairs@[i].1.dt_readable()
        } {
        assert forall|i: int| 0 <= i < pairs@.len() implies datum_readable(
            cols,
            #[trigger] pairs@[i],
        ) by {
            let key = value::key_text(pairs@[i]);
        }
        assert(data_readable(cols, pairs@));
    }
}

/// The time in the options of a data point can be read, or refused, wherever its field can.
pub proof fn law_which_options_can_be_read(options: ScriptValue, r: bool)
    requires
        call_ensures(check_option_at_readable, (&options,), r),
    ensures
        match options.kind {
            ValueKind::Table(t) => match t.field("at"@) {
                Some(v) => v.dt_readable() ==> r,
                None => r,
            },
            _ => r,
        },
{
}

/// A point with a single value holds that value under its key, and nothing else.
pub proof fn law_a_single_value(
    time: LuaDt,
    name: &str,
    key: &str,
    data: MetricData,
    point: DataPoint,
)
    requires
        call_ensures(DataPoint::single, (time, name, key, data), point),
    ensures
        point.metric@ == name@,
        point.timestamp@ == time@,
        data_map(point.values).dom() =~= set![key@],
        data_map(point.values)[key@] == data@,
{
}

/// Why a metric cannot be read: the value is no table, its name or its columns are missing, the
/// name is no text, or the columns are no table. Otherwise it is read where each key of the columns
/// is text and each value names a type.
pub proof fn law_when_a_metric_can_be_read(v: ScriptValue, r: Result<MetricSchema, ScriptError>)
    requires
        call_ensures(MetricSchema::from_lua, (&v,), r),
    ensures
        match v.kind {
            ValueKind::Table(t) => match (t.field("name"@), t.field("cols"@)) {
                (None, _) => r matches Err(ScriptError::Missing(n)) && n@ == "name"@,
                (Some(name), cols) => match (name.as_text, cols) {
                    (Err(m), _) => r matches Err(ScriptError::Conversion(c)) && c@ == m@,
                    (Ok(_), None) => r matches Err(ScriptError::Missing(n)) && n@ == "cols"@,
                    (Ok(_), Some(cols)) => match cols.kind {
                        ValueKind::Table(list) => r is Ok == (forall|i: int|
                            0 <= i < list.pairs@.len() ==> is_column(#[trigger] list.pairs@[i])),
                        _ => r matches Err(ScriptError::NotCollection(_, _)),
                    },
                },
            },
            _ => r matches Err(ScriptError::NotTable(_)),
        },
{
    if let ValueKind::Table(t) = v.kind {
        if let Some(cols) = t.field("cols"@) {
            if let ValueKind::Table(list) = cols.kind {
                lemma_columns_exist(list.pairs@);
            }
        }
    }
}

/// Whether a pair describes a column: its key is text, and its value the name of a type.
pub open spec fn is_column(pair: (ScriptValue, ScriptValue)) -> bool {
    &&& pair.0.as_text is Ok
    &&& pair.1.as_text matches Ok(s)
    &&& exists|ty: ColType| text::lowercase(s@) == #[trigger] column_name(ty)
}

/// Columns are read where each pair describes one.
proof fn lemma_columns_exist(pairs: Seq<(ScriptValue, ScriptValue)>)
    ensures
        columns_of(pairs) is Ok == (forall|i: int|
            0 <= i < pairs.len() ==> is_column(#[trigger] pairs[i])),
    decreases pairs.len(),
{
    if pairs.len() > 0 {
        let less = pairs.drop_last();
        let last = pairs.last();
        lemma_columns_exist(less);
        assert(pairs[pairs.len() - 1] == last);
        assert(column_name(ColType::Dt) == "dt"@);
        assert(column_name(ColType::Int) == "int"@);
        assert(column_name(ColType::Float) == "float"@);
        assert(column_name(ColType::Bool) == "bool"@);
        if columns_of(pairs) is Ok {
            assert forall|i: int| 0 <= i < pairs.len() implies is_column(#[trigger] pairs[i]) by {
                if i < less.len() {
                    assert(less[i] == pairs[i]);
                }
            }
        }
        if forall|i: int| 0 <= i < pairs.len() ==> is_column(#[trigger] pairs[i]) {
            assert forall|i: int| 0 <= i < less.len() implies is_column(#[trigger] less[i]) by {
                assert(less[i] == pairs[i]);
            }
        }
    }
}

/// The error of a data point is that of the first pair that holds no value: of the conversion of
/// its key, or of the value to the type of its column. Without a column, a value that is neither a
/// truth value nor a number nor userdata is not supported.
pub proof fn law_first_value_that_is_wrong(
    schema: MetricSchema,
    pairs: Vec<(ScriptValue, ScriptValue)>,
    at: Option<LuaDt>,
    now: LuaDt,
    r: Result<DataPoint, ScriptError>,
    i: int,
)
    requires
        call_ensures(MetricSchema::data_point, (&schema, &pairs, at, now), r),
        0 <= i < pairs@.len(),
        forall|j: int|
            0 <= j < i ==> measurable(column_map(schema.cols), #[trigger] pairs@[j]),
    ensures
        match pairs@[i].0.as_text {
            Err(m) => r matches Err(ScriptError::Conversion(c)) && c@ == m@,
            Ok(key) => {
                let cols = column_map(schema.cols);
                let v = pairs@[i].1;
                if cols.contains_key(key@) {
                    match cols[key@] {
                        ColType::Int => v.as_int matches Err(m) ==> (r matches Err(
                            ScriptError::Conversion(c),
                        ) && c@ == m@),
                        ColType::Float => v.as_float matches Err(m) ==> (r matches Err(
                            ScriptError::Conversion(c),
                        ) && c@ == m@),
                        ColType::Dt => v.dt() matches Err(why) ==> (r matches Err(e) && e@ == why),
                        ColType::Bool => true,
                    }
                } else {
                    v.kind is Nil || v.kind is Text || v.kind is Table || v.kind is Other ==> (
                    r matches Err(ScriptError::Unsupported))
                }
            },
        },
{
    let cols = column_map(schema.cols);
    let before = pairs@.take(i);
    let with = pairs@.take(i + 1);
    assert forall|j: int| 0 <= j < before.len() implies measurable(cols, #[trigger] before[j]) by {
        assert(before[j] == pairs@[j]);
    }
    lemma_data_exists(cols, before);
    assert(with.drop_last() =~= before);
    assert(with.last() == pairs@[i]);
    if data_of(cols, with) is Err {
        lemma_first_datum_error_stays(cols, pairs@, i + 1);
    }
}

} // verus!
