//! The workload that a script describes.
use crate::dt;
use crate::dt::{Binary64, LuaDt};
use crate::text;
use crate::text::concat3;
use crate::value::{ScriptError, ScriptErrorView, ScriptTable, ScriptValue, ValueKind};
use vstd::prelude::*;
use vstd::string::*;

verus! {

/// The stages of a workload, one after the other.
#[derive(Debug)]
pub struct WorkloadConfig {
    pub stages: Vec<Stage>,
}

/// A stretch of time with a fixed rate of events per second.
#[derive(Clone, Copy, Debug)]
pub struct Stage {
    pub duration: LuaDt,
    pub rate: Binary64,
}

/// A stretch of time in nanoseconds, with its rate.
pub struct StagePlan {
    pub duration: nat,
    pub rate: Binary64,
}

impl View for Stage {
    type V = StagePlan;

    open spec fn view(&self) -> StagePlan {
        StagePlan { duration: self.duration@, rate: self.rate }
    }
}

impl View for WorkloadConfig {
    type V = Seq<StagePlan>;

    open spec fn view(&self) -> Seq<StagePlan> {
        self.stages@.map_values(|stage: Stage| stage@)
    }
}

impl Stage {
    /// The stage that a table describes.
    pub open spec fn of(value: ScriptValue) -> Result<StagePlan, ScriptErrorView> {
        match value.table() {
            Ok(t) => match t.required("duration"@) {
                Ok(duration) => match duration.dt() {
                    Ok(duration) => match t.required("rate"@) {
                        Ok(rate) => match rate.number() {
                            Ok(bits) => Ok(StagePlan { duration, rate: Binary64 { bits } }),
                            Err(e) => Err(e),
                        },
                        Err(e) => Err(e),
                    },
                    Err(e) => Err(e),
                },
                Err(e) => Err(e),
            },
            Err(e) => Err(e),
        }
    }

    /// Whether reading the duration ends with a length of time or with an error.
    pub open spec fn readable(value: ScriptValue) -> bool {
        value.table() matches Ok(t) ==> (t.field("duration"@) matches Some(v) ==> v.dt_readable())
    }

    /// Tells whether a stage can be read from the value.
    pub fn check_readable(value: &ScriptValue) -> (r: bool)
        ensures
            r == Stage::readable(*value),
    {
        match value.read_table() {
            Ok(t) => match t.get("duration") {
                Some(v) => v.check_dt_readable(),
                None => true,
            },
            Err(_) => true,
        }
    }

    /// Reads a stage from a table: its duration, then its rate.
    pub fn from_lua(value: &ScriptValue) -> (r: Result<Stage, ScriptError>)
        requires
            Stage::readable(*value),
        ensures
            r matches Ok(stage) ==> Stage::of(*value) == Ok::<StagePlan, ScriptErrorView>(stage@),
            r matches Err(e) ==> Stage::of(*value) == Err::<StagePlan, ScriptErrorView>(e@),
    {
        let t = match value.read_table() {
            Ok(t) => t,
            Err(e) => {
                return Err(e);
            },
        };
        let duration = match t.get_required("duration") {
            Ok(v) => match LuaDt::from_lua(v) {
                Ok(duration) => duration,
                Err(e) => {
                    return Err(e);
                },
            },
            Err(e) => {
                return Err(e);
            },
        };
        let rate = match t.get_required("rate") {
            Ok(v) => match v.read_number() {
                Ok(rate) => rate,
                Err(e) => {
                    return Err(e);
                },
            },
            Err(e) => {
                return Err(e);
            },
        };
        Ok(Stage { duration, rate })
    }
}

/// The stages that a list of tables describes, or the error of the first that describes none.
pub open spec fn stages_of(items: Seq<ScriptValue>) -> Result<Seq<StagePlan>, ScriptErrorView>
    decreases items.len(),
{
    if items.len() == 0 {
        Ok(Seq::empty())
    } else {
        match stages_of(items.drop_last()) {
            Ok(stages) => match Stage::of(items.last()) {
                Ok(stage) => Ok(stages.push(stage)),
                Err(e) => Err(e),
            },
            Err(e) => Err(e),
        }
    }
}

/// Whether reading the stages, up to the first that is none, comes to an end.
pub open spec fn stages_readable(items: Seq<ScriptValue>) -> bool {
    forall|i: int|
        0 <= i < items.len() && stages_of(items.take(i)) is Ok ==> Stage::readable(
            #[trigger] items[i],
        )
}

/// Once an item of a list is no stage, what follows does not matter.
proof fn lemma_first_error_stays(items: Seq<ScriptValue>, n: int)
    requires
        0 <= n <= items.len(),
        stages_of(items.take(n)) is Err,
    ensures
        stages_of(items) == stages_of(items.take(n)),
    decreases items.len() - n,
{
    if n == items.len() {
        assert(items.take(n) =~= items);
    } else {
        assert(items.take(n + 1).drop_last() =~= items.take(n));
        lemma_first_error_stays(items, n + 1);
    }
}

/// The stages of a workload are those that the items of its list describe, one each and in
/// their order.
pub proof fn law_stages_in_order(items: Seq<ScriptValue>)
    requires
        stages_of(items) is Ok,
    ensures
        stages_of(items)->Ok_0.len() == items.len(),
        forall|i: int|
            0 <= i < items.len() ==> Stage::of(#[trigger] items[i]) == Ok::<
                StagePlan,
                ScriptErrorView,
            >(stages_of(items)->Ok_0[i]),
    decreases items.len(),
{
    if items.len() > 0 {
        law_stages_in_order(items.drop_last());
        assert forall|i: int| 0 <= i < items.len() implies Stage::of(#[trigger] items[i]) == Ok::<
            StagePlan,
            ScriptErrorView,
        >(stages_of(items)->Ok_0[i]) by {
            if i < items.len() - 1 {
                assert(items.drop_last()[i] == items[i]);
            }
        }
    }
}

/// Tells whether stages can be read from the values.
fn check_stages_readable(items: &Vec<ScriptValue>) -> (r: bool)
    ensures
        r == stages_readable(items@),
{
    let mut i: usize = 0;
    while i < items.len()
        invariant
            i <= items@.len(),
            stages_of(items@.take(i as int)) is Ok,
            forall|j: int| 0 <= j < i ==> Stage::readable(#[trigger] items@[j]),
        decreases items@.len() - i,
    {
        proof {
            assert(items@.take(i + 1).drop_last() =~= items@.take(i as int));
            assert(items@.take(i + 1).last() == items@[i as int]);
        }
        if !Stage::check_readable(&items[i]) {
            assert(!Stage::readable(items@[i as int]));
            return false;
        }
        match Stage::from_lua(&items[i]) {
            Ok(_) => {},
            Err(_) => {
                proof {
                    assert forall|j: int| i < j < items@.len() implies stages_of(
                        items@.take(j),
                    ) is Err by {
                        assert(items@.take(j).take(i + 1) =~= items@.take(i + 1));
                        lemma_first_error_stays(items@.take(j), i + 1);
                    }
                }
                return true;
            },
        }
        i = i + 1;
    }
    true
}

/// Reads stages from a list of tables.
fn read_stages(items: &Vec<ScriptValue>) -> (r: Result<Vec<Stage>, ScriptError>)
    requires
        stages_readable(items@),
    ensures
        r matches Ok(stages) ==> stages_of(items@) == Ok::<Seq<StagePlan>, ScriptErrorView>(
            stages@.map_values(|stage: Stage| stage@),
        ),
        r matches Err(e) ==> stages_of(items@) == Err::<Seq<StagePlan>, ScriptErrorView>(e@),
{
    let mut stages: Vec<Stage> = Vec::new();
    let mut i: usize = 0;
    assert(stages@.map_values(|stage: Stage| stage@) =~= Seq::<StagePlan>::empty());
    while i < items.len()
        invariant
            i <= items@.len(),
            stages_readable(items@),
            stages_of(items@.take(i as int)) == Ok::<Seq<StagePlan>, ScriptErrorView>(
                stages@.map_values(|stage: Stage| stage@),
            ),
        decreases items@.len() - i,
    {
        proof {
            assert(items@.take(i + 1).drop_last() =~= items@.take(i as int));
            assert(items@.take(i + 1).last() == items@[i as int]);
        }
        match Stage::from_lua(&items[i]) {
            Ok(stage) => {
                let ghost before = stages@;
                stages.push(stage);
                assert(stages@.map_values(|stage: Stage| stage@) =~= before.map_values(
                    |stage: Stage| stage@,
                ).push(stage@));
            },
            Err(e) => {
                proof {
                    lemma_first_error_stays(items@, i + 1);
                }
                return Err(e);
            },
        }
        i = i + 1;
    }
    assert(items@.take(i as int) =~= items@);
    Ok(stages)
}

impl WorkloadConfig {
    /// The workload that a table describes.
    pub open spec fn of(value: ScriptValue) -> Result<Seq<StagePlan>, ScriptErrorView> {
        match value.table() {
            Ok(t) => match t.required("stages"@) {
                Ok(stages) => match stages.collection("Vec<Stage>"@) {
                    Ok(list) => stages_of(list.items@),
                    Err(e) => Err(e),
                },
                Err(e) => Err(e),
            },
            Err(e) => Err(e),
        }
    }

    /// Whether reading the durations ends with lengths of time or with an error.
    pub open spec fn readable(value: ScriptValue) -> bool {
        value.table() matches Ok(t) ==> (t.field("stages"@) matches Some(stages) ==> (
        stages.collection("Vec<Stage>"@) matches Ok(list) ==> stages_readable(list.items@)))
    }

    /// Tells whether a workload can be read from the value.
    pub fn check_readable(value: &ScriptValue) -> (r: bool)
        ensures
            r == WorkloadConfig::readable(*value),
    {
        let t = match value.read_table() {
            Ok(t) => t,
            Err(_) => {
                return true;
            },
        };
        let list = match t.get("stages") {
            Some(stages) => match stages.read_collection("Vec<Stage>") {
                Ok(list) => list,
                Err(_) => {
                    return true;
                },
            },
            None => {
                return true;
            },
        };
        check_stages_readable(&list.items)
    }

    /// Reads a workload from a table: its stages in their order.
    pub fn from_lua(value: &ScriptValue) -> (r: Result<WorkloadConfig, ScriptError>)
        requires
            WorkloadConfig::readable(*value),
        ensures
            r matches Ok(config) ==> WorkloadConfig::of(*value) == Ok::<
                Seq<StagePlan>,
                ScriptErrorView,
            >(config@),
            r matches Err(e) ==> WorkloadConfig::of(*value) == Err::<
                Seq<StagePlan>,
                ScriptErrorView,
            >(e@),
    {
        let t = match value.read_table() {
            Ok(t) => t,
            Err(e) => {
                return Err(e);
            },
        };
        let list = match t.get_required("stages") {
            Ok(stages) => match stages.read_collection("Vec<Stage>") {
                Ok(list) => list,
                Err(e) => {
                    return Err(e);
                },
            },
            Err(e) => {
                return Err(e);
            },
        };
        match read_stages(&list.items) {
            Ok(stages) => Ok(WorkloadConfig { stages }),
            Err(e) => Err(e),
        }
    }
}

/// The text that shows a stage for debugging, with the text of its rate.
pub open spec fn stage_debug(duration: nat, rate: Seq<char>) -> Seq<char> {
    "        Stage {\n            duration: LuaDt(\n                \""@ + dt::dt_text(duration)
        + "\",\n            ),\n            rate: "@ + rate + ",\n        },\n"@
}

/// The texts that show some stages for debugging, one after the other.
pub open spec fn stages_debug(stages: Seq<StagePlan>, rates: Seq<Seq<char>>) -> Seq<char>
    decreases stages.len(),
{
    if stages.len() == 0 || rates.len() == 0 {
        Seq::empty()
    } else {
        stages_debug(stages.drop_last(), rates.drop_last()) + stage_debug(
            stages.last().duration,
            rates.last(),
        )
    }
}

impl WorkloadConfig {
    /// The text that shows the workload for debugging. `rates` are the texts that show the
    /// rates.
    pub fn debug_text(&self, rates: &Vec<String>) -> (r: String)
        requires
            rates@.len() == self@.len(),
        ensures
            r@ == if self@.len() == 0 {
                "Config {\n    stages: [],\n}"@
            } else {
                "Config {\n    stages: [\n"@ + stages_debug(self@, text::texts(rates@))
                    + "    ],\n}"@
            },
    {
        if self.stages.len() == 0 {
            return "Config {\n    stages: [],\n}".to_owned();
        }
        let ghost plans = self@;
        let ghost rate_texts = text::texts(rates@);
        let mut shown = String::new();
        let mut i: usize = 0;
        assert(shown@ =~= stages_debug(plans.take(0), rate_texts.take(0)));
        while i < self.stages.len()
            invariant
                i <= self.stages@.len(),
                plans == self@,
                rates@.len() == plans.len(),
                rate_texts == text::texts(rates@),
                shown@ == stages_debug(plans.take(i as int), rate_texts.take(i as int)),
            decreases self.stages@.len() - i,
        {
            let time = self.stages[i].duration.to_text();
            let start = concat3(
                "        Stage {\n            duration: LuaDt(\n                \"",
                time.as_str(),
                "\",\n            ),\n            rate: ",
            );
            let stage = concat3(start.as_str(), rates[i].as_str(), ",\n        },\n");
            shown.append(stage.as_str());
            proof {
                assert(plans.take(i + 1).drop_last() =~= plans.take(i as int));
                assert(rate_texts.take(i + 1).drop_last() =~= rate_texts.take(i as int));
                assert(plans.take(i + 1).last() == self.stages@[i as int]@);
                assert(rate_texts.take(i + 1).last() == rates@[i as int]@);
            }
            i = i + 1;
        }
        assert(plans.take(i as int) =~= plans);
        assert(rate_texts.take(i as int) =~= rate_texts);
        concat3("Config {\n    stages: [\n", shown.as_str(), "    ],\n}")
    }
}

/// The workload in the table that a script returns.
pub open spec fn config_of(module: ScriptValue) -> Result<Seq<StagePlan>, ScriptErrorView> {
    match module.table() {
        Ok(t) => match t.required("config"@) {
            Ok(config) => WorkloadConfig::of(config),
            Err(e) => Err(e),
        },
        Err(e) => Err(e),
    }
}

/// Whether reading the workload in the table that a script returns comes to an end.
pub open spec fn config_readable(module: ScriptValue) -> bool {
    module.table() matches Ok(t) ==> (t.field("config"@) matches Some(v)
        ==> WorkloadConfig::readable(v))
}

/// Tells whether the workload can be read from the table that a script returns.
pub fn check_config_readable(module: &ScriptValue) -> (r: bool)
    ensures
        r == config_readable(*module),
{
    match module.read_table() {
        Ok(t) => match t.get("config") {
            Some(v) => WorkloadConfig::check_readable(v),
            None => true,
        },
        Err(_) => true,
    }
}

/// Reads the workload from the table that a script returns.
pub fn load_config(module: &ScriptValue) -> (r: Result<WorkloadConfig, ScriptError>)
    requires
        config_readable(*module),
    ensures
        r matches Ok(config) ==> config_of(*module) == Ok::<Seq<StagePlan>, ScriptErrorView>(
            config@,
        ),
        r matches Err(e) ==> config_of(*module) == Err::<Seq<StagePlan>, ScriptErrorView>(e@),
{
    match module.read_table() {
        Ok(t) => match t.get_required("config") {
            Ok(v) => WorkloadConfig::from_lua(v),
            Err(e) => Err(e),
        },
        Err(e) => Err(e),
    }
}

/// A stage lasts exactly as long as its field `duration` stands for, to the nanosecond, and has
/// the rate that its field `rate` is as a number. Where one of them is missing or is not what it
/// should be, that is the error, and the one of the duration where both are wrong.
pub proof fn law_stage_is_what_its_fields_are(v: ScriptValue, r: Result<Stage, ScriptError>)
    requires
        call_ensures(Stage::from_lua, (&v,), r),
    ensures
        match v.kind {
            ValueKind::Table(t) => match (t.field("duration"@), t.field("rate"@)) {
                (Some(d), Some(n)) => match (d.dt(), n.as_float) {
                    (Ok(duration), Ok(rate)) => r matches Ok(stage) && stage.duration@ == duration
                        && stage.rate.bits == rate.bits,
                    (Ok(_), Err(m)) => r matches Err(ScriptError::Conversion(c)) && c@ == m@,
                    (Err(why), _) => r matches Err(e) && e@ == why,
                },
                (Some(d), None) => match d.dt() {
                    Ok(_) => r matches Err(ScriptError::Missing(n)) && n@ == "rate"@,
                    Err(why) => r matches Err(e) && e@ == why,
                },
                (None, _) => r matches Err(ScriptError::Missing(n)) && n@ == "duration"@,
            },
            _ => r matches Err(ScriptError::NotTable(_)),
        },
{
}

/// Whether a value is a table with a length of time and a number in the fields of a stage.
pub open spec fn describes_stage(v: ScriptValue) -> bool {
    &&& v.kind matches ValueKind::Table(t)
    &&& t.field("duration"@) matches Some(d)
    &&& d.dt() is Ok
    &&& t.field("rate"@) matches Some(n)
    &&& n.as_float is Ok
}

/// The workload of a script has the stages that its list describes, all of them, each with its
/// own duration and rate, and in the order of the list. It is read exactly where every item of
/// the list describes a stage.
pub proof fn law_workload_is_what_the_script_lists(
    module: ScriptValue,
    top: ScriptTable,
    config: ScriptValue,
    inner: ScriptTable,
    stages: ScriptValue,
    list: ScriptTable,
    r: Result<WorkloadConfig, ScriptError>,
)
    requires
        module.kind == ValueKind::Table(top),
        top.field("config"@) == Some(config),
        config.kind == ValueKind::Table(inner),
        inner.field("stages"@) == Some(stages),
        stages.kind == ValueKind::Table(list),
        call_ensures(load_config, (&module,), r),
    ensures
        r is Ok == (forall|i: int|
            0 <= i < list.items@.len() ==> describes_stage(#[trigger] list.items@[i])),
        r matches Ok(workload) ==> {
            &&& workload.stages@.len() == list.items@.len()
            &&& forall|i: int|
                0 <= i < list.items@.len() ==> {
                    let t = (#[trigger] list.items@[i]).kind->Table_0;
                    &&& t.field("duration"@).unwrap().dt() == Ok::<nat, ScriptErrorView>(
                        workload.stages@[i].duration@,
                    )
                    &&& t.field("rate"@).unwrap().as_float->Ok_0.bits
                        == workload.stages@[i].rate.bits
                }
        },
{
    let items = list.items@;
    lemma_stages_described(items);
    if let Ok(workload) = r {
        law_stages_in_order(items);
        assert(workload@.len() == workload.stages@.len());
        assert forall|i: int| 0 <= i < items.len() implies {
            let t = (#[trigger] items[i]).kind->Table_0;
            &&& t.field("duration"@).unwrap().dt() == Ok::<nat, ScriptErrorView>(
                workload.stages@[i].duration@,
            )
            &&& t.field("rate"@).unwrap().as_float->Ok_0.bits == workload.stages@[i].rate.bits
        } by {
            assert(workload@[i] == workload.stages@[i]@);
            assert(Stage::of(items[i]) == Ok::<StagePlan, ScriptErrorView>(workload@[i]));
        }
    }
}

/// A list is read where every item describes a stage.
proof fn lemma_stages_described(items: Seq<ScriptValue>)
    ensures
        stages_of(items) is Ok == (forall|i: int|
            0 <= i < items.len() ==> describes_stage(#[trigger] items[i])),
    decreases items.len(),
{
    if items.len() > 0 {
        let less = items.drop_last();
        lemma_stages_described(less);
        assert(Stage::of(items.last()) is Ok == describes_stage(items.last()));
        assert(items[items.len() - 1] == items.last());
        if stages_of(items) is Ok {
            assert forall|i: int| 0 <= i < items.len() implies describes_stage(
                #[trigger] items[i],
            ) by {
                if i < less.len() {
                    assert(less[i] == items[i]);
                }
            }
        }
        if forall|i: int| 0 <= i < items.len() ==> describes_stage(#[trigger] items[i]) {
            assert forall|i: int| 0 <= i < less.len() implies describes_stage(
                #[trigger] less[i],
            ) by {
                assert(less[i] == items[i]);
            }
        }
    }
}

/// A stage can be read, or refused, wherever its duration can.
pub proof fn law_which_stages_can_be_read(v: ScriptValue, r: bool)
    requires
        call_ensures(Stage::check_readable, (&v,), r),
    ensures
        r == Stage::readable(v),
        match v.kind {
            ValueKind::Table(t) => match t.field("duration"@) {
                Some(d) => r == d.dt_readable(),
                None => r,
            },
            _ => r,
        },
{
}

/// A workload can be read, or refused, where all the stages of its list can; and where there is no
/// such list.
pub proof fn law_which_workloads_can_be_read(
    module: ScriptValue,
    top: ScriptTable,
    config: ScriptValue,
    inner: ScriptTable,
    stages: ScriptValue,
    r: bool,
)
    requires
        call_ensures(check_config_readable, (&module,), r),
    ensures
        !(module.kind is Table) ==> r,
        module.kind == ValueKind::Table(top) ==> {
            &&& top.field("config"@) is None ==> r
            &&& top.field("config"@) == Some(config) ==> {
                &&& !(config.kind is Table) ==> r
                &&& config.kind == ValueKind::Table(inner) ==> {
                    &&& inner.field("stages"@) is None ==> r
                    &&& inner.field("stages"@) == Some(stages) ==> {
                        &&& !(stages.kind is Table) ==> r
                        &&& stages.kind matches ValueKind::Table(list) ==> ((forall|i: int|
                            0 <= i < list.items@.len() ==> Stage::readable(
                                #[trigger] list.items@[i],
                            )) ==> r)
                    }
                }
            }
        },
{
}

/// Every stage stands in the text for debugging, with its duration and its rate.
pub proof fn law_debug_text_shows_every_stage(
    config: WorkloadConfig,
    rates: Vec<String>,
    r: String,
    i: int,
) -> (around: (Seq<char>, Seq<char>))
    requires
        rates@.len() == config.stages@.len(),
        call_ensures(WorkloadConfig::debug_text, (&config, &rates), r),
        0 <= i < config.stages@.len(),
    ensures
        r@ == around.0 + ("        Stage {\n            duration: LuaDt(\n                \""@
            + dt::dt_text(config.stages@[i].duration@)
            + "\",\n            ),\n            rate: "@ + rates@[i]@ + ",\n        },\n"@) + around.1,
{
    let plans = config@;
    let texts = text::texts(rates@);
    assert(plans.len() == config.stages@.len());
    let (before, after) = lemma_stage_shown(plans, texts, i);
    assert(plans[i] == config.stages@[i]@);
    assert(texts[i] == rates@[i]@);
    let start = "Config {\n    stages: [\n"@;
    let end = "    ],\n}"@;
    let shown = stage_debug(plans[i].duration, texts[i]);
    assert(start + (before + shown + after) + end =~= (start + before) + shown + (after + end));
    (start + before, after + end)
}

/// The text of a stage stands among those of all stages.
proof fn lemma_stage_shown(stages: Seq<StagePlan>, rates: Seq<Seq<char>>, i: int) -> (around: (
    Seq<char>,
    Seq<char>,
))
    requires
        rates.len() == stages.len(),
        0 <= i < stages.len(),
    ensures
        stages_debug(stages, rates) == around.0 + stage_debug(stages[i].duration, rates[i])
            + around.1,
    decreases stages.len(),
{
    let n = stages.len() - 1;
    let last = stage_debug(stages.last().duration, rates.last());
    let earlier = stages_debug(stages.drop_last(), rates.drop_last());
    if i < n {
        let (before, after) = lemma_stage_shown(stages.drop_last(), rates.drop_last(), i);
        let shown = stage_debug(stages[i].duration, rates[i]);
        assert(stages.drop_last()[i] == stages[i]);
        assert(rates.drop_last()[i] == rates[i]);
        assert(before + shown + after + last =~= before + shown + (after + last));
        (before, after + last)
    } else {
        assert(earlier + last =~= earlier + last + Seq::<char>::empty());
        (earlier, Seq::empty())
    }
}

/// Why there is no workload: what a script returns is no table, or has no workload, or the workload
/// is no table, or has no stages, or the stages are no table.
pub proof fn law_workload_must_be_there(
    module: ScriptValue,
    r: Result<WorkloadConfig, ScriptError>,
)
    requires
        call_ensures(load_config, (&module,), r),
    ensures
        match module.kind {
            ValueKind::Table(top) => match top.field("config"@) {
                None => r matches Err(ScriptError::Missing(n)) && n@ == "config"@,
                Some(config) => match config.kind {
                    ValueKind::Table(inner) => match inner.field("stages"@) {
                        None => r matches Err(ScriptError::Missing(n)) && n@ == "stages"@,
                        Some(stages) => !(stages.kind is Table) ==> (r matches Err(
                            ScriptError::NotCollection(_, _),
                        )),
                    },
                    _ => r matches Err(ScriptError::NotTable(_)),
                },
            },
            _ => r matches Err(ScriptError::NotTable(_)),
        },
{
}

/// The error of a list of stages is that of the first item that describes none.
pub proof fn law_first_wrong_stage_is_the_error(
    v: ScriptValue,
    inner: ScriptTable,
    stages: ScriptValue,
    list: ScriptTable,
    r: Result<WorkloadConfig, ScriptError>,
    i: int,
    wrong: Result<Stage, ScriptError>,
)
    requires
        v.kind == ValueKind::Table(inner),
        inner.field("stages"@) == Some(stages),
        stages.kind == ValueKind::Table(list),
        call_ensures(WorkloadConfig::from_lua, (&v,), r),
        0 <= i < list.items@.len(),
        forall|j: int| 0 <= j < i ==> describes_stage(#[trigger] list.items@[j]),
        call_ensures(Stage::from_lua, (&list.items@[i],), wrong),
        wrong is Err,
    ensures
        r is Err,
        r->Err_0@ == wrong->Err_0@,
{
    let items = list.items@;
    let before = items.take(i);
    let with = items.take(i + 1);
    assert forall|j: int| 0 <= j < before.len() implies describes_stage(#[trigger] before[j]) by {
        assert(before[j] == items[j]);
    }
    lemma_stages_described(before);
    assert(with.drop_last() =~= before);
    assert(with.last() == items[i]);
    lemma_first_error_stays(items, i + 1);
}

} // verus!
