//! What is shown to the user.
use crate::config;
use crate::config::WorkloadConfig;
use crate::dt;
use crate::http_request;
use crate::http_request::Request;
use crate::lines;
use crate::lines::split_lines;
use crate::maps;
use crate::maps::text_entries;
use crate::text;
use crate::text::{concat, concat3, decimal_text};
use rustc_hash::FxHashMap;
use vstd::prelude::*;
use vstd::string::*;

verus! {

/// The name of the program, drawn large.
pub fn banner() -> (r: &'static str)
    ensures
        r@ == "   _     _     __ ____   __ __ _____ \n  | |   / |   / // __ \\ / // //____ |\n  | |  /  |  / // /_/ // //_/    _/_/\n  | | / / | / // __ _// /\\ \\     \\ \\ \n  | |/ /| |/ // / \\ \\/ /  \\ \\____/ / \n  |___/ |___//_/   \\_\\/    \\_\\____/  \n"@,
{
    "   _     _     __ ____   __ __ _____ \n  | |   / |   / // __ \\ / // //____ |\n  | |  /  |  / // /_/ // //_/    _/_/\n  | | / / | / // __ _// /\\ \\     \\ \\ \n  | |/ /| |/ // / \\ \\/ /  \\ \\____/ / \n  |___/ |___//_/   \\_\\/    \\_\\____/  \n"
}

/// The version and the commit that it was built from. A star marks a build from files that
/// were changed since.
pub fn version_string(git_clean: bool, version: &str, short_commit: &str) -> (r: String)
    ensures
        r@ == version@ + " ("@ + short_commit@ + if git_clean {
            ")"@
        } else {
            "*)"@
        },
{
    let start = concat3(version, " (", short_commit);
    if git_clean {
        concat(start.as_str(), ")")
    } else {
        concat(start.as_str(), "*)")
    }
}

/// The name of a worker thread.
pub fn worker_name(id: usize) -> (r: String)
    ensures
        r@ == "worker-"@ + text::decimal(id as nat),
{
    concat("worker-", decimal_text(id as u128).as_str())
}

/// The message for a file that cannot be opened.
pub fn open_file_message(path: &str) -> (r: String)
    ensures
        r@ == "opening file "@ + path@,
{
    concat("opening file ", path)
}

/// The message for a host without an address that can be connected to.
pub fn unresolved_message(host: &str) -> (r: String)
    ensures
        r@ == "failed to resolve address "@ + host@,
{
    concat("failed to resolve address ", host)
}

/// The line that shows the address of the host.
pub fn host_line(host: &str, addr: &str) -> (r: String)
    ensures
        r@ == "Host: "@ + host@ + " => "@ + addr@,
{
    let start = concat3("Host: ", host, " => ");
    concat(start.as_str(), addr)
}

/// The line that shows the address that the host has, for a single request.
pub fn resolved_line(host: &str, addr: &str) -> (r: String)
    ensures
        r@ == "* Resolved "@ + host@ + " to "@ + addr@,
{
    let start = concat3("* Resolved ", host, " to ");
    concat(start.as_str(), addr)
}

/// The line that shows the connection, for a single request.
pub fn connected_line(addr: &str) -> (r: String)
    ensures
        r@ == "* Connected to "@ + addr@,
{
    concat("* Connected to ", addr)
}

/// The line that shows an argument of the script.
pub open spec fn arg_line(entry: (Seq<char>, Seq<char>)) -> Seq<char> {
    "  "@ + entry.0 + " => "@ + entry.1
}

/// The lines that show the arguments of the script: none where there are no arguments.
pub open spec fn arg_lines(entries: Seq<(Seq<char>, Seq<char>)>) -> Seq<Seq<char>> {
    if entries.len() == 0 {
        Seq::empty()
    } else {
        seq!["Script Args:"@] + entries.map_values(|e: (Seq<char>, Seq<char>)| arg_line(e)) + seq![
            Seq::<char>::empty(),
        ]
    }
}

/// The lines that show the arguments of the script, in the order of the list.
pub fn list_args(entries: &Vec<(String, String)>) -> (r: Vec<String>)
    ensures
        text::texts(r@) == arg_lines(maps::pair_texts(entries@)),
{
    let mut shown: Vec<String> = Vec::new();
    if entries.len() == 0 {
        assert(text::texts(shown@) =~= arg_lines(maps::pair_texts(entries@)));
        return shown;
    }
    shown.push("Script Args:".to_owned());
    let ghost texts = maps::pair_texts(entries@);
    let mut i: usize = 0;
    while i < entries.len()
        invariant
            i <= entries@.len(),
            texts == maps::pair_texts(entries@),
            shown@.len() == i + 1,
            shown@[0]@ == "Script Args:"@,
            forall|j: int| 0 <= j < i ==> #[trigger] shown@[j + 1]@ == arg_line(texts[j]),
        decreases entries@.len() - i,
    {
        let start = concat3("  ", entries[i].0.as_str(), " => ");
        let line = concat(start.as_str(), entries[i].1.as_str());
        assert(line@ == arg_line(texts[i as int]));
        shown.push(line);
        i = i + 1;
    }
    shown.push(String::new());
    assert(shown@[i + 1]@ =~= Seq::<char>::empty());
    assert forall|j: int| 0 <= j < shown@.len() implies text::texts(shown@)[j] == arg_lines(
        texts,
    )[j] by {
        if 0 < j < shown@.len() - 1 {
            assert(shown@[(j - 1) + 1]@ == arg_line(texts[j - 1]));
        }
    }
    assert(text::texts(shown@) =~= arg_lines(texts));
    shown
}

/// The lines that show the arguments of the script. Their order is left open.
pub fn show_args(args: &FxHashMap<String, String>) -> (r: Vec<String>)
    ensures
        exists|entries: Seq<(Seq<char>, Seq<char>)>| #[trigger]
            maps::lists(entries, maps::text_map(*args)) && text::texts(r@) == arg_lines(entries),
{
    let entries = text_entries(args);
    list_args(&entries)
}

/// The line that shows a stage, with the text of its rate.
pub open spec fn stage_line(duration: nat, rate: Seq<char>) -> Seq<char> {
    "  * "@ + dt::dt_text(duration) + " @ "@ + rate + "req/s"@
}

/// The lines that show the stages of a workload: none where there are no stages.
pub open spec fn schedule_lines(stages: Seq<config::StagePlan>, rates: Seq<Seq<char>>) -> Seq<
    Seq<char>,
> {
    if stages.len() == 0 {
        Seq::empty()
    } else {
        seq!["Schedule:"@] + Seq::new(
            stages.len(),
            |i: int| stage_line(stages[i].duration, rates[i]),
        ) + seq![Seq::<char>::empty()]
    }
}

/// The lines that show the stages of a workload. `rates` are the texts that show the rates.
pub fn show_schedule(config: &WorkloadConfig, rates: &Vec<String>) -> (r: Vec<String>)
    requires
        rates@.len() == config@.len(),
    ensures
        text::texts(r@) == schedule_lines(config@, text::texts(rates@)),
{
    let mut shown: Vec<String> = Vec::new();
    let stages = &config.stages;
    let ghost plans = config@;
    let ghost rate_texts = text::texts(rates@);
    if stages.len() == 0 {
        assert(text::texts(shown@) =~= schedule_lines(plans, rate_texts));
        return shown;
    }
    shown.push("Schedule:".to_owned());
    let mut i: usize = 0;
    while i < stages.len()
        invariant
            i <= stages@.len(),
            *stages == config.stages,
            plans == config@,
            plans.len() == stages@.len(),
            rates@.len() == stages@.len(),
            rate_texts == text::texts(rates@),
            shown@.len() == i + 1,
            shown@[0]@ == "Schedule:"@,
            forall|j: int|
                0 <= j < i ==> #[trigger] shown@[j + 1]@ == stage_line(
                    plans[j].duration,
                    rate_texts[j],
                ),
        decreases stages@.len() - i,
    {
        let time = stages[i].duration.to_text();
        let start = concat3("  * ", time.as_str(), " @ ");
        let line = concat3(start.as_str(), rates[i].as_str(), "req/s");
        assert(plans[i as int] == stages@[i as int]@);
        assert(line@ == stage_line(plans[i as int].duration, rate_texts[i as int]));
        shown.push(line);
        i = i + 1;
    }
    shown.push(String::new());
    assert(shown@[i + 1]@ =~= Seq::<char>::empty());
    assert forall|j: int| 0 <= j < shown@.len() implies text::texts(shown@)[j] == schedule_lines(
        plans,
        rate_texts,
    )[j] by {
        if 0 < j < shown@.len() - 1 {
            assert(shown@[(j - 1) + 1]@ == stage_line(plans[j - 1].duration, rate_texts[j - 1]));
        }
    }
    assert(text::texts(shown@) =~= schedule_lines(plans, rate_texts));
    shown
}

/// Lines with a sign before each.
pub open spec fn prefixed(sign: Seq<char>, all: Seq<Seq<char>>) -> Seq<Seq<char>> {
    all.map_values(|line: Seq<char>| sign + line)
}

/// Appends the lines of a text, with a sign before each.
fn append_prefixed(shown: &mut Vec<String>, sign: &str, s: &str)
    ensures
        text::texts(final(shown)@) == text::texts(old(shown)@) + prefixed(
            sign@,
            lines::lines(s@),
        ),
{
    let all = split_lines(s);
    let ghost before = text::texts(shown@);
    let ghost wanted = lines::lines(s@);
    let mut i: usize = 0;
    assert(text::texts(shown@) =~= before + prefixed(sign@, wanted.take(0)));
    while i < all.len()
        invariant
            i <= all@.len(),
            text::texts(all@) == wanted,
            text::texts(shown@) == before + prefixed(sign@, wanted.take(i as int)),
        decreases all@.len() - i,
    {
        let line = concat(sign, all[i].as_str());
        let ghost shown_before = shown@;
        let ghost added = line@;
        shown.push(line);
        proof {
            assert(text::texts(shown@) =~= text::texts(shown_before).push(added));
            assert(wanted[i as int] == all@[i as int]@);
            assert(text::texts(shown@) =~= before + prefixed(sign@, wanted.take(i + 1)));
        }
        i = i + 1;
    }
    assert(wanted.take(i as int) =~= wanted);
}

/// The line that shows a header field.
pub open spec fn field_line(sign: Seq<char>, field: (Seq<char>, Seq<char>)) -> Seq<char> {
    sign + field.0 + ": "@ + field.1
}

/// Appends lines that show header fields, with a sign before each.
fn append_fields(shown: &mut Vec<String>, sign: &str, fields: &Vec<(String, String)>)
    ensures
        text::texts(final(shown)@) == text::texts(old(shown)@) + maps::pair_texts(
            fields@,
        ).map_values(|f: (Seq<char>, Seq<char>)| field_line(sign@, f)),
{
    let ghost before = text::texts(shown@);
    let ghost wanted = maps::pair_texts(fields@);
    let ghost show = |f: (Seq<char>, Seq<char>)| field_line(sign@, f);
    let mut i: usize = 0;
    assert(text::texts(shown@) =~= before + wanted.take(0).map_values(show));
    while i < fields.len()
        invariant
            i <= fields@.len(),
            wanted == maps::pair_texts(fields@),
            show == |f: (Seq<char>, Seq<char>)| field_line(sign@, f),
            text::texts(shown@) == before + wanted.take(i as int).map_values(show),
        decreases fields@.len() - i,
    {
        let start = concat3(sign, fields[i].0.as_str(), ": ");
        let line = concat(start.as_str(), fields[i].1.as_str());
        let ghost shown_before = shown@;
        let ghost added = line@;
        shown.push(line);
        proof {
            assert(text::texts(shown@) =~= text::texts(shown_before).push(added));
            assert(added == show(wanted[i as int]));
            assert(text::texts(shown@) =~= before + wanted.take(i + 1).map_values(show));
        }
        i = i + 1;
    }
    assert(wanted.take(i as int) =~= wanted);
}

/// The lines that show a request: its method and address, its header fields, and its body
/// after an empty line.
pub open spec fn request_lines(
    method: Seq<char>,
    path: Seq<char>,
    fields: Seq<(Seq<char>, Seq<char>)>,
    body: Option<Seq<char>>,
) -> Seq<Seq<char>> {
    seq!["> "@ + method + " "@ + path] + fields.map_values(
        |f: (Seq<char>, Seq<char>)| field_line("> "@, f),
    ) + match body {
        Some(s) => seq![">"@] + prefixed("> "@, lines::lines(s)),
        None => Seq::empty(),
    }
}

/// The lines that show a request with the header fields of a list.
pub fn list_request(
    method: &str,
    path: &str,
    fields: &Vec<(String, String)>,
    body: &Option<String>,
) -> (r: Vec<String>)
    ensures
        text::texts(r@) == request_lines(
            method@,
            path@,
            maps::pair_texts(fields@),
            match body {
                Some(s) => Some(s@),
                None => None,
            },
        ),
{
    let mut shown: Vec<String> = Vec::new();
    let start = concat3("> ", method, " ");
    shown.push(concat(start.as_str(), path));
    assert(text::texts(shown@) =~= seq!["> "@ + method@ + " "@ + path@]);
    append_fields(&mut shown, "> ", fields);
    match body {
        Some(s) => {
            let ghost before = text::texts(shown@);
            shown.push(">".to_owned());
            assert(text::texts(shown@) =~= before + seq![">"@]);
            append_prefixed(&mut shown, "> ", s.as_str());
            assert(text::texts(shown@) =~= before + (seq![">"@] + prefixed(
                "> "@,
                lines::lines(s@),
            )));
        },
        None => {
            assert(text::texts(shown@) =~= text::texts(shown@) + Seq::<Seq<char>>::empty());
        },
    }
    shown
}

/// The lines that show a request of a script. The order of its header fields is left open.
pub fn show_request(request: &Request) -> (r: Vec<String>)
    ensures
        exists|fields: Seq<(Seq<char>, Seq<char>)>| #[trigger]
            http_request::lists_headers(fields, request@.headers) && text::texts(r@)
                == request_lines(
                request@.method.wire_name(),
                request@.path,
                fields,
                request@.body,
            ),
{
    let fields: Vec<(String, String)> = match &request.headers {
        Some(m) => text_entries(m),
        None => Vec::new(),
    };
    assert(http_request::lists_headers(maps::pair_texts(fields@), request@.headers));
    list_request(request.method.name(), request.path.as_str(), &fields, &request.body)
}

/// The lines that show the beginning of an answer: its status with the reason, and its header
/// fields.
pub open spec fn response_lines(
    status: nat,
    reason: Seq<char>,
    fields: Seq<(Seq<char>, Seq<char>)>,
) -> Seq<Seq<char>> {
    seq!["< "@ + text::decimal(status) + " "@ + reason] + fields.map_values(
        |f: (Seq<char>, Seq<char>)| field_line("< "@, f),
    )
}

/// The lines that show the beginning of an answer.
pub fn show_response(status: u16, reason: &str, fields: &Vec<(String, String)>) -> (r: Vec<String>)
    ensures
        text::texts(r@) == response_lines(status as nat, reason@, maps::pair_texts(fields@)),
{
    let mut shown: Vec<String> = Vec::new();
    let number = decimal_text(status as u128);
    let start = concat3("< ", number.as_str(), " ");
    shown.push(concat(start.as_str(), reason));
    assert(text::texts(shown@) =~= seq!["< "@ + text::decimal(status as nat) + " "@ + reason@]);
    append_fields(&mut shown, "< ", fields);
    shown
}

/// The lines that show the body of an answer, after an empty line.
pub fn show_response_body(body: &str) -> (r: Vec<String>)
    ensures
        text::texts(r@) == seq!["<"@] + prefixed("< "@, lines::lines(body@)),
{
    let mut shown: Vec<String> = Vec::new();
    shown.push("<".to_owned());
    assert(text::texts(shown@) =~= seq!["<"@]);
    append_prefixed(&mut shown, "< ", body);
    shown
}

/// The lines that show the arguments hold every argument with its value, under a heading and before
/// an empty line, and nothing else. Without arguments nothing is shown.
pub proof fn law_every_argument_is_shown(args: FxHashMap<String, String>, r: Vec<String>)
    requires
        call_ensures(show_args, (&args,), r),
    ensures
        maps::text_map(args).dom().len() == 0 ==> r@.len() == 0,
        maps::text_map(args).dom().len() > 0 ==> {
            &&& r@.len() == maps::text_map(args).dom().len() + 2
            &&& r@[0]@ == "Script Args:"@
            &&& r@.last()@.len() == 0
        },
        forall|name: Seq<char>| #[trigger]
            maps::text_map(args).contains_key(name) ==> exists|i: int|
                0 < i < r@.len() - 1 && (#[trigger] r@[i])@ == "  "@ + name + " => "@
                    + maps::text_map(args)[name],
{
    let m = maps::text_map(args);
    let entries = choose|entries: Seq<(Seq<char>, Seq<char>)>| #[trigger]
        maps::lists(entries, m) && text::texts(r@) == arg_lines(entries);
    http_request::lemma_listed_once(entries, m);
    let shown = text::texts(r@);
    assert(shown.len() == r@.len());
    if entries.len() > 0 {
        assert(shown[0] == r@[0]@);
        assert(shown[r@.len() - 1] == r@.last()@);
    }
    assert forall|name: Seq<char>| #[trigger] m.contains_key(name) implies exists|i: int|
        0 < i < r@.len() - 1 && (#[trigger] r@[i])@ == "  "@ + name + " => "@ + m[name] by {
        let k = choose|k: int| 0 <= k < entries.len() && (#[trigger] entries[k]).0 == name;
        assert(shown[k + 1] == r@[k + 1]@);
        assert(r@[k + 1]@ == "  "@ + name + " => "@ + m[name]);
    }
}

/// The lines that show a workload hold every stage, in its order, with its duration and its rate,
/// under a heading and before an empty line. Without stages nothing is shown.
pub proof fn law_every_stage_is_shown(config: WorkloadConfig, rates: Vec<String>, r: Vec<String>)
    requires
        rates@.len() == config.stages@.len(),
        call_ensures(show_schedule, (&config, &rates), r),
    ensures
        config.stages@.len() == 0 ==> r@.len() == 0,
        config.stages@.len() > 0 ==> {
            &&& r@.len() == config.stages@.len() + 2
            &&& r@[0]@ == "Schedule:"@
            &&& r@.last()@.len() == 0
        },
        forall|i: int|
            0 <= i < config.stages@.len() ==> (#[trigger] r@[i + 1])@ == "  * "@ + dt::dt_text(
                config.stages@[i].duration@,
            ) + " @ "@ + rates@[i]@ + "req/s"@,
{
    let shown = text::texts(r@);
    assert(shown.len() == r@.len());
    assert(config@.len() == config.stages@.len());
    if config.stages@.len() > 0 {
        assert(shown[0] == r@[0]@);
        assert(shown[r@.len() - 1] == r@.last()@);
    }
    assert forall|i: int| 0 <= i < config.stages@.len() implies (#[trigger] r@[i + 1])@ == "  * "@
        + dt::dt_text(config.stages@[i].duration@) + " @ "@ + rates@[i]@ + "req/s"@ by {
        assert(shown[i + 1] == r@[i + 1]@);
        assert(config@[i] == config.stages@[i]@);
        assert(text::texts(rates@)[i] == rates@[i]@);
    }
}

/// The lines that show a request begin with its method and path. A line for every header field
/// follows, and then, where there is a body, a mark and every line of the body.
pub proof fn law_whole_request_is_shown(
    method: &str,
    path: &str,
    fields: Vec<(String, String)>,
    body: Option<String>,
    r: Vec<String>,
)
    requires
        call_ensures(list_request, (method, path, &fields, &body), r),
    ensures
        r@.len() == 1 + fields@.len() + match body {
            Some(s) => 1 + lines::lines(s@).len(),
            None => 0,
        },
        r@[0]@ == "> "@ + method@ + " "@ + path@,
        forall|i: int|
            0 <= i < fields@.len() ==> (#[trigger] r@[i + 1])@ == "> "@ + fields@[i].0@ + ": "@
                + fields@[i].1@,
        body is Some ==> r@[fields@.len() as int + 1]@ == ">"@,
        body matches Some(s) ==> forall|i: int|
            0 <= i < lines::lines(s@).len() ==> (#[trigger] r@[fields@.len() + 2 + i])@ == "> "@
                + lines::lines(s@)[i],
{
    let shown = text::texts(r@);
    let n = fields@.len() as int;
    assert(shown.len() == r@.len());
    assert(shown[0] == r@[0]@);
    assert forall|i: int| 0 <= i < n implies (#[trigger] r@[i + 1])@ == "> "@ + fields@[i].0@ + ": "@
        + fields@[i].1@ by {
        assert(shown[i + 1] == r@[i + 1]@);
        assert(maps::pair_texts(fields@)[i] == (fields@[i].0@, fields@[i].1@));
    }
    if let Some(s) = body {
        assert(shown[n + 1] == r@[n + 1]@);
        assert forall|i: int| 0 <= i < lines::lines(s@).len() implies (#[trigger] r@[n + 2 + i])@
            == "> "@ + lines::lines(s@)[i] by {
            assert(shown[n + 2 + i] == r@[n + 2 + i]@);
        }
    }
}

/// What is shown of a request of a script is its method, its path, all its header fields, and its
/// body.
pub proof fn law_script_request_is_shown(request: Request, r: Vec<String>)
    requires
        call_ensures(show_request, (&request,), r),
    ensures
        r@.len() > 0,
        r@[0]@ == "> "@ + request.method.wire_name() + " "@ + request.path@,
        request.headers matches Some(m) ==> forall|name: Seq<char>| #[trigger]
            maps::text_map(m).contains_key(name) ==> exists|i: int|
                0 < i < r@.len() && (#[trigger] r@[i])@ == "> "@ + name + ": "@ + maps::text_map(
                    m,
                )[name],
        request.body matches Some(s) ==> forall|i: int|
            0 <= i < lines::lines(s@).len() ==> (#[trigger] r@[r@.len() - lines::lines(s@).len()
                + i])@ == "> "@ + lines::lines(s@)[i],
{
    let fields = choose|fields: Seq<(Seq<char>, Seq<char>)>| #[trigger]
        http_request::lists_headers(fields, request@.headers) && text::texts(r@) == request_lines(
            request@.method.wire_name(),
            request@.path,
            fields,
            request@.body,
        );
    let shown = text::texts(r@);
    let n = fields.len() as int;
    assert(shown.len() == r@.len());
    assert(shown[0] == r@[0]@);
    if let Some(m) = request.headers {
        let map = maps::text_map(m);
        assert forall|name: Seq<char>| #[trigger] map.contains_key(name) implies exists|i: int|
            0 < i < r@.len() && (#[trigger] r@[i])@ == "> "@ + name + ": "@ + map[name] by {
            let k = choose|k: int| 0 <= k < fields.len() && (#[trigger] fields[k]).0 == name;
            assert(shown[k + 1] == r@[k + 1]@);
            assert(r@[k + 1]@ == "> "@ + name + ": "@ + map[name]);
        }
    }
    if let Some(s) = request.body {
        let count = lines::lines(s@).len();
        assert(r@.len() == n + 2 + count);
        assert forall|i: int| 0 <= i < count implies (#[trigger] r@[r@.len() - count + i])@ == "> "@
            + lines::lines(s@)[i] by {
            assert(shown[n + 2 + i] == r@[n + 2 + i]@);
        }
    }
}

/// The lines that show the beginning of an answer hold its status in decimal with the reason, and
/// every header field in its order.
pub proof fn law_whole_answer_is_shown(
    status: u16,
    reason: &str,
    fields: Vec<(String, String)>,
    body: &str,
    head: Vec<String>,
    rest: Vec<String>,
)
    requires
        call_ensures(show_response, (status, reason, &fields), head),
        call_ensures(show_response_body, (body,), rest),
    ensures
        head@.len() == 1 + fields@.len(),
        head@[0]@ == "< "@ + text::decimal(status as nat) + " "@ + reason@,
        forall|i: int|
            0 <= i < fields@.len() ==> (#[trigger] head@[i + 1])@ == "< "@ + fields@[i].0@ + ": "@
                + fields@[i].1@,
        rest@.len() == 1 + lines::lines(body@).len(),
        rest@[0]@ == "<"@,
        forall|i: int|
            0 <= i < lines::lines(body@).len() ==> (#[trigger] rest@[i + 1])@ == "< "@
                + lines::lines(body@)[i],
{
    let shown = text::texts(head@);
    assert(shown.len() == head@.len());
    assert(shown[0] == head@[0]@);
    assert forall|i: int| 0 <= i < fields@.len() implies (#[trigger] head@[i + 1])@ == "< "@
        + fields@[i].0@ + ": "@ + fields@[i].1@ by {
        assert(shown[i + 1] == head@[i + 1]@);
        assert(maps::pair_texts(fields@)[i] == (fields@[i].0@, fields@[i].1@));
    }
    let below = text::texts(rest@);
    assert(below.len() == rest@.len());
    assert(below[0] == rest@[0]@);
    assert forall|i: int| 0 <= i < lines::lines(body@).len() implies (#[trigger] rest@[i + 1])@
        == "< "@ + lines::lines(body@)[i] by {
        assert(below[i + 1] == rest@[i + 1]@);
    }
}

/// The lines and messages of a run hold the names and addresses that they are about. The version is
/// shown with the commit, and with a star exactly where files were changed since.
pub proof fn law_lines_name_what_they_are_about(
    host: &str,
    addr: &str,
    path: &str,
    version: &str,
    commit: &str,
    clean: bool,
    id: usize,
    resolved: (String, String, String, String),
    opening: String,
    built: String,
    worker: String,
)
    requires
        call_ensures(host_line, (host, addr), resolved.0),
        call_ensures(resolved_line, (host, addr), resolved.1),
        call_ensures(connected_line, (addr,), resolved.2),
        call_ensures(unresolved_message, (host,), resolved.3),
        call_ensures(open_file_message, (path,), opening),
        call_ensures(version_string, (clean, version, commit), built),
        call_ensures(worker_name, (id,), worker),
    ensures
        resolved.0@ == "Host: "@ + host@ + " => "@ + addr@,
        resolved.1@ == "* Resolved "@ + host@ + " to "@ + addr@,
        resolved.2@ == "* Connected to "@ + addr@,
        resolved.3@ == "failed to resolve address "@ + host@,
        opening@ == "opening file "@ + path@,
        clean ==> built@ == version@ + " ("@ + commit@ + ")"@,
        !clean ==> built@ == version@ + " ("@ + commit@ + "*)"@,
        worker@ == "worker-"@ + text::decimal(id as nat),
{
}

} // verus!
