use rustc_hash::FxHashMap;
use wrk3::args::{ArgTy, ArgValue, ExpectedArg, FloatArg};
use wrk3::cli::{
    check_acceptable, collect_args, negated_name, parse_script_args, CliError, Found,
};
use wrk3::config::{Stage, WorkloadConfig};
use wrk3::dt::{Binary64, LuaDt};
use wrk3::http_request::{Method, Request};
use wrk3::lines::split_lines;
use wrk3::report::{
    banner, connected_line, host_line, list_args, list_request, open_file_message, resolved_line,
    show_args, show_request, show_response, show_response_body, show_schedule,
    unresolved_message, version_string, worker_name,
};
use wrk3::source::NamedSource;
use wrk3::text::{concat3, decimal_text, integer_text};

fn expected(name: &str, ty: ArgTy, default_value: Option<ArgValue>) -> ExpectedArg {
    ExpectedArg { name: name.to_string(), ty, default_value }
}

fn params() -> Vec<ExpectedArg> {
    vec![
        expected("count", ArgTy::Int, Some(ArgValue::Int(3))),
        expected("name", ArgTy::String, None),
        expected("verbose", ArgTy::Bool, Some(ArgValue::Bool(true))),
        expected("wait", ArgTy::Dt, Some(ArgValue::Dt(LuaDt::from_secs(90)))),
        expected(
            "part",
            ArgTy::Float,
            Some(ArgValue::Float(FloatArg {
                value: Binary64 { bits: 0.5f64.to_bits() },
                text: "0.5".to_string(),
            })),
        ),
    ]
}

fn parse(line: &[&str]) -> Result<FxHashMap<String, String>, CliError> {
    let line: Vec<String> = line.iter().map(|s| s.to_string()).collect();
    let params = params();
    assert!(check_acceptable(&params));
    parse_script_args("script.lua", &params, &line)
}

fn sorted(m: &FxHashMap<String, String>) -> Vec<(String, String)> {
    let mut entries: Vec<(String, String)> =
        m.iter().map(|(k, v)| (k.clone(), v.clone())).collect();
    entries.sort();
    entries
}

fn entries(list: &[(&str, &str)]) -> Vec<(String, String)> {
    list.iter().map(|(k, v)| (k.to_string(), v.to_string())).collect()
}

#[test]
fn an_empty_line_gives_the_defaults() {
    let args = parse(&[]).ok().unwrap();
    assert_eq!(
        sorted(&args),
        entries(&[("count", "3"), ("part", "0.5"), ("verbose", "false"), ("wait", "1m 30s")])
    );
}

#[test]
fn a_line_with_arguments() {
    let args = parse(&["--count", "7", "--verbose", "--name=x y", "--wait", "1s"]).ok().unwrap();
    assert_eq!(
        sorted(&args),
        entries(&[
            ("count", "7"),
            ("name", "x y"),
            ("part", "0.5"),
            ("verbose", "true"),
            ("wait", "1s"),
        ])
    );
}

#[test]
fn unknown_arguments_are_passed_over() {
    let args = parse(&["--count", "7", "--unknown", "1"]).ok().unwrap();
    assert_eq!(args.get("count").unwrap(), "7");
    assert_eq!(args.get("verbose").unwrap(), "false");
}

#[test]
fn help_stops() {
    match parse(&["--help"]) {
        Err(CliError::Stopped(message)) => {
            assert!(message.contains("Usage: script.lua [OPTIONS]"));
            assert!(message.contains("--count <count>"));
            assert!(message.contains("[default: 3]"));
            assert!(message.contains("--verbose"));
        }
        _ => panic!("it goes on"),
    }
}

#[test]
fn flags_may_be_left_without_a_value() {
    match parse(&["--count", "1", "--count", "2"]) {
        Err(CliError::Unset(name)) => assert_eq!(name, "verbose"),
        Err(CliError::Stopped(_)) => panic!("it stops"),
        Ok(_) => panic!("every flag has a value"),
    }
}

#[test]
fn names_that_cannot_be_declared() {
    let flag = |name| expected(name, ArgTy::Bool, None);
    let option = |name| expected(name, ArgTy::Int, None);
    assert!(check_acceptable(&vec![]));
    assert!(check_acceptable(&vec![option("a"), option("b"), flag("c")]));
    assert!(check_acceptable(&vec![option("a"), option("a"), flag("b"), flag("b")]));
    assert!(!check_acceptable(&vec![option("a"), flag("a")]));
    assert!(!check_acceptable(&vec![flag("x"), flag("no-no-x")]));
    assert!(!check_acceptable(&vec![option("help")]));
    assert!(!check_acceptable(&vec![option("-a")]));
    assert!(!check_acceptable(&vec![flag("a"), option("no-a")]));
    assert!(!check_acceptable(&vec![option("a"), flag("no-a")]));
    assert!(!check_acceptable(&vec![flag("no-help")]));
    assert!(check_acceptable(&vec![option("a"), option("no-a")]));
}

#[test]
fn arguments_may_be_asked_for_twice() {
    let params = vec![
        expected("n", ArgTy::Int, None),
        expected("v", ArgTy::Bool, None),
        expected("n", ArgTy::Int, Some(ArgValue::Int(5))),
        expected("n", ArgTy::String, Some(ArgValue::String("x".to_string()))),
        expected("v", ArgTy::Bool, None),
    ];
    assert!(check_acceptable(&params));
    let args = parse_script_args("s.lua", &params, &vec![]).ok().unwrap();
    assert_eq!(sorted(&args), entries(&[("n", "5"), ("v", "false")]));
    let line = vec!["--n=7".to_string(), "--v".to_string()];
    let args = parse_script_args("s.lua", &params, &line).ok().unwrap();
    assert_eq!(sorted(&args), entries(&[("n", "7"), ("v", "true")]));
}

#[test]
fn flags_are_turned_around() {
    assert_eq!(negated_name("color"), "no-color");
    assert_eq!(negated_name("no-color"), "color");
    assert_eq!(negated_name("no-"), "");
    assert_eq!(negated_name("no"), "no-no");
    assert_eq!(negated_name(&negated_name("ü")), "ü");
}

#[test]
fn found_values_are_collected_by_name() {
    let params = vec![
        expected("a", ArgTy::Bool, None),
        expected("b", ArgTy::Int, None),
        expected("c", ArgTy::String, None),
    ];
    let found = vec![Found::Flag(true), Found::Nothing, Found::Text("t".to_string())];
    let args = collect_args(&params, found);
    assert_eq!(sorted(&args), entries(&[("a", "true"), ("c", "t")]));
}

#[test]
fn the_banner() {
    let lines: Vec<&str> = banner().lines().collect();
    assert_eq!(
        lines,
        [
            r"   _     _     __ ____   __ __ _____ ",
            r"  | |   / |   / // __ \ / // //____ |",
            r"  | |  /  |  / // /_/ // //_/    _/_/",
            r"  | | / / | / // __ _// /\ \     \ \ ",
            r"  | |/ /| |/ // / \ \/ /  \ \____/ / ",
            r"  |___/ |___//_/   \_\/    \_\____/  ",
        ]
    );
    assert!(banner().ends_with('\n'));
}

#[test]
fn versions() {
    assert_eq!(version_string(true, "0.1.0", "abc1234"), "0.1.0 (abc1234)");
    assert_eq!(version_string(false, "0.1.0", "abc1234"), "0.1.0 (abc1234*)");
}

#[test]
fn single_lines() {
    assert_eq!(worker_name(0), "worker-0");
    assert_eq!(worker_name(1203), "worker-1203");
    assert_eq!(open_file_message("a/b.lua"), "opening file a/b.lua");
    assert_eq!(unresolved_message("h:1"), "failed to resolve address h:1");
    assert_eq!(host_line("h:1", "127.0.0.1:1"), "Host: h:1 => 127.0.0.1:1");
    assert_eq!(resolved_line("h:1", "127.0.0.1:1"), "* Resolved h:1 to 127.0.0.1:1");
    assert_eq!(connected_line("127.0.0.1:1"), "* Connected to 127.0.0.1:1");
}

#[test]
fn arguments_are_shown() {
    assert!(list_args(&vec![]).is_empty());
    assert_eq!(
        list_args(&entries(&[("a", "1"), ("b", "x y")])),
        ["Script Args:", "  a => 1", "  b => x y", ""]
    );
    let args: FxHashMap<String, String> = entries(&[("k", "v")]).into_iter().collect();
    assert_eq!(show_args(&args), ["Script Args:", "  k => v", ""]);
}

#[test]
fn the_schedule_is_shown() {
    let config = WorkloadConfig {
        stages: vec![
            Stage {
                duration: LuaDt::from_secs(10),
                rate: Binary64 { bits: 20.5f64.to_bits() },
            },
            Stage {
                duration: LuaDt::from_secs(300),
                rate: Binary64 { bits: 300f64.to_bits() },
            },
        ],
    };
    let rates: Vec<String> =
        config.stages.iter().map(|s| f64::from_bits(s.rate.bits).to_string()).collect();
    assert_eq!(
        show_schedule(&config, &rates),
        ["Schedule:", "  * 10s @ 20.5req/s", "  * 5m @ 300req/s", ""]
    );
    assert!(show_schedule(&WorkloadConfig { stages: vec![] }, &vec![]).is_empty());
}

#[test]
fn requests_are_shown() {
    let mut headers = FxHashMap::default();
    headers.insert("x-a".to_string(), "1".to_string());
    let request = Request {
        path: "/p".to_string(),
        method: Method::Post,
        headers: Some(headers),
        body: Some("one\ntwo\n".to_string()),
        timeout: None,
    };
    assert_eq!(show_request(&request), ["> POST /p", "> x-a: 1", ">", "> one", "> two"]);
    assert_eq!(
        list_request("GET", "/", &entries(&[("b", "2"), ("a", "1")]), &None),
        ["> GET /", "> b: 2", "> a: 1"]
    );
}

#[test]
fn responses_are_shown() {
    assert_eq!(
        show_response(404, "Not Found", &entries(&[("server", "s")])),
        ["< 404 Not Found", "< server: s"]
    );
    assert_eq!(show_response_body("gone\r\naway"), ["<", "< gone", "< away"]);
    assert_eq!(show_response(299, "", &vec![]), ["< 299 "]);
    assert_eq!(show_response_body(""), ["<"]);
}

#[test]
fn lines_are_those_of_std() {
    for s in [
        "", "a", "a\n", "a\nb", "\n", "\n\n", "a\r\n", "a\r", "\r", "\r\n", "a\r\r\n", "a\rb\nc",
        "\r\n\r", "ü\n\r\n€",
    ] {
        let expected: Vec<&str> = s.lines().collect();
        assert_eq!(split_lines(s), expected);
    }
}

#[test]
fn sources_have_names() {
    let source = NamedSource::new("input.lua", "return 1");
    assert_eq!(source.name(), "@input.lua");
    assert_eq!(source.source(), "return 1");
}

#[test]
fn integers_in_decimal() {
    for i in [0, 1, -1, 9, 10, -10, 12345, i64::MAX, i64::MIN] {
        assert_eq!(integer_text(i), i.to_string());
    }
    for n in [0, 9, 10, 99, 100, u64::MAX as u128, u128::MAX] {
        assert_eq!(decimal_text(n), n.to_string());
    }
    assert_eq!(concat3("a", "", "c"), "ac");
}
