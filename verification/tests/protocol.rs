//! Dispatcher behavior: notifications, method routing, tool calls,
//! envelope serialization and the derived event identifier.

use blazing_art_mcp::clock::{system_clock, Clock};
use blazing_art_mcp::dispatch::{
    derive_event_id, handle_request, handle_request_now, parse_error_response, response_json, Id,
    Request, Response, ResponseBody,
};
use blazing_art_mcp::json::Json;
use blazing_art_mcp::jsontext::{entity_json, error_payload, event_json, events_json};
use blazing_art_mcp::records::Event;
use blazing_art_mcp::memory::Memory;
use blazing_art_mcp::records::Entity;
use blazing_art_mcp::strutil::{dash_spaces, str_eq, str_lex_lt, str_starts_with};

fn fixed_clock() -> Clock {
    Clock {
        today: "2024-01-01".to_string(),
        now_text: "T9".to_string(),
        now_secs: 1_704_067_200,
    }
}

fn obj(fields: Vec<(&str, Json)>) -> Json {
    Json::Obj(fields.into_iter().map(|(k, v)| (k.to_string(), v)).collect())
}

fn s(text: &str) -> Json {
    Json::Str(text.to_string())
}

fn tool_call(id: i64, tool: &str, arguments: Vec<(&str, Json)>) -> Request {
    Request {
        id: Some(Id::Num(id)),
        method: "tools/call".to_string(),
        params: obj(vec![("name", s(tool)), ("arguments", obj(arguments))]),
    }
}

fn success_text(r: Option<Response>) -> String {
    match r.expect("a call must be answered").body {
        ResponseBody::Success(t) => t,
        ResponseBody::Failure(_) => panic!("expected a successful envelope"),
    }
}

#[test]
fn notification_gets_no_reply() {
    let mut mem = Memory::new(64, 0);
    let req = Request {
        id: None,
        method: "something/unknown".to_string(),
        params: Json::Null,
    };
    assert!(handle_request(&mut mem, req, &fixed_clock()).is_none());
    let initialized = Request {
        id: None,
        method: "notifications/initialized".to_string(),
        params: Json::Null,
    };
    assert!(handle_request(&mut mem, initialized, &fixed_clock()).is_none());
    assert_eq!(mem.stats().lookup_count, 0);
}

#[test]
fn unknown_method_gets_one_error_envelope() {
    let mut mem = Memory::new(64, 0);
    let req = Request {
        id: Some(Id::Num(7)),
        method: "no/such".to_string(),
        params: Json::Null,
    };
    let resp = handle_request(&mut mem, req, &fixed_clock()).expect("a call must be answered");
    let line = response_json(&resp);
    assert_eq!(
        line,
        "{\"jsonrpc\":\"2.0\",\"id\":7,\"error\":{\"code\":-32601,\"message\":\"Method not found: no/such\"}}"
    );
}

#[test]
fn initialize_reports_server_identity() {
    let mut mem = Memory::new(64, 0);
    let req = Request {
        id: Some(Id::Num(1)),
        method: "initialize".to_string(),
        params: Json::Null,
    };
    let text = success_text(handle_request(&mut mem, req, &fixed_clock()));
    assert_eq!(
        text,
        "{\"capabilities\":{\"tools\":{}},\"protocolVersion\":\"2025-06-18\",\"serverInfo\":{\"name\":\"blazing-art-mcp\",\"version\":\"0.1.0\"}}"
    );
}

#[test]
fn tools_list_names_all_four_tools() {
    let mut mem = Memory::new(64, 0);
    let req = Request {
        id: Some(Id::Num(2)),
        method: "tools/list".to_string(),
        params: Json::Null,
    };
    let text = success_text(handle_request(&mut mem, req, &fixed_clock()));
    assert!(text.starts_with("{\"tools\":["));
    assert!(text.contains("\"name\":\"lookupEntity\""));
    assert!(text.contains("\"name\":\"addEntity\""));
    assert!(text.contains("\"name\":\"findEvents\""));
    assert!(text.contains("\"name\":\"addEvent\""));
}

#[test]
fn lookup_entity_roundtrip_and_miss() {
    let mut mem = Memory::new(64, 0);
    let n = mem.load_entities(vec![Entity {
        name: "ada".to_string(),
        summary: "mathematician".to_string(),
        born: None,
        tags: Vec::new(),
    }]);
    assert_eq!(n, 1);
    let hit = tool_call(3, "lookupEntity", vec![("name", s("ada"))]);
    let text = success_text(handle_request(&mut mem, hit, &fixed_clock()));
    assert_eq!(
        text,
        "{\"content\":[{\"text\":\"{\\\"name\\\":\\\"ada\\\",\\\"summary\\\":\\\"mathematician\\\",\\\"tags\\\":[]}\",\"type\":\"text\"}]}"
    );
    let miss = tool_call(4, "lookupEntity", vec![("name", s("grace"))]);
    let text = success_text(handle_request(&mut mem, miss, &fixed_clock()));
    assert_eq!(
        text,
        "{\"content\":[{\"text\":\"{\\\"error\\\":\\\"Entity not found: grace\\\"}\",\"type\":\"text\"}]}"
    );
    let stats = mem.stats();
    assert_eq!(stats.lookup_count, 2);
    assert_eq!(stats.error_count, 1);
}

#[test]
fn add_entity_then_lookup_carries_all_fields() {
    let mut mem = Memory::new(64, 0);
    let add = tool_call(
        5,
        "addEntity",
        vec![
            ("name", s("ada")),
            ("summary", s("mathematician")),
            ("born", s("1815")),
            ("tags", Json::Arr(vec![s("math"), Json::Int(3), s("pioneer")])),
        ],
    );
    let text = success_text(handle_request(&mut mem, add, &fixed_clock()));
    assert_eq!(
        text,
        "{\"content\":[{\"text\":\"{\\\"message\\\":\\\"Entity added successfully\\\",\\\"success\\\":true}\",\"type\":\"text\"}]}"
    );
    let entity = mem.lookup_entity("ada", 1).expect("ada present");
    assert_eq!(entity.summary, "mathematician");
    assert_eq!(entity.born.as_deref(), Some("1815"));
    assert_eq!(entity.tags, vec!["math".to_string(), "pioneer".to_string()]);
}

#[test]
fn find_events_by_prefix_and_limit() {
    let mut mem = Memory::new(64, 0);
    let e1 = tool_call(
        6,
        "addEvent",
        vec![
            ("id", s("2024-01-01:launch")),
            ("timestamp", s("T1")),
            ("description", s("d1")),
            ("category", s("c1")),
        ],
    );
    let _ = success_text(handle_request(&mut mem, e1, &fixed_clock()));
    let e2 = tool_call(
        7,
        "addEvent",
        vec![
            ("id", s("2024-01-02:launch")),
            ("timestamp", s("T2")),
            ("description", s("d2")),
            ("category", s("c2")),
        ],
    );
    let _ = success_text(handle_request(&mut mem, e2, &fixed_clock()));
    let day_one = tool_call(8, "findEvents", vec![("prefix", s("2024-01-01"))]);
    let text = success_text(handle_request(&mut mem, day_one, &fixed_clock()));
    assert_eq!(
        text,
        "{\"content\":[{\"text\":\"[{\\\"category\\\":\\\"c1\\\",\\\"description\\\":\\\"d1\\\",\\\"id\\\":\\\"2024-01-01:launch\\\",\\\"timestamp\\\":\\\"T1\\\"}]\",\"type\":\"text\"}]}"
    );
    let recs = mem.find_events("2024", 9);
    assert_eq!(recs.len(), 2);
    assert_eq!(recs[0].id, "2024-01-01:launch");
    assert_eq!(recs[1].id, "2024-01-02:launch");
}

#[test]
fn find_events_limit_one_returns_the_smaller_key() {
    let mut mem = Memory::new(1, 0);
    let e2 = tool_call(
        1,
        "addEvent",
        vec![
            ("id", s("2024-01-02:launch")),
            ("timestamp", s("T2")),
            ("description", s("d2")),
            ("category", s("c2")),
        ],
    );
    let _ = success_text(handle_request(&mut mem, e2, &fixed_clock()));
    let e1 = tool_call(
        2,
        "addEvent",
        vec![
            ("id", s("2024-01-01:launch")),
            ("timestamp", s("T1")),
            ("description", s("d1")),
            ("category", s("c1")),
        ],
    );
    let _ = success_text(handle_request(&mut mem, e1, &fixed_clock()));
    let bounded = tool_call(3, "findEvents", vec![("prefix", s("2024"))]);
    let text = success_text(handle_request(&mut mem, bounded, &fixed_clock()));
    assert_eq!(
        text,
        "{\"content\":[{\"text\":\"[{\\\"category\\\":\\\"c1\\\",\\\"description\\\":\\\"d1\\\",\\\"id\\\":\\\"2024-01-01:launch\\\",\\\"timestamp\\\":\\\"T1\\\"}]\",\"type\":\"text\"}]}"
    );
}

#[test]
fn add_event_derives_id_and_timestamp() {
    let mut mem = Memory::new(64, 0);
    let add = tool_call(
        9,
        "addEvent",
        vec![("description", s("big day")), ("category", s("Product Launch"))],
    );
    let _ = success_text(handle_request(&mut mem, add, &fixed_clock()));
    let hits = mem.find_events("2024-01-01:product-launch", 1);
    assert_eq!(hits.len(), 1);
    assert_eq!(hits[0].id, "2024-01-01:product-launch");
    assert_eq!(hits[0].timestamp, "T9");
    assert_eq!(hits[0].description, "big day");
    assert_eq!(hits[0].category, "Product Launch");
}

#[test]
fn derived_id_lowercases_and_dashes() {
    assert_eq!(
        derive_event_id("2024-01-01", "Product Launch"),
        "2024-01-01:product-launch"
    );
    assert_eq!(derive_event_id("2024-06-30", "OPS"), "2024-06-30:ops");
}

#[test]
fn missing_required_arguments_are_tool_level_errors() {
    let mut mem = Memory::new(64, 0);
    let cases = vec![
        (
            tool_call(1, "lookupEntity", vec![]),
            "{\\\"error\\\":\\\"Missing name parameter\\\"}",
        ),
        (
            tool_call(2, "addEntity", vec![("name", s("ada"))]),
            "{\\\"error\\\":\\\"Missing required parameters\\\"}",
        ),
        (
            tool_call(3, "findEvents", vec![]),
            "{\\\"error\\\":\\\"Missing prefix parameter\\\"}",
        ),
        (
            tool_call(4, "addEvent", vec![("description", s("d"))]),
            "{\\\"error\\\":\\\"Missing required parameters\\\"}",
        ),
    ];
    for (req, inner) in cases {
        let text = success_text(handle_request(&mut mem, req, &fixed_clock()));
        let expected = format!(
            "{{\"content\":[{{\"text\":\"{}\",\"type\":\"text\"}}]}}",
            inner
        );
        assert_eq!(text, expected);
    }
    assert_eq!(mem.stats().entity_count, 0);
    assert_eq!(mem.stats().event_count, 0);
}

#[test]
fn mistyped_required_argument_counts_as_missing() {
    let mut mem = Memory::new(64, 0);
    let req = tool_call(1, "lookupEntity", vec![("name", Json::Int(5))]);
    let text = success_text(handle_request(&mut mem, req, &fixed_clock()));
    assert_eq!(
        text,
        "{\"content\":[{\"text\":\"{\\\"error\\\":\\\"Missing name parameter\\\"}\",\"type\":\"text\"}]}"
    );
}

#[test]
fn unknown_tool_is_reported_in_content() {
    let mut mem = Memory::new(64, 0);
    let req = tool_call(1, "zap", vec![]);
    let text = success_text(handle_request(&mut mem, req, &fixed_clock()));
    assert_eq!(
        text,
        "{\"content\":[{\"text\":\"{\\\"error\\\":\\\"Unknown tool: zap\\\"}\",\"type\":\"text\"}]}"
    );
    let nameless = Request {
        id: Some(Id::Num(2)),
        method: "tools/call".to_string(),
        params: Json::Null,
    };
    let text = success_text(handle_request(&mut mem, nameless, &fixed_clock()));
    assert_eq!(
        text,
        "{\"content\":[{\"text\":\"{\\\"error\\\":\\\"Unknown tool: \\\"}\",\"type\":\"text\"}]}"
    );
}

#[test]
fn response_envelope_id_forms() {
    let with_text_id = Response {
        id: Id::Text("abc".to_string()),
        body: ResponseBody::Success("{}".to_string()),
    };
    assert_eq!(
        response_json(&with_text_id),
        "{\"jsonrpc\":\"2.0\",\"id\":\"abc\",\"result\":{}}"
    );
    let with_negative_id = Response {
        id: Id::Num(-42),
        body: ResponseBody::Success("1".to_string()),
    };
    assert_eq!(
        response_json(&with_negative_id),
        "{\"jsonrpc\":\"2.0\",\"id\":-42,\"result\":1}"
    );
    let with_extreme_id = Response {
        id: Id::Num(i64::MIN),
        body: ResponseBody::Success("0".to_string()),
    };
    assert_eq!(
        response_json(&with_extreme_id),
        "{\"jsonrpc\":\"2.0\",\"id\":-9223372036854775808,\"result\":0}"
    );
}

#[test]
fn parse_error_envelope_carries_salvaged_id() {
    let with_null = parse_error_response(Id::Null, "bad json");
    assert_eq!(
        response_json(&with_null),
        "{\"jsonrpc\":\"2.0\",\"id\":null,\"error\":{\"code\":-32700,\"message\":\"Parse error: bad json\"}}"
    );
    let with_num = parse_error_response(Id::Num(3), "missing method");
    assert_eq!(
        response_json(&with_num),
        "{\"jsonrpc\":\"2.0\",\"id\":3,\"error\":{\"code\":-32700,\"message\":\"Parse error: missing method\"}}"
    );
}

#[test]
fn entity_json_escapes_string_content() {
    let tricky = Entity {
        name: "q".to_string(),
        summary: "a\"b\\c\nd\u{1}".to_string(),
        born: None,
        tags: vec!["x y".to_string()],
    };
    assert_eq!(
        entity_json(&tricky),
        "{\"name\":\"q\",\"summary\":\"a\\\"b\\\\c\\nd\\u0001\",\"tags\":[\"x y\"]}"
    );
    assert_eq!(error_payload("tab\there"), "{\"error\":\"tab\\there\"}");
}

#[test]
fn event_serialization_orders_members() {
    let e = Event {
        id: "2024-01-01:launch".to_string(),
        timestamp: "T1".to_string(),
        description: "d1".to_string(),
        category: "c1".to_string(),
    };
    assert_eq!(
        event_json(&e),
        "{\"category\":\"c1\",\"description\":\"d1\",\"id\":\"2024-01-01:launch\",\"timestamp\":\"T1\"}"
    );
    assert_eq!(events_json(&Vec::new()), "[]");
}

#[test]
fn find_events_with_no_match_is_an_empty_array() {
    let mut mem = Memory::new(64, 0);
    let req = tool_call(1, "findEvents", vec![("prefix", s("nothing"))]);
    let text = success_text(handle_request(&mut mem, req, &fixed_clock()));
    assert_eq!(text, "{\"content\":[{\"text\":\"[]\",\"type\":\"text\"}]}");
}

#[test]
fn string_utilities_agree_with_their_specs() {
    assert!(str_lex_lt("abc", "abd"));
    assert!(str_lex_lt("ab", "abc"));
    assert!(!str_lex_lt("abc", "abc"));
    assert!(!str_lex_lt("b", "abc"));
    assert!(str_starts_with("2024-01-01:x", "2024"));
    assert!(!str_starts_with("2023", "2024"));
    assert!(str_starts_with("anything", ""));
    assert!(str_eq("same", "same"));
    assert!(!str_eq("same", "sam"));
    assert_eq!(dash_spaces("a b  c"), "a-b--c");
}

#[test]
fn system_clock_has_usable_shape() {
    let clock = system_clock();
    assert!(clock.today.len() >= 10);
    assert!(!clock.now_text.is_empty());
}

#[test]
fn handle_request_now_answers_calls() {
    let mut mem = Memory::new(64, 0);
    let req = Request {
        id: Some(Id::Num(1)),
        method: "initialize".to_string(),
        params: Json::Null,
    };
    let resp = handle_request_now(&mut mem, req).expect("a call must be answered");
    match resp.body {
        ResponseBody::Success(t) => assert!(t.contains("blazing-art-mcp")),
        ResponseBody::Failure(_) => panic!("initialize must succeed"),
    }
    let add = tool_call(2, "addEvent", vec![("description", s("d")), ("category", s("Go Live"))]);
    let _ = handle_request_now(&mut mem, add).expect("a call must be answered");
    let hits = mem.find_events("", 10);
    assert_eq!(hits.len(), 1);
    assert!(hits[0].id.ends_with(":go-live"));
    assert!(hits[0].id.len() >= 18);
    assert!(!hits[0].timestamp.is_empty());
}
