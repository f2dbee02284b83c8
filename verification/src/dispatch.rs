//! The protocol dispatcher: one decoded request envelope in, at most one
//! response envelope out.
//!
//! A request without an identifier is a notification and is never
//! answered.  A call resolves its method against the closed set
//! `initialize`, `tools/list`, `tools/call`; an unknown method is answered
//! with a protocol-level error.  Tool-level failures — an unknown tool
//! name, a missing or mistyped required argument, a lookup miss — are
//! answered as error content inside a successful envelope, never as
//! protocol-level errors.

use vstd::prelude::*;

use vstd::string::StringExecFns;

use crate::clock::Clock;
use crate::json::arg_str;
use crate::json::arg_str_list;
use crate::json::get_member;
use crate::json::get_str_member;
use crate::json::get_string_list;
use crate::json::member_of;
use crate::json::str_list_member;
use crate::json::str_member;
use crate::json::Json;
use crate::jsontext::chars_to_string;
use crate::jsontext::dec_int;
use crate::jsontext::entity_json;
use crate::jsontext::entity_json_text;
use crate::jsontext::error_payload;
use crate::jsontext::error_payload_text;
use crate::jsontext::events_json;
use crate::jsontext::events_json_text;
use crate::jsontext::push_int_text;
use crate::jsontext::push_quoted_text;
use crate::jsontext::push_raw_text;
use crate::jsontext::quoted;
use crate::memory::Memory;
use crate::records::Entity;
use crate::records::EntityView;
use crate::records::Event;
use crate::records::EventView;
use crate::stats::sat_inc;
use crate::store::scan_values;
use crate::store::spec_get;
use crate::store::spec_scan;
use crate::store::spec_upsert;
use crate::strutil::dash_spaces;
use crate::strutil::dash_spaces_text;
use crate::strutil::lower_of;
use crate::strutil::str_eq;
use crate::strutil::to_lowercase;

verus! {

/// A request identifier: a string, an integer, or JSON null.
pub enum Id {
    Num(i64),
    Text(String),
    Null,
}

/// One decoded request envelope.  A missing `id` marks a notification.
pub struct Request {
    pub id: Option<Id>,
    pub method: String,
    pub params: Json,
}

/// A protocol-level error: a reserved code and a message.
pub struct ErrorInfo {
    pub code: i64,
    pub message: String,
}

/// What a response envelope carries: the serialized JSON text of a
/// result, or an error object.
pub enum ResponseBody {
    Success(String),
    Failure(ErrorInfo),
}

/// One response envelope, addressed by the caller's identifier.
pub struct Response {
    pub id: Id,
    pub body: ResponseBody,
}

/// The fixed result of `initialize`.
pub open spec fn initialize_result_text() -> Seq<char> {
    "{\"capabilities\":{\"tools\":{}},\"protocolVersion\":\"2025-06-18\",\"serverInfo\":{\"name\":\"blazing-art-mcp\",\"version\":\"0.1.0\"}}"@
}

/// The fixed tool catalogue returned by `tools/list`.
pub open spec fn tools_list_text() -> Seq<char> {
    "{\"tools\":[{\"description\":\"Retrieve stored information about an entity by exact name.\",\"inputSchema\":{\"properties\":{\"name\":{\"description\":\"The exact name of the entity to look up\",\"type\":\"string\"}},\"required\":[\"name\"],\"type\":\"object\"},\"name\":\"lookupEntity\"},{\"description\":\"Add or update an entity in the memory store.\",\"inputSchema\":{\"properties\":{\"born\":{\"description\":\"Birth year (optional)\",\"type\":\"string\"},\"name\":{\"description\":\"The name of the entity\",\"type\":\"string\"},\"summary\":{\"description\":\"A summary of the entity\",\"type\":\"string\"},\"tags\":{\"description\":\"Tags associated with the entity\",\"items\":{\"type\":\"string\"},\"type\":\"array\"}},\"required\":[\"name\",\"summary\"],\"type\":\"object\"},\"name\":\"addEntity\"},{\"description\":\"Return all events whose key starts with the given prefix.\",\"inputSchema\":{\"properties\":{\"prefix\":{\"description\":\"The prefix to search for\",\"type\":\"string\"}},\"required\":[\"prefix\"],\"type\":\"object\"},\"name\":\"findEvents\"},{\"description\":\"Add a new event to the memory store.\",\"inputSchema\":{\"properties\":{\"category\":{\"description\":\"Event category\",\"type\":\"string\"},\"description\":{\"description\":\"Event description\",\"type\":\"string\"},\"id\":{\"description\":\"Event ID (optional, will be generated if not provided)\",\"type\":\"string\"},\"timestamp\":{\"description\":\"Event timestamp (optional, defaults to now)\",\"type\":\"string\"}},\"required\":[\"description\",\"category\"],\"type\":\"object\"},\"name\":\"addEvent\"}]}"@
}

/// The content text acknowledging a stored entity.
pub open spec fn entity_added_text() -> Seq<char> {
    "{\"message\":\"Entity added successfully\",\"success\":true}"@
}

/// The content text acknowledging a stored event.
pub open spec fn event_added_text() -> Seq<char> {
    "{\"message\":\"Event added successfully\",\"success\":true}"@
}

/// The `tools/call` result: the tool's outcome text wrapped as one piece
/// of textual content.
pub open spec fn content_wrap_text(t: Seq<char>) -> Seq<char> {
    "{\"content\":[{\"text\":"@ + quoted(t) + ",\"type\":\"text\"}]}"@
}

/// The identifier an event gets when none is supplied: the current date,
/// a colon, and the category with spaces dashed, lower-cased.
pub open spec fn derived_id_text(today: Seq<char>, category: Seq<char>) -> Seq<char> {
    today + ":"@ + lower_of(dash_spaces_text(category))
}

/// The tool a `tools/call` addresses: its `name` member, or empty text
/// when absent or not a string.
pub open spec fn tool_name_of(params: Json) -> Seq<char> {
    match str_member(params, "name"@) {
        Some(t) => t,
        None => ""@,
    }
}

/// The tag list of an `addEntity` call, empty when absent or not an array.
pub open spec fn tags_or_empty(params: Json) -> Seq<Seq<char>> {
    match arg_str_list(params, "tags"@) {
        Some(l) => l,
        None => Seq::empty(),
    }
}

/// Neither collection changed.
pub open spec fn stores_unchanged(pre: Memory, post: Memory) -> bool {
    post.entities_view() == pre.entities_view() && post.events_view() == pre.events_view()
}

/// No counter changed.
pub open spec fn stats_unchanged(pre: Memory, post: Memory) -> bool {
    post.lookup_count() == pre.lookup_count() && post.error_count() == pre.error_count()
        && post.last_access() == pre.last_access()
}

/// The outcome text of one tool invocation, as a function of the stores,
/// the arguments and the clock reading.
pub open spec fn spec_tool_text(
    pre: Memory,
    params: Json,
    today: Seq<char>,
    now_text: Seq<char>,
) -> Seq<char> {
    let tool = tool_name_of(params);
    if tool == "lookupEntity"@ {
        match arg_str(params, "name"@) {
            Some(name) => match spec_get(pre.entities_view(), name) {
                Some(ev) => entity_json_text(ev),
                None => error_payload_text("Entity not found: "@ + name),
            },
            None => error_payload_text("Missing name parameter"@),
        }
    } else if tool == "addEntity"@ {
        if arg_str(params, "name"@) is Some && arg_str(params, "summary"@) is Some {
            entity_added_text()
        } else {
            error_payload_text("Missing required parameters"@)
        }
    } else if tool == "findEvents"@ {
        match arg_str(params, "prefix"@) {
            Some(p) => events_json_text(
                scan_values(spec_scan(pre.events_view(), p, pre.spec_event_limit() as nat)),
            ),
            None => error_payload_text("Missing prefix parameter"@),
        }
    } else if tool == "addEvent"@ {
        if arg_str(params, "description"@) is Some && arg_str(params, "category"@) is Some {
            event_added_text()
        } else {
            error_payload_text("Missing required parameters"@)
        }
    } else {
        error_payload_text("Unknown tool: "@ + tool)
    }
}

/// How one tool invocation changes the stores and counters.
pub open spec fn tool_state_rel(
    pre: Memory,
    params: Json,
    today: Seq<char>,
    now_text: Seq<char>,
    now_secs: u64,
    post: Memory,
) -> bool {
    let tool = tool_name_of(params);
    if tool == "lookupEntity"@ {
        match arg_str(params, "name"@) {
            Some(name) => stores_unchanged(pre, post) && post.lookup_count() == sat_inc(
                pre.lookup_count(),
            ) && post.last_access() == now_secs && post.error_count() == (
            if spec_get(pre.entities_view(), name) is None {
                sat_inc(pre.error_count())
            } else {
                pre.error_count()
            }),
            None => stores_unchanged(pre, post) && stats_unchanged(pre, post),
        }
    } else if tool == "addEntity"@ {
        match (arg_str(params, "name"@), arg_str(params, "summary"@)) {
            (Some(n), Some(s)) => {
                let ev = EntityView {
                    name: n,
                    summary: s,
                    born: arg_str(params, "born"@),
                    tags: tags_or_empty(params),
                };
                post.entities_view() == spec_upsert(pre.entities_view(), n, ev)
                    && post.events_view() == pre.events_view() && stats_unchanged(pre, post)
            },
            _ => stores_unchanged(pre, post) && stats_unchanged(pre, post),
        }
    } else if tool == "findEvents"@ {
        match arg_str(params, "prefix"@) {
            Some(_p) => stores_unchanged(pre, post) && post.lookup_count() == sat_inc(
                pre.lookup_count(),
            ) && post.last_access() == now_secs && post.error_count() == pre.error_count(),
            None => stores_unchanged(pre, post) && stats_unchanged(pre, post),
        }
    } else if tool == "addEvent"@ {
        match (arg_str(params, "description"@), arg_str(params, "category"@)) {
            (Some(d), Some(c)) => {
                let id = match arg_str(params, "id"@) {
                    Some(i) => i,
                    None => derived_id_text(today, c),
                };
                let ts = match arg_str(params, "timestamp"@) {
                    Some(x) => x,
                    None => now_text,
                };
                let ev = EventView { id: id, timestamp: ts, description: d, category: c };
                post.events_view() == spec_upsert(pre.events_view(), id, ev)
                    && post.entities_view() == pre.entities_view() && stats_unchanged(pre, post)
            },
            _ => stores_unchanged(pre, post) && stats_unchanged(pre, post),
        }
    } else {
        stores_unchanged(pre, post) && stats_unchanged(pre, post)
    }
}

/// Everything one dispatch determines: whether a response exists, what it
/// says, and how the state changed.
pub open spec fn dispatch_rel(
    pre: Memory,
    req: Request,
    today: Seq<char>,
    now_text: Seq<char>,
    now_secs: u64,
    r: Option<Response>,
    post: Memory,
) -> bool {
    match req.id {
        None => r is None && stores_unchanged(pre, post) && stats_unchanged(pre, post),
        Some(rid) => match r {
            None => false,
            Some(resp) => resp.id == rid && (if req.method@ == "initialize"@ {
                (resp.body matches ResponseBody::Success(t) && t@ == initialize_result_text())
                    && stores_unchanged(pre, post) && stats_unchanged(pre, post)
            } else if req.method@ == "tools/list"@ {
                (resp.body matches ResponseBody::Success(t) && t@ == tools_list_text())
                    && stores_unchanged(pre, post) && stats_unchanged(pre, post)
            } else if req.method@ == "tools/call"@ {
                (resp.body matches ResponseBody::Success(t) && t@ == content_wrap_text(
                    spec_tool_text(pre, req.params, today, now_text),
                )) && tool_state_rel(pre, req.params, today, now_text, now_secs, post)
            } else {
                (resp.body matches ResponseBody::Failure(e) && e.code == -32601 && e.message@
                    == "Method not found: "@ + req.method@) && stores_unchanged(pre, post)
                    && stats_unchanged(pre, post)
            }),
        },
    }
}

/// Builds the identifier an event gets when none is supplied.
pub fn derive_event_id(today: &str, category: &str) -> (r: String)
    ensures
        r@ == derived_id_text(today@, category@),
{
    let mut out = today.to_owned();
    out.append(":");
    let dashed = dash_spaces(category);
    let lowered = to_lowercase(dashed.as_str());
    out.append(lowered.as_str());
    proof {
        assert(out@ =~= derived_id_text(today@, category@));
    }
    out
}

/// Wraps a tool outcome as one piece of textual content.
fn content_wrap(t: &str) -> (r: String)
    ensures
        r@ == content_wrap_text(t@),
{
    let mut out: Vec<char> = Vec::new();
    push_raw_text(&mut out, "{\"content\":[{\"text\":");
    push_quoted_text(&mut out, t);
    push_raw_text(&mut out, ",\"type\":\"text\"}]}");
    proof {
        assert(out@ =~= content_wrap_text(t@));
    }
    chars_to_string(&out)
}

/// Runs one tool invocation against the memory and returns its outcome
/// text.
fn call_tool(mem: &mut Memory, params: &Json, clock: &Clock) -> (t: String)
    requires
        old(mem).wf(),
    ensures
        final(mem).wf(),
        final(mem).spec_event_limit() == old(mem).spec_event_limit(),
        t@ == spec_tool_text(*old(mem), *params, clock.today@, clock.now_text@),
        tool_state_rel(
            *old(mem),
            *params,
            clock.today@,
            clock.now_text@,
            clock.now_secs,
            *final(mem),
        ),
{
    let name_opt = get_str_member(params, "name");
    let tool: &str = match name_opt {
        Some(s) => s.as_str(),
        None => "",
    };
    proof {
        assert(tool@ == tool_name_of(*params));
    }
    let null_args = Json::Null;
    let args: &Json = match get_member(params, "arguments") {
        Some(a) => a,
        None => &null_args,
    };
    proof {
        assert forall|k: Seq<char>| #[trigger] str_member(*args, k) == arg_str(*params, k) by {
            match member_of(*params, "arguments"@) {
                Some(_a) => {},
                None => {},
            }
        }
        assert forall|k: Seq<char>|
            #[trigger] str_list_member(*args, k) == arg_str_list(*params, k) by {
            match member_of(*params, "arguments"@) {
                Some(_a) => {},
                None => {},
            }
        }
    }
    if str_eq(tool, "lookupEntity") {
        match get_str_member(args, "name") {
            Some(name) => {
                match mem.lookup_entity(name.as_str(), clock.now_secs) {
                    Some(entity) => entity_json(&entity),
                    None => {
                        let mut m = "Entity not found: ".to_owned();
                        m.append(name.as_str());
                        error_payload(m.as_str())
                    },
                }
            },
            None => error_payload("Missing name parameter"),
        }
    } else if str_eq(tool, "addEntity") {
        let name_arg = get_str_member(args, "name");
        let summary_arg = get_str_member(args, "summary");
        match (name_arg, summary_arg) {
            (Some(n), Some(s)) => {
                let born = match get_str_member(args, "born") {
                    Some(b) => Some(b.clone()),
                    None => None,
                };
                let tags = match get_string_list(args, "tags") {
                    Some(v) => v,
                    None => Vec::new(),
                };
                let entity = Entity { name: n.clone(), summary: s.clone(), born, tags };
                proof {
                    assert(entity@.tags =~= tags_or_empty(*params));
                    assert(entity@ == EntityView {
                        name: n@,
                        summary: s@,
                        born: arg_str(*params, "born"@),
                        tags: tags_or_empty(*params),
                    });
                }
                mem.add_entity(entity);
                "{\"message\":\"Entity added successfully\",\"success\":true}".to_owned()
            },
            _ => error_payload("Missing required parameters"),
        }
    } else if str_eq(tool, "findEvents") {
        match get_str_member(args, "prefix") {
            Some(p) => {
                let events = mem.find_events(p.as_str(), clock.now_secs);
                events_json(&events)
            },
            None => error_payload("Missing prefix parameter"),
        }
    } else if str_eq(tool, "addEvent") {
        let description_arg = get_str_member(args, "description");
        let category_arg = get_str_member(args, "category");
        match (description_arg, category_arg) {
            (Some(d), Some(c)) => {
                let id = match get_str_member(args, "id") {
                    Some(i) => i.clone(),
                    None => derive_event_id(clock.today.as_str(), c.as_str()),
                };
                let timestamp = match get_str_member(args, "timestamp") {
                    Some(x) => x.clone(),
                    None => clock.now_text.clone(),
                };
                let event = Event {
                    id,
                    timestamp,
                    description: d.clone(),
                    category: c.clone(),
                };
                mem.add_event(event);
                "{\"message\":\"Event added successfully\",\"success\":true}".to_owned()
            },
            _ => error_payload("Missing required parameters"),
        }
    } else {
        let mut m = "Unknown tool: ".to_owned();
        m.append(tool);
        error_payload(m.as_str())
    }
}

/// Consumes one decoded request and produces at most one response: none
/// for a notification, exactly one for a call.
pub fn handle_request(mem: &mut Memory, req: Request, clock: &Clock) -> (r: Option<Response>)
    requires
        old(mem).wf(),
    ensures
        final(mem).wf(),
        final(mem).spec_event_limit() == old(mem).spec_event_limit(),
        dispatch_rel(
            *old(mem),
            req,
            clock.today@,
            clock.now_text@,
            clock.now_secs,
            r,
            *final(mem),
        ),
{
    let Request { id, method, params } = req;
    match id {
        None => {
            // A notification: processed for side effects only; unknown
            // notification methods are dropped without a reply.
            None
        },
        Some(rid) => {
            if str_eq(method.as_str(), "initialize") {
                let body = ResponseBody::Success(initialize_result());
                Some(Response { id: rid, body })
            } else if str_eq(method.as_str(), "tools/list") {
                let body = ResponseBody::Success(tools_list_result());
                Some(Response { id: rid, body })
            } else if str_eq(method.as_str(), "tools/call") {
                let text = call_tool(mem, &params, clock);
                let body = ResponseBody::Success(content_wrap(text.as_str()));
                Some(Response { id: rid, body })
            } else {
                let mut m = "Method not found: ".to_owned();
                m.append(method.as_str());
                let body = ResponseBody::Failure(ErrorInfo { code: -32601, message: m });
                Some(Response { id: rid, body })
            }
        },
    }
}

/// Consumes one decoded request using the system clock.  What the reply
/// and the new state look like is fixed by [`dispatch_rel`] for the clock
/// reading the call happened to take.
pub fn handle_request_now(mem: &mut Memory, req: Request) -> (r: Option<Response>)
    requires
        old(mem).wf(),
    ensures
        final(mem).wf(),
        final(mem).spec_event_limit() == old(mem).spec_event_limit(),
        exists|today: Seq<char>, now_text: Seq<char>, now_secs: u64|
            #[trigger] dispatch_rel(*old(mem), req, today, now_text, now_secs, r, *final(mem)),
{
    let clock = crate::clock::system_clock();
    let ghost today = clock.today@;
    let ghost now_text = clock.now_text@;
    let ghost now_secs = clock.now_secs;
    let r = handle_request(mem, req, &clock);
    proof {
        assert(dispatch_rel(*old(mem), req, today, now_text, now_secs, r, *mem));
    }
    r
}

/// The identifier of a response, as JSON text.
pub open spec fn id_text(i: Id) -> Seq<char> {
    match i {
        Id::Num(n) => dec_int(n as int),
        Id::Text(s) => quoted(s@),
        Id::Null => "null"@,
    }
}

/// The full response envelope as JSON text: the protocol version marker,
/// the caller's identifier, and either the result or the error object.
pub open spec fn response_json_text(r: Response) -> Seq<char> {
    match r.body {
        ResponseBody::Success(t) => "{\"jsonrpc\":\"2.0\",\"id\":"@ + id_text(r.id)
            + ",\"result\":"@ + t@ + "}"@,
        ResponseBody::Failure(e) => "{\"jsonrpc\":\"2.0\",\"id\":"@ + id_text(r.id)
            + ",\"error\":{\"code\":"@ + dec_int(e.code as int) + ",\"message\":"@ + quoted(
            e.message@,
        ) + "}}"@,
    }
}

/// Serializes one response envelope.
pub fn response_json(resp: &Response) -> (r: String)
    ensures
        r@ == response_json_text(*resp),
{
    let mut out: Vec<char> = Vec::new();
    push_raw_text(&mut out, "{\"jsonrpc\":\"2.0\",\"id\":");
    match &resp.id {
        Id::Num(n) => push_int_text(&mut out, *n),
        Id::Text(s) => push_quoted_text(&mut out, s.as_str()),
        Id::Null => push_raw_text(&mut out, "null"),
    }
    proof {
        assert(out@ =~= "{\"jsonrpc\":\"2.0\",\"id\":"@ + id_text(resp.id));
    }
    match &resp.body {
        ResponseBody::Success(t) => {
            push_raw_text(&mut out, ",\"result\":");
            push_raw_text(&mut out, t.as_str());
            push_raw_text(&mut out, "}");
        },
        ResponseBody::Failure(e) => {
            push_raw_text(&mut out, ",\"error\":{\"code\":");
            push_int_text(&mut out, e.code);
            push_raw_text(&mut out, ",\"message\":");
            push_quoted_text(&mut out, e.message.as_str());
            push_raw_text(&mut out, "}}");
        },
    }
    proof {
        assert(out@ =~= response_json_text(*resp));
    }
    chars_to_string(&out)
}

/// The answer to an undecodable request line whose identifier could be
/// salvaged: a parse-error envelope addressed to that identifier.  A line
/// yielding no identifier is dropped instead and gets no envelope.
pub fn parse_error_response(id: Id, detail: &str) -> (r: Response)
    ensures
        r.id == id,
        (r.body matches ResponseBody::Failure(e) && e.code == -32700 && e.message@
            == "Parse error: "@ + detail@),
{
    let mut m = "Parse error: ".to_owned();
    m.append(detail);
    Response { id, body: ResponseBody::Failure(ErrorInfo { code: -32700, message: m }) }
}

/// Law: a notification — a request without an identifier — is never
/// answered and changes nothing, whatever its method.
pub proof fn lemma_notification_no_reply(
    pre: Memory,
    req: Request,
    today: Seq<char>,
    now_text: Seq<char>,
    now_secs: u64,
    r: Option<Response>,
    post: Memory,
)
    requires
        dispatch_rel(pre, req, today, now_text, now_secs, r, post),
        req.id is None,
    ensures
        r is None,
        stores_unchanged(pre, post),
        stats_unchanged(pre, post),
{
}

/// Law: a call with a method outside the closed set is answered with
/// exactly one envelope, carrying the method-not-found code, the method's
/// name, and the caller's identifier, and changes nothing.
pub proof fn lemma_unknown_method_error(
    pre: Memory,
    req: Request,
    today: Seq<char>,
    now_text: Seq<char>,
    now_secs: u64,
    r: Option<Response>,
    post: Memory,
)
    requires
        dispatch_rel(pre, req, today, now_text, now_secs, r, post),
        req.id is Some,
        req.method@ != "initialize"@,
        req.method@ != "tools/list"@,
        req.method@ != "tools/call"@,
    ensures
        (r matches Some(resp) && resp.id == req.id->Some_0 && (resp.body
            matches ResponseBody::Failure(e) && e.code == -32601 && e.message@
            == "Method not found: "@ + req.method@)),
        stores_unchanged(pre, post),
        stats_unchanged(pre, post),
{
}

/// The result of `initialize`: protocol version and server identity.
pub fn initialize_result() -> (r: String)
    ensures
        r@ == initialize_result_text(),
{
    "{\"capabilities\":{\"tools\":{}},\"protocolVersion\":\"2025-06-18\",\"serverInfo\":{\"name\":\"blazing-art-mcp\",\"version\":\"0.1.0\"}}".to_owned()
}

/// The result of `tools/list`: the fixed tool catalogue.
pub fn tools_list_result() -> (r: String)
    ensures
        r@ == tools_list_text(),
{
    "{\"tools\":[{\"description\":\"Retrieve stored information about an entity by exact name.\",\"inputSchema\":{\"properties\":{\"name\":{\"description\":\"The exact name of the entity to look up\",\"type\":\"string\"}},\"required\":[\"name\"],\"type\":\"object\"},\"name\":\"lookupEntity\"},{\"description\":\"Add or update an entity in the memory store.\",\"inputSchema\":{\"properties\":{\"born\":{\"description\":\"Birth year (optional)\",\"type\":\"string\"},\"name\":{\"description\":\"The name of the entity\",\"type\":\"string\"},\"summary\":{\"description\":\"A summary of the entity\",\"type\":\"string\"},\"tags\":{\"description\":\"Tags associated with the entity\",\"items\":{\"type\":\"string\"},\"type\":\"array\"}},\"required\":[\"name\",\"summary\"],\"type\":\"object\"},\"name\":\"addEntity\"},{\"description\":\"Return all events whose key starts with the given prefix.\",\"inputSchema\":{\"properties\":{\"prefix\":{\"description\":\"The prefix to search for\",\"type\":\"string\"}},\"required\":[\"prefix\"],\"type\":\"object\"},\"name\":\"findEvents\"},{\"description\":\"Add a new event to the memory store.\",\"inputSchema\":{\"properties\":{\"category\":{\"description\":\"Event category\",\"type\":\"string\"},\"description\":{\"description\":\"Event description\",\"type\":\"string\"},\"id\":{\"description\":\"Event ID (optional, will be generated if not provided)\",\"type\":\"string\"},\"timestamp\":{\"description\":\"Event timestamp (optional, defaults to now)\",\"type\":\"string\"}},\"required\":[\"description\",\"category\"],\"type\":\"object\"},\"name\":\"addEvent\"}]}".to_owned()
}

} // verus!
