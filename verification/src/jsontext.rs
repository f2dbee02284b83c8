//! Serialization of records and payloads to JSON text, specified character
//! by character.
//!
//! Object members appear in ascending member-name order, string contents
//! are escaped, and the exact output text is pinned down by the spec
//! functions here.

use vstd::prelude::*;

use crate::records::Entity;
use crate::records::EntityView;
use crate::records::Event;
use crate::records::EventView;
use crate::strutil::string_from_chars;

verus! {

/// The lower-case hexadecimal digit for `n` (0 to 15).
pub open spec fn hex_digit(n: int) -> char {
    if n == 0 {
        '0'
    } else if n == 1 {
        '1'
    } else if n == 2 {
        '2'
    } else if n == 3 {
        '3'
    } else if n == 4 {
        '4'
    } else if n == 5 {
        '5'
    } else if n == 6 {
        '6'
    } else if n == 7 {
        '7'
    } else if n == 8 {
        '8'
    } else if n == 9 {
        '9'
    } else if n == 10 {
        'a'
    } else if n == 11 {
        'b'
    } else if n == 12 {
        'c'
    } else if n == 13 {
        'd'
    } else if n == 14 {
        'e'
    } else {
        'f'
    }
}

/// How one character appears inside a JSON string literal: quotes and
/// backslashes are escaped, the common control characters take their
/// short escapes, the remaining control characters take `\u00..`, and
/// every other character stands for itself.
pub open spec fn escape_char(c: char) -> Seq<char> {
    if c == '"' {
        seq!['\\', '"']
    } else if c == '\\' {
        seq!['\\', '\\']
    } else if c == '\n' {
        seq!['\\', 'n']
    } else if c == '\r' {
        seq!['\\', 'r']
    } else if c == '\t' {
        seq!['\\', 't']
    } else if (c as u32) < 32 {
        seq!['\\', 'u', '0', '0', hex_digit((c as u32) as int / 16), hex_digit((c as u32) as int % 16)]
    } else {
        seq![c]
    }
}

/// The body of a JSON string literal holding the characters of `s`.
pub open spec fn escape_text(s: Seq<char>) -> Seq<char>
    decreases s.len(),
{
    if s.len() == 0 {
        Seq::empty()
    } else {
        escape_char(s[0]) + escape_text(s.skip(1))
    }
}

/// A complete JSON string literal holding `s`.
pub open spec fn quoted(s: Seq<char>) -> Seq<char> {
    seq!['"'] + escape_text(s) + seq!['"']
}

/// The decimal digit for `n` (0 to 9).
pub open spec fn dec_digit(n: int) -> char {
    if n == 0 {
        '0'
    } else if n == 1 {
        '1'
    } else if n == 2 {
        '2'
    } else if n == 3 {
        '3'
    } else if n == 4 {
        '4'
    } else if n == 5 {
        '5'
    } else if n == 6 {
        '6'
    } else if n == 7 {
        '7'
    } else if n == 8 {
        '8'
    } else {
        '9'
    }
}

/// The decimal digits of `n`, most significant first, no leading zeros.
pub open spec fn dec_nat(n: nat) -> Seq<char>
    decreases n,
{
    if n < 10 {
        seq![dec_digit(n as int)]
    } else {
        dec_nat(n / 10) + seq![dec_digit((n % 10) as int)]
    }
}

/// The decimal text of a possibly negative integer.
pub open spec fn dec_int(n: int) -> Seq<char> {
    if n < 0 {
        seq!['-'] + dec_nat((-n) as nat)
    } else {
        dec_nat(n as nat)
    }
}

/// Escaping distributes over concatenation.
pub proof fn lemma_escape_text_append(a: Seq<char>, b: Seq<char>)
    ensures
        escape_text(a + b) == escape_text(a) + escape_text(b),
    decreases a.len(),
{
    if a.len() == 0 {
        assert(a + b =~= b);
        assert(escape_text(a) + escape_text(b) =~= escape_text(b));
    } else {
        assert((a + b).skip(1) =~= a.skip(1) + b);
        lemma_escape_text_append(a.skip(1), b);
        assert(escape_char((a + b)[0]) + (escape_text(a.skip(1)) + escape_text(b)) =~= (
        escape_char(a[0]) + escape_text(a.skip(1))) + escape_text(b));
    }
}

fn hex_digit_exec(n: u32) -> (c: char)
    requires
        n < 16,
    ensures
        c == hex_digit(n as int),
{
    if n == 0 {
        '0'
    } else if n == 1 {
        '1'
    } else if n == 2 {
        '2'
    } else if n == 3 {
        '3'
    } else if n == 4 {
        '4'
    } else if n == 5 {
        '5'
    } else if n == 6 {
        '6'
    } else if n == 7 {
        '7'
    } else if n == 8 {
        '8'
    } else if n == 9 {
        '9'
    } else if n == 10 {
        'a'
    } else if n == 11 {
        'b'
    } else if n == 12 {
        'c'
    } else if n == 13 {
        'd'
    } else if n == 14 {
        'e'
    } else {
        'f'
    }
}

fn dec_digit_exec(n: u64) -> (c: char)
    requires
        n < 10,
    ensures
        c == dec_digit(n as int),
{
    if n == 0 {
        '0'
    } else if n == 1 {
        '1'
    } else if n == 2 {
        '2'
    } else if n == 3 {
        '3'
    } else if n == 4 {
        '4'
    } else if n == 5 {
        '5'
    } else if n == 6 {
        '6'
    } else if n == 7 {
        '7'
    } else if n == 8 {
        '8'
    } else {
        '9'
    }
}

/// Appends one escaped character.
fn push_escaped_char(out: &mut Vec<char>, c: char)
    ensures
        final(out)@ == old(out)@ + escape_char(c),
{
    let ghost start = out@;
    if c == '"' {
        out.push('\\');
        out.push('"');
    } else if c == '\\' {
        out.push('\\');
        out.push('\\');
    } else if c == '\n' {
        out.push('\\');
        out.push('n');
    } else if c == '\r' {
        out.push('\\');
        out.push('r');
    } else if c == '\t' {
        out.push('\\');
        out.push('t');
    } else if (c as u32) < 32 {
        out.push('\\');
        out.push('u');
        out.push('0');
        out.push('0');
        out.push(hex_digit_exec((c as u32) / 16));
        out.push(hex_digit_exec((c as u32) % 16));
    } else {
        out.push(c);
    }
    proof {
        assert(out@ =~= start + escape_char(c));
    }
}

/// Appends the characters of `s` unchanged.
fn push_raw(out: &mut Vec<char>, s: &str)
    ensures
        final(out)@ == old(out)@ + s@,
{
    let ghost start = out@;
    let n = s.unicode_len();
    let mut i: usize = 0;
    while i < n
        invariant
            n == s@.len(),
            0 <= i <= n,
            out@ == start + s@.take(i as int),
        decreases n - i,
    {
        out.push(s.get_char(i));
        proof {
            assert(start + s@.take(i as int + 1) =~= (start + s@.take(i as int)).push(
                s@[i as int],
            ));
        }
        i += 1;
    }
    proof {
        assert(start + s@.take(n as int) =~= start + s@);
    }
}

/// Appends `s` as a complete JSON string literal.
fn push_quoted(out: &mut Vec<char>, s: &str)
    ensures
        final(out)@ == old(out)@ + quoted(s@),
{
    let ghost start = out@;
    out.push('"');
    let n = s.unicode_len();
    let mut i: usize = 0;
    proof {
        assert(out@ =~= start + seq!['"'] + escape_text(s@.take(0)));
    }
    while i < n
        invariant
            n == s@.len(),
            0 <= i <= n,
            out@ == start + seq!['"'] + escape_text(s@.take(i as int)),
        decreases n - i,
    {
        push_escaped_char(out, s.get_char(i));
        proof {
            assert(s@.take(i as int + 1) =~= s@.take(i as int) + seq![s@[i as int]]);
            lemma_escape_text_append(s@.take(i as int), seq![s@[i as int]]);
            let single = seq![s@[i as int]];
            assert(single.len() == 1 && single[0] == s@[i as int]);
            assert(single.skip(1).len() == 0);
            assert(escape_text(single.skip(1)) == Seq::<char>::empty());
            assert(escape_text(single) =~= escape_char(s@[i as int]));
            assert(out@ =~= start + seq!['"'] + escape_text(s@.take(i as int + 1)));
        }
        i += 1;
    }
    out.push('"');
    proof {
        assert(s@.take(n as int) =~= s@);
        assert(out@ =~= start + quoted(s@));
    }
}

/// Appends the decimal digits of `n`.
fn push_u64(out: &mut Vec<char>, n: u64)
    ensures
        final(out)@ == old(out)@ + dec_nat(n as nat),
    decreases n,
{
    if n < 10 {
        out.push(dec_digit_exec(n));
        proof {
            assert(out@ =~= old(out)@ + dec_nat(n as nat));
        }
    } else {
        push_u64(out, n / 10);
        out.push(dec_digit_exec(n % 10));
        proof {
            assert(out@ =~= old(out)@ + dec_nat(n as nat));
        }
    }
}

/// Appends the decimal text of `n`, with a leading minus when negative.
fn push_i64(out: &mut Vec<char>, n: i64)
    ensures
        final(out)@ == old(out)@ + dec_int(n as int),
{
    if n >= 0 {
        push_u64(out, n as u64);
    } else if n == i64::MIN {
        out.push('-');
        push_u64(out, 9223372036854775808u64);
        proof {
            assert(out@ =~= old(out)@ + dec_int(n as int));
        }
    } else {
        out.push('-');
        push_u64(out, (-n) as u64);
        proof {
            assert(out@ =~= old(out)@ + dec_int(n as int));
        }
    }
}

/// The later elements of a comma-joined list of string literals, each
/// with its leading comma.
pub open spec fn strings_joined_rest(tags: Seq<Seq<char>>) -> Seq<char>
    decreases tags.len(),
{
    if tags.len() == 0 {
        Seq::empty()
    } else {
        seq![','] + quoted(tags[0]) + strings_joined_rest(tags.skip(1))
    }
}

/// String literals joined by commas.
pub open spec fn strings_joined(tags: Seq<Seq<char>>) -> Seq<char> {
    if tags.len() == 0 {
        Seq::empty()
    } else {
        quoted(tags[0]) + strings_joined_rest(tags.skip(1))
    }
}

/// A JSON array of string literals.
pub open spec fn strings_array_text(tags: Seq<Seq<char>>) -> Seq<char> {
    seq!['['] + strings_joined(tags) + seq![']']
}

fn push_strings_array(out: &mut Vec<char>, tags: &Vec<String>)
    ensures
        final(out)@ == old(out)@ + strings_array_text(tags@.map_values(|t: String| t@)),
{
    let ghost start = out@;
    let ghost views = tags@.map_values(|t: String| t@);
    out.push('[');
    let n = tags.len();
    if n > 0 {
        push_quoted(out, tags[0].as_str());
        let mut i: usize = 1;
        proof {
            assert(out@ =~= start + seq!['['] + quoted(views[0]));
        }
        while i < n
            invariant
                n == tags@.len(),
                views == tags@.map_values(|t: String| t@),
                1 <= i <= n,
                out@ + strings_joined_rest(views.skip(i as int)) == start + seq!['[']
                    + strings_joined(views),
            decreases n - i,
        {
            let ghost before = out@;
            out.push(',');
            push_quoted(out, tags[i].as_str());
            proof {
                let rest = views.skip(i as int);
                assert(rest[0] == views[i as int]);
                assert(rest.skip(1) =~= views.skip(i as int + 1));
                assert(strings_joined_rest(rest) == seq![','] + quoted(views[i as int])
                    + strings_joined_rest(views.skip(i as int + 1)));
                assert(out@ + strings_joined_rest(views.skip(i as int + 1)) =~= before
                    + strings_joined_rest(rest));
            }
            i += 1;
        }
        proof {
            assert(views.skip(n as int) =~= Seq::<Seq<char>>::empty());
            assert(out@ =~= start + seq!['['] + strings_joined(views));
        }
    } else {
        proof {
            assert(out@ =~= start + seq!['['] + strings_joined(views));
        }
    }
    out.push(']');
    proof {
        assert(out@ =~= start + strings_array_text(views));
    }
}

/// The optional leading `born` member of an entity object.
pub open spec fn born_member_text(born: Option<Seq<char>>) -> Seq<char> {
    match born {
        Some(b) => "\"born\":"@ + quoted(b) + ","@,
        None => Seq::empty(),
    }
}

/// The JSON object for an entity: members in ascending name order, `born`
/// omitted when absent.
pub open spec fn entity_json_text(e: EntityView) -> Seq<char> {
    "{"@ + born_member_text(e.born) + "\"name\":"@ + quoted(e.name) + ",\"summary\":"@ + quoted(
        e.summary,
    ) + ",\"tags\":"@ + strings_array_text(e.tags) + "}"@
}

/// The JSON object for an event: members in ascending name order.
pub open spec fn event_json_text(e: EventView) -> Seq<char> {
    "{\"category\":"@ + quoted(e.category) + ",\"description\":"@ + quoted(e.description)
        + ",\"id\":"@ + quoted(e.id) + ",\"timestamp\":"@ + quoted(e.timestamp) + "}"@
}

/// The later elements of a comma-joined list of event objects.
pub open spec fn events_joined_rest(list: Seq<EventView>) -> Seq<char>
    decreases list.len(),
{
    if list.len() == 0 {
        Seq::empty()
    } else {
        ","@ + event_json_text(list[0]) + events_joined_rest(list.skip(1))
    }
}

/// Event objects joined by commas.
pub open spec fn events_joined(list: Seq<EventView>) -> Seq<char> {
    if list.len() == 0 {
        Seq::empty()
    } else {
        event_json_text(list[0]) + events_joined_rest(list.skip(1))
    }
}

/// The JSON array of a list of events, in list order.
pub open spec fn events_json_text(list: Seq<EventView>) -> Seq<char> {
    "["@ + events_joined(list) + "]"@
}

/// A tool-level error object carrying a message.
pub open spec fn error_payload_text(msg: Seq<char>) -> Seq<char> {
    "{\"error\":"@ + quoted(msg) + "}"@
}

/// Serializes one entity record.
pub fn entity_json(e: &Entity) -> (r: String)
    ensures
        r@ == entity_json_text(e@),
{
    let mut out: Vec<char> = Vec::new();
    push_raw(&mut out, "{");
    match &e.born {
        Some(b) => {
            push_raw(&mut out, "\"born\":");
            push_quoted(&mut out, b.as_str());
            push_raw(&mut out, ",");
        },
        None => {},
    }
    push_raw(&mut out, "\"name\":");
    push_quoted(&mut out, e.name.as_str());
    push_raw(&mut out, ",\"summary\":");
    push_quoted(&mut out, e.summary.as_str());
    push_raw(&mut out, ",\"tags\":");
    push_strings_array(&mut out, &e.tags);
    push_raw(&mut out, "}");
    proof {
        assert(out@ =~= entity_json_text(e@));
    }
    string_from_chars(&out)
}

fn push_event(out: &mut Vec<char>, e: &Event)
    ensures
        final(out)@ == old(out)@ + event_json_text(e@),
{
    let ghost start = out@;
    push_raw(out, "{\"category\":");
    push_quoted(out, e.category.as_str());
    push_raw(out, ",\"description\":");
    push_quoted(out, e.description.as_str());
    push_raw(out, ",\"id\":");
    push_quoted(out, e.id.as_str());
    push_raw(out, ",\"timestamp\":");
    push_quoted(out, e.timestamp.as_str());
    push_raw(out, "}");
    proof {
        assert(out@ =~= start + event_json_text(e@));
    }
}

/// Serializes one event record.
pub fn event_json(e: &Event) -> (r: String)
    ensures
        r@ == event_json_text(e@),
{
    let mut out: Vec<char> = Vec::new();
    push_event(&mut out, e);
    proof {
        assert(out@ =~= event_json_text(e@));
    }
    string_from_chars(&out)
}

/// Serializes a list of events as a JSON array, in list order.
pub fn events_json(list: &Vec<Event>) -> (r: String)
    ensures
        r@ == events_json_text(list@.map_values(|e: Event| e@)),
{
    let mut out: Vec<char> = Vec::new();
    let ghost views = list@.map_values(|e: Event| e@);
    push_raw(&mut out, "[");
    let n = list.len();
    if n > 0 {
        push_event(&mut out, &list[0]);
        let mut i: usize = 1;
        proof {
            assert(out@ =~= "["@ + event_json_text(views[0]));
        }
        while i < n
            invariant
                n == list@.len(),
                views == list@.map_values(|e: Event| e@),
                1 <= i <= n,
                out@ + events_joined_rest(views.skip(i as int)) == "["@ + events_joined(views),
            decreases n - i,
        {
            let ghost before = out@;
            push_raw(&mut out, ",");
            push_event(&mut out, &list[i]);
            proof {
                let rest = views.skip(i as int);
                assert(rest[0] == views[i as int]);
                assert(rest.skip(1) =~= views.skip(i as int + 1));
                assert(events_joined_rest(rest) == ","@ + event_json_text(views[i as int])
                    + events_joined_rest(views.skip(i as int + 1)));
                assert(out@ + events_joined_rest(views.skip(i as int + 1)) =~= before
                    + events_joined_rest(rest));
            }
            i += 1;
        }
        proof {
            assert(views.skip(n as int) =~= Seq::<EventView>::empty());
            assert(out@ =~= "["@ + events_joined(views));
        }
    } else {
        proof {
            assert(out@ =~= "["@ + events_joined(views));
        }
    }
    push_raw(&mut out, "]");
    proof {
        assert(out@ =~= events_json_text(views));
    }
    string_from_chars(&out)
}

/// Builds a tool-level error object around a message.
pub fn error_payload(msg: &str) -> (r: String)
    ensures
        r@ == error_payload_text(msg@),
{
    let mut out: Vec<char> = Vec::new();
    push_raw(&mut out, "{\"error\":");
    push_quoted(&mut out, msg);
    push_raw(&mut out, "}");
    proof {
        assert(out@ =~= error_payload_text(msg@));
    }
    string_from_chars(&out)
}

/// Appends `s` as a JSON string literal; shared with the envelope writer.
pub(crate) fn push_quoted_text(out: &mut Vec<char>, s: &str)
    ensures
        final(out)@ == old(out)@ + quoted(s@),
{
    push_quoted(out, s)
}

/// Appends the characters of `s` unchanged; shared with the envelope writer.
pub(crate) fn push_raw_text(out: &mut Vec<char>, s: &str)
    ensures
        final(out)@ == old(out)@ + s@,
{
    push_raw(out, s)
}

/// Appends the decimal text of `n`; shared with the envelope writer.
pub(crate) fn push_int_text(out: &mut Vec<char>, n: i64)
    ensures
        final(out)@ == old(out)@ + dec_int(n as int),
{
    push_i64(out, n)
}

/// Turns an accumulated character buffer into a string; shared with the
/// envelope writer.
pub(crate) fn chars_to_string(v: &Vec<char>) -> (r: String)
    ensures
        r@ == v@,
{
    string_from_chars(v)
}

} // verus!
