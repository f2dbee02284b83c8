//! A decoded JSON value, as handed over by the transport, and the member
//! accesses the dispatcher performs on it.
//!
//! Only what the dispatcher reads is modelled: objects, arrays, strings,
//! integers, booleans and null.  Absent members and members of the wrong
//! type are both answered with `None`, mirroring index-and-test access on
//! dynamic values.

use vstd::prelude::*;

use crate::strutil::str_eq;

verus! {

/// One decoded JSON value.
pub enum Json {
    Null,
    Bool(bool),
    Int(i64),
    Str(String),
    Arr(Vec<Json>),
    Obj(Vec<(String, Json)>),
}

/// The first member of `fields` named `key`, if any.
pub open spec fn spec_member(fields: Seq<(String, Json)>, key: Seq<char>) -> Option<Json>
    decreases fields.len(),
{
    if fields.len() == 0 {
        None
    } else if fields[0].0@ == key {
        Some(fields[0].1)
    } else {
        spec_member(fields.skip(1), key)
    }
}

/// The member of an object named `key`; `None` when `j` is not an object
/// or has no such member.
pub open spec fn member_of(j: Json, key: Seq<char>) -> Option<Json> {
    match j {
        Json::Obj(fields) => spec_member(fields@, key),
        _ => None,
    }
}

/// The text of the member named `key`, when present and a string.
pub open spec fn str_member(j: Json, key: Seq<char>) -> Option<Seq<char>> {
    match member_of(j, key) {
        Some(Json::Str(s)) => Some(s@),
        _ => None,
    }
}

/// The string elements of `items`, in order, dropping elements of any
/// other type.
pub open spec fn string_items(items: Seq<Json>) -> Seq<Seq<char>>
    decreases items.len(),
{
    if items.len() == 0 {
        Seq::empty()
    } else {
        match items[0] {
            Json::Str(s) => seq![s@] + string_items(items.skip(1)),
            _ => string_items(items.skip(1)),
        }
    }
}

/// The string elements of the array member named `key`; `None` when the
/// member is absent or not an array.
pub open spec fn str_list_member(j: Json, key: Seq<char>) -> Option<Seq<Seq<char>>> {
    match member_of(j, key) {
        Some(Json::Arr(items)) => Some(string_items(items@)),
        _ => None,
    }
}

/// The string argument named `key` of a tool call: the member of the
/// params' `arguments` object, when that object exists and the member is
/// a string.
pub open spec fn arg_str(params: Json, key: Seq<char>) -> Option<Seq<char>> {
    match member_of(params, "arguments"@) {
        Some(a) => str_member(a, key),
        None => None,
    }
}

/// The string-list argument named `key` of a tool call, when the
/// `arguments` object exists and the member is an array.
pub open spec fn arg_str_list(params: Json, key: Seq<char>) -> Option<Seq<Seq<char>>> {
    match member_of(params, "arguments"@) {
        Some(a) => str_list_member(a, key),
        None => None,
    }
}

/// Looks a member up by name; on duplicate names the first one wins.
pub fn get_member<'a>(j: &'a Json, key: &str) -> (r: Option<&'a Json>)
    ensures
        match r {
            Some(v) => member_of(*j, key@) == Some(*v),
            None => member_of(*j, key@) is None,
        },
{
    match j {
        Json::Obj(fields) => {
            let n = fields.len();
            let mut i: usize = 0;
            proof {
                assert(fields@.skip(0) =~= fields@);
                assert(member_of(*j, key@) == spec_member(fields@, key@));
            }
            while i < n
                invariant
                    n == fields@.len(),
                    0 <= i <= n,
                    member_of(*j, key@) == spec_member(fields@, key@),
                    spec_member(fields@.skip(i as int), key@) == spec_member(fields@, key@),
                decreases n - i,
            {
                proof {
                    assert(fields@.skip(i as int)[0] == fields@[i as int]);
                    assert(fields@.skip(i as int).skip(1) =~= fields@.skip(i + 1));
                }
                if str_eq(fields[i].0.as_str(), key) {
                    let v = &fields[i].1;
                    proof {
                        assert(*v == fields@[i as int].1);
                        assert(spec_member(fields@.skip(i as int), key@) == Some(
                            fields@[i as int].1,
                        ));
                    }
                    return Some(v);
                }
                i += 1;
            }
            proof {
                assert(fields@.skip(n as int) =~= Seq::<(String, Json)>::empty());
            }
            None
        },
        _ => None,
    }
}

/// The string member named `key`, or `None` when absent or of another type.
pub fn get_str_member<'a>(j: &'a Json, key: &str) -> (r: Option<&'a String>)
    ensures
        match r {
            Some(s) => str_member(*j, key@) == Some(s@),
            None => str_member(*j, key@) is None,
        },
{
    match get_member(j, key) {
        Some(Json::Str(s)) => Some(s),
        _ => None,
    }
}

/// The string elements of the array member named `key`, or `None` when
/// the member is absent or not an array.
pub fn get_string_list(j: &Json, key: &str) -> (r: Option<Vec<String>>)
    ensures
        match r {
            Some(v) => str_list_member(*j, key@) == Some(v@.map_values(|t: String| t@)),
            None => str_list_member(*j, key@) is None,
        },
{
    match get_member(j, key) {
        Some(Json::Arr(items)) => {
            let n = items.len();
            let mut out: Vec<String> = Vec::new();
            let mut i: usize = 0;
            proof {
                assert(items@.skip(0) =~= items@);
                assert(out@.map_values(|t: String| t@) =~= Seq::<Seq<char>>::empty());
            }
            while i < n
                invariant
                    n == items@.len(),
                    0 <= i <= n,
                    out@.map_values(|t: String| t@) + string_items(items@.skip(i as int))
                        == string_items(items@),
                decreases n - i,
            {
                let ghost rest = items@.skip(i as int);
                proof {
                    assert(rest[0] == items@[i as int]);
                    assert(rest.skip(1) =~= items@.skip(i + 1));
                }
                match &items[i] {
                    Json::Str(s) => {
                        let ghost before = out@;
                        out.push(s.clone());
                        proof {
                            assert(string_items(rest) == seq![items@[i as int]->Str_0@]
                                + string_items(items@.skip(i + 1)));
                            assert(out@.map_values(|t: String| t@) =~= before.map_values(
                                |t: String| t@,
                            ).push(s@));
                            assert(out@.map_values(|t: String| t@) + string_items(
                                items@.skip(i + 1),
                            ) =~= before.map_values(|t: String| t@) + string_items(rest));
                        }
                    },
                    _ => {
                        proof {
                            assert(string_items(rest) == string_items(items@.skip(i + 1)));
                        }
                    },
                }
                i += 1;
            }
            proof {
                assert(items@.skip(n as int) =~= Seq::<Json>::empty());
                assert(out@.map_values(|t: String| t@) =~= string_items(items@));
            }
            Some(out)
        },
        _ => None,
    }
}

} // verus!
