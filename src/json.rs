//! JSON text for a sequence of objects, and its bytes.
use vstd::prelude::*;

use crate::convert::objects_view;
use crate::object::{Entry, Object};

verus! {

/// The objects could not be rendered as JSON. Objects of text keys and text
/// values always render, so this is never returned by `to_json`.
#[derive(Clone, Copy, Debug, PartialEq, Eq, Structural)]
pub struct SerializeError;

/// Compact JSON text (no insignificant whitespace) for an array of objects
/// whose values are strings, keys in the given order.
pub uninterp spec fn json_compact(objs: Seq<Seq<Entry>>) -> Seq<char>;

/// Indented JSON text for an array of objects whose values are strings, keys
/// in the given order.
pub uninterp spec fn json_pretty(objs: Seq<Seq<Entry>>) -> Seq<char>;

/// Relies on serde_json::to_string over an array of JSON objects with string
/// values; with the `preserve_order` feature the keys keep the entries' order,
/// so the text depends on the entries alone. It writes into a `Vec` and
/// string keys and values give it no error path, so it succeeds.
#[verifier::external_body]
fn compact_text(objs: &Vec<Object>) -> (r: Result<String, SerializeError>)
    ensures
        r is Ok,
        r->Ok_0@ == json_compact(objects_view(objs@)),
{
    let arr: Vec<serde_json::Value> = objs.iter().map(|o| serde_json::Value::Object(
        o.entries.iter().map(|(k, v)| (k.clone(), serde_json::Value::String(v.clone()))).collect(),
    )).collect();
    serde_json::to_string(&arr).map_err(|_| SerializeError)
}

/// Relies on serde_json::to_string_pretty over an array of JSON objects with
/// string values; with the `preserve_order` feature the keys keep the
/// entries' order, so the text depends on the entries alone. It writes into
/// a `Vec` and string keys and values give it no error path, so it succeeds.
#[verifier::external_body]
fn pretty_text(objs: &Vec<Object>) -> (r: Result<String, SerializeError>)
    ensures
        r is Ok,
        r->Ok_0@ == json_pretty(objects_view(objs@)),
{
    let arr: Vec<serde_json::Value> = objs.iter().map(|o| serde_json::Value::Object(
        o.entries.iter().map(|(k, v)| (k.clone(), serde_json::Value::String(v.clone()))).collect(),
    )).collect();
    serde_json::to_string_pretty(&arr).map_err(|_| SerializeError)
}

/// Renders `objs` as a JSON array of objects, indented when `pretty` holds;
/// this always succeeds.
pub fn to_json(objs: &Vec<Object>, pretty: bool) -> (r: Result<String, SerializeError>)
    ensures
        r is Ok,
        r->Ok_0@ == if pretty {
            json_pretty(objects_view(objs@))
        } else {
            json_compact(objects_view(objs@))
        },
{
    if pretty {
        pretty_text(objs)
    } else {
        compact_text(objs)
    }
}

/// Appends the UTF-8 bytes of `json` to `out`.
pub fn write_json(out: &mut Vec<u8>, json: String)
    ensures
        final(out)@ == old(out)@ + vstd::utf8::encode_utf8(json@),
{
    let bytes = json.as_str().as_bytes();
    let n = bytes.len();
    let mut i: usize = 0;
    while i < n
        invariant
            n == bytes@.len(),
            bytes@ == vstd::utf8::encode_utf8(json@),
            i <= n,
            out@ == old(out)@ + bytes@.take(i as int),
        decreases n - i,
    {
        out.push(bytes[i]);
        i = i + 1;
        assert(out@ =~= old(out)@ + bytes@.take(i as int));
    }
    assert(bytes@.take(n as int) =~= bytes@);
}

} // verus!
