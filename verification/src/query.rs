//! Client Query: decoding the control tool's client list.
//!
//! The tool answers `-j clients` with a JSON array; each element is an
//! object that should carry `title` (string), `workspace.name` (string)
//! and `class` (string).  An element missing any of the three is a data
//! defect and is silently skipped.  Anything that is not a well-formed
//! JSON array at the top decodes to the empty list: the utility favours
//! an available (if empty) display over an error path.

use vstd::prelude::*;

use crate::json::{json_get, json_of, json_str, parse_json_bytes, Json};
use crate::window::{WindowInfo, WindowView};

verus! {

/// String field `key` of `elem`, when `elem` is an object holding one.
pub open spec fn str_field(elem: Json, key: Seq<char>) -> Option<Seq<char>> {
    match json_get(elem, key) {
        Some(j) => json_str(j),
        None => None,
    }
}

/// The `workspace.name` string of `elem`, when present.
pub open spec fn workspace_field(elem: Json) -> Option<Seq<char>> {
    match json_get(elem, "workspace"@) {
        Some(w) => str_field(w, "name"@),
        None => None,
    }
}

/// The window record described by one array element, or `None` when any
/// of the three required fields is missing or not a string.
pub open spec fn window_of(elem: Json) -> Option<WindowView> {
    match (str_field(elem, "title"@), workspace_field(elem), str_field(elem, "class"@)) {
        (Some(title), Some(workspace), Some(app_class)) => Some(
            WindowView { title, workspace, app_class },
        ),
        _ => None,
    }
}

/// The records of a sequence of array elements, in order, complete
/// elements only.
pub open spec fn windows_of(elems: Seq<Json>) -> Seq<WindowView>
    decreases elems.len(),
{
    if elems.len() == 0 {
        Seq::empty()
    } else {
        let rest = windows_of(elems.drop_last());
        match window_of(elems.last()) {
            Some(w) => rest.push(w),
            None => rest,
        }
    }
}

/// What a whole query decodes to: the records of the array's elements,
/// or the empty sequence when the bytes do not parse or the document is
/// not an array.
pub open spec fn client_list_of(parsed: Option<Json>) -> Seq<WindowView> {
    match parsed {
        Some(Json::Array(elems)) => windows_of(elems@),
        _ => Seq::empty(),
    }
}

/// Reads the three required fields out of one array element.
pub fn window_record(elem: &Json) -> (r: Option<WindowInfo>)
    ensures
        r.deep_view() == window_of(*elem),
{
    let title = match elem.get(&"title".to_owned()) {
        Some(j) => match j.as_str() {
            Some(s) => s.clone(),
            None => { return None; },
        },
        None => { return None; },
    };
    let workspace = match elem.get(&"workspace".to_owned()) {
        Some(w) => match w.get(&"name".to_owned()) {
            Some(j) => match j.as_str() {
                Some(s) => s.clone(),
                None => { return None; },
            },
            None => { return None; },
        },
        None => { return None; },
    };
    let app_class = match elem.get(&"class".to_owned()) {
        Some(j) => match j.as_str() {
            Some(s) => s.clone(),
            None => { return None; },
        },
        None => { return None; },
    };
    Some(WindowInfo { title, workspace, app_class })
}

/// Decodes a parsed document into the window list it describes.
pub fn extract_windows(doc: &Json) -> (r: Vec<WindowInfo>)
    ensures
        r.deep_view() == client_list_of(Some(*doc)),
{
    match doc {
        Json::Array(elems) => {
            let n = elems.len();
            let mut out: Vec<WindowInfo> = Vec::new();
            let mut i: usize = 0;
            while i < n
                invariant
                    n == elems@.len(),
                    0 <= i <= n,
                    out.deep_view() == windows_of(elems@.take(i as int)),
                decreases n - i,
            {
                proof {
                    assert(elems@.take(i + 1).drop_last() =~= elems@.take(i as int));
                    assert(elems@.take(i + 1).last() == elems@[i as int]);
                }
                match window_record(&elems[i]) {
                    Some(w) => {
                        out.push(w);
                    },
                    None => {},
                }
                i = i + 1;
            }
            proof {
                assert(elems@.take(n as int) =~= elems@);
            }
            out
        },
        _ => Vec::new(),
    }
}

/// The whole of Client Query past the subprocess: decodes the bytes the
/// control tool wrote to its standard output.  Malformed bytes, or a
/// document that is not an array, decode to the empty list.
pub fn parse_client_list(bytes: &[u8]) -> (r: Vec<WindowInfo>)
    ensures
        r.deep_view() == client_list_of(json_of(bytes@)),
{
    match parse_json_bytes(bytes) {
        Some(doc) => extract_windows(&doc),
        None => Vec::new(),
    }
}

/// How many elements of `elems` are missing a required field.
pub open spec fn incomplete_count(elems: Seq<Json>) -> nat
    decreases elems.len(),
{
    if elems.len() == 0 {
        0
    } else {
        incomplete_count(elems.drop_last()) + if window_of(elems.last()) is None {
            1nat
        } else {
            0nat
        }
    }
}

/// Every element that describes a complete record appears in the decoded
/// list; every element that does not is excluded; order is kept.  The
/// decoded list is exactly one record shorter for each incomplete
/// element.
pub proof fn lemma_decode_counts(elems: Seq<Json>)
    ensures
        windows_of(elems).len() + incomplete_count(elems) == elems.len(),
    decreases elems.len(),
{
    if elems.len() > 0 {
        lemma_decode_counts(elems.drop_last());
    }
}

/// When every element of the array carries the three required fields,
/// the decoded list has exactly one record per element, in array order.
pub proof fn lemma_decode_complete(elems: Seq<Json>)
    requires
        forall|i: int| 0 <= i < elems.len() ==> #[trigger] window_of(elems[i]) is Some,
    ensures
        windows_of(elems).len() == elems.len(),
        forall|i: int| 0 <= i < elems.len() ==> #[trigger] windows_of(elems)[i] == window_of(
            elems[i],
        )->0,
    decreases elems.len(),
{
    if elems.len() > 0 {
        assert(forall|i: int| 0 <= i < elems.len() - 1 ==> elems.drop_last()[i] == elems[i]);
        lemma_decode_complete(elems.drop_last());
    }
}

} // verus!
