//! The OS product version and its marketing name.

use crate::text::{chars_of, is_text, string_of, strip, strip_range, CharClass};
use crate::json::{json_document_of, parse_document, Json, JsonMember};
use crate::tool::RawOutput;
use vstd::prelude::*;

verus! {

/// One row of the table from product versions to marketing names.
pub struct MacOSMapEntry {
    pub product_version: String,
    pub marketing_name: String,
}

/// The product version a version query printed, trimmed; absent if it could not be run.
pub fn product_version(out: &RawOutput) -> (r: Option<String>)
    ensures
        out.launched ==> (r matches Some(v) && v@ == strip(out.stdout@, CharClass::Space)),
        !out.launched ==> r is None,
{
    if !out.launched {
        return None;
    }
    let t = chars_of(out.stdout.as_str());
    let (a, b) = strip_range(&t, 0, t.len(), CharClass::Space);
    assert(t@.subrange(0, t@.len() as int) =~= t@);
    Some(string_of(&t, a, b))
}

/// The index of the first row for version `ver`.
pub open spec fn first_row(map: Seq<MacOSMapEntry>, ver: Seq<char>) -> Option<int>
    decreases map.len(),
{
    if map.len() == 0 {
        None
    } else if map[0].product_version@ == ver {
        Some(0)
    } else {
        match first_row(map.drop_first(), ver) {
            Some(i) => Some(i + 1),
            None => None,
        }
    }
}

proof fn lemma_first_row_bounds(map: Seq<MacOSMapEntry>, ver: Seq<char>)
    ensures
        first_row(map, ver) matches Some(i) ==> 0 <= i < map.len(),
    decreases map.len(),
{
    if map.len() > 0 {
        lemma_first_row_bounds(map.drop_first(), ver);
    }
}

/// The marketing name of the first row for version `ver`.
pub fn find_marketing_name(ver: &str, map: &Vec<MacOSMapEntry>) -> (r: Option<String>)
    ensures
        match first_row(map@, ver@) {
            Some(i) => r matches Some(n) && n == map@[i].marketing_name,
            None => r is None,
        },
{
    let mut i: usize = 0;
    proof {
        lemma_first_row_bounds(map@, ver@);
        assert(map@.skip(0) =~= map@);
    }
    while i < map.len()
        invariant
            i <= map@.len(),
            forall|j: int| 0 <= j < i ==> map@[j].product_version@ != ver@,
            first_row(map@, ver@) == match first_row(map@.skip(i as int), ver@) {
                Some(k) => Some(k + i),
                None => None,
            },
        decreases map@.len() - i,
    {
        let v = chars_of(map[i].product_version.as_str());
        assert(map@.skip(i as int).drop_first() =~= map@.skip(i + 1));
        if is_text(&v, ver) {
            assert(map@.skip(i as int)[0] == map@[i as int]);
            return Some(map[i].marketing_name.clone());
        }
        i = i + 1;
    }
    None
}


pub open spec fn all_text_members(ms: Seq<JsonMember>) -> bool {
    forall|i: int| 0 <= i < ms.len() ==> #[trigger] ms[i].value is Str
}

/// Row `i` is member `i` of the object: its name and its string.
pub open spec fn rows_match(r: Seq<MacOSMapEntry>, ms: Seq<JsonMember>) -> bool {
    &&& r.len() == ms.len()
    &&& forall|i: int|
        0 <= i < r.len() ==> #[trigger] r[i].product_version == ms[i].name
            && r[i].marketing_name == ms[i].value->Str_0
}

/// The version table of a JSON object from versions to names. Text that is not such an
/// object, or an object with a member that is not a string, gives an empty table.
pub fn version_map(text: &str) -> (r: Vec<MacOSMapEntry>)
    ensures
        match json_document_of(text@) {
            Some(Json::Object(ms)) => if all_text_members(ms@) {
                rows_match(r@, ms@)
            } else {
                r@.len() == 0
            },
            _ => r@.len() == 0,
        },
{
    let doc = match parse_document(text) {
        Ok(d) => d,
        Err(_) => {
            return Vec::new();
        },
    };
    match &doc {
        Json::Object(ms) => {
            let mut rows: Vec<MacOSMapEntry> = Vec::new();
            let mut i: usize = 0;
            while i < ms.len()
                invariant
                    i <= ms@.len(),
                    json_document_of(text@) == Some(Json::Object(*ms)),
                    rows@.len() == i,
                    forall|j: int| 0 <= j < i ==> #[trigger] ms@[j].value is Str,
                    forall|j: int|
                        0 <= j < i ==> #[trigger] rows@[j].product_version == ms@[j].name
                            && rows@[j].marketing_name == ms@[j].value->Str_0,
                decreases ms@.len() - i,
            {
                match &ms[i].value {
                    Json::Str(name) => {
                        rows.push(
                            MacOSMapEntry {
                                product_version: ms[i].name.clone(),
                                marketing_name: name.clone(),
                            },
                        );
                    },
                    _ => {
                        assert(!(ms@[i as int].value is Str));
                        return Vec::new();
                    },
                }
                i = i + 1;
            }
            rows
        },
        _ => Vec::new(),
    }
}

} // verus!
