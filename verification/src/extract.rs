//! The path extractor: reads one scalar out of a structured response body at
//! a declared path. The only path shape is `$.<field>`, which selects a
//! top-level field of an object response; a structured field is still saved,
//! as its compact JSON text. An absent field or an alien path is a soft
//! `None`, never an error.

use vstd::prelude::*;
use crate::json::{JsonModel, JsonValue, model_entries, stringify};
use crate::json::{lemma_model_entries_index, lemma_model_entries_len};
use crate::text::str_eq;

verus! {

/// The value of the first member of `entries` named `k`, if any.
pub open spec fn lookup_obj(entries: Seq<(Seq<char>, JsonModel)>, k: Seq<char>) -> Option<
    JsonModel,
>
    decreases entries.len(),
{
    if entries.len() == 0 {
        None
    } else if entries[0].0 == k {
        Some(entries[0].1)
    } else {
        lookup_obj(entries.skip(1), k)
    }
}

proof fn lemma_lookup_at(entries: Seq<(Seq<char>, JsonModel)>, i: int, k: Seq<char>)
    requires
        0 <= i < entries.len(),
        entries[i].0 == k,
        forall|j: int| 0 <= j < i ==> entries[j].0 != k,
    ensures
        lookup_obj(entries, k) == Some(entries[i].1),
    decreases i,
{
    if i > 0 {
        lemma_lookup_at(entries.skip(1), i - 1, k);
    }
}

proof fn lemma_lookup_none(entries: Seq<(Seq<char>, JsonModel)>, k: Seq<char>)
    requires
        forall|j: int| 0 <= j < entries.len() ==> entries[j].0 != k,
    ensures
        lookup_obj(entries, k) is None,
    decreases entries.len(),
{
    if entries.len() > 0 {
        lemma_lookup_none(entries.skip(1), k);
    }
}

/// What extraction yields: for a path `$.<field>` against an object response
/// with that top-level field, the field's text (a string leaf as it is, any
/// other tree as its compact JSON); `None` for every other path or response.
pub open spec fn spec_extract(m: JsonModel, path: Seq<char>) -> Option<Seq<char>> {
    if path.len() >= 2 && path[0] == '$' && path[1] == '.' {
        match m {
            JsonModel::Obj(entries) => match lookup_obj(entries, path.skip(2)) {
                Some(v) => Some(stringify(v)),
                None => None,
            },
            _ => None,
        }
    } else {
        None
    }
}

/// Reads the value at `path` out of `response`, as `spec_extract` says.
#[verifier::loop_isolation(false)]
pub fn extract(response: &JsonValue, path: &str) -> (r: Option<String>)
    ensures
        match r {
            Some(s) => spec_extract(response@, path@) == Some(s@),
            None => spec_extract(response@, path@) is None,
        },
{
    broadcast use lemma_model_entries_index, lemma_model_entries_len;

    let plen = path.unicode_len();
    if plen < 2 {
        return None;
    }
    if path.get_char(0) != '$' || path.get_char(1) != '.' {
        return None;
    }
    let field = path.substring_char(2, plen);
    proof {
        assert(field@ =~= path@.skip(2));
    }
    match response {
        JsonValue::Obj(entries) => {
            let ghost ms = model_entries(entries@);
            let n = entries.len();
            let mut i: usize = 0;
            while i < n
                invariant
                    i <= n,
                    n == entries@.len(),
                    forall|j: int| 0 <= j < i ==> ms[j].0 != field@,
                decreases n - i,
            {
                if str_eq(entries[i].0.as_str(), field) {
                    proof {
                        lemma_lookup_at(ms, i as int, field@);
                    }
                    let found = &entries[i].1;
                    match found {
                        JsonValue::Str(s) => {
                            return Some(s.clone());
                        }
                        _ => {
                            return Some(found.to_text());
                        }
                    }
                }
                i = i + 1;
            }
            proof {
                lemma_lookup_none(ms, field@);
            }
            None
        }
        _ => None,
    }
}

} // verus!
