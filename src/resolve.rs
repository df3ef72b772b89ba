//! The fallback policy for one logical field: candidates are tried in order
//! and the first present, non-empty value wins.

use vstd::prelude::*;

verus! {

/// The first candidate that holds a non-empty text; absent if none does.
pub open spec fn first_present(c: Seq<Option<String>>) -> Option<String>
    decreases c.len(),
{
    if c.len() == 0 {
        None
    } else if c[0] is Some && c[0]->0@.len() > 0 {
        c[0]
    } else {
        first_present(c.drop_first())
    }
}

/// Tries the candidates of one field in order.
pub fn resolve_first(candidates: Vec<Option<String>>) -> (r: Option<String>)
    ensures
        r == first_present(candidates@),
{
    let mut c = candidates;
    while c.len() > 0
        invariant
            first_present(candidates@) == first_present(c@),
        decreases c@.len(),
    {
        let ghost before = c@;
        let x = c.remove(0);
        assert(c@ =~= before.drop_first());
        match x {
            Some(s) => {
                if s.as_str().unicode_len() > 0 {
                    return Some(s);
                }
            },
            None => {},
        }
    }
    None
}

/// The candidate at `i` wins when it holds a non-empty text and every earlier one is absent
/// or empty.
pub proof fn lemma_first_present_wins(c: Seq<Option<String>>, i: int)
    requires
        0 <= i < c.len(),
        c[i] is Some && c[i]->0@.len() > 0,
        forall|j: int| 0 <= j < i ==> (#[trigger] c[j] is None || c[j]->0@.len() == 0),
    ensures
        first_present(c) == c[i],
    decreases i,
{
    if i > 0 {
        assert forall|j: int| 0 <= j < i - 1 implies (#[trigger] c.drop_first()[j] is None
            || c.drop_first()[j]->0@.len() == 0) by {
            assert(c.drop_first()[j] == c[j + 1]);
        }
        lemma_first_present_wins(c.drop_first(), i - 1);
    }
}

/// With every candidate absent or empty the field is absent.
pub proof fn lemma_all_absent(c: Seq<Option<String>>)
    requires
        forall|j: int| 0 <= j < c.len() ==> (#[trigger] c[j] is None || c[j]->0@.len() == 0),
    ensures
        first_present(c) is None,
    decreases c.len(),
{
    if c.len() > 0 {
        assert forall|j: int| 0 <= j < c.len() - 1 implies (#[trigger] c.drop_first()[j] is None
            || c.drop_first()[j]->0@.len() == 0) by {
            assert(c.drop_first()[j] == c[j + 1]);
        }
        lemma_all_absent(c.drop_first());
    }
}

} // verus!
