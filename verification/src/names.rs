//! A catalog and the list of its names: narrowing the one by a prefix is
//! narrowing the other.

use crate::engines::{candidates, named_from, names_of, EngineView};
use crate::text::{begins_with, narrowed};
use vstd::prelude::*;

verus! {

/// The names of a catalog with one more engine.
pub proof fn lemma_names_push(c: Seq<EngineView>, e: EngineView)
    ensures
        names_of(c.push(e)) == names_of(c).push(e.name),
{
    assert(names_of(c.push(e)) =~= names_of(c).push(e.name));
}

/// Narrowing a catalog by prefix and narrowing its names by prefix come to
/// the same names.
pub proof fn lemma_names_of_candidates(c: Seq<EngineView>, prefix: Seq<char>)
    ensures
        names_of(candidates(c, prefix)) == narrowed(names_of(c), prefix),
    decreases c.len(),
{
    if c.len() == 0 {
        assert(candidates(c, prefix) == c) by {
            reveal(Seq::filter);
        }
        assert(names_of(c).len() == 0);
        assert(narrowed(names_of(c), prefix) == names_of(c)) by {
            reveal(Seq::filter);
        }
    } else {
        let rest = c.drop_last();
        let last = c.last();
        let m = candidates(rest, prefix);
        lemma_names_of_candidates(rest, prefix);
        assert(c == rest.push(last)) by {
            assert(c =~= rest.push(last));
        }
        lemma_names_push(rest, last);
        rest.lemma_filter_push(last, named_from(prefix));
        names_of(rest).lemma_filter_push(last.name, begins_with(prefix));
        if prefix.is_prefix_of(last.name) {
            lemma_names_push(m, last);
        }
    }
}

} // verus!
