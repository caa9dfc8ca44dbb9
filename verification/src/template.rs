//! URL templates: where the query goes.

use crate::text::chars_of;
use vstd::prelude::*;
use vstd::string::{StrSliceExecFns, StringExecFns};

verus! {

/// Whether the two characters `%s` stand at position `i` of `t`.
pub open spec fn placeholder_at(t: Seq<char>, i: int) -> bool {
    0 <= i && i + 1 < t.len() && t[i] == '%' && t[i + 1] == 's'
}

/// Whether `t` holds the placeholder `%s` anywhere.
pub open spec fn has_placeholder(t: Seq<char>) -> bool {
    exists|i: int| placeholder_at(t, i)
}

/// `t` from position `from` on, with `query` in place of every `%s`, read
/// from left to right.
pub open spec fn fill_from(t: Seq<char>, query: Seq<char>, from: int) -> Seq<char>
    decreases t.len() - from,
{
    if from < 0 || from >= t.len() {
        Seq::empty()
    } else if placeholder_at(t, from) {
        query + fill_from(t, query, from + 2)
    } else {
        seq![t[from]] + fill_from(t, query, from + 1)
    }
}

/// The URL for `query`: the template with the query in place of every `%s`,
/// or, where the template holds no `%s`, the template with the query after
/// it. The query goes in as it is, unencoded.
pub open spec fn built_url(t: Seq<char>, query: Seq<char>) -> Seq<char> {
    if has_placeholder(t) {
        fill_from(t, query, 0)
    } else {
        t + query
    }
}

/// Whether `text` reads as an absolute URL: whether the `url` crate's parser
/// accepts it.
pub uninterp spec fn url_parses(text: Seq<char>) -> bool;

/// Hands `text` to `url::Url::parse` and says whether it was accepted. The
/// parser reads nothing but its argument, so the same text always gets the
/// same answer; what the answer is on a given text is not stated here.
#[verifier::external_body]
pub(crate) fn parses_as_url(text: &str) -> (ok: bool)
    ensures
        ok == url_parses(text@),
{
    url::Url::parse(text).is_ok()
}

/// Puts `query` into `template`.
pub fn fill(template: &str, query: &str) -> (url: String)
    ensures
        url@ == built_url(template@, query@),
{
    let chars = chars_of(template);
    let n = chars.len();
    let ghost t = template@;
    let ghost q = query@;
    let mut url = String::new();
    let mut start: usize = 0;
    let mut i: usize = 0;
    let mut found = false;
    assert(url@ + t.subrange(0, 0) + fill_from(t, q, 0) =~= fill_from(t, q, 0));
    while i < n
        invariant
            n == chars.len(),
            chars@ == t,
            t == template@,
            q == query@,
            start <= i <= n,
            fill_from(t, q, 0) == url@ + t.subrange(start as int, i as int) + fill_from(
                t,
                q,
                i as int,
            ),
            found ==> has_placeholder(t),
            !found ==> start == 0 && url@.len() == 0,
            !found ==> forall|k: int| 0 <= k < i ==> !placeholder_at(t, k),
        decreases n - i,
    {
        if chars[i] == '%' && i + 1 < n && chars[i + 1] == 's' {
            assert(placeholder_at(t, i as int));
            let ghost before = url@;
            url.append(template.substring_char(start, i));
            url.append(query);
            assert(url@ + t.subrange(i + 2, i + 2) + fill_from(t, q, i + 2) =~= before
                + t.subrange(start as int, i as int) + fill_from(t, q, i as int));
            i += 2;
            start = i;
            found = true;
        } else {
            assert(!placeholder_at(t, i as int));
            assert(url@ + t.subrange(start as int, i + 1) + fill_from(t, q, i + 1) =~= url@
                + t.subrange(start as int, i as int) + fill_from(t, q, i as int));
            i += 1;
        }
    }
    let ghost before = url@;
    url.append(template.substring_char(start, n));
    assert(url@ =~= before + t.subrange(start as int, n as int) + fill_from(t, q, n as int));
    if !found {
        assert(url@ =~= t);
        url.append(query);
    }
    url
}

} // verus!
