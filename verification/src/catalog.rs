//! What holds of catalogs: of taking an engine in, of looking one up, of
//! narrowing by prefix, and of reading a configuration.

use crate::engines::{
    candidates, catalog_of, entry_of, is_catalog, is_entry, is_skipped, lookup, named, named_from,
    not_named, with_engine, EngineView,
};
use crate::text::{find_from, lemma_find_from_bounds, lines, split, split_from};
use vstd::prelude::*;

verus! {

/// The first two tab-separated fields of a line, by position: the first ends
/// at the first tab, the second at the next tab or at the end of the line.
pub proof fn lemma_first_fields(line: Seq<char>)
    ensures
        ({
            let t1 = find_from(line, '\t', 0);
            let t2 = find_from(line, '\t', t1 + 1);
            &&& 0 <= t1 <= line.len()
            &&& split(line, '\t').len() >= 1
            &&& split(line, '\t')[0] == line.subrange(0, t1)
            &&& split(line, '\t').len() >= 2 <==> t1 < line.len()
            &&& t1 < line.len() ==> t1 < t2 <= line.len() && split(line, '\t')[1] == line.subrange(
                t1 + 1,
                t2,
            )
        }),
{
    reveal_with_fuel(split_from, 3);
    lemma_find_from_bounds(line, '\t', 0);
    let t1 = find_from(line, '\t', 0);
    if t1 < line.len() {
        lemma_find_from_bounds(line, '\t', t1 + 1);
    }
}

/// Once a line has failed, the lines after it change nothing.
pub proof fn lemma_catalog_of_failed(lines: Seq<Seq<char>>, more: Seq<Seq<char>>)
    requires
        catalog_of(lines) is Err,
    ensures
        catalog_of(lines + more) == catalog_of(lines),
    decreases more.len(),
{
    if more.len() == 0 {
        assert(lines + more =~= lines);
    } else {
        lemma_catalog_of_failed(lines, more.drop_last());
        assert((lines + more).drop_last() =~= lines + more.drop_last());
    }
}

/// In a catalog, leaving out the engines called `name` removes one engine at
/// most: the one at the position that holds the name.
pub proof fn lemma_not_named(c: Seq<EngineView>, name: Seq<char>)
    requires
        is_catalog(c),
    ensures
        (forall|i: int| 0 <= i < c.len() ==> (#[trigger] c[i]).name != name) ==> c.filter(
            not_named(name),
        ) == c,
        forall|i: int|
            0 <= i < c.len() && (#[trigger] c[i]).name == name ==> c.filter(not_named(name))
                == c.remove(i),
    decreases c.len(),
{
    let keep = not_named(name);
    if c.len() == 0 {
        assert(c.filter(keep) == c) by {
            reveal(Seq::filter);
        }
    } else {
        let rest = c.drop_last();
        let last = c.last();
        assert(is_catalog(rest)) by {
            assert(forall|i: int| 0 <= i < rest.len() ==> rest[i] == c[i]);
        }
        lemma_not_named(rest, name);
        assert(c == rest.push(last)) by {
            assert(c =~= rest.push(last));
        }
        rest.lemma_filter_push(last, keep);
        if last.name == name {
            assert(c.filter(keep) == rest.filter(keep));
            assert forall|i: int| 0 <= i < rest.len() implies (#[trigger] rest[i]).name != name by {
                assert(rest[i] == c[i]);
                assert(c[i].name != c[c.len() - 1].name);
            }
            assert(rest.filter(keep) == rest);
            assert(rest =~= c.remove(c.len() - 1));
            assert forall|i: int| 0 <= i < c.len() && (#[trigger] c[i]).name == name implies c.filter(
                keep,
            ) == c.remove(i) by {
                if i < c.len() - 1 {
                    assert(c[i].name != c[c.len() - 1].name);
                }
            }
        } else {
            assert(c.filter(keep) == rest.filter(keep).push(last));
            assert forall|i: int| 0 <= i < c.len() && (#[trigger] c[i]).name == name implies c.filter(
                keep,
            ) == c.remove(i) by {
                assert(i < rest.len());
                assert(rest[i] == c[i]);
                assert(rest.filter(keep) == rest.remove(i));
                assert(rest.remove(i).push(last) =~= c.remove(i));
            }
            if forall|i: int| 0 <= i < c.len() ==> (#[trigger] c[i]).name != name {
                assert forall|i: int| 0 <= i < rest.len() implies (#[trigger] rest[i]).name
                    != name by {
                    assert(rest[i] == c[i]);
                }
                assert(rest.filter(keep) == rest);
            }
        }
    }
}

/// Taking an engine into a catalog leaves a catalog.
pub proof fn lemma_with_engine(c: Seq<EngineView>, e: EngineView)
    requires
        is_catalog(c),
        e.name.len() > 0,
        e.url_fragment.len() > 0,
    ensures
        is_catalog(with_engine(c, e)),
{
    let kept = c.filter(not_named(e.name));
    let out = with_engine(c, e);
    lemma_not_named(c, e.name);
    if exists|i: int| 0 <= i < c.len() && (#[trigger] c[i]).name == e.name {
        let i = choose|i: int| 0 <= i < c.len() && (#[trigger] c[i]).name == e.name;
        assert(kept == c.remove(i));
        assert forall|k: int| 0 <= k < kept.len() implies (#[trigger] kept[k]).name != e.name by {
            if k < i {
                assert(kept[k] == c[k]);
            } else {
                assert(kept[k] == c[k + 1]);
            }
        }
    } else {
        assert(kept == c);
    }
    assert forall|a: int, b: int| 0 <= a < b < out.len() implies (#[trigger] out[a]).name != (
    #[trigger] out[b]).name by {
        if b < kept.len() {
            assert(out[a] == kept[a] && out[b] == kept[b]);
        }
    }
}

/// Leaving out nothing leaves the sequence as it is.
pub proof fn lemma_filter_all<A>(s: Seq<A>, keep: spec_fn(A) -> bool)
    requires
        forall|i: int| 0 <= i < s.len() ==> keep(#[trigger] s[i]),
    ensures
        s.filter(keep) == s,
    decreases s.len(),
{
    if s.len() == 0 {
        assert(s.filter(keep) == s) by {
            reveal(Seq::filter);
        }
    } else {
        let rest = s.drop_last();
        assert(forall|i: int| 0 <= i < rest.len() ==> rest[i] == s[i]);
        lemma_filter_all(rest, keep);
        assert(s == rest.push(s.last())) by {
            assert(s =~= rest.push(s.last()));
        }
        rest.lemma_filter_push(s.last(), keep);
    }
}

/// Every candidate is an engine of the catalog, and its name begins with the prefix.
pub proof fn lemma_candidates_member(c: Seq<EngineView>, prefix: Seq<char>, e: EngineView)
    requires
        candidates(c, prefix).contains(e),
    ensures
        c.contains(e),
        prefix.is_prefix_of(e.name),
{
    let m = candidates(c, prefix);
    c.lemma_filter_contains_rev(named_from(prefix), e);
    let j = choose|j: int| 0 <= j < m.len() && m[j] == e;
    c.lemma_filter_pred(named_from(prefix), j);
}

/// Exact lookup in a catalog: the engine that is found has the name that was
/// asked for, is an engine of the catalog, and is the only one of that name;
/// nothing is found just when no engine has the name.
pub proof fn lemma_lookup(c: Seq<EngineView>, name: Seq<char>)
    requires
        is_catalog(c),
    ensures
        match lookup(c, name) {
            Some(e) => e.name == name && c.contains(e) && forall|i: int|
                0 <= i < c.len() && (#[trigger] c[i]).name == name ==> c[i] == e,
            None => forall|i: int| 0 <= i < c.len() ==> (#[trigger] c[i]).name != name,
        },
{
    let found = c.filter(named(name));
    if found.len() > 0 {
        let e = found[0];
        c.lemma_filter_pred(named(name), 0);
        assert(found.contains(e));
        c.lemma_filter_contains_rev(named(name), e);
        let j = choose|j: int| 0 <= j < c.len() && c[j] == e;
        assert forall|i: int| 0 <= i < c.len() && (#[trigger] c[i]).name == name implies c[i]
            == e by {
            if i < j {
                assert(c[i].name != c[j].name);
            } else if j < i {
                assert(c[j].name != c[i].name);
            }
        }
    } else {
        assert forall|i: int| 0 <= i < c.len() implies (#[trigger] c[i]).name != name by {
            if c[i].name == name {
                c.lemma_filter_contains(named(name), i);
                let k = choose|k: int| 0 <= k < found.len() && found[k] == c[i];
            }
        }
    }
}

/// One more character never brings an engine back: the candidates for
/// `prefix` with `ch` after it are candidates for `prefix`, in the same
/// order, and there are no more of them.
pub proof fn lemma_candidates_shrink(c: Seq<EngineView>, prefix: Seq<char>, ch: char)
    ensures
        candidates(c, prefix.push(ch)) == candidates(candidates(c, prefix), prefix.push(ch)),
        candidates(c, prefix.push(ch)).len() <= candidates(c, prefix).len(),
        forall|e: EngineView| #[trigger]
            candidates(c, prefix.push(ch)).contains(e) ==> candidates(c, prefix).contains(e),
    decreases c.len(),
{
    let longer = prefix.push(ch);
    if c.len() == 0 {
        reveal(Seq::filter);
    } else {
        let rest = c.drop_last();
        let last = c.last();
        lemma_candidates_shrink(rest, prefix, ch);
        assert(c == rest.push(last)) by {
            assert(c =~= rest.push(last));
        }
        rest.lemma_filter_push(last, named_from(prefix));
        rest.lemma_filter_push(last, named_from(longer));
        candidates(rest, prefix).lemma_filter_push(last, named_from(longer));
        if longer.is_prefix_of(last.name) {
            assert(prefix =~= last.name.subrange(0, prefix.len() as int)) by {
                assert(longer == last.name.subrange(0, longer.len() as int));
                assert forall|k: int| 0 <= k < prefix.len() implies prefix[k] == last.name[k] by {
                    assert(longer[k] == prefix[k]);
                    assert(last.name.subrange(0, longer.len() as int)[k] == last.name[k]);
                }
            }
            assert(prefix.is_prefix_of(last.name));
        }
    }
    candidates(c, prefix).lemma_filter_len(named_from(longer));
    assert forall|e: EngineView| #[trigger]
        candidates(c, longer).contains(e) implies candidates(c, prefix).contains(e) by {
        candidates(c, prefix).lemma_filter_contains_rev(named_from(longer), e);
    }
}

/// The lines that the configuration counts.
pub open spec fn counted() -> spec_fn(Seq<char>) -> bool {
    |line: Seq<char>| !is_skipped(line)
}

/// The engines that `lines` describe, line by line.
pub open spec fn entries_of(lines: Seq<Seq<char>>) -> Seq<EngineView> {
    lines.map_values(|line: Seq<char>| entry_of(line))
}

/// Whether `line` is a name, one tab and a URL, name and URL not empty, and
/// no second tab.
pub open spec fn is_plain_entry(line: Seq<char>) -> bool {
    let tab = find_from(line, '\t', 0);
    0 < tab < line.len() - 1 && find_from(line, '\t', tab + 1) == line.len()
}

/// A plain entry is an entry: its name is what stands before the tab, its
/// URL what stands after it.
pub proof fn lemma_plain_entry(line: Seq<char>)
    requires
        is_plain_entry(line),
    ensures
        is_entry(line),
        entry_of(line).name == line.subrange(0, find_from(line, '\t', 0)),
        entry_of(line).url_fragment == line.subrange(
            find_from(line, '\t', 0) + 1,
            line.len() as int,
        ),
{
    lemma_first_fields(line);
}

/// Empty lines and comments make no engine and break nothing: a
/// configuration makes what its other lines make alone.
pub proof fn lemma_skipped_lines(lines: Seq<Seq<char>>)
    ensures
        catalog_of(lines) == catalog_of(lines.filter(counted())),
    decreases lines.len(),
{
    if lines.len() == 0 {
        reveal(Seq::filter);
    } else {
        let rest = lines.drop_last();
        let last = lines.last();
        lemma_skipped_lines(rest);
        assert(lines == rest.push(last)) by {
            assert(lines =~= rest.push(last));
        }
        rest.lemma_filter_push(last, counted());
        if !is_skipped(last) {
            let kept = rest.filter(counted());
            assert(kept.push(last).drop_last() =~= kept);
        }
    }
}

/// Where every counted line is a plain entry and no two of them give the
/// same name, the catalog holds one engine for each counted line, in the
/// order of the lines.
pub proof fn lemma_plain_lines(lines: Seq<Seq<char>>)
    requires
        forall|i: int|
            0 <= i < lines.len() && !is_skipped(#[trigger] lines[i]) ==> is_plain_entry(lines[i]),
        forall|i: int, j: int|
            0 <= i < j < lines.len() && !is_skipped(#[trigger] lines[i]) && !is_skipped(
                #[trigger] lines[j],
            ) ==> entry_of(lines[i]).name != entry_of(lines[j]).name,
    ensures
        catalog_of(lines) == Ok::<Seq<EngineView>, Seq<char>>(
            entries_of(lines.filter(counted())),
        ),
        catalog_of(lines)->Ok_0.len() == lines.filter(counted()).len(),
    decreases lines.len(),
{
    if lines.len() == 0 {
        reveal(Seq::filter);
        assert(entries_of(lines.filter(counted())) =~= Seq::<EngineView>::empty());
    } else {
        let rest = lines.drop_last();
        let last = lines.last();
        assert(forall|i: int| 0 <= i < rest.len() ==> rest[i] == lines[i]);
        lemma_plain_lines(rest);
        assert(lines == rest.push(last)) by {
            assert(lines =~= rest.push(last));
        }
        rest.lemma_filter_push(last, counted());
        let kept = rest.filter(counted());
        let c = entries_of(kept);
        if !is_skipped(last) {
            assert(lines[lines.len() - 1] == last);
            lemma_plain_entry(last);
            let e = entry_of(last);
            assert forall|k: int| 0 <= k < c.len() implies not_named(e.name)(#[trigger] c[k]) by {
                assert(kept.contains(kept[k]));
                rest.lemma_filter_contains_rev(counted(), kept[k]);
                rest.lemma_filter_pred(counted(), k);
                let i = choose|i: int| 0 <= i < rest.len() && rest[i] == kept[k];
                assert(lines[i] == kept[k]);
                assert(entry_of(lines[i]).name != entry_of(lines[lines.len() - 1]).name);
            }
            lemma_filter_all(c, not_named(e.name));
            assert(c.push(e) =~= entries_of(kept.push(last)));
        }
    }
}

/// Reading a configuration skips its empty lines and its comments, whatever
/// they hold: the text makes what its other lines make alone.
pub proof fn lemma_build_skips(text: Seq<char>)
    ensures
        catalog_of(lines(text)) == catalog_of(lines(text).filter(counted())),
{
    lemma_skipped_lines(lines(text));
}

/// Reading a configuration whose counted lines are all plain entries, no two
/// of them with the same name, gives a catalog with one engine for each of
/// these lines, in their order.
pub proof fn lemma_build_plain(text: Seq<char>)
    requires
        forall|i: int|
            0 <= i < lines(text).len() && !is_skipped(#[trigger] lines(text)[i])
                ==> is_plain_entry(lines(text)[i]),
        forall|i: int, j: int|
            0 <= i < j < lines(text).len() && !is_skipped(#[trigger] lines(text)[i])
                && !is_skipped(#[trigger] lines(text)[j]) ==> entry_of(lines(text)[i]).name
                != entry_of(lines(text)[j]).name,
    ensures
        catalog_of(lines(text)) == Ok::<Seq<EngineView>, Seq<char>>(
            entries_of(lines(text).filter(counted())),
        ),
        catalog_of(lines(text))->Ok_0.len() == lines(text).filter(counted()).len(),
{
    lemma_plain_lines(lines(text));
}

/// Looking up `name` after `e` came in: `e` itself where it has the name,
/// else what was found before.
pub proof fn lemma_lookup_with_engine(c: Seq<EngineView>, e: EngineView, name: Seq<char>)
    ensures
        lookup(with_engine(c, e), name) == if e.name == name {
            Some(e)
        } else {
            lookup(c, name)
        },
{
    let kept = c.filter(not_named(e.name));
    kept.lemma_filter_push(e, named(name));
    lemma_filter_twice(c, e.name, name);
}

/// Among the engines not called `gone`, those called `name` are none where
/// the two names are one, and all that `c` has where they differ.
pub proof fn lemma_filter_twice(c: Seq<EngineView>, gone: Seq<char>, name: Seq<char>)
    ensures
        c.filter(not_named(gone)).filter(named(name)) == if gone == name {
            Seq::<EngineView>::empty()
        } else {
            c.filter(named(name))
        },
    decreases c.len(),
{
    if c.len() == 0 {
        reveal(Seq::filter);
    } else {
        let rest = c.drop_last();
        let last = c.last();
        lemma_filter_twice(rest, gone, name);
        assert(c == rest.push(last)) by {
            assert(c =~= rest.push(last));
        }
        rest.lemma_filter_push(last, not_named(gone));
        rest.lemma_filter_push(last, named(name));
        rest.filter(not_named(gone)).lemma_filter_push(last, named(name));
    }
}

/// Of two lines with one name the later one wins: where the lines make a
/// catalog, a counted line whose name no later counted line has is the
/// engine that its name finds.
pub proof fn lemma_last_wins(lines: Seq<Seq<char>>, at: int)
    requires
        catalog_of(lines) is Ok,
        0 <= at < lines.len(),
        !is_skipped(lines[at]),
        forall|j: int|
            at < j < lines.len() && !is_skipped(#[trigger] lines[j]) ==> entry_of(lines[j]).name
                != entry_of(lines[at]).name,
    ensures
        is_entry(lines[at]),
        lookup(catalog_of(lines)->Ok_0, entry_of(lines[at]).name) == Some(entry_of(lines[at])),
    decreases lines.len(),
{
    let rest = lines.drop_last();
    let last = lines.last();
    let c = catalog_of(rest)->Ok_0;
    let name = entry_of(lines[at]).name;
    if at == lines.len() - 1 {
        lemma_lookup_with_engine(c, entry_of(last), name);
    } else {
        assert(rest[at] == lines[at]);
        assert(forall|j: int| 0 <= j < rest.len() ==> rest[j] == lines[j]);
        lemma_last_wins(rest, at);
        if !is_skipped(last) {
            assert(lines[lines.len() - 1] == last);
            lemma_lookup_with_engine(c, entry_of(last), name);
        }
    }
}

} // verus!
