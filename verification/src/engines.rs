//! Search engines and the catalog that holds them.

use crate::catalog::{
    lemma_catalog_of_failed, lemma_first_fields, lemma_not_named, lemma_with_engine,
};
use crate::error::{SearchError, SearchErrorView};
use crate::template::{built_url, fill, parses_as_url, url_parses};
use crate::text::{
    chars_of, find, first_char, lines, same_text, split, split_lines, starts_with, texts,
};
use vstd::prelude::*;
use vstd::string::StrSliceExecFns;

verus! {

/// What a search engine is: a name and the URL that a query goes into.
pub struct EngineView {
    pub name: Seq<char>,
    pub url_fragment: Seq<char>,
}

/// A named search provider. Name and URL are never empty.
#[derive(Debug)]
pub struct SearchEngine {
    name: String,
    url_fragment: String,
}

/// Whether `line` describes an engine: a name and a URL, neither of them
/// empty, with a tab between them. What follows a second tab is not read.
pub open spec fn is_entry(line: Seq<char>) -> bool {
    let fields = split(line, '\t');
    fields.len() >= 2 && fields[0].len() > 0 && fields[1].len() > 0
}

/// The engine that `line` describes.
pub open spec fn entry_of(line: Seq<char>) -> EngineView {
    let fields = split(line, '\t');
    EngineView { name: fields[0], url_fragment: fields[1] }
}

impl View for SearchEngine {
    type V = EngineView;

    closed spec fn view(&self) -> EngineView {
        EngineView { name: self.name@, url_fragment: self.url_fragment@ }
    }
}

impl SearchEngine {
    #[verifier::type_invariant]
    spec fn well_formed(&self) -> bool {
        self.name@.len() > 0 && self.url_fragment@.len() > 0
    }

    /// Reads one line of the configuration: the name, a tab, the URL.
    pub fn from_str(line: &str) -> (r: Result<SearchEngine, SearchError>)
        ensures
            match r {
                Ok(engine) => is_entry(line@) && engine@ == entry_of(line@),
                Err(e) => !is_entry(line@) && e@ == SearchErrorView::MalformedLine(line@),
            },
    {
        let chars = chars_of(line);
        let n = chars.len();
        proof {
            lemma_first_fields(line@);
        }
        let t1 = find(chars.as_slice(), '\t', 0);
        if t1 == 0 || t1 >= n {
            return Err(SearchError::MalformedLine(line.to_owned()));
        }
        let t2 = find(chars.as_slice(), '\t', t1 + 1);
        if t2 == t1 + 1 {
            return Err(SearchError::MalformedLine(line.to_owned()));
        }
        let name = line.substring_char(0, t1).to_owned();
        let url_fragment = line.substring_char(t1 + 1, t2).to_owned();
        Ok(SearchEngine { name, url_fragment })
    }

    /// The URL that searches for `query` with this engine. Nothing is encoded
    /// or checked: the result is whatever the template and the query make.
    pub fn build_url(&self, query: &str) -> (url: String)
        ensures
            url@ == built_url(self@.url_fragment, query@),
    {
        fill(self.url_fragment.as_str(), query)
    }

    /// Whether the engine's URL reads as an absolute URL. This is advice:
    /// `build_url` works on any template.
    pub fn has_valid_url(&self) -> (ok: bool)
        ensures
            ok == url_parses(self@.url_fragment),
    {
        parses_as_url(self.url_fragment.as_str())
    }

    /// The engine's name.
    pub fn name(&self) -> (r: &str)
        ensures
            r@ == self@.name,
            r@.len() > 0,
    {
        proof {
            use_type_invariant(self);
        }
        self.name.as_str()
    }

    /// The URL that a query goes into.
    pub fn url_fragment(&self) -> (r: &str)
        ensures
            r@ == self@.url_fragment,
            r@.len() > 0,
    {
        proof {
            use_type_invariant(self);
        }
        self.url_fragment.as_str()
    }
}

/// Whether `c` can be a catalog: every engine has a name and a URL, and no
/// two engines share a name.
pub open spec fn is_catalog(c: Seq<EngineView>) -> bool {
    &&& forall|i: int|
        0 <= i < c.len() ==> (#[trigger] c[i]).name.len() > 0 && c[i].url_fragment.len() > 0
    &&& forall|i: int, j: int|
        0 <= i < j < c.len() ==> (#[trigger] c[i]).name != (#[trigger] c[j]).name
}

/// The engines that are not called `name`.
pub open spec fn not_named(name: Seq<char>) -> spec_fn(EngineView) -> bool {
    |e: EngineView| e.name != name
}

/// The engines whose name begins with `prefix`.
pub open spec fn named_from(prefix: Seq<char>) -> spec_fn(EngineView) -> bool {
    |e: EngineView| prefix.is_prefix_of(e.name)
}

/// The catalog `c` after `e` came in: `e` stands last, and an engine that had
/// its name is gone. Of two engines with one name the later one wins.
pub open spec fn with_engine(c: Seq<EngineView>, e: EngineView) -> Seq<EngineView> {
    c.filter(not_named(e.name)).push(e)
}

/// The engines of `c` whose name begins with `prefix`, in the order of `c`.
pub open spec fn candidates(c: Seq<EngineView>, prefix: Seq<char>) -> Seq<EngineView> {
    c.filter(named_from(prefix))
}

/// The names of the engines of `c`, in the order of `c`.
pub open spec fn names_of(c: Seq<EngineView>) -> Seq<Seq<char>> {
    c.map_values(|e: EngineView| e.name)
}

/// The engines behind a list of references.
pub open spec fn engine_views(list: Seq<&SearchEngine>) -> Seq<EngineView> {
    list.map_values(|e: &SearchEngine| e@)
}

/// A line that the configuration does not count: an empty one, or a comment,
/// which begins with `#`.
pub open spec fn is_skipped(line: Seq<char>) -> bool {
    line.len() == 0 || line[0] == '#'
}

/// What the lines of a configuration make, read from first to last: the
/// catalog, or the first line that is neither skipped nor an engine.
pub open spec fn catalog_of(lines: Seq<Seq<char>>) -> Result<Seq<EngineView>, Seq<char>>
    decreases lines.len(),
{
    if lines.len() == 0 {
        Ok(Seq::empty())
    } else {
        let line = lines.last();
        match catalog_of(lines.drop_last()) {
            Err(bad) => Err(bad),
            Ok(c) => if is_skipped(line) {
                Ok(c)
            } else if is_entry(line) {
                Ok(with_engine(c, entry_of(line)))
            } else {
                Err(line)
            },
        }
    }
}

/// The engines that are called `name`.
pub open spec fn named(name: Seq<char>) -> spec_fn(EngineView) -> bool {
    |e: EngineView| e.name == name
}

/// The first engine of `c` that is called `name`, if there is one.
pub open spec fn lookup(c: Seq<EngineView>, name: Seq<char>) -> Option<EngineView> {
    let found = c.filter(named(name));
    if found.len() > 0 {
        Some(found[0])
    } else {
        None
    }
}

/// The catalog: the engines of one run, in the order in which the
/// configuration gave them.
#[derive(Debug)]
pub struct Engines {
    engines: Vec<SearchEngine>,
}

impl View for Engines {
    type V = Seq<EngineView>;

    closed spec fn view(&self) -> Seq<EngineView> {
        self.engines@.map_values(|e: SearchEngine| e@)
    }
}

impl Engines {
    #[verifier::type_invariant]
    spec fn well_formed(&self) -> bool {
        is_catalog(self@)
    }

    /// The catalog without engines.
    pub fn empty() -> (r: Engines)
        ensures
            r@ == Seq::<EngineView>::empty(),
    {
        let engines: Vec<SearchEngine> = Vec::new();
        assert(engines@.map_values(|e: SearchEngine| e@) =~= Seq::<EngineView>::empty());
        Engines { engines }
    }

    /// How many engines the catalog holds.
    pub fn len(&self) -> (n: usize)
        ensures
            n == self@.len(),
    {
        self.engines.len()
    }

    /// The names of the engines, in the order of the catalog.
    pub fn names(&self) -> (r: Vec<&str>)
        ensures
            texts(r@) == names_of(self@),
    {
        let ghost all = names_of(self@);
        let mut out: Vec<&str> = Vec::new();
        let mut i: usize = 0;
        assert(texts(out@) =~= all.take(0));
        while i < self.engines.len()
            invariant
                i <= self.engines.len(),
                all == names_of(self@),
                texts(out@) == all.take(i as int),
            decreases self.engines.len() - i,
        {
            let ghost before = texts(out@);
            out.push(self.engines[i].name.as_str());
            assert(texts(out@) =~= before.push(all[i as int]));
            assert(all.take(i + 1) =~= all.take(i as int).push(all[i as int]));
            i += 1;
        }
        assert(all.take(i as int) =~= all);
        out
    }

    /// Takes `engine` into the catalog, as its last engine. An engine of the
    /// same name that was there before is dropped.
    pub fn insert(self, engine: SearchEngine) -> (r: Engines)
        ensures
            r@ == with_engine(self@, engine@),
            is_catalog(r@),
    {
        proof {
            use_type_invariant(&self);
            use_type_invariant(&engine);
            lemma_not_named(self@, engine@.name);
            lemma_with_engine(self@, engine@);
        }
        let ghost before = self@;
        let target = chars_of(engine.name.as_str());
        let mut engines = self.engines;
        let mut i: usize = 0;
        while i < engines.len()
            invariant
                i <= engines.len(),
                before == self@,
                engines@.map_values(|e: SearchEngine| e@) == before,
                target@ == engine@.name,
                is_catalog(with_engine(before, engine@)),
                forall|k: int| 0 <= k < i ==> (#[trigger] before[k]).name != engine@.name,
                forall|k: int|
                    0 <= k < before.len() && (#[trigger] before[k]).name == engine@.name
                        ==> before.filter(not_named(engine@.name)) == before.remove(k),
            decreases engines.len() - i,
        {
            if same_text(engines[i].name.as_str(), target.as_slice()) {
                assert(before[i as int].name == engine@.name);
                engines.remove(i);
                assert(engines@.map_values(|e: SearchEngine| e@) =~= before.remove(i as int));
                engines.push(engine);
                assert(engines@.map_values(|e: SearchEngine| e@) =~= before.remove(i as int).push(
                    engine@,
                ));
                return Engines { engines };
            }
            i += 1;
        }
        engines.push(engine);
        assert(engines@.map_values(|e: SearchEngine| e@) =~= before.push(engine@));
        Engines { engines }
    }

    /// Reads a configuration: one engine a line, the name, a tab, the URL.
    /// Empty lines and lines that begin with `#` are passed over. The first
    /// line that is neither skipped nor an engine ends the reading, and
    /// comes back in the error.
    pub fn build(contents: &str) -> (r: Result<Engines, SearchError>)
        ensures
            match catalog_of(lines(contents@)) {
                Ok(c) => r matches Ok(catalog) && catalog@ == c,
                Err(line) => r matches Err(e) && e@ == SearchErrorView::MalformedLine(line),
            },
            r matches Ok(catalog) ==> is_catalog(catalog@),
    {
        let all = split_lines(contents);
        let ghost ls = lines(contents@);
        let mut catalog = Engines::empty();
        let mut i: usize = 0;
        assert(ls.take(0) =~= Seq::<Seq<char>>::empty());
        while i < all.len()
            invariant
                i <= all.len(),
                ls == lines(contents@),
                texts(all@) == ls,
                catalog_of(ls.take(i as int)) == Ok::<Seq<EngineView>, Seq<char>>(catalog@),
            decreases all.len() - i,
        {
            let line = all[i];
            proof {
                assert(ls[i as int] == line@);
                assert(ls.take(i + 1).drop_last() =~= ls.take(i as int));
                assert(ls.take(i + 1).last() == line@);
            }
            let skipped = match first_char(line) {
                Some(c) => c == '#',
                None => true,
            };
            if !skipped {
                match SearchEngine::from_str(line) {
                    Ok(engine) => {
                        catalog = catalog.insert(engine);
                    },
                    Err(err) => {
                        proof {
                            assert(ls =~= ls.take(i + 1) + ls.skip(i + 1));
                            lemma_catalog_of_failed(ls.take(i + 1), ls.skip(i + 1));
                        }
                        return Err(err);
                    },
                }
            }
            i += 1;
        }
        assert(ls.take(i as int) =~= ls);
        proof {
            use_type_invariant(&catalog);
        }
        Ok(catalog)
    }

    /// The engine called `name`, exactly so: upper and lower case differ.
    pub fn select(self, name: &str) -> (r: Option<SearchEngine>)
        ensures
            match r {
                Some(engine) => lookup(self@, name@) == Some(engine@),
                None => lookup(self@, name@) is None,
            },
    {
        let ghost c = self@;
        let target = chars_of(name);
        let mut engines = self.engines;
        let mut i: usize = 0;
        assert(c.take(0) =~= Seq::<EngineView>::empty());
        assert(c.take(0).filter(named(name@)).len() == 0) by {
            reveal(Seq::filter);
        }
        while i < engines.len()
            invariant
                i <= engines.len(),
                c == self@,
                engines@.map_values(|e: SearchEngine| e@) == c,
                target@ == name@,
                c.take(i as int).filter(named(name@)).len() == 0,
            decreases engines.len() - i,
        {
            proof {
                assert(c.take(i + 1) =~= c.take(i as int).push(c[i as int]));
                c.take(i as int).lemma_filter_push(c[i as int], named(name@));
            }
            if same_text(engines[i].name.as_str(), target.as_slice()) {
                proof {
                    assert(c =~= c.take(i + 1) + c.skip(i + 1));
                    Seq::filter_distributes_over_add(c.take(i + 1), c.skip(i + 1), named(name@));
                }
                return Some(engines.remove(i));
            }
            i += 1;
        }
        assert(c.take(i as int) =~= c);
        None
    }

    /// The engines whose name begins with `input`, in the order of the
    /// catalog: all of them for an empty `input`, none where nothing matches.
    pub fn filter(&self, input: &str) -> (r: Vec<&SearchEngine>)
        ensures
            engine_views(r@) == candidates(self@, input@),
    {
        let prefix = chars_of(input);
        self.matching(prefix.as_slice())
    }

    /// The engines whose name begins with the characters of `prefix`, in the
    /// order of the catalog.
    pub fn matching(&self, prefix: &[char]) -> (r: Vec<&SearchEngine>)
        ensures
            engine_views(r@) == candidates(self@, prefix@),
    {
        let ghost c = self@;
        let mut out: Vec<&SearchEngine> = Vec::new();
        let mut i: usize = 0;
        assert(c.take(0) =~= Seq::<EngineView>::empty());
        assert(engine_views(out@) =~= c.take(0).filter(named_from(prefix@))) by {
            reveal(Seq::filter);
        }
        while i < self.engines.len()
            invariant
                i <= self.engines.len(),
                c == self@,
                engine_views(out@) == c.take(i as int).filter(named_from(prefix@)),
            decreases self.engines.len() - i,
        {
            let engine = &self.engines[i];
            proof {
                assert(c.take(i + 1) =~= c.take(i as int).push(c[i as int]));
                c.take(i as int).lemma_filter_push(c[i as int], named_from(prefix@));
            }
            if starts_with(engine.name.as_str(), prefix) {
                let ghost before = engine_views(out@);
                out.push(engine);
                assert(engine_views(out@) =~= before.push(c[i as int]));
            }
            i += 1;
        }
        assert(c.take(i as int) =~= c);
        out
    }
}

} // verus!
