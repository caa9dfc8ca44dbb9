//! A list of engine names to pick from where no configuration is read: the
//! names only, in a fixed order, the narrowing of them by what was typed,
//! and the picking of one of them.

use crate::selector::{outcome, pick, run, Key, SelectorView};
use crate::text::{chars_of, narrow, narrowed, texts};
use vstd::prelude::*;
use vstd::string::StringExecFns;

verus! {

/// The names that a new list holds, in their order.
pub open spec fn builtin_names() -> Seq<Seq<char>> {
    seq!["a"@, "bb"@, "amazon"@, "bandcamp"@, "discogs"@]
}

/// A list of engine names, in the order in which they are shown.
#[derive(Debug)]
pub struct Engines {
    engines: Vec<String>,
}

impl View for Engines {
    type V = Seq<Seq<char>>;

    closed spec fn view(&self) -> Seq<Seq<char>> {
        self.engines@.map_values(|name: String| name@)
    }
}

impl Engines {
    /// The built-in list: `a`, `bb`, `amazon`, `bandcamp`, `discogs`.
    pub fn new() -> (r: Engines)
        ensures
            r@ == seq!["a"@, "bb"@, "amazon"@, "bandcamp"@, "discogs"@],
            r@ == builtin_names(),
    {
        let mut engines: Vec<String> = Vec::new();
        engines.push(String::from_str("a"));
        engines.push(String::from_str("bb"));
        engines.push(String::from_str("amazon"));
        engines.push(String::from_str("bandcamp"));
        engines.push(String::from_str("discogs"));
        assert(engines@.map_values(|name: String| name@) =~= builtin_names());
        Engines { engines }
    }

    /// The names of the list, in order.
    pub fn names(&self) -> (r: Vec<&str>)
        ensures
            texts(r@) == self@,
    {
        let mut out: Vec<&str> = Vec::new();
        let mut i: usize = 0;
        while i < self.engines.len()
            invariant
                i <= self.engines.len(),
                texts(out@) == self@.take(i as int),
            decreases self.engines.len() - i,
        {
            let ghost before = texts(out@);
            out.push(self.engines[i].as_str());
            assert(texts(out@) =~= before.push(self@[i as int]));
            assert(self@.take(i + 1) =~= self@.take(i as int).push(self@[i as int]));
            i += 1;
        }
        assert(self@.take(i as int) =~= self@);
        out
    }

    /// The names that begin with `input`, in the order of the list: all of
    /// them for an empty `input`, none where nothing matches.
    pub fn filter(&self, input: &str) -> (r: Vec<&str>)
        ensures
            texts(r@) == narrowed(self@, input@),
    {
        let prefix = chars_of(input);
        let names = self.names();
        narrow(names.as_slice(), prefix.as_slice())
    }
}

/// Picks one of the built-in names by the keys in `keys`, pressed in order
/// from a fresh selection: the name that they confirm, or nothing where they
/// cancel or run out before a choice was made.
pub fn fuzzy(keys: &[Key]) -> (r: Option<String>)
    ensures
        match r {
            Some(name) => outcome(run(builtin_names(), SelectorView::Editing(Seq::empty()), keys@))
                == Some(name@),
            None => outcome(run(builtin_names(), SelectorView::Editing(Seq::empty()), keys@))
                is None,
        },
{
    let engines = Engines::new();
    let names = engines.names();
    pick(names.as_slice(), keys)
}

} // verus!
