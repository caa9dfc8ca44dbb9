//! Picking an engine by typing the beginning of its name.
//!
//! The selector is a state machine over the names to pick from. Whoever
//! owns the terminal reads a key, hands it to [`Selector::press`], and does
//! what the returned [`Action`] says.

use crate::catalog::lemma_candidates_member;
use crate::engines::{candidates, names_of, EngineView, Engines};
use crate::names::lemma_names_of_candidates;
use crate::text::{blank, is_blank, narrow, narrowed, texts};
use vstd::prelude::*;
use vstd::string::StringExecFns;

verus! {

/// A key as the selector sees it.
#[derive(Clone, Copy, Debug, PartialEq, Eq)]
pub enum Key {
    /// A character key; the line feed is the confirm key.
    Char(char),
    Backspace,
    Delete,
    Esc,
    /// Any key that the selector has no use for.
    Other,
}

/// Where a selection stands.
pub enum SelectorView {
    /// The user is typing; the characters typed so far.
    Editing(Seq<char>),
    /// The user has chosen the engine of this name.
    Confirmed(Seq<char>),
    /// The user has left without choosing.
    Cancelled,
}

/// What is to be done with the terminal after a key.
pub enum ActionView {
    Redraw { input: Seq<char>, listing: Option<Seq<char>> },
    Restore,
}

/// A selection in progress or at its end.
#[derive(Debug)]
pub enum Selector {
    /// The user is typing; the characters typed so far.
    Editing(Vec<char>),
    /// The user has chosen the engine of this name.
    Confirmed(String),
    /// The user has left without choosing.
    Cancelled,
}

/// What is to be done with the terminal after a key.
#[derive(Debug)]
pub enum Action {
    /// Clear the screen, show `input` on its first line and, where there is
    /// one, `listing` on its second.
    Redraw { input: Vec<char>, listing: Option<String> },
    /// The selection is over: put the terminal back as it was found.
    Restore,
}

impl View for Selector {
    type V = SelectorView;

    open spec fn view(&self) -> SelectorView {
        match self {
            Selector::Editing(input) => SelectorView::Editing(input@),
            Selector::Confirmed(name) => SelectorView::Confirmed(name@),
            Selector::Cancelled => SelectorView::Cancelled,
        }
    }
}

impl View for Action {
    type V = ActionView;

    open spec fn view(&self) -> ActionView {
        match self {
            Action::Redraw { input, listing } => ActionView::Redraw {
                input: input@,
                listing: match listing {
                    Some(text) => Some(text@),
                    None => None,
                },
            },
            Action::Restore => ActionView::Restore,
        }
    }
}

/// The names of `names`, in order, with one space between two of them.
pub open spec fn spaced(names: Seq<Seq<char>>) -> Seq<char>
    decreases names.len(),
{
    if names.len() == 0 {
        Seq::empty()
    } else if names.len() == 1 {
        names[0]
    } else {
        spaced(names.drop_last()) + seq![' '] + names.last()
    }
}

/// The line under the input: the names that `input` can still mean, or no
/// line where it can mean none.
pub open spec fn listing_of(names: Seq<Seq<char>>, input: Seq<char>) -> Option<Seq<char>> {
    let m = narrowed(names, input);
    if m.len() == 0 {
        None
    } else {
        Some(spaced(m))
    }
}

/// Whether the confirm key, pressed after `input`, selects a name: the input
/// is not blank and at least one name begins with it.
pub open spec fn can_confirm(names: Seq<Seq<char>>, input: Seq<char>) -> bool {
    !is_blank(input) && narrowed(names, input).len() > 0
}

/// Whether `key` ends the selection without a choice.
pub open spec fn is_cancel(key: Key) -> bool {
    key == Key::Esc || key == Key::Char('q')
}

/// The selection after `key`, with `names` to pick from.
///
/// While the user is typing: the line feed confirms the first name, in the
/// order of `names`, that begins with the input, and is ignored where
/// `can_confirm` does not hold; `Esc` and `q` cancel; any other character is
/// added to the input; `Backspace` and `Delete` take the last character
/// away, if there is one; any other key changes nothing. A selection that is
/// over stays as it is.
pub open spec fn pressed(names: Seq<Seq<char>>, s: SelectorView, key: Key) -> SelectorView {
    match s {
        SelectorView::Editing(input) => match key {
            Key::Char(ch) => if ch == '\n' {
                if can_confirm(names, input) {
                    SelectorView::Confirmed(narrowed(names, input)[0])
                } else {
                    s
                }
            } else if ch == 'q' {
                SelectorView::Cancelled
            } else {
                SelectorView::Editing(input.push(ch))
            },
            Key::Esc => SelectorView::Cancelled,
            Key::Backspace | Key::Delete => if input.len() > 0 {
                SelectorView::Editing(input.drop_last())
            } else {
                s
            },
            Key::Other => s,
        },
        _ => s,
    }
}

/// What the terminal is to show for the selection `s`: the input and its
/// listing while the user is typing, nothing more once the selection is over.
pub open spec fn action_for(names: Seq<Seq<char>>, s: SelectorView) -> ActionView {
    match s {
        SelectorView::Editing(input) => ActionView::Redraw {
            input,
            listing: listing_of(names, input),
        },
        _ => ActionView::Restore,
    }
}

/// The selection after all of `keys`, pressed in order.
pub open spec fn run(names: Seq<Seq<char>>, s: SelectorView, keys: Seq<Key>) -> SelectorView
    decreases keys.len(),
{
    if keys.len() == 0 {
        s
    } else {
        pressed(names, run(names, s, keys.drop_last()), keys.last())
    }
}

/// What a selection comes to: the chosen name, or nothing.
pub open spec fn outcome(s: SelectorView) -> Option<Seq<char>> {
    match s {
        SelectorView::Confirmed(name) => Some(name),
        _ => None,
    }
}

/// A selection that is over takes no more keys.
pub proof fn lemma_run_finished(names: Seq<Seq<char>>, s: SelectorView, keys: Seq<Key>)
    requires
        !(s is Editing),
    ensures
        run(names, s, keys) == s,
    decreases keys.len(),
{
    if keys.len() > 0 {
        lemma_run_finished(names, s, keys.drop_last());
    }
}

/// Keys pressed one after the other: the selection after `first + more` is
/// the selection that `more` makes of what `first` left.
pub proof fn lemma_run_add(
    names: Seq<Seq<char>>,
    s: SelectorView,
    first: Seq<Key>,
    more: Seq<Key>,
)
    ensures
        run(names, s, first + more) == run(names, run(names, s, first), more),
    decreases more.len(),
{
    if more.len() == 0 {
        assert(first + more =~= first);
    } else {
        lemma_run_add(names, s, first, more.drop_last());
        assert((first + more).drop_last() =~= first + more.drop_last());
    }
}

/// `Esc` or `q`, pressed at any point while the user is typing, ends the
/// selection without a choice, whatever was typed before and whatever keys
/// follow.
pub proof fn lemma_cancel(names: Seq<Seq<char>>, keys: Seq<Key>, at: int)
    requires
        0 <= at < keys.len(),
        is_cancel(keys[at]),
        run(names, SelectorView::Editing(Seq::empty()), keys.take(at)) is Editing,
    ensures
        run(names, SelectorView::Editing(Seq::empty()), keys) == SelectorView::Cancelled,
        outcome(run(names, SelectorView::Editing(Seq::empty()), keys)) is None,
{
    let start = SelectorView::Editing(Seq::empty());
    let before = run(names, start, keys.take(at));
    assert(keys.take(at + 1).drop_last() =~= keys.take(at));
    assert(keys.take(at + 1).last() == keys[at]);
    assert(run(names, start, keys.take(at + 1)) == pressed(names, before, keys[at]));
    assert(keys =~= keys.take(at + 1) + keys.skip(at + 1));
    lemma_run_add(names, start, keys.take(at + 1), keys.skip(at + 1));
    lemma_run_finished(names, SelectorView::Cancelled, keys.skip(at + 1));
}

/// After any key the terminal is asked to be put back just when the
/// selection is over; while the user is typing it is asked to be redrawn.
pub proof fn lemma_restore_when_over(names: Seq<Seq<char>>, s: SelectorView, key: Key)
    ensures
        action_for(names, pressed(names, s, key)) is Restore <==> !(pressed(names, s, key)
            is Editing),
        action_for(names, pressed(names, s, key)) is Redraw <==> pressed(names, s, key) is Editing,
        !(s is Editing) ==> action_for(names, pressed(names, s, key)) is Restore,
{
}

/// On a catalog the confirm key selects the first candidate in the order of
/// the catalog: the name that is chosen is the name of an engine of the
/// catalog, and begins with the input.
pub proof fn lemma_confirmed_is_candidate(c: Seq<EngineView>, input: Seq<char>)
    requires
        can_confirm(names_of(c), input),
    ensures
        candidates(c, input).len() > 0,
        pressed(names_of(c), SelectorView::Editing(input), Key::Char('\n'))
            == SelectorView::Confirmed(candidates(c, input)[0].name),
        c.contains(candidates(c, input)[0]),
        input.is_prefix_of(candidates(c, input)[0].name),
{
    lemma_names_of_candidates(c, input);
    let m = candidates(c, input);
    assert(names_of(m).len() == m.len());
    assert(names_of(m)[0] == m[0].name);
    assert(m.contains(m[0]));
    lemma_candidates_member(c, input, m[0]);
}

/// The names of `names`, with one space between two of them.
pub fn listing(names: &[&str]) -> (text: String)
    ensures
        text@ == spaced(texts(names@)),
{
    let ghost m = texts(names@);
    let mut text = String::new();
    let mut i: usize = 0;
    while i < names.len()
        invariant
            i <= names.len(),
            m == texts(names@),
            text@ == spaced(m.take(i as int)),
        decreases names.len() - i,
    {
        proof {
            reveal_strlit(" ");
            assert(m.take(i + 1).drop_last() =~= m.take(i as int));
            assert(m.take(i + 1).last() == m[i as int]);
            assert(m[i as int] == names@[i as int]@);
        }
        if i > 0 {
            text.append(" ");
            assert(" "@ =~= seq![' ']);
        }
        text.append(names[i]);
        assert(text@ =~= spaced(m.take(i + 1)));
        i += 1;
    }
    assert(m.take(i as int) =~= m);
    text
}

impl Selector {
    /// A selection at its beginning: nothing typed yet.
    pub fn start() -> (r: Selector)
        ensures
            r@ == SelectorView::Editing(Seq::<char>::empty()),
    {
        Selector::Editing(Vec::new())
    }

    /// Takes one key, with `names` to pick from. Returns the selection after
    /// it, and what is to be done with the terminal.
    pub fn step(self, names: &[&str], key: Key) -> (r: (Selector, Action))
        ensures
            r.0@ == pressed(texts(names@), self@, key),
            r.1@ == action_for(texts(names@), r.0@),
    {
        let next = match self {
            Selector::Editing(mut input) => match key {
                Key::Char(ch) => {
                    if ch == '\n' {
                        let matches = narrow(names, input.as_slice());
                        if !blank(input.as_slice()) && matches.len() > 0 {
                            assert(texts(matches@)[0] == matches@[0]@);
                            Selector::Confirmed(String::from_str(matches[0]))
                        } else {
                            assert(texts(matches@).len() == matches@.len());
                            Selector::Editing(input)
                        }
                    } else if ch == 'q' {
                        Selector::Cancelled
                    } else {
                        input.push(ch);
                        Selector::Editing(input)
                    }
                },
                Key::Esc => Selector::Cancelled,
                Key::Backspace | Key::Delete => {
                    if input.len() > 0 {
                        input.pop();
                        Selector::Editing(input)
                    } else {
                        Selector::Editing(input)
                    }
                },
                Key::Other => Selector::Editing(input),
            },
            Selector::Confirmed(name) => Selector::Confirmed(name),
            Selector::Cancelled => Selector::Cancelled,
        };
        let action = match &next {
            Selector::Editing(input) => {
                let matches = narrow(names, input.as_slice());
                assert(texts(matches@).len() == matches@.len());
                let shown = if matches.len() == 0 {
                    None
                } else {
                    Some(listing(matches.as_slice()))
                };
                Action::Redraw { input: input.clone(), listing: shown }
            },
            _ => Action::Restore,
        };
        (next, action)
    }

    /// Takes one key, with the engines of `catalog` to pick from. Returns
    /// the selection after it, and what is to be done with the terminal.
    pub fn press(self, catalog: &Engines, key: Key) -> (r: (Selector, Action))
        ensures
            r.0@ == pressed(names_of(catalog@), self@, key),
            r.1@ == action_for(names_of(catalog@), r.0@),
    {
        let names = catalog.names();
        self.step(names.as_slice(), key)
    }

    /// Whether the selection is over.
    pub fn is_finished(&self) -> (r: bool)
        ensures
            r == !(self@ is Editing),
    {
        match self {
            Selector::Editing(_) => false,
            _ => true,
        }
    }

    /// The name that was chosen, if one was.
    pub fn selected(self) -> (r: Option<String>)
        ensures
            match r {
                Some(name) => outcome(self@) == Some(name@),
                None => outcome(self@) is None,
            },
    {
        match self {
            Selector::Confirmed(name) => Some(name),
            _ => None,
        }
    }
}

/// Picks one of `names` by the keys in `keys`, pressed in order from a fresh
/// selection: the name that they confirm, or nothing where they cancel or
/// run out before a choice was made.
pub fn pick(names: &[&str], keys: &[Key]) -> (r: Option<String>)
    ensures
        match r {
            Some(name) => outcome(run(texts(names@), SelectorView::Editing(Seq::empty()), keys@))
                == Some(name@),
            None => outcome(run(texts(names@), SelectorView::Editing(Seq::empty()), keys@))
                is None,
        },
{
    let ghost all = texts(names@);
    let ghost start = SelectorView::Editing(Seq::empty());
    let mut state = Selector::start();
    let mut i: usize = 0;
    assert(keys@.take(0) =~= Seq::<Key>::empty());
    while i < keys.len() && !state.is_finished()
        invariant
            i <= keys.len(),
            all == texts(names@),
            start == SelectorView::Editing(Seq::<char>::empty()),
            state@ == run(all, start, keys@.take(i as int)),
        decreases keys.len() - i,
    {
        proof {
            assert(keys@.take(i + 1).drop_last() =~= keys@.take(i as int));
            assert(keys@.take(i + 1).last() == keys@[i as int]);
        }
        let (next, _) = state.step(names, keys[i]);
        state = next;
        i += 1;
    }
    proof {
        assert(keys@ =~= keys@.take(i as int) + keys@.skip(i as int));
        lemma_run_add(all, start, keys@.take(i as int), keys@.skip(i as int));
        if i < keys.len() {
            lemma_run_finished(all, state@, keys@.skip(i as int));
        } else {
            assert(keys@.skip(i as int) =~= Seq::<Key>::empty());
        }
    }
    state.selected()
}

impl Engines {
    /// Picks an engine by the keys in `keys`, pressed in order from a fresh
    /// selection: the name that they confirm, or nothing where they cancel
    /// or run out before a choice was made.
    pub fn fuzzy(&self, keys: &[Key]) -> (r: Option<String>)
        ensures
            match r {
                Some(name) => outcome(
                    run(names_of(self@), SelectorView::Editing(Seq::empty()), keys@),
                ) == Some(name@),
                None => outcome(run(names_of(self@), SelectorView::Editing(Seq::empty()), keys@))
                    is None,
            },
    {
        let names = self.names();
        pick(names.as_slice(), keys)
    }
}

} // verus!
