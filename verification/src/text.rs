//! Character-level text operations.
//!
//! Every string in this crate is viewed as a `Seq<char>`; the functions here
//! are stated over those sequences and do their work one character at a time.

use vstd::prelude::*;

verus! {

/// Whether `c` is white space: the code points with the Unicode property
/// `White_Space`.
pub open spec fn is_whitespace(c: char) -> bool {
    let u = c as u32;
    ||| 0x09 <= u <= 0x0D
    ||| u == 0x20
    ||| u == 0x85
    ||| u == 0xA0
    ||| u == 0x1680
    ||| 0x2000 <= u <= 0x200A
    ||| u == 0x2028
    ||| u == 0x2029
    ||| u == 0x202F
    ||| u == 0x205F
    ||| u == 0x3000
}

/// A text is blank when it holds nothing but white space; the empty text is blank.
pub open spec fn is_blank(s: Seq<char>) -> bool {
    forall|i: int| 0 <= i < s.len() ==> is_whitespace(#[trigger] s[i])
}

/// `s` without its leading white space.
pub open spec fn trim_start(s: Seq<char>) -> Seq<char>
    decreases s.len(),
{
    if s.len() > 0 && is_whitespace(s.first()) {
        trim_start(s.drop_first())
    } else {
        s
    }
}

/// `s` without its trailing white space.
pub open spec fn trim_end(s: Seq<char>) -> Seq<char>
    decreases s.len(),
{
    if s.len() > 0 && is_whitespace(s.last()) {
        trim_end(s.drop_last())
    } else {
        s
    }
}

/// `s` without the white space on either side.
pub open spec fn trimmed(s: Seq<char>) -> Seq<char> {
    trim_end(trim_start(s))
}

/// How many characters stand between position `from` and the next `c` at or
/// after it, or the end of `s` where no `c` follows.
pub open spec fn run_before(s: Seq<char>, c: char, from: int) -> nat
    decreases s.len() - from,
{
    if from < 0 || from >= s.len() || s[from] == c {
        0
    } else {
        1 + run_before(s, c, from + 1)
    }
}

/// The position of the first `c` at or after `from`; `s.len()` where there is none.
pub open spec fn find_from(s: Seq<char>, c: char, from: int) -> int {
    from + run_before(s, c, from)
}

/// The pieces of `s` from position `from` on, cut at every `sep`. A text
/// without `sep` is one piece; a `sep` at the very end leaves an empty last piece.
pub open spec fn split_from(s: Seq<char>, sep: char, from: int) -> Seq<Seq<char>>
    decreases s.len() - from,
{
    let end = find_from(s, sep, from);
    if from < 0 || end >= s.len() {
        seq![s.subrange(from, s.len() as int)]
    } else {
        seq![s.subrange(from, end)] + split_from(s, sep, end + 1)
    }
}

/// The pieces of `s` between its occurrences of `sep`.
pub open spec fn split(s: Seq<char>, sep: char) -> Seq<Seq<char>> {
    split_from(s, sep, 0)
}

/// A line as it was terminated by a line feed: one carriage return before the
/// line feed belongs to the terminator.
pub open spec fn strip_cr(line: Seq<char>) -> Seq<char> {
    if line.len() > 0 && line.last() == '\r' {
        line.drop_last()
    } else {
        line
    }
}

/// The lines of `s` from position `from` on. A line ends at a line feed, or
/// at a carriage return directly followed by one; the terminator is not part
/// of the line. The last line needs no terminator, and a terminator at the
/// very end opens no further line.
pub open spec fn lines_from(s: Seq<char>, from: int) -> Seq<Seq<char>>
    decreases s.len() - from,
{
    if from < 0 || from >= s.len() {
        Seq::empty()
    } else {
        let end = find_from(s, '\n', from);
        if end >= s.len() {
            seq![s.subrange(from, s.len() as int)]
        } else {
            seq![strip_cr(s.subrange(from, end))] + lines_from(s, end + 1)
        }
    }
}

/// The lines of `s`.
pub open spec fn lines(s: Seq<char>) -> Seq<Seq<char>> {
    lines_from(s, 0)
}

/// A list of texts by their characters.
pub open spec fn texts(list: Seq<&str>) -> Seq<Seq<char>> {
    list.map_values(|s: &str| s@)
}

/// The texts that begin with `prefix`.
pub open spec fn begins_with(prefix: Seq<char>) -> spec_fn(Seq<char>) -> bool {
    |text: Seq<char>| prefix.is_prefix_of(text)
}

/// The texts of `list` that begin with `prefix`, in the order of `list`.
pub open spec fn narrowed(list: Seq<Seq<char>>, prefix: Seq<char>) -> Seq<Seq<char>> {
    list.filter(begins_with(prefix))
}

/// `find_from` is the one position from `from` on that holds `c` (or is the
/// end of `s`) with no `c` before it.
pub proof fn lemma_find_from(s: Seq<char>, c: char, from: int, at: int)
    requires
        0 <= from <= at <= s.len(),
        forall|k: int| from <= k < at ==> s[k] != c,
        at == s.len() || s[at] == c,
    ensures
        find_from(s, c, from) == at,
    decreases at - from,
{
    if from < at {
        lemma_find_from(s, c, from + 1, at);
    }
}

/// Where `find_from` points: at or after `from`, within `s`, at a `c` unless
/// at the end, and past no `c`.
pub proof fn lemma_find_from_bounds(s: Seq<char>, c: char, from: int)
    requires
        0 <= from <= s.len(),
    ensures
        from <= find_from(s, c, from) <= s.len(),
        find_from(s, c, from) < s.len() ==> s[find_from(s, c, from)] == c,
        forall|k: int| from <= k < find_from(s, c, from) ==> s[k] != c,
    decreases s.len() - from,
{
    if from < s.len() && s[from] != c {
        lemma_find_from_bounds(s, c, from + 1);
    }
}

/// Whether `c` is white space.
pub fn whitespace(c: char) -> (r: bool)
    ensures
        r == is_whitespace(c),
{
    let u: u32 = c as u32;
    (0x09 <= u && u <= 0x0D) || u == 0x20 || u == 0x85 || u == 0xA0 || u == 0x1680 || (0x2000 <= u
        && u <= 0x200A) || u == 0x2028 || u == 0x2029 || u == 0x202F || u == 0x205F || u == 0x3000
}

/// The characters of `s`, in order.
pub fn chars_of(s: &str) -> (out: Vec<char>)
    ensures
        out@ == s@,
{
    let mut out: Vec<char> = Vec::new();
    for c in it: s.chars()
        invariant
            it.seq() == s@,
            out@ == it.seq().take(it.index() as int),
    {
        out.push(c);
        assert(it.seq().take(it.index() + 1) =~= it.seq().take(it.index() as int).push(c));
    }
    assert(out@ =~= s@);
    out
}

/// Whether `s` holds nothing but white space.
pub fn blank(s: &[char]) -> (r: bool)
    ensures
        r == is_blank(s@),
{
    let mut i: usize = 0;
    while i < s.len()
        invariant
            i <= s.len(),
            forall|k: int| 0 <= k < i ==> is_whitespace(#[trigger] s@[k]),
        decreases s.len() - i,
    {
        if !whitespace(s[i]) {
            return false;
        }
        i += 1;
    }
    true
}

/// Whether `s` begins with the characters of `prefix`.
pub fn starts_with(s: &str, prefix: &[char]) -> (r: bool)
    ensures
        r == prefix@.is_prefix_of(s@),
{
    let mut i: usize = 0;
    for c in it: s.chars()
        invariant
            it.seq() == s@,
            i == it.index(),
            i <= prefix.len(),
            forall|k: int| 0 <= k < i ==> prefix@[k] == s@[k],
    {
        if i == prefix.len() {
            assert(prefix@ =~= s@.subrange(0, prefix@.len() as int));
            return true;
        }
        if c != prefix[i] {
            assert(prefix@.len() <= s@.len() ==> s@.subrange(0, prefix@.len() as int)[i as int]
                == s@[i as int]);
            return false;
        }
        i += 1;
    }
    if i == prefix.len() {
        assert(prefix@ =~= s@.subrange(0, prefix@.len() as int));
        true
    } else {
        false
    }
}

/// Whether `s` is, character for character, `other`.
pub fn same_text(s: &str, other: &[char]) -> (r: bool)
    ensures
        r == (s@ == other@),
{
    let mut i: usize = 0;
    for c in it: s.chars()
        invariant
            it.seq() == s@,
            i == it.index(),
            i <= other.len(),
            forall|k: int| 0 <= k < i ==> other@[k] == s@[k],
    {
        if i == other.len() || c != other[i] {
            return false;
        }
        i += 1;
    }
    if i == other.len() {
        assert(s@ =~= other@);
        true
    } else {
        false
    }
}

/// The position of the first `c` at or after `from`; `s.len()` where there
/// is none, and `from` itself where it lies past the end.
pub fn find(s: &[char], c: char, from: usize) -> (at: usize)
    ensures
        at == find_from(s@, c, from as int),
        from <= at,
        from <= s.len() ==> at <= s.len(),
        at < s.len() ==> s@[at as int] == c,
{
    if from > s.len() {
        return from;
    }
    let mut at: usize = from;
    while at < s.len() && s[at] != c
        invariant
            from <= at <= s.len(),
            forall|k: int| from <= k < at ==> s@[k] != c,
        decreases s.len() - at,
    {
        at += 1;
    }
    proof {
        lemma_find_from(s@, c, from as int, at as int);
    }
    at
}

/// The texts of `list` that begin with the characters of `prefix`, in the
/// order of `list`.
pub fn narrow<'a>(list: &[&'a str], prefix: &[char]) -> (r: Vec<&'a str>)
    ensures
        texts(r@) == narrowed(texts(list@), prefix@),
{
    let ghost all = texts(list@);
    let mut out: Vec<&'a str> = Vec::new();
    let mut i: usize = 0;
    assert(all.take(0) =~= Seq::<Seq<char>>::empty());
    assert(texts(out@) =~= all.take(0).filter(begins_with(prefix@))) by {
        reveal(Seq::filter);
    }
    while i < list.len()
        invariant
            i <= list.len(),
            all == texts(list@),
            texts(out@) == all.take(i as int).filter(begins_with(prefix@)),
        decreases list.len() - i,
    {
        let text = list[i];
        proof {
            assert(all[i as int] == text@);
            assert(all.take(i + 1) =~= all.take(i as int).push(all[i as int]));
            all.take(i as int).lemma_filter_push(all[i as int], begins_with(prefix@));
        }
        if starts_with(text, prefix) {
            let ghost before = texts(out@);
            out.push(text);
            assert(texts(out@) =~= before.push(text@));
        }
        i += 1;
    }
    assert(all.take(i as int) =~= all);
    out
}

/// The first character of `s`, if it has one.
pub fn first_char(s: &str) -> (r: Option<char>)
    ensures
        match r {
            Some(c) => s@.len() > 0 && c == s@[0],
            None => s@.len() == 0,
        },
{
    for c in it: s.chars()
        invariant
            it.seq() == s@,
            it.index() == 0,
    {
        return Some(c);
    }
    None
}

/// The lines of `text`, in order, without their terminators.
pub fn split_lines(text: &str) -> (r: Vec<&str>)
    ensures
        texts(r@) == lines(text@),
{
    let chars = chars_of(text);
    let n = chars.len();
    let ghost s = text@;
    let mut out: Vec<&str> = Vec::new();
    let mut pos: usize = 0;
    assert(texts(out@) + lines_from(s, 0) =~= lines(s));
    while pos < n
        invariant
            s == text@,
            chars@ == s,
            n == chars.len(),
            pos <= n,
            lines(s) == texts(out@) + lines_from(s, pos as int),
        decreases n - pos,
    {
        let end = find(chars.as_slice(), '\n', pos);
        let stop = if end < n && end > pos && chars[end - 1] == '\r' {
            end - 1
        } else {
            end
        };
        let next = if end < n {
            end + 1
        } else {
            n
        };
        let line = text.substring_char(pos, stop);
        let ghost before = texts(out@);
        out.push(line);
        proof {
            if end < n {
                assert(s.subrange(pos as int, end as int).len() > 0 ==> s.subrange(
                    pos as int,
                    end as int,
                ).last() == s[end - 1]);
                assert(line@ =~= strip_cr(s.subrange(pos as int, end as int)));
            }
            assert(lines_from(s, pos as int) =~= seq![line@] + lines_from(s, next as int));
            assert(texts(out@) =~= before.push(line@));
            assert(before + lines_from(s, pos as int) =~= texts(out@) + lines_from(s, next as int));
        }
        pos = next;
    }
    assert(lines(s) =~= texts(out@));
    out
}

/// `s` without the white space on either side.
pub fn trim(s: &str) -> (r: &str)
    ensures
        r@ == trimmed(s@),
{
    let chars = chars_of(s);
    let n = chars.len();
    let mut a: usize = 0;
    assert(chars@.skip(0) =~= chars@);
    while a < n && whitespace(chars[a])
        invariant
            n == chars.len(),
            a <= n,
            trim_start(chars@) == trim_start(chars@.skip(a as int)),
        decreases n - a,
    {
        assert(chars@.skip(a as int).drop_first() =~= chars@.skip(a + 1));
        a += 1;
    }
    let ghost rest = chars@.skip(a as int);
    assert(trim_start(chars@) == rest);
    let mut b: usize = n;
    while b > a && whitespace(chars[b - 1])
        invariant
            n == chars.len(),
            a <= b <= n,
            rest == chars@.skip(a as int),
            trim_end(rest) == trim_end(chars@.subrange(a as int, b as int)),
        decreases b - a,
    {
        assert(chars@.subrange(a as int, b as int).drop_last() =~= chars@.subrange(
            a as int,
            b - 1,
        ));
        b -= 1;
    }
    assert(rest =~= chars@.subrange(a as int, n as int));
    assert(trim_end(rest) == chars@.subrange(a as int, b as int));
    s.substring_char(a, b)
}

} // verus!
