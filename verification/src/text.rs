//! Characters and character sequences: the classes of characters that the
//! scanner tells apart, and the splitting, trimming and filtering that it is
//! built from. Everything here works on `Vec<char>`, whose view is the
//! sequence of characters that the contracts speak of.

use vstd::prelude::*;

verus! {

/// What `char::is_whitespace` answers for `c`: whether `c` has the Unicode
/// property `White_Space`.
pub uninterp spec fn char_is_whitespace(c: char) -> bool;

/// What `char::is_numeric` answers for `c`: whether `c` is in one of the
/// Unicode number categories.
pub uninterp spec fn char_is_numeric(c: char) -> bool;

/// What `char::is_alphanumeric` answers for `c`: whether `c` is alphabetic
/// or numeric in Unicode's sense.
pub uninterp spec fn char_is_alphanumeric(c: char) -> bool;

/// `char::is_whitespace` looks `c` up in the tables of the standard library.
/// Nothing is proved of it: the contract only names the answer, which
/// depends on `c` alone.
pub assume_specification[ char::is_whitespace ](c: char) -> (r: bool)
    ensures
        r == char_is_whitespace(c),
;

/// `char::is_numeric` looks `c` up in the tables of the standard library.
/// Nothing is proved of it: the contract only names the answer, which
/// depends on `c` alone.
pub assume_specification[ char::is_numeric ](c: char) -> (r: bool)
    ensures
        r == char_is_numeric(c),
;

/// `char::is_alphanumeric` looks `c` up in the tables of the standard
/// library. Nothing is proved of it: the contract only names the answer,
/// which depends on `c` alone.
pub assume_specification[ char::is_alphanumeric ](c: char) -> (r: bool)
    ensures
        r == char_is_alphanumeric(c),
;

/// `String::push` appends one character to the end of the string and leaves
/// the characters before it as they were.
pub assume_specification[ String::push ](s: &mut String, c: char)
    ensures
        final(s)@ == old(s)@.push(c),
;

/// A class of characters.
#[derive(Clone, Copy, Debug)]
pub enum CharClass {
    /// Unicode white space.
    Whitespace,
    /// Unicode numbers.
    Numeric,
    /// Unicode letters and numbers.
    Alphanumeric,
    /// One character and no other.
    Exactly(char),
}

impl CharClass {
    /// Whether `c` belongs to the class.
    pub open spec fn has(self, c: char) -> bool {
        match self {
            CharClass::Whitespace => char_is_whitespace(c),
            CharClass::Numeric => char_is_numeric(c),
            CharClass::Alphanumeric => char_is_alphanumeric(c),
            CharClass::Exactly(d) => c == d,
        }
    }

    /// Decides whether `c` belongs to the class.
    pub fn contains(&self, c: char) -> (r: bool)
        ensures
            r == self.has(c),
    {
        match self {
            CharClass::Whitespace => c.is_whitespace(),
            CharClass::Numeric => c.is_numeric(),
            CharClass::Alphanumeric => c.is_alphanumeric(),
            CharClass::Exactly(d) => c == *d,
        }
    }
}

/// The characters of `s`, in order, that belong to `class` (`keep` true) or
/// that do not (`keep` false).
pub open spec fn filtered(s: Seq<char>, class: CharClass, keep: bool) -> Seq<char> {
    s.filter(|c: char| class.has(c) == keep)
}

/// Whether every character of `s` belongs to `class`. True of the empty
/// sequence.
pub open spec fn all_of(s: Seq<char>, class: CharClass) -> bool {
    forall|i: int| 0 <= i < s.len() ==> class.has(#[trigger] s[i])
}

/// The sequences of characters that a sequence of vectors holds.
pub open spec fn views(pieces: Seq<Vec<char>>) -> Seq<Seq<char>> {
    pieces.map_values(|p: Vec<char>| p@)
}

/// The pieces of `s` between the occurrences of `sep`. There is one piece
/// more than there are separators: the empty sequence gives one empty
/// piece, and a separator at either end gives an empty piece there.
pub open spec fn split(s: Seq<char>, sep: char) -> Seq<Seq<char>>
    decreases s.len(),
{
    if s.len() == 0 {
        seq![Seq::<char>::empty()]
    } else {
        let before = split(s.drop_last(), sep);
        if s.last() == sep {
            before.push(Seq::<char>::empty())
        } else {
            before.drop_last().push(before.last().push(s.last()))
        }
    }
}

/// The pieces put together again, with `sep` between every two of them.
pub open spec fn join(pieces: Seq<Seq<char>>, sep: char) -> Seq<char>
    decreases pieces.len(),
{
    if pieces.len() == 0 {
        Seq::empty()
    } else if pieces.len() == 1 {
        pieces[0]
    } else {
        join(pieces.drop_last(), sep).push(sep) + pieces.last()
    }
}

/// The index at or after `from` where the first `;;` of `s` begins, or the
/// length of `s` where there is none.
pub open spec fn comment_start(s: Seq<char>, from: int) -> int
    decreases s.len() - from,
{
    if from < 0 || from + 1 >= s.len() {
        s.len() as int
    } else if s[from] == ';' && s[from + 1] == ';' {
        from
    } else {
        comment_start(s, from + 1)
    }
}

/// `s` up to its first `;;`, or all of `s` where it holds none.
pub open spec fn strip_comment(s: Seq<char>) -> Seq<char> {
    s.take(comment_start(s, 0))
}

/// `s` without the white space at its end.
pub open spec fn trim_end(s: Seq<char>) -> Seq<char>
    decreases s.len(),
{
    if s.len() > 0 && char_is_whitespace(s.last()) {
        trim_end(s.drop_last())
    } else {
        s
    }
}

/// The characters of a string, one by one.
pub fn to_chars(s: &str) -> (v: Vec<char>)
    ensures
        v@ == s@,
{
    let mut v: Vec<char> = Vec::new();
    proof {
        vstd::string::axiom_spec_iter(s);
    }
    for c in it: s.chars()
        invariant
            it.seq() == s@,
            v@ == s@.take(it.index() as int),
    {
        v.push(c);
    }
    v
}

/// The string made of the characters of `v`.
pub fn from_chars(v: &Vec<char>) -> (s: String)
    ensures
        s@ == v@,
{
    let mut s = String::new();
    let mut i: usize = 0;
    while i < v.len()
        invariant
            i <= v.len(),
            s@ == v@.take(i as int),
        decreases v.len() - i,
    {
        s.push(v[i]);
        i = i + 1;
    }
    assert(v@.take(v.len() as int) == v@);
    s
}

/// A copy of `v[from..to]`.
pub fn slice(v: &Vec<char>, from: usize, to: usize) -> (r: Vec<char>)
    requires
        from <= to <= v.len(),
    ensures
        r@ == v@.subrange(from as int, to as int),
{
    let mut r: Vec<char> = Vec::new();
    let mut i: usize = from;
    while i < to
        invariant
            from <= i <= to <= v.len(),
            r@ == v@.subrange(from as int, i as int),
        decreases to - i,
    {
        r.push(v[i]);
        i = i + 1;
    }
    r
}

/// Keeps the characters of `v` that belong to `class`, or those that do not.
pub fn filter_chars(v: &Vec<char>, class: CharClass, keep: bool) -> (r: Vec<char>)
    ensures
        r@ == filtered(v@, class, keep),
{
    let mut r: Vec<char> = Vec::new();
    let mut i: usize = 0;
    let ghost pred = |c: char| class.has(c) == keep;
    while i < v.len()
        invariant
            i <= v.len(),
            pred == (|c: char| class.has(c) == keep),
            r@ == v@.take(i as int).filter(pred),
        decreases v.len() - i,
    {
        let c = v[i];
        proof {
            assert(v@.take(i + 1) == v@.take(i as int).push(c));
            v@.take(i as int).lemma_filter_push(c, pred);
        }
        if class.contains(c) == keep {
            r.push(c);
        }
        i = i + 1;
    }
    assert(v@.take(v.len() as int) == v@);
    r
}

/// Decides whether every character of `v` belongs to `class`.
pub fn is_all_of(v: &Vec<char>, class: CharClass) -> (r: bool)
    ensures
        r == all_of(v@, class),
{
    let mut i: usize = 0;
    while i < v.len()
        invariant
            i <= v.len(),
            forall|j: int| 0 <= j < i ==> class.has(#[trigger] v@[j]),
        decreases v.len() - i,
    {
        if !class.contains(v[i]) {
            return false;
        }
        i = i + 1;
    }
    true
}

/// Cuts `v` at every `sep`.
pub fn split_chars(v: &Vec<char>, sep: char) -> (pieces: Vec<Vec<char>>)
    ensures
        views(pieces@) == split(v@, sep),
{
    let mut pieces: Vec<Vec<char>> = Vec::new();
    let mut piece: Vec<char> = Vec::new();
    let mut i: usize = 0;
    assert(views(pieces@).push(piece@) == split(v@.take(0), sep));
    while i < v.len()
        invariant
            i <= v.len(),
            views(pieces@).push(piece@) == split(v@.take(i as int), sep),
        decreases v.len() - i,
    {
        let c = v[i];
        let ghost before = split(v@.take(i as int), sep);
        let ghost done = views(pieces@);
        proof {
            assert(v@.take(i + 1).drop_last() == v@.take(i as int));
            assert(before.last() == piece@);
            assert(before.drop_last() == done);
        }
        if c == sep {
            pieces.push(piece);
            piece = Vec::new();
            assert(views(pieces@) == before);
        } else {
            piece.push(c);
        }
        i = i + 1;
    }
    assert(v@.take(v.len() as int) == v@);
    let ghost done = views(pieces@);
    let ghost last = piece@;
    pieces.push(piece);
    assert(views(pieces@) == done.push(last));
    pieces
}

/// Cuts `v` off where its first `;;` begins.
pub fn strip_comment_chars(v: &Vec<char>) -> (r: Vec<char>)
    ensures
        r@ == strip_comment(v@),
{
    let mut i: usize = 0;
    while i < v.len() && !(i + 1 < v.len() && v[i] == ';' && v[i + 1] == ';')
        invariant
            i <= v.len(),
            comment_start(v@, 0) == comment_start(v@, i as int),
        decreases v.len() - i,
    {
        i = i + 1;
    }
    slice(v, 0, i)
}

/// Drops the white space at the end of `v`.
pub fn trim_end_chars(v: &Vec<char>) -> (r: Vec<char>)
    ensures
        r@ == trim_end(v@),
{
    let mut n: usize = v.len();
    assert(v@.take(n as int) == v@);
    while n > 0 && v[n - 1].is_whitespace()
        invariant
            n <= v.len(),
            trim_end(v@) == trim_end(v@.take(n as int)),
        decreases n,
    {
        assert(v@.take(n as int).drop_last() == v@.take(n - 1));
        n = n - 1;
    }
    slice(v, 0, n)
}

} // verus!
