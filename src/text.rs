//! Character-level helpers: the characters of a string, substring search,
//! and splitting a text at separator characters.

use vstd::prelude::*;

verus! {

/// Appends one character to a string.
pub assume_specification[ String::push ](s: &mut String, ch: char)
    ensures
        final(s)@ == old(s)@.push(ch),
;

/// The characters of `s`, in order.
pub fn chars_of(s: &str) -> (r: Vec<char>)
    ensures
        r@ == s@,
{
    let mut r: Vec<char> = Vec::new();
    for c in it: s.chars()
        invariant
            it.seq() == s@,
            r@ == it.seq().take(it.index() as int),
    {
        r.push(c);
        assert(r@ =~= it.seq().take(it.index() as int + 1));
    }
    assert(r@ =~= s@);
    r
}

/// A string holding the characters `cs`.
pub fn string_of(cs: &Vec<char>) -> (r: String)
    ensures
        r@ == cs@,
{
    let mut r = String::new();
    for i in 0..cs.len()
        invariant
            r@ == cs@.take(i as int),
    {
        r.push(cs[i]);
        assert(r@ =~= cs@.take(i as int + 1));
    }
    assert(cs@.take(cs@.len() as int) =~= cs@);
    r
}

pub fn same_chars(a: &Vec<char>, b: &Vec<char>) -> (r: bool)
    ensures
        r == (a@ == b@),
{
    if a.len() != b.len() {
        return false;
    }
    for i in 0..a.len()
        invariant
            a@.len() == b@.len(),
            forall|k: int| 0 <= k < i ==> a@[k] == b@[k],
    {
        if a[i] != b[i] {
            return false;
        }
    }
    assert(a@ =~= b@);
    true
}

/// Whether `pat` occurs in `s` as a run of consecutive characters.
pub open spec fn occurs_in(pat: Seq<char>, s: Seq<char>) -> bool {
    exists|i: int| 0 <= i && i + pat.len() <= s.len() && #[trigger] s.subrange(i, i + pat.len()) == pat
}

fn occurs_at(pat: &Vec<char>, s: &Vec<char>, at: usize) -> (r: bool)
    requires
        at + pat@.len() <= s@.len(),
    ensures
        r == (s@.subrange(at as int, at + pat@.len()) == pat@),
{
    let n = pat.len();
    for k in 0..n
        invariant
            at + n <= s.len(),
            n == pat@.len(),
            forall|m: int| 0 <= m < k ==> s@[at + m] == pat@[m],
    {
        if s[at + k] != pat[k] {
            assert(s@.subrange(at as int, at + pat@.len())[k as int] != pat@[k as int]);
            return false;
        }
    }
    assert(s@.subrange(at as int, at + pat@.len()) =~= pat@);
    true
}

/// Substring search over characters.
pub fn occurs(pat: &Vec<char>, s: &Vec<char>) -> (r: bool)
    ensures
        r == occurs_in(pat@, s@),
{
    if pat.len() > s.len() {
        return false;
    }
    let last = s.len() - pat.len();
    let mut at: usize = 0;
    loop
        invariant
            at <= last,
            last + pat@.len() == s@.len(),
            forall|i: int|
                0 <= i < at ==> #[trigger] s@.subrange(i, i + pat@.len()) != pat@,
        decreases last - at,
    {
        if occurs_at(pat, s, at) {
            return true;
        }
        if at == last {
            return false;
        }
        at = at + 1;
    }
}

/// `s` cut at every character that `sep` picks out; the separators are
/// dropped, and `n` separators give `n + 1` pieces, empty ones included.
pub open spec fn split_by(s: Seq<char>, sep: spec_fn(char) -> bool) -> Seq<Seq<char>>
    decreases s.len(),
{
    if s.len() == 0 {
        seq![Seq::empty()]
    } else {
        let init = split_by(s.drop_last(), sep);
        if sep(s.last()) {
            init.push(Seq::empty())
        } else {
            init.update(init.len() - 1, init.last().push(s.last()))
        }
    }
}

pub proof fn lemma_split_by_nonempty(s: Seq<char>, sep: spec_fn(char) -> bool)
    ensures
        split_by(s, sep).len() >= 1,
    decreases s.len(),
{
    if s.len() > 0 {
        lemma_split_by_nonempty(s.drop_last(), sep);
    }
}

/// A text without separators is one piece.
pub proof fn lemma_split_by_whole(s: Seq<char>, sep: spec_fn(char) -> bool)
    requires
        forall|i: int| 0 <= i < s.len() ==> !sep(#[trigger] s[i]),
    ensures
        split_by(s, sep) == seq![s],
    decreases s.len(),
{
    if s.len() > 0 {
        lemma_split_by_whole(s.drop_last(), sep);
        assert(s.drop_last().push(s.last()) =~= s);
        assert(split_by(s, sep) =~= seq![s]);
    } else {
        assert(s =~= Seq::<char>::empty());
    }
}

/// Splitting at a separator between two texts splits each of them.
pub proof fn lemma_split_by_join(a: Seq<char>, c: char, b: Seq<char>, sep: spec_fn(char) -> bool)
    requires
        sep(c),
    ensures
        split_by(a + seq![c] + b, sep) == split_by(a, sep) + split_by(b, sep),
    decreases b.len(),
{
    let s = a + seq![c] + b;
    if b.len() == 0 {
        assert(s.drop_last() =~= a);
        assert(split_by(b, sep) =~= seq![Seq::<char>::empty()]);
        assert(split_by(s, sep) =~= split_by(a, sep) + split_by(b, sep));
    } else {
        assert(s.drop_last() =~= a + seq![c] + b.drop_last());
        lemma_split_by_join(a, c, b.drop_last(), sep);
        lemma_split_by_nonempty(b.drop_last(), sep);
        assert(split_by(s, sep) =~= split_by(a, sep) + split_by(b, sep));
    }
}

pub open spec fn line_break() -> spec_fn(char) -> bool {
    |c: char| c == '\n'
}

/// The characters that separate the words of a line.
pub open spec fn is_blank(c: char) -> bool {
    c == ' ' || c == '\t' || c == '\r' || c == '\x0c'
}

pub open spec fn blank() -> spec_fn(char) -> bool {
    |c: char| is_blank(c)
}

/// The lines of a text: its pieces between line breaks.
pub open spec fn lines_of(s: Seq<char>) -> Seq<Seq<char>> {
    split_by(s, line_break())
}

/// The words of a line: its pieces between blanks, empty pieces dropped.
pub open spec fn words_of(s: Seq<char>) -> Seq<Seq<char>> {
    split_by(s, blank()).filter(|w: Seq<char>| w.len() > 0)
}

pub open spec fn views_of(v: Seq<Vec<char>>) -> Seq<Seq<char>> {
    v.map_values(|x: Vec<char>| x@)
}

proof fn lemma_views_push(v: Seq<Vec<char>>, x: Vec<char>)
    ensures
        views_of(v.push(x)) == views_of(v).push(x@),
{
    assert(views_of(v.push(x)) =~= views_of(v).push(x@));
}

/// Splits a text into its lines.
pub fn split_lines(s: &Vec<char>) -> (r: Vec<Vec<char>>)
    ensures
        views_of(r@) == lines_of(s@),
{
    let mut lines: Vec<Vec<char>> = Vec::new();
    let mut cur: Vec<char> = Vec::new();
    assert(s@.take(0) =~= Seq::<char>::empty());
    for i in 0..s.len()
        invariant
            views_of(lines@).push(cur@) == lines_of(s@.take(i as int)),
    {
        let c = s[i];
        proof {
            assert(s@.take(i + 1).drop_last() =~= s@.take(i as int));
            lemma_split_by_nonempty(s@.take(i as int), line_break());
        }
        if c == '\n' {
            proof {
                lemma_views_push(lines@, cur);
            }
            lines.push(cur);
            cur = Vec::new();
            assert(views_of(lines@).push(cur@) =~= lines_of(s@.take(i + 1)));
        } else {
            cur.push(c);
            assert(views_of(lines@).push(cur@) =~= lines_of(s@.take(i + 1)));
        }
    }
    proof {
        lemma_views_push(lines@, cur);
        assert(s@.take(s@.len() as int) =~= s@);
    }
    lines.push(cur);
    lines
}

fn is_blank_char(c: char) -> (r: bool)
    ensures
        r == is_blank(c),
{
    c == ' ' || c == '\t' || c == '\r' || c == '\x0c'
}

/// Splits a line into its words.
pub fn split_words(s: &Vec<char>) -> (r: Vec<Vec<char>>)
    ensures
        views_of(r@) == words_of(s@),
{
    let ghost nonempty = |w: Seq<char>| w.len() > 0;
    let mut words: Vec<Vec<char>> = Vec::new();
    let mut cur: Vec<char> = Vec::new();
    assert(s@.take(0) =~= Seq::<char>::empty());
    assert(split_by(Seq::<char>::empty(), blank()).drop_last() =~= Seq::<Seq<char>>::empty());
    for i in 0..s.len()
        invariant
            nonempty == (|w: Seq<char>| w.len() > 0),
            split_by(s@.take(i as int), blank()).len() >= 1,
            split_by(s@.take(i as int), blank()).drop_last().filter(nonempty) == views_of(words@),
            split_by(s@.take(i as int), blank()).last() == cur@,
    {
        let c = s[i];
        let ghost before = split_by(s@.take(i as int), blank());
        proof {
            assert(s@.take(i + 1).drop_last() =~= s@.take(i as int));
            assert(before =~= before.drop_last().push(cur@));
        }
        if is_blank_char(c) {
            let ghost after = split_by(s@.take(i + 1), blank());
            assert(after == before.push(Seq::<char>::empty()));
            assert(after.drop_last() =~= before);
            proof {
                before.drop_last().lemma_filter_push(cur@, nonempty);
            }
            if cur.len() > 0 {
                proof {
                    lemma_views_push(words@, cur);
                }
                words.push(cur);
            }
            cur = Vec::new();
        } else {
            cur.push(c);
            let ghost after = split_by(s@.take(i + 1), blank());
            assert(after.drop_last() =~= before.drop_last());
        }
        proof {
            lemma_split_by_nonempty(s@.take(i + 1), blank());
        }
    }
    proof {
        assert(s@.take(s@.len() as int) =~= s@);
        let all = split_by(s@, blank());
        assert(all =~= all.drop_last().push(cur@));
        all.drop_last().lemma_filter_push(cur@, nonempty);
        assert(words_of(s@) == all.filter(nonempty));
    }
    if cur.len() > 0 {
        proof {
            lemma_views_push(words@, cur);
        }
        words.push(cur);
    }
    words
}

} // verus!
