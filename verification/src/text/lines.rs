//! Cutting text into lines, fields and words, and putting lines together.

use vstd::prelude::*;
use crate::seqs::{lemma_views_push, views};
use crate::text::chars::{is_space, is_whitespace, slice_of};

verus! {

/// The number of characters of `s` before the first `c`; the length of `s`
/// where it holds no `c`.
pub open spec fn first_index(s: Seq<char>, c: char) -> nat
    decreases s.len(),
{
    if s.len() == 0 || s[0] == c {
        0
    } else {
        1 + first_index(s.drop_first(), c)
    }
}

/// `first_index` stays within the text, no `c` stands before it, and one
/// stands at it unless it is the end.
pub proof fn lemma_first_index(s: Seq<char>, c: char)
    ensures
        first_index(s, c) <= s.len(),
        forall|k: int| 0 <= k < first_index(s, c) ==> s[k] != c,
        first_index(s, c) < s.len() ==> s[first_index(s, c) as int] == c,
    decreases s.len(),
{
    if s.len() == 0 || s[0] == c {
    } else {
        lemma_first_index(s.drop_first(), c);
        assert forall|k: int| 0 <= k < first_index(s, c) implies s[k] != c by {
            if k > 0 {
                assert(s[k] == s.drop_first()[k - 1]);
            }
        }
    }
}

/// The position of the first `c` at or after `from`; the length of `v` where
/// none follows.
pub(crate) fn find_from(v: &Vec<char>, from: usize, c: char) -> (i: usize)
    requires
        from <= v.len(),
    ensures
        from <= i <= v.len(),
        i - from == first_index(v@.skip(from as int), c),
{
    let mut i: usize = from;
    while i < v.len() && v[i] != c
        invariant
            from <= i <= v.len(),
            first_index(v@.skip(from as int), c) == (i - from) + first_index(
                v@.skip(i as int),
                c,
            ),
        decreases v.len() - i,
    {
        assert(v@.skip(i as int).drop_first() == v@.skip(i + 1));
        i += 1;
    }
    i
}

/// `s` without one trailing carriage return.
pub open spec fn without_cr(s: Seq<char>) -> Seq<char> {
    if s.len() > 0 && s.last() == '\r' {
        s.drop_last()
    } else {
        s
    }
}

/// The lines of `s`. A line ends at a line feed, which does not belong to
/// it, nor does a carriage return directly before that line feed. What
/// follows the last line feed is a line of its own unless it is empty; it
/// keeps a carriage return at its end.
pub open spec fn lines(s: Seq<char>) -> Seq<Seq<char>>
    decreases s.len(),
{
    if s.len() == 0 {
        Seq::empty()
    } else {
        let i = first_index(s, '\n');
        if i >= s.len() {
            seq![s]
        } else {
            seq![without_cr(s.take(i as int))] + lines(s.skip(i as int + 1))
        }
    }
}

/// The lines of `v`.
pub fn split_lines(v: &Vec<char>) -> (out: Vec<Vec<char>>)
    ensures
        views(out@) == lines(v@),
{
    let mut out: Vec<Vec<char>> = Vec::new();
    let mut pos: usize = 0;
    assert(v@.skip(0) == v@);
    assert(views(out@) + lines(v@) == lines(v@));
    while pos < v.len()
        invariant
            pos <= v.len(),
            views(out@) + lines(v@.skip(pos as int)) == lines(v@),
        decreases v.len() - pos,
    {
        let ghost rest = v@.skip(pos as int);
        let ghost before = out@;
        let e = find_from(v, pos, '\n');
        if e == v.len() {
            let line = slice_of(v, pos, e);
            assert(line@ == rest);
            out.push(line);
            proof {
                lemma_views_push(before, line);
                assert(lines(rest) == seq![rest]);
                assert(v@.skip(e as int).len() == 0);
                assert(views(before).push(rest) == views(before) + seq![rest]);
                assert(views(out@) + lines(v@.skip(e as int)) == views(out@));
            }
            pos = e;
        } else {
            let mut end = e;
            if end > pos && v[end - 1] == '\r' {
                end -= 1;
            }
            let line = slice_of(v, pos, end);
            out.push(line);
            proof {
                lemma_views_push(before, line);
                assert(rest.take(e - pos) == v@.subrange(pos as int, e as int));
                assert(line@ == without_cr(rest.take(e - pos)));
                assert(rest.skip(e - pos + 1) == v@.skip(e + 1));
                assert(lines(rest) == seq![line@] + lines(v@.skip(e + 1)));
                assert(views(before).push(line@) + lines(v@.skip(e + 1)) == views(before) + (
                seq![line@] + lines(v@.skip(e + 1))));
            }
            pos = e + 1;
        }
    }
    assert(lines(v@.skip(pos as int)) == Seq::<Seq<char>>::empty());
    assert(views(out@) + Seq::<Seq<char>>::empty() == views(out@));
    out
}

/// The fields of `s` between occurrences of `sep`: one more than `s` holds
/// separators, so an empty text has one empty field.
pub open spec fn split(s: Seq<char>, sep: char) -> Seq<Seq<char>>
    decreases s.len(),
{
    let i = first_index(s, sep);
    if i >= s.len() {
        seq![s]
    } else {
        seq![s.take(i as int)] + split(s.skip(i as int + 1), sep)
    }
}

/// The fields of `v` between occurrences of `sep`.
pub fn split_chars(v: &Vec<char>, sep: char) -> (out: Vec<Vec<char>>)
    ensures
        views(out@) == split(v@, sep),
        out.len() >= 1,
{
    let mut out: Vec<Vec<char>> = Vec::new();
    let mut pos: usize = 0;
    assert(v@.skip(0) == v@);
    assert(views(out@) + split(v@, sep) == split(v@, sep));
    loop
        invariant_except_break
            pos <= v.len(),
            views(out@) + split(v@.skip(pos as int), sep) == split(v@, sep),
        ensures
            views(out@) == split(v@, sep),
            out.len() >= 1,
        decreases v.len() - pos,
    {
        let ghost rest = v@.skip(pos as int);
        let ghost before = out@;
        let e = find_from(v, pos, sep);
        let line = slice_of(v, pos, e);
        out.push(line);
        proof {
            lemma_views_push(before, line);
            assert(rest.take(e - pos) == v@.subrange(pos as int, e as int));
        }
        if e == v.len() {
            proof {
                assert(line@ == rest);
                assert(split(rest, sep) == seq![rest]);
                assert(views(before).push(rest) == views(before) + seq![rest]);
            }
            break;
        }
        proof {
            assert(rest.skip(e - pos + 1) == v@.skip(e + 1));
            assert(split(rest, sep) == seq![line@] + split(v@.skip(e + 1), sep));
            assert(views(before).push(line@) + split(v@.skip(e + 1), sep) == views(before) + (
            seq![line@] + split(v@.skip(e + 1), sep)));
        }
        pos = e + 1;
    }
    out
}

/// The number of characters at the start of `s` that are not white space.
pub open spec fn word_len(s: Seq<char>) -> nat
    decreases s.len(),
{
    if s.len() > 0 && !is_space(s[0]) {
        1 + word_len(s.drop_first())
    } else {
        0
    }
}

/// `word_len` stays within the text.
pub proof fn lemma_word_len(s: Seq<char>)
    ensures
        word_len(s) <= s.len(),
    decreases s.len(),
{
    if s.len() > 0 && !is_space(s[0]) {
        lemma_word_len(s.drop_first());
    }
}

/// The words of `s`: its longest runs of characters that are not white
/// space, in order.
pub open spec fn words(s: Seq<char>) -> Seq<Seq<char>>
    decreases s.len(),
{
    if s.len() == 0 {
        Seq::empty()
    } else if is_space(s[0]) {
        words(s.drop_first())
    } else {
        proof {
            lemma_word_len(s);
        }
        let n = word_len(s);
        seq![s.take(n as int)] + words(s.skip(n as int))
    }
}

/// The words of `v`.
pub fn split_words(v: &Vec<char>) -> (out: Vec<Vec<char>>)
    ensures
        views(out@) == words(v@),
{
    let mut out: Vec<Vec<char>> = Vec::new();
    let mut pos: usize = 0;
    assert(v@.skip(0) == v@);
    assert(views(out@) + words(v@) == words(v@));
    while pos < v.len()
        invariant
            pos <= v.len(),
            views(out@) + words(v@.skip(pos as int)) == words(v@),
        decreases v.len() - pos,
    {
        let ghost rest = v@.skip(pos as int);
        if is_whitespace(v[pos]) {
            assert(rest.drop_first() == v@.skip(pos + 1));
            pos += 1;
        } else {
            let mut end: usize = pos;
            while end < v.len() && !is_whitespace(v[end])
                invariant
                    pos <= end <= v.len(),
                    word_len(rest) == (end - pos) + word_len(v@.skip(end as int)),
                    rest == v@.skip(pos as int),
                decreases v.len() - end,
            {
                assert(v@.skip(end as int).drop_first() == v@.skip(end + 1));
                end += 1;
            }
            let ghost before = out@;
            let word = slice_of(v, pos, end);
            out.push(word);
            proof {
                lemma_views_push(before, word);
                assert(word_len(rest) == end - pos);
                assert(rest.take(end - pos) == v@.subrange(pos as int, end as int));
                assert(rest.skip(end - pos) == v@.skip(end as int));
                assert(words(rest) == seq![word@] + words(v@.skip(end as int)));
                assert(views(before).push(word@) + words(v@.skip(end as int)) == views(before)
                    + (seq![word@] + words(v@.skip(end as int))));
            }
            pos = end;
        }
    }
    assert(words(v@.skip(pos as int)) == Seq::<Seq<char>>::empty());
    assert(views(out@) + Seq::<Seq<char>>::empty() == views(out@));
    out
}

/// The lines of `ls`, each followed by a line feed.
pub open spec fn terminated(ls: Seq<Seq<char>>) -> Seq<char>
    decreases ls.len(),
{
    if ls.len() == 0 {
        Seq::empty()
    } else {
        ls[0] + seq!['\n'] + terminated(ls.drop_first())
    }
}

/// The lines of `ls` with a line feed between each two.
pub open spec fn joined(ls: Seq<Seq<char>>) -> Seq<char>
    decreases ls.len(),
{
    if ls.len() == 0 {
        Seq::empty()
    } else if ls.len() == 1 {
        ls[0]
    } else {
        ls[0] + seq!['\n'] + joined(ls.drop_first())
    }
}

/// Where `n` characters other than `c` come first and `c` follows,
/// `first_index` is `n`.
pub proof fn lemma_first_index_at(s: Seq<char>, c: char, n: int)
    requires
        0 <= n <= s.len(),
        forall|k: int| 0 <= k < n ==> s[k] != c,
        n < s.len() ==> s[n] == c,
    ensures
        first_index(s, c) == n,
    decreases n,
{
    if n > 0 {
        let rest = s.drop_first();
        assert forall|k: int| 0 <= k < n - 1 implies rest[k] != c by {
            assert(rest[k] == s[k + 1]);
        }
        lemma_first_index_at(rest, c, n - 1);
    }
}

/// The first `c` of two texts in a row is the first `c` of the first text,
/// or else the first `c` of the second.
pub proof fn lemma_first_index_concat(a: Seq<char>, b: Seq<char>, c: char)
    ensures
        first_index(a + b, c) == if first_index(a, c) < a.len() {
            first_index(a, c)
        } else {
            a.len() + first_index(b, c)
        },
{
    lemma_first_index(a, c);
    lemma_first_index(b, c);
    let whole = a + b;
    let n: int = if first_index(a, c) < a.len() {
        first_index(a, c) as int
    } else {
        (a.len() + first_index(b, c)) as int
    };
    assert forall|k: int| 0 <= k < n implies whole[k] != c by {
        if k < a.len() {
            assert(whole[k] == a[k]);
        } else {
            assert(whole[k] == b[k - a.len()]);
        }
    }
    if n < whole.len() {
        if n < a.len() {
            assert(whole[n] == a[n]);
        } else {
            assert(whole[n] == b[n - a.len()]);
        }
    }
    lemma_first_index_at(whole, c, n);
}

/// The lines of a text, a line feed and another text are the lines of the
/// first text with the line feed, then the lines of the other.
pub proof fn lemma_lines_concat(a: Seq<char>, t: Seq<char>)
    ensures
        lines(a + seq!['\n'] + t) == lines(a + seq!['\n']) + lines(t),
    decreases a.len(),
{
    let feed = seq!['\n'];
    let whole = a + feed + t;
    let ended = a + feed;
    let i = first_index(a, '\n') as int;
    lemma_first_index(a, '\n');
    lemma_first_index_concat(a, feed, '\n');
    assert(whole == ended + t);
    lemma_first_index_concat(ended, t, '\n');
    assert(first_index(feed, '\n') == 0);
    if i < a.len() {
        assert(first_index(whole, '\n') == i);
        assert(first_index(ended, '\n') == i);
        assert(whole.take(i) == a.take(i));
        assert(ended.take(i) == a.take(i));
        assert(whole.skip(i + 1) == a.skip(i + 1) + feed + t);
        assert(ended.skip(i + 1) == a.skip(i + 1) + feed);
        lemma_lines_concat(a.skip(i + 1), t);
        assert(lines(whole) == seq![without_cr(a.take(i))] + lines(a.skip(i + 1) + feed + t));
        assert(lines(ended) == seq![without_cr(a.take(i))] + lines(a.skip(i + 1) + feed));
        assert(seq![without_cr(a.take(i))] + (lines(a.skip(i + 1) + feed) + lines(t)) == seq![
            without_cr(a.take(i)),
        ] + lines(a.skip(i + 1) + feed) + lines(t));
    } else {
        assert(first_index(whole, '\n') == a.len());
        assert(first_index(ended, '\n') == a.len());
        assert(whole.take(a.len() as int) == a);
        assert(ended.take(a.len() as int) == a);
        assert(whole.skip(a.len() as int + 1) == t);
        assert(ended.skip(a.len() as int + 1) == Seq::<char>::empty());
        assert(lines(ended.skip(a.len() as int + 1)) == Seq::<Seq<char>>::empty());
        assert(lines(ended) == seq![without_cr(a)] + Seq::<Seq<char>>::empty());
    }
}

/// A line feed after a text that ends in neither a line feed nor a carriage
/// return adds no line.
pub proof fn lemma_lines_final_feed(a: Seq<char>)
    requires
        a.len() > 0,
        a.last() != '\n',
        a.last() != '\r',
    ensures
        lines(a + seq!['\n']) == lines(a),
    decreases a.len(),
{
    let feed = seq!['\n'];
    let ended = a + feed;
    let i = first_index(a, '\n') as int;
    lemma_first_index(a, '\n');
    lemma_first_index_concat(a, feed, '\n');
    assert(first_index(feed, '\n') == 0);
    if i < a.len() {
        assert(i < a.len() - 1);
        assert(ended.take(i) == a.take(i));
        assert(ended.skip(i + 1) == a.skip(i + 1) + feed);
        assert(a.skip(i + 1).last() == a.last());
        lemma_lines_final_feed(a.skip(i + 1));
    } else {
        assert(ended.take(a.len() as int) == a);
        assert(ended.skip(a.len() as int + 1) == Seq::<char>::empty());
        assert(lines(ended.skip(a.len() as int + 1)) == Seq::<Seq<char>>::empty());
        assert(lines(ended) == seq![without_cr(a)] + Seq::<Seq<char>>::empty());
        assert(seq![a] + Seq::<Seq<char>>::empty() == seq![a]);
    }
}

/// A text without a line feed, followed by one, is one line.
pub proof fn lemma_lines_single(a: Seq<char>)
    requires
        forall|k: int| 0 <= k < a.len() ==> a[k] != '\n',
    ensures
        lines(a + seq!['\n']) == seq![without_cr(a)],
{
    let ended = a + seq!['\n'];
    assert forall|k: int| 0 <= k < a.len() implies ended[k] != '\n' by {
        assert(ended[k] == a[k]);
    }
    assert(ended[a.len() as int] == '\n');
    lemma_first_index_at(ended, '\n', a.len() as int);
    assert(ended.take(a.len() as int) == a);
    assert(ended.skip(a.len() as int + 1) == Seq::<char>::empty());
    assert(lines(ended.skip(a.len() as int + 1)) == Seq::<Seq<char>>::empty());
    assert(seq![without_cr(a)] + Seq::<Seq<char>>::empty() == seq![without_cr(a)]);
}

/// The lines of two lists in a row come out one list after the other.
pub proof fn lemma_terminated_concat(x: Seq<Seq<char>>, y: Seq<Seq<char>>)
    ensures
        terminated(x + y) == terminated(x) + terminated(y),
    decreases x.len(),
{
    if x.len() == 0 {
        assert(x + y == y);
        assert(Seq::<char>::empty() + terminated(y) == terminated(y));
    } else {
        assert((x + y).drop_first() == x.drop_first() + y);
        assert((x + y)[0] == x[0]);
        lemma_terminated_concat(x.drop_first(), y);
        assert(x[0] + seq!['\n'] + (terminated(x.drop_first()) + terminated(y)) == x[0] + seq![
            '\n',
        ] + terminated(x.drop_first()) + terminated(y));
    }
}

/// A text that is not empty has a line.
pub proof fn lemma_lines_nonempty(s: Seq<char>)
    requires
        s.len() > 0,
    ensures
        lines(s).len() > 0,
{
}

/// A text without a line feed that is not empty is one line, as it is.
pub proof fn lemma_lines_unterminated(s: Seq<char>)
    requires
        s.len() > 0,
        forall|k: int| 0 <= k < s.len() ==> s[k] != '\n',
    ensures
        lines(s) == seq![s],
{
    lemma_first_index_at(s, '\n', s.len() as int);
}

/// Whether `s` is written on one line: it holds no line feed.
pub open spec fn single_line(s: Seq<char>) -> bool {
    forall|k: int| 0 <= k < s.len() ==> s[k] != '\n'
}

/// Whether `s` ends in a carriage return.
pub open spec fn ends_in_return(s: Seq<char>) -> bool {
    s.len() > 0 && s.last() == '\r'
}

/// Whether `s` is a line that reading it again gives back as it is: it
/// holds no line feed and does not end in a carriage return.
pub open spec fn whole_line(s: Seq<char>) -> bool {
    single_line(s) && !ends_in_return(s)
}

/// Whether no line of `s`, as `lines` gives them, ends in a carriage
/// return. A file with a carriage return before every line feed is such a
/// text; one with two carriage returns before a line feed is not.
pub open spec fn no_line_ends_in_return(s: Seq<char>) -> bool {
    forall|i: int| 0 <= i < lines(s).len() ==> !ends_in_return(#[trigger] lines(s)[i])
}

/// Whether reading the lines of `s` keeps every carriage return: none
/// stands before a line feed or at the end.
pub open spec fn returns_kept(s: Seq<char>) -> bool {
    forall|k: int|
        0 <= k < s.len() && #[trigger] s[k] == '\r' ==> k + 1 < s.len() && s[k + 1] != '\n'
}

/// What follows a position in a text that keeps its carriage returns keeps
/// them as well.
pub proof fn lemma_returns_kept_skip(s: Seq<char>, n: int)
    requires
        returns_kept(s),
        0 <= n <= s.len(),
    ensures
        returns_kept(s.skip(n)),
{
    let rest = s.skip(n);
    assert forall|k: int| 0 <= k < rest.len() && #[trigger] rest[k] == '\r' implies k + 1
        < rest.len() && rest[k + 1] != '\n' by {
        assert(rest[k] == s[k + n]);
        assert(s[k + n + 1] == rest[k + 1]);
    }
}

/// Joining the lines of a text that ends with one more line feed gives the
/// text back, where reading the lines keeps every carriage return.
pub proof fn lemma_joined_lines(s: Seq<char>)
    requires
        returns_kept(s),
    ensures
        joined(lines(s + seq!['\n'])) == s,
    decreases s.len(),
{
    let feed = seq!['\n'];
    let ended = s + feed;
    let i = first_index(s, '\n') as int;
    lemma_first_index(s, '\n');
    lemma_first_index_concat(s, feed, '\n');
    assert(first_index(feed, '\n') == 0);
    if i < s.len() {
        let rest = s.skip(i + 1);
        assert(ended.take(i) == s.take(i));
        assert(ended.skip(i + 1) == rest + feed);
        lemma_returns_kept_skip(s, i + 1);
        lemma_joined_lines(rest);
        let first = s.take(i);
        assert(without_cr(first) == first) by {
            if first.len() > 0 {
                assert(first.last() == s[i - 1]);
                assert(s[i] == '\n');
            }
        }
        let more = lines(rest + feed);
        lemma_lines_nonempty(rest + feed);
        assert(lines(ended) == seq![first] + more);
        assert((seq![first] + more).drop_first() == more);
        assert((seq![first] + more)[0] == first);
        assert(joined(seq![first] + more) == first + feed + joined(more));
        assert(first + feed + rest =~= s);
    } else {
        lemma_lines_single(s);
        assert(without_cr(s) == s) by {
            if s.len() > 0 {
                assert(s.last() == s[s.len() - 1]);
            }
        }
    }
}

/// The lines of what `terminated` makes of whole lines are those lines.
pub proof fn lemma_lines_terminated(ls: Seq<Seq<char>>)
    requires
        forall|i: int| 0 <= i < ls.len() ==> whole_line(#[trigger] ls[i]),
    ensures
        lines(terminated(ls)) == ls,
    decreases ls.len(),
{
    if ls.len() == 0 {
        assert(lines(terminated(ls)) =~= ls);
    } else {
        let rest = ls.drop_first();
        assert forall|i: int| 0 <= i < rest.len() implies whole_line(#[trigger] rest[i]) by {
            assert(rest[i] == ls[i + 1]);
        }
        lemma_lines_terminated(rest);
        assert(whole_line(ls[0]));
        lemma_lines_concat(ls[0], terminated(rest));
        lemma_lines_single(ls[0]);
        assert(without_cr(ls[0]) == ls[0]);
        assert(seq![ls[0]] + rest =~= ls);
    }
}

/// Whole lines that are joined keep every carriage return when the lines of
/// the joined text are read.
pub proof fn lemma_joined_keeps_returns(ls: Seq<Seq<char>>)
    requires
        forall|i: int| 0 <= i < ls.len() ==> whole_line(#[trigger] ls[i]),
    ensures
        returns_kept(joined(ls)),
    decreases ls.len(),
{
    if ls.len() == 0 {
    } else {
        let first = ls[0];
        assert(whole_line(first));
        if ls.len() == 1 {
            assert forall|k: int| 0 <= k < first.len() && #[trigger] first[k] == '\r' implies k
                + 1 < first.len() && first[k + 1] != '\n' by {
                assert(first.last() == first[first.len() - 1]);
            }
        } else {
            let rest = ls.drop_first();
            assert forall|i: int| 0 <= i < rest.len() implies whole_line(#[trigger] rest[i]) by {
                assert(rest[i] == ls[i + 1]);
            }
            lemma_joined_keeps_returns(rest);
            let tail = joined(rest);
            let whole = joined(ls);
            let shift = first.len() + 1;
            assert(whole == first + seq!['\n'] + tail);
            assert forall|k: int| 0 <= k < whole.len() && #[trigger] whole[k] == '\r' implies k
                + 1 < whole.len() && whole[k + 1] != '\n' by {
                if k < first.len() {
                    assert(whole[k] == first[k]);
                    assert(first.last() == first[first.len() - 1]);
                    assert(k + 1 < first.len());
                    assert(whole[k + 1] == first[k + 1]);
                } else if k == first.len() {
                    assert(whole[k] == '\n');
                } else {
                    assert(whole[k] == tail[k - shift]);
                    assert(tail[k - shift + 1] == whole[k + 1]);
                }
            }
        }
    }
}

/// A line feed after a text that ends in a carriage return ends the text's
/// last line, which loses that carriage return.
pub proof fn lemma_lines_feed_after_return(s: Seq<char>)
    requires
        ends_in_return(s),
    ensures
        lines(s).len() > 0,
        ends_in_return(lines(s).last()),
        lines(s + seq!['\n']) == lines(s).drop_last().push(lines(s).last().drop_last()),
    decreases s.len(),
{
    let feed = seq!['\n'];
    let ended = s + feed;
    let i = first_index(s, '\n') as int;
    lemma_first_index(s, '\n');
    lemma_first_index_concat(s, feed, '\n');
    assert(first_index(feed, '\n') == 0);
    if i < s.len() {
        assert(s[s.len() - 1] == '\r');
        assert(i < s.len() - 1);
        let rest = s.skip(i + 1);
        assert(rest.last() == s.last());
        assert(ended.take(i) == s.take(i));
        assert(ended.skip(i + 1) == rest + feed);
        lemma_lines_feed_after_return(rest);
        let first = without_cr(s.take(i));
        let more = lines(rest);
        assert(lines(s) == seq![first] + more);
        assert(lines(ended) == seq![first] + more.drop_last().push(more.last().drop_last()));
        assert((seq![first] + more).drop_last() == seq![first] + more.drop_last());
        assert((seq![first] + more).last() == more.last());
        assert(seq![first] + more.drop_last().push(more.last().drop_last()) == (seq![first]
            + more.drop_last()).push(more.last().drop_last()));
    } else {
        assert(lines(s) == seq![s]);
        lemma_lines_single(s);
        assert(without_cr(s) == s.drop_last());
        assert(seq![s].drop_last().push(s.drop_last()) =~= seq![s.drop_last()]);
    }
}

/// Lines that are joined and then ended with a line feed are the lines
/// that `terminated` makes, where there is a line at all.
pub proof fn lemma_joined_terminated(ls: Seq<Seq<char>>)
    requires
        ls.len() > 0,
    ensures
        joined(ls) + seq!['\n'] == terminated(ls),
    decreases ls.len(),
{
    let feed = seq!['\n'];
    if ls.len() == 1 {
        assert(ls.drop_first().len() == 0);
        assert(terminated(ls.drop_first()) == Seq::<char>::empty());
        assert(ls[0] + feed + Seq::<char>::empty() == ls[0] + feed);
    } else {
        lemma_joined_terminated(ls.drop_first());
        assert(ls[0] + feed + joined(ls.drop_first()) + feed == ls[0] + feed + (joined(
            ls.drop_first(),
        ) + feed));
    }
}

/// No line holds a line feed.
pub proof fn lemma_lines_hold_no_feed(s: Seq<char>, i: int, k: int)
    requires
        0 <= i < lines(s).len(),
        0 <= k < lines(s)[i].len(),
    ensures
        lines(s)[i][k] != '\n',
    decreases s.len(),
{
    let n = first_index(s, '\n') as int;
    lemma_first_index(s, '\n');
    if n >= s.len() {
        assert(lines(s) == seq![s]);
    } else {
        let first = without_cr(s.take(n));
        let more = lines(s.skip(n + 1));
        assert(lines(s) == seq![first] + more);
        if i == 0 {
            assert(lines(s)[0] == first);
            assert(first[k] == s[k]);
        } else {
            assert(lines(s)[i] == more[i - 1]);
            lemma_lines_hold_no_feed(s.skip(n + 1), i - 1, k);
        }
    }
}

/// A character other than a line feed, put after a text that does not end
/// with a line feed, goes to the end of the text's last line.
pub proof fn lemma_lines_extend_last(s: Seq<char>, c: char)
    requires
        s.len() > 0,
        s.last() != '\n',
        c != '\n',
    ensures
        lines(s).len() > 0,
        lines(s.push(c)) == lines(s).drop_last().push(lines(s).last().push(c)),
    decreases s.len(),
{
    let longer = s.push(c);
    let i = first_index(s, '\n') as int;
    lemma_first_index(s, '\n');
    assert(longer == s + seq![c]);
    lemma_first_index_concat(s, seq![c], '\n');
    assert(first_index(seq![c], '\n') == 1) by {
        assert(seq![c].drop_first().len() == 0);
        assert(first_index(seq![c].drop_first(), '\n') == 0);
    }
    if i < s.len() {
        assert(i < s.len() - 1);
        let rest = s.skip(i + 1);
        assert(rest.last() == s.last());
        assert(longer.take(i) == s.take(i));
        assert(longer.skip(i + 1) == rest.push(c));
        lemma_lines_extend_last(rest, c);
        let first = without_cr(s.take(i));
        let more = lines(rest);
        assert(lines(s) == seq![first] + more);
        assert(lines(longer) == seq![first] + more.drop_last().push(more.last().push(c)));
        assert((seq![first] + more).drop_last() == seq![first] + more.drop_last());
        assert((seq![first] + more).last() == more.last());
        assert(seq![first] + more.drop_last().push(more.last().push(c)) == (seq![first]
            + more.drop_last()).push(more.last().push(c)));
    } else {
        assert(first_index(longer, '\n') == longer.len());
        assert(lines(s) == seq![s]);
        assert(lines(longer) == seq![longer]);
        assert(seq![s].drop_last().push(s.push(c)) =~= seq![longer]);
    }
}

} // verus!
