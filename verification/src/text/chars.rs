//! Conversions between strings and character vectors, white space and
//! trimming.

use vstd::prelude::*;

verus! {

/// The characters of `s`, in order.
pub fn chars_of(s: &str) -> (v: Vec<char>)
    ensures
        v@ == s@,
{
    let mut v: Vec<char> = Vec::new();
    for c in it: s.chars()
        invariant
            v@ == it.seq().take(it.index()),
            it.seq() == s@,
    {
        v.push(c);
        assert(it.seq().take(it.index() + 1) == it.seq().take(it.index()).push(c));
    }
    assert(s@.take(s@.len() as int) == s@);
    v
}

/// Appends the characters of `tail` to `v`.
pub fn push_chars(v: &mut Vec<char>, tail: &Vec<char>)
    ensures
        final(v)@ == old(v)@ + tail@,
{
    let mut i: usize = 0;
    while i < tail.len()
        invariant
            i <= tail.len(),
            v@ == old(v)@ + tail@.take(i as int),
        decreases tail.len() - i,
    {
        v.push(tail[i]);
        i += 1;
        assert(tail@.take(i as int) == tail@.take(i - 1).push(tail@[i - 1]));
    }
    assert(tail@.take(tail.len() as int) == tail@);
}

/// Appends the characters of the string `tail` to `v`.
pub fn push_str(v: &mut Vec<char>, tail: &str)
    ensures
        final(v)@ == old(v)@ + tail@,
{
    let t = chars_of(tail);
    push_chars(v, &t);
}

/// The string that holds exactly the characters of `v`.
pub fn string_of(v: &Vec<char>) -> (s: String)
    ensures
        s@ == v@,
{
    let mut s = String::new();
    let mut i: usize = 0;
    while i < v.len()
        invariant
            i <= v.len(),
            s@ == v@.take(i as int),
        decreases v.len() - i,
    {
        s.push(v[i]);
        i += 1;
        assert(v@.take(i as int) == v@.take(i - 1).push(v@[i - 1]));
    }
    assert(v@.take(v.len() as int) == v@);
    s
}

/// A fresh string with the characters of `s`.
pub fn owned(s: &str) -> (r: String)
    ensures
        r@ == s@,
{
    let v = chars_of(s);
    string_of(&v)
}

/// The characters `v[from..to]`.
pub(crate) fn slice_of(v: &Vec<char>, from: usize, to: usize) -> (r: Vec<char>)
    requires
        from <= to <= v.len(),
    ensures
        r@ == v@.subrange(from as int, to as int),
{
    let mut r: Vec<char> = Vec::new();
    let mut i: usize = from;
    while i < to
        invariant
            from <= i <= to <= v.len(),
            r@ == v@.subrange(from as int, i as int),
        decreases to - i,
    {
        r.push(v[i]);
        i += 1;
        assert(v@.subrange(from as int, i as int) == v@.subrange(from as int, i - 1).push(
            v@[i - 1],
        ));
    }
    r
}

/// Whether two character vectors hold the same text.
pub fn same_chars(a: &Vec<char>, b: &Vec<char>) -> (r: bool)
    ensures
        r == (a@ == b@),
{
    if a.len() != b.len() {
        return false;
    }
    let mut i: usize = 0;
    while i < a.len()
        invariant
            i <= a.len(),
            a.len() == b.len(),
            forall|k: int| 0 <= k < i ==> a@[k] == b@[k],
        decreases a.len() - i,
    {
        if a[i] != b[i] {
            assert(a@[i as int] != b@[i as int]);
            return false;
        }
        i += 1;
    }
    assert(a@ =~= b@);
    true
}

/// Whether two strings hold the same text.
pub fn same_text(a: &str, b: &str) -> (r: bool)
    ensures
        r == (a@ == b@),
{
    let x = chars_of(a);
    let y = chars_of(b);
    same_chars(&x, &y)
}

/// The characters with the Unicode property `White_Space`.
pub open spec fn is_space(c: char) -> bool {
    let n = c as u32;
    ||| 0x09 <= n <= 0x0D
    ||| n == 0x20
    ||| n == 0x85
    ||| n == 0xA0
    ||| n == 0x1680
    ||| 0x2000 <= n <= 0x200A
    ||| n == 0x2028
    ||| n == 0x2029
    ||| n == 0x202F
    ||| n == 0x205F
    ||| n == 0x3000
}

/// Whether `c` is white space.
pub fn is_whitespace(c: char) -> (r: bool)
    ensures
        r == is_space(c),
{
    let n: u32 = c as u32;
    (0x09 <= n && n <= 0x0D) || n == 0x20 || n == 0x85 || n == 0xA0 || n == 0x1680 || (0x2000 <= n
        && n <= 0x200A) || n == 0x2028 || n == 0x2029 || n == 0x202F || n == 0x205F || n == 0x3000
}

/// `s` without its trailing white space.
pub open spec fn trim_end(s: Seq<char>) -> Seq<char>
    decreases s.len(),
{
    if s.len() > 0 && is_space(s.last()) {
        trim_end(s.drop_last())
    } else {
        s
    }
}

/// `s` without its leading white space.
pub open spec fn trim_start(s: Seq<char>) -> Seq<char>
    decreases s.len(),
{
    if s.len() > 0 && is_space(s[0]) {
        trim_start(s.drop_first())
    } else {
        s
    }
}

/// `s` without white space at either end.
pub open spec fn trim(s: Seq<char>) -> Seq<char> {
    trim_end(trim_start(s))
}

/// Whether every character of `s` is white space.
pub open spec fn is_blank(s: Seq<char>) -> bool {
    forall|i: int| 0 <= i < s.len() ==> is_space(#[trigger] s[i])
}

/// `v` without its trailing white space.
pub fn trim_end_chars(v: &Vec<char>) -> (r: Vec<char>)
    ensures
        r@ == trim_end(v@),
{
    let mut end: usize = v.len();
    assert(v@.take(end as int) == v@);
    while end > 0 && is_whitespace(v[end - 1])
        invariant
            end <= v.len(),
            trim_end(v@.take(end as int)) == trim_end(v@),
        decreases end,
    {
        assert(v@.take(end as int).drop_last() == v@.take(end - 1));
        end -= 1;
    }
    slice_of(v, 0, end)
}

/// `v` without white space at either end.
pub fn trim_chars(v: &Vec<char>) -> (r: Vec<char>)
    ensures
        r@ == trim(v@),
{
    let mut start: usize = 0;
    assert(v@.skip(0) == v@);
    while start < v.len() && is_whitespace(v[start])
        invariant
            start <= v.len(),
            trim_start(v@.skip(start as int)) == trim_start(v@),
        decreases v.len() - start,
    {
        assert(v@.skip(start as int).drop_first() == v@.skip(start + 1));
        start += 1;
    }
    let mut end: usize = v.len();
    assert(v@.subrange(start as int, end as int) == v@.skip(start as int));
    while end > start && is_whitespace(v[end - 1])
        invariant
            start <= end <= v.len(),
            trim_end(v@.subrange(start as int, end as int)) == trim(v@),
        decreases end,
    {
        assert(v@.subrange(start as int, end as int).drop_last() == v@.subrange(
            start as int,
            end - 1,
        ));
        end -= 1;
    }
    slice_of(v, start, end)
}

/// Trimming the back leaves a beginning of the text, which ends in no white
/// space.
pub proof fn lemma_trim_end(s: Seq<char>)
    ensures
        trim_end(s).len() <= s.len(),
        trim_end(s) == s.take(trim_end(s).len() as int),
        trim_end(s).len() > 0 ==> !is_space(trim_end(s).last()),
        is_blank(s.skip(trim_end(s).len() as int)),
    decreases s.len(),
{
    if s.len() > 0 && is_space(s.last()) {
        let front = s.drop_last();
        lemma_trim_end(front);
        let n = trim_end(front).len() as int;
        assert(front.take(n) == s.take(n));
        assert forall|i: int| 0 <= i < s.skip(n).len() implies is_space(#[trigger] s.skip(n)[i]) by {
            if i < front.skip(n).len() {
                assert(front.skip(n)[i] == s.skip(n)[i]);
            }
        }
    } else {
        assert(s.take(s.len() as int) == s);
    }
}

/// Trimming the back of a text that begins with a visible character leaves
/// that character in place.
pub proof fn lemma_trim_end_keeps_head(s: Seq<char>)
    requires
        s.len() > 0,
        !is_space(s[0]),
    ensures
        trim_end(s).len() > 0,
        trim_end(s)[0] == s[0],
    decreases s.len(),
{
    if is_space(s.last()) {
        assert(s.len() > 1);
        lemma_trim_end_keeps_head(s.drop_last());
    }
}

/// Trimming the back keeps everything up to a visible character.
pub proof fn lemma_trim_end_keeps_prefix(s: Seq<char>, n: int)
    requires
        0 < n <= s.len(),
        !is_space(s[n - 1]),
    ensures
        trim_end(s).len() >= n,
        trim_end(s).take(n) == s.take(n),
    decreases s.len(),
{
    if s.len() > n && is_space(s.last()) {
        lemma_trim_end_keeps_prefix(s.drop_last(), n);
        assert(s.drop_last().take(n) == s.take(n));
    } else if s.len() == n {
    } else {
    }
}

/// Trimming the back twice is trimming it once.
pub proof fn lemma_trim_end_twice(s: Seq<char>)
    ensures
        trim_end(trim_end(s)) == trim_end(s),
{
    lemma_trim_end(s);
}

/// A text that trimming the back leaves as it is ends in no white space.
pub proof fn lemma_trimmed_end(s: Seq<char>)
    requires
        trim_end(s) == s,
        s.len() > 0,
    ensures
        !is_space(s.last()),
{
    lemma_trim_end(s);
}

/// White space after a text is cut off with the white space at the text's
/// own end.
pub proof fn lemma_trim_end_blank_tail(s: Seq<char>, tail: Seq<char>)
    requires
        is_blank(tail),
    ensures
        trim_end(s + tail) == trim_end(s),
    decreases tail.len(),
{
    if tail.len() == 0 {
        assert(s + tail == s);
    } else {
        let whole = s + tail;
        assert(whole.last() == tail.last());
        assert(whole.drop_last() == s + tail.drop_last());
        assert forall|i: int| 0 <= i < tail.drop_last().len() implies is_space(
            #[trigger] tail.drop_last()[i],
        ) by {
            assert(tail.drop_last()[i] == tail[i]);
        }
        lemma_trim_end_blank_tail(s, tail.drop_last());
    }
}

/// Nothing is left of a text after trimming its back exactly where all of
/// it is white space.
pub proof fn lemma_trim_end_empty(s: Seq<char>)
    ensures
        trim_end(s).len() == 0 <==> is_blank(s),
    decreases s.len(),
{
    if s.len() > 0 {
        lemma_trim_end_empty(s.drop_last());
        if is_space(s.last()) {
            if is_blank(s.drop_last()) {
                assert forall|i: int| 0 <= i < s.len() implies is_space(#[trigger] s[i]) by {
                    if i < s.len() - 1 {
                        assert(s.drop_last()[i] == s[i]);
                    }
                }
            }
            if is_blank(s) {
                assert forall|i: int| 0 <= i < s.drop_last().len() implies is_space(
                    #[trigger] s.drop_last()[i],
                ) by {
                    assert(s.drop_last()[i] == s[i]);
                }
            }
        } else {
            assert(!is_space(s[s.len() - 1]));
        }
    }
}

/// Trimming the front leaves an end of the text, which begins with no
/// white space.
pub proof fn lemma_trim_start(s: Seq<char>)
    ensures
        trim_start(s).len() <= s.len(),
        trim_start(s) == s.skip(s.len() - trim_start(s).len()),
        trim_start(s).len() > 0 ==> !is_space(trim_start(s)[0]),
        is_blank(s.take(s.len() - trim_start(s).len())),
        trim_start(trim_start(s)) == trim_start(s),
    decreases s.len(),
{
    if s.len() > 0 && is_space(s[0]) {
        let rest = s.drop_first();
        lemma_trim_start(rest);
        let n = s.len() - trim_start(s).len();
        assert(rest.skip(n - 1) == s.skip(n));
        assert forall|i: int| 0 <= i < n implies is_space(#[trigger] s.take(n)[i]) by {
            if i > 0 {
                assert(rest.take(n - 1)[i - 1] == s.take(n)[i]);
            }
        }
    } else {
        assert(s.skip(0) == s);
    }
}

/// Nothing is left of a text after trimming its front exactly where all of
/// it is white space.
pub proof fn lemma_trim_start_empty(s: Seq<char>)
    ensures
        trim_start(s).len() == 0 <==> is_blank(s),
    decreases s.len(),
{
    if s.len() > 0 {
        let rest = s.drop_first();
        lemma_trim_start_empty(rest);
        if is_space(s[0]) {
            if is_blank(rest) {
                assert forall|i: int| 0 <= i < s.len() implies is_space(#[trigger] s[i]) by {
                    if i > 0 {
                        assert(rest[i - 1] == s[i]);
                    }
                }
            }
            if is_blank(s) {
                assert forall|i: int| 0 <= i < rest.len() implies is_space(#[trigger] rest[i]) by {
                    assert(rest[i] == s[i + 1]);
                }
            }
        } else {
            assert(!is_space(s[0]));
        }
    }
}

/// White space before a text is cut off with the white space at the text's
/// own front.
pub proof fn lemma_trim_start_blank_head(head: Seq<char>, s: Seq<char>)
    requires
        is_blank(head),
    ensures
        trim_start(head + s) == trim_start(s),
    decreases head.len(),
{
    if head.len() == 0 {
        assert(head + s == s);
    } else {
        let whole = head + s;
        assert(whole[0] == head[0]);
        assert(whole.drop_first() == head.drop_first() + s);
        assert forall|i: int| 0 <= i < head.drop_first().len() implies is_space(
            #[trigger] head.drop_first()[i],
        ) by {
            assert(head.drop_first()[i] == head[i + 1]);
        }
        lemma_trim_start_blank_head(head.drop_first(), s);
    }
}

/// Trimming the front of a text that is not all white space leaves what
/// follows the text untouched.
pub proof fn lemma_trim_start_visible(s: Seq<char>, tail: Seq<char>)
    requires
        !is_blank(s),
    ensures
        trim_start(s + tail) == trim_start(s) + tail,
    decreases s.len(),
{
    let whole = s + tail;
    assert(s.len() > 0);
    assert(whole[0] == s[0]);
    if is_space(s[0]) {
        let rest = s.drop_first();
        assert(whole.drop_first() == rest + tail);
        if is_blank(rest) {
            assert forall|i: int| 0 <= i < s.len() implies is_space(#[trigger] s[i]) by {
                if i > 0 {
                    assert(rest[i - 1] == s[i]);
                }
            }
        }
        lemma_trim_start_visible(rest, tail);
    }
}

/// Trimming the back of a text that is not all white space leaves what
/// stands before the text untouched.
pub proof fn lemma_trim_end_visible(head: Seq<char>, s: Seq<char>)
    requires
        !is_blank(s),
    ensures
        trim_end(head + s) == head + trim_end(s),
    decreases s.len(),
{
    let whole = head + s;
    assert(s.len() > 0);
    assert(whole.last() == s.last());
    if is_space(s.last()) {
        let front = s.drop_last();
        assert(whole.drop_last() == head + front);
        if is_blank(front) {
            assert forall|i: int| 0 <= i < s.len() implies is_space(#[trigger] s[i]) by {
                if i < s.len() - 1 {
                    assert(front[i] == s[i]);
                }
            }
        }
        lemma_trim_end_visible(head, front);
    }
}

/// White space at the end of a text does not show after trimming.
pub proof fn lemma_trim_push_space(s: Seq<char>, c: char)
    requires
        is_space(c),
    ensures
        trim(s.push(c)) == trim(s),
{
    let tail = seq![c];
    assert(s.push(c) == s + tail);
    if is_blank(s) {
        assert(is_blank(s + tail)) by {
            assert forall|i: int| 0 <= i < (s + tail).len() implies is_space(
                #[trigger] (s + tail)[i],
            ) by {
                if i < s.len() {
                    assert((s + tail)[i] == s[i]);
                }
            }
        }
        lemma_trim_start_empty(s);
        lemma_trim_start_empty(s + tail);
        assert(trim_start(s) =~= trim_start(s + tail));
    } else {
        lemma_trim_start_visible(s, tail);
        assert(trim_start(s) + tail == trim_start(s).push(c));
        assert(trim_start(s).push(c).drop_last() == trim_start(s));
    }
}

} // verus!
