//! Prefixes, substrings, ASCII case folding and the order of texts.

use vstd::prelude::*;
use crate::text::chars::slice_of;

verus! {

/// Whether `s` begins with `prefix`.
pub open spec fn starts_with(s: Seq<char>, prefix: Seq<char>) -> bool {
    prefix.len() <= s.len() && s.take(prefix.len() as int) == prefix
}

/// Whether `v[from..]` begins with `prefix`.
pub(crate) fn begins_at(v: &Vec<char>, from: usize, prefix: &Vec<char>) -> (r: bool)
    requires
        from <= v.len(),
    ensures
        r == starts_with(v@.skip(from as int), prefix@),
{
    if prefix.len() > v.len() - from {
        return false;
    }
    let ghost rest = v@.skip(from as int);
    let mut i: usize = 0;
    while i < prefix.len()
        invariant
            i <= prefix.len(),
            from + prefix.len() <= v.len(),
            rest == v@.skip(from as int),
            forall|k: int| 0 <= k < i ==> rest[k] == prefix@[k],
        decreases prefix.len() - i,
    {
        if v[from + i] != prefix[i] {
            assert(rest.take(prefix.len() as int)[i as int] != prefix@[i as int]);
            return false;
        }
        i += 1;
    }
    assert(rest.take(prefix.len() as int) =~= prefix@);
    true
}

/// Whether `v` begins with `prefix`.
pub fn begins_with(v: &Vec<char>, prefix: &Vec<char>) -> (r: bool)
    ensures
        r == starts_with(v@, prefix@),
{
    assert(v@.skip(0) == v@);
    begins_at(v, 0, prefix)
}

/// Whether `needle` occurs in `s` as a run of consecutive characters. The
/// empty text occurs in every text.
pub open spec fn contains(s: Seq<char>, needle: Seq<char>) -> bool {
    exists|i: int| 0 <= i <= s.len() && #[trigger] starts_with(s.skip(i), needle)
}

/// Whether `needle` occurs in `v`.
pub fn has_substring(v: &Vec<char>, needle: &Vec<char>) -> (r: bool)
    ensures
        r == contains(v@, needle@),
{
    let mut i: usize = 0;
    while i < v.len()
        invariant
            i <= v.len(),
            forall|k: int| 0 <= k < i ==> !starts_with(#[trigger] v@.skip(k), needle@),
        decreases v.len() - i,
    {
        if begins_at(v, i, needle) {
            assert(starts_with(v@.skip(i as int), needle@));
            return true;
        }
        i += 1;
    }
    let r = begins_at(v, i, needle);
    assert(r ==> starts_with(v@.skip(i as int), needle@));
    r
}

/// `s` without `prefix` at its start, where it begins with it; `s` itself
/// where it does not.
pub open spec fn without_prefix(s: Seq<char>, prefix: Seq<char>) -> Seq<char> {
    if starts_with(s, prefix) {
        s.skip(prefix.len() as int)
    } else {
        s
    }
}

/// `v` without `prefix` at its start, where it begins with it.
pub fn strip_prefix_chars(v: &Vec<char>, prefix: &Vec<char>) -> (r: Vec<char>)
    ensures
        r@ == without_prefix(v@, prefix@),
{
    let from: usize = if begins_with(v, prefix) {
        prefix.len()
    } else {
        0
    };
    let r = slice_of(v, from, v.len());
    assert(v@.subrange(from as int, v.len() as int) == v@.skip(from as int));
    assert(v@.skip(0) == v@);
    r
}

/// `s` without the characters `c` at its start.
pub open spec fn trim_start_char(s: Seq<char>, c: char) -> Seq<char>
    decreases s.len(),
{
    if s.len() > 0 && s[0] == c {
        trim_start_char(s.drop_first(), c)
    } else {
        s
    }
}

/// `s` without the characters `c` at its end.
pub open spec fn trim_end_char(s: Seq<char>, c: char) -> Seq<char>
    decreases s.len(),
{
    if s.len() > 0 && s.last() == c {
        trim_end_char(s.drop_last(), c)
    } else {
        s
    }
}

/// `s` without the characters `c` at either end.
pub open spec fn trim_char(s: Seq<char>, c: char) -> Seq<char> {
    trim_end_char(trim_start_char(s, c), c)
}

/// `v` without the characters `c` at either end.
pub fn trim_char_chars(v: &Vec<char>, c: char) -> (r: Vec<char>)
    ensures
        r@ == trim_char(v@, c),
{
    let mut start: usize = 0;
    assert(v@.skip(0) == v@);
    while start < v.len() && v[start] == c
        invariant
            start <= v.len(),
            trim_start_char(v@.skip(start as int), c) == trim_start_char(v@, c),
        decreases v.len() - start,
    {
        assert(v@.skip(start as int).drop_first() == v@.skip(start + 1));
        start += 1;
    }
    let mut end: usize = v.len();
    assert(v@.subrange(start as int, end as int) == v@.skip(start as int));
    while end > start && v[end - 1] == c
        invariant
            start <= end <= v.len(),
            trim_end_char(v@.subrange(start as int, end as int), c) == trim_char(v@, c),
        decreases end,
    {
        assert(v@.subrange(start as int, end as int).drop_last() == v@.subrange(
            start as int,
            end - 1,
        ));
        end -= 1;
    }
    slice_of(v, start, end)
}

/// The lower-case form of an ASCII capital letter; every other character
/// unchanged.
pub open spec fn lower(c: char) -> char {
    if 'A' <= c && c <= 'Z' {
        ((c as u8) + 32) as char
    } else {
        c
    }
}

/// `s` with its ASCII capital letters in lower case.
pub open spec fn folded(s: Seq<char>) -> Seq<char> {
    Seq::new(s.len(), |i: int| lower(s[i]))
}

/// The lower-case form of `c` as far as ASCII goes.
pub fn to_lower(c: char) -> (r: char)
    ensures
        r == lower(c),
{
    if c >= 'A' && c <= 'Z' {
        let b: u8 = c as u8;
        (b + 32) as char
    } else {
        c
    }
}

/// `v` with its ASCII capital letters in lower case.
pub fn fold_chars(v: &Vec<char>) -> (r: Vec<char>)
    ensures
        r@ == folded(v@),
{
    let mut r: Vec<char> = Vec::new();
    let mut i: usize = 0;
    while i < v.len()
        invariant
            i <= v.len(),
            r.len() == i,
            forall|k: int| 0 <= k < i ==> r@[k] == lower(v@[k]),
        decreases v.len() - i,
    {
        r.push(to_lower(v[i]));
        i += 1;
    }
    assert(r@ =~= folded(v@));
    r
}

/// Whether `a` comes before `b` in the order of dictionaries, characters
/// compared by their code points.
pub open spec fn precedes(a: Seq<char>, b: Seq<char>) -> bool
    decreases a.len(),
{
    if b.len() == 0 {
        false
    } else if a.len() == 0 {
        true
    } else if a[0] != b[0] {
        (a[0] as u32) < (b[0] as u32)
    } else {
        precedes(a.drop_first(), b.drop_first())
    }
}

/// No text comes before itself.
pub proof fn lemma_precedes_irreflexive(a: Seq<char>)
    ensures
        !precedes(a, a),
    decreases a.len(),
{
    if a.len() > 0 {
        lemma_precedes_irreflexive(a.drop_first());
    }
}

/// The order of dictionaries is transitive.
pub proof fn lemma_precedes_transitive(a: Seq<char>, b: Seq<char>, c: Seq<char>)
    requires
        precedes(a, b),
        precedes(b, c),
    ensures
        precedes(a, c),
    decreases a.len(),
{
    if a.len() > 0 && b.len() > 0 && c.len() > 0 && a[0] == b[0] && b[0] == c[0] {
        lemma_precedes_transitive(a.drop_first(), b.drop_first(), c.drop_first());
    }
}

/// Whether `a` comes before `b` in the order of dictionaries.
pub fn comes_before(a: &Vec<char>, b: &Vec<char>) -> (r: bool)
    ensures
        r == precedes(a@, b@),
{
    let mut i: usize = 0;
    assert(a@.skip(0) == a@);
    assert(b@.skip(0) == b@);
    while i < a.len() && i < b.len() && a[i] == b[i]
        invariant
            i <= a.len(),
            i <= b.len(),
            precedes(a@.skip(i as int), b@.skip(i as int)) == precedes(a@, b@),
        decreases a.len() - i,
    {
        assert(a@.skip(i as int).drop_first() == a@.skip(i + 1));
        assert(b@.skip(i as int).drop_first() == b@.skip(i + 1));
        i += 1;
    }
    if i == b.len() {
        false
    } else if i == a.len() {
        true
    } else {
        (a[i] as u32) < (b[i] as u32)
    }
}

} // verus!
