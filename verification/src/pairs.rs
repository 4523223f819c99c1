//! Lists of named values, kept in order: the model of a JSON object's
//! members and of environment variables.

use vstd::prelude::*;
use crate::seqs::{lemma_views_push, views};
use crate::text::chars::same_text;

verus! {

/// The entries whose name is not `key`, in their order.
pub open spec fn without_key<V>(list: Seq<(Seq<char>, V)>, key: Seq<char>) -> Seq<
    (Seq<char>, V),
>
    decreases list.len(),
{
    if list.len() == 0 {
        list
    } else {
        let front = without_key(list.drop_last(), key);
        if list.last().0 == key {
            front
        } else {
            front.push(list.last())
        }
    }
}

/// The entries with `key` set to `value`: every entry that had the name is
/// gone, and the new entry comes last.
pub open spec fn with_entry<V>(list: Seq<(Seq<char>, V)>, key: Seq<char>, value: V) -> Seq<
    (Seq<char>, V),
> {
    without_key(list, key).push((key, value))
}

/// The value of the last entry with the name `key`.
pub open spec fn lookup<V>(list: Seq<(Seq<char>, V)>, key: Seq<char>) -> Option<V>
    decreases list.len(),
{
    if list.len() == 0 {
        None
    } else if list.last().0 == key {
        Some(list.last().1)
    } else {
        lookup(list.drop_last(), key)
    }
}

/// No entry of `without_key` has the name, and every other name has the
/// value it had.
pub proof fn lemma_lookup_without<V>(list: Seq<(Seq<char>, V)>, key: Seq<char>, other: Seq<char>)
    ensures
        lookup(without_key(list, key), key) is None,
        other != key ==> lookup(without_key(list, key), other) == lookup(list, other),
    decreases list.len(),
{
    if list.len() > 0 {
        let front = without_key(list.drop_last(), key);
        lemma_lookup_without(list.drop_last(), key, other);
        if list.last().0 != key {
            assert(front.push(list.last()).drop_last() == front);
        }
    }
}

/// After `with_entry` the name has the value, and every other name has what
/// it had.
pub proof fn lemma_lookup_with<V>(
    list: Seq<(Seq<char>, V)>,
    key: Seq<char>,
    value: V,
    other: Seq<char>,
)
    ensures
        lookup(with_entry(list, key, value), key) == Some(value),
        other != key ==> lookup(with_entry(list, key, value), other) == lookup(list, other),
{
    lemma_lookup_without(list, key, other);
    assert(without_key(list, key).push((key, value)).drop_last() == without_key(list, key));
}

/// Taking a name out of a list that does not hold it changes nothing.
pub proof fn lemma_without_absent<V>(list: Seq<(Seq<char>, V)>, key: Seq<char>)
    requires
        lookup(list, key) is None,
    ensures
        without_key(list, key) == list,
    decreases list.len(),
{
    if list.len() > 0 {
        lemma_without_absent(list.drop_last(), key);
        assert(list.drop_last().push(list.last()) == list);
    }
}

/// Taking a name out twice is taking it out once.
pub proof fn lemma_without_twice<V>(list: Seq<(Seq<char>, V)>, key: Seq<char>)
    ensures
        without_key(without_key(list, key), key) == without_key(list, key),
{
    lemma_lookup_without(list, key, key);
    lemma_without_absent(without_key(list, key), key);
}

/// Taking out a name that was just set gives what taking it out before
/// would have given.
pub proof fn lemma_without_with<V>(list: Seq<(Seq<char>, V)>, key: Seq<char>, value: V)
    ensures
        without_key(with_entry(list, key, value), key) == without_key(list, key),
{
    assert(without_key(list, key).push((key, value)).drop_last() == without_key(list, key));
    lemma_without_twice(list, key);
}

/// Takes every entry with the name `key` out of `list`.
pub fn remove_key<V: View>(list: &mut Vec<(String, V)>, key: &str)
    ensures
        views(final(list)@) == without_key(views(old(list)@), key@),
{
    let ghost all = views(list@);
    let mut out: Vec<(String, V)> = Vec::new();
    let ghost mut done: int = 0;
    proof {
        assert(all.take(0) =~= Seq::<(Seq<char>, V::V)>::empty());
        assert(all.skip(0) =~= all);
        assert(views(out@) =~= Seq::<(Seq<char>, V::V)>::empty());
    }
    while list.len() > 0
        invariant
            0 <= done <= all.len(),
            views(list@) == all.skip(done),
            views(out@) == without_key(all.take(done), key@),
        decreases list.len(),
    {
        let ghost before = out@;
        let ghost held = list@;
        assert(views(held).len() == all.len() - done);
        let entry = list.remove(0);
        proof {
            assert(entry@ == views(held)[0]);
            assert(list@ =~= held.skip(1));
            assert forall|k: int| 0 <= k < held.len() - 1 implies views(list@)[k] == all.skip(
                done + 1,
            )[k] by {
                assert(views(held)[k + 1] == all.skip(done)[k + 1]);
            }
            assert(views(list@) =~= all.skip(done + 1));
            assert(all.take(done + 1).drop_last() =~= all.take(done));
            assert(all.take(done + 1).last() == entry@);
            done = done + 1;
        }
        if !same_text(entry.0.as_str(), key) {
            out.push(entry);
            proof {
                lemma_views_push(before, entry);
            }
        }
    }
    assert(all.take(done) =~= all);
    *list = out;
}

/// Sets the name `key` to `value` in `list`.
pub fn set_key<V: View>(list: &mut Vec<(String, V)>, key: String, value: V)
    ensures
        views(final(list)@) == with_entry(views(old(list)@), key@, value@),
{
    remove_key(list, key.as_str());
    let ghost before = list@;
    let entry = (key, value);
    list.push(entry);
    proof {
        lemma_views_push(before, entry);
    }
}

/// The position of the last entry of `list` with the name `key`.
pub fn position_of<V: View>(list: &Vec<(String, V)>, key: &str) -> (r: Option<usize>)
    ensures
        match r {
            Some(i) => i < list.len() && list@[i as int].0@ == key@ && lookup(
                views(list@),
                key@,
            ) == Some(list@[i as int].1@),
            None => lookup(views(list@), key@) is None,
        },
{
    let ghost all = views(list@);
    let mut i: usize = list.len();
    assert(all.take(i as int) =~= all);
    while i > 0
        invariant
            i <= list.len(),
            all == views(list@),
            lookup(all.take(i as int), key@) == lookup(all, key@),
        decreases i,
    {
        assert(all.take(i as int).last() == list@[i - 1]@);
        assert(all.take(i as int).drop_last() =~= all.take(i - 1));
        i -= 1;
        if same_text(list[i].0.as_str(), key) {
            return Some(i);
        }
    }
    None
}

} // verus!
