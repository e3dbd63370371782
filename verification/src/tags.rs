//! Tags of notes: trimmed, never empty, and unique up to letter case.

use vstd::prelude::*;
use vstd::string::*;
use crate::text::{texts, trim_text, trimmed};

verus! {

/// The lowercase form of a text.
pub uninterp spec fn lowercased(text: Seq<char>) -> Seq<char>;

/// `str::to_lowercase`: the lowercase form of the text.
#[verifier::external_body]
pub(crate) fn lowercase_text(text: &str) -> (lower: String)
    ensures
        lower@ == lowercased(text@),
{
    text.to_lowercase()
}

/// The tags of `tags` trimmed, without those that are empty then.
pub open spec fn cleaned(tags: Seq<Seq<char>>) -> Seq<Seq<char>>
    decreases tags.len(),
{
    if tags.len() == 0 {
        tags
    } else {
        let tag = trimmed(tags.last());
        if tag.len() == 0 {
            cleaned(tags.drop_last())
        } else {
            cleaned(tags.drop_last()).push(tag)
        }
    }
}

/// The lowercase forms of `tags`, in order.
pub open spec fn keys(tags: Seq<Seq<char>>) -> Seq<Seq<char>> {
    Seq::new(tags.len(), |i: int| lowercased(tags[i]))
}

/// `tags`, and behind them each of `more`, in order, whose lowercase form
/// no tag before it has.
pub open spec fn merged(tags: Seq<Seq<char>>, more: Seq<Seq<char>>) -> Seq<Seq<char>>
    decreases more.len(),
{
    if more.len() == 0 {
        tags
    } else {
        let so_far = merged(tags, more.drop_last());
        if keys(so_far).contains(lowercased(more.last())) {
            so_far
        } else {
            so_far.push(more.last())
        }
    }
}

/// The tags of `tags` trimmed, without the empty ones and without those that
/// repeat an earlier one up to letter case.
pub open spec fn normalized(tags: Seq<Seq<char>>) -> Seq<Seq<char>> {
    merged(Seq::empty(), cleaned(tags))
}

/// What tags are removed by: the lowercase forms of `removals`, trimmed,
/// without those that are empty then.
pub open spec fn removal_keys(removals: Seq<Seq<char>>) -> Seq<Seq<char>> {
    cleaned(keys(removals))
}

/// The tags of `tags`, in order, whose lowercase form is none of the keys of
/// `removals`.
pub open spec fn kept(tags: Seq<Seq<char>>, removals: Seq<Seq<char>>) -> Seq<Seq<char>>
    decreases tags.len(),
{
    if tags.len() == 0 {
        tags
    } else if removal_keys(removals).contains(lowercased(tags.last())) {
        kept(tags.drop_last(), removals)
    } else {
        kept(tags.drop_last(), removals).push(tags.last())
    }
}

/// Whether `key` is one of `keys`.
pub(crate) fn holds_key(keys: &Vec<String>, key: &String) -> (held: bool)
    ensures
        held == texts(keys@).contains(key@),
{
    let mut i: usize = 0;
    while i < keys.len()
        invariant
            i <= keys@.len(),
            forall|j: int| 0 <= j < i ==> texts(keys@)[j] != key@,
        decreases keys@.len() - i,
    {
        if keys[i] == *key {
            assert(texts(keys@)[i as int] == key@);
            return true;
        }
        i = i + 1;
    }
    false
}

/// The trimmed texts of `list`, without those that are empty then.
fn clean(list: &Vec<String>) -> (out: Vec<String>)
    ensures
        texts(out@) == cleaned(texts(list@)),
{
    let ghost all = texts(list@);
    let mut out: Vec<String> = Vec::new();
    let mut i: usize = 0;
    assert(all.take(0) =~= Seq::<Seq<char>>::empty());
    assert(texts(out@) =~= Seq::<Seq<char>>::empty());
    while i < list.len()
        invariant
            i <= list@.len(),
            all == texts(list@),
            texts(out@) == cleaned(all.take(i as int)),
        decreases list@.len() - i,
    {
        let ghost next = all.take(i + 1);
        assert(next.drop_last() =~= all.take(i as int));
        assert(next.last() == list@[i as int]@);
        let ghost so_far = texts(out@);
        let tag = trim_text(list[i].as_str());
        if !tag.is_empty() {
            out.push(String::from_str(tag));
            assert(texts(out@) =~= so_far.push(tag@));
        }
        i = i + 1;
    }
    assert(all.take(i as int) =~= all);
    out
}

/// The lowercase forms of `tags`, in order.
pub(crate) fn keys_of(tags: &Vec<String>) -> (lower: Vec<String>)
    ensures
        texts(lower@) == keys(texts(tags@)),
{
    let mut lower: Vec<String> = Vec::new();
    let mut i: usize = 0;
    while i < tags.len()
        invariant
            i <= tags@.len(),
            lower@.len() == i,
            forall|j: int| 0 <= j < i ==> (#[trigger] lower@[j])@ == lowercased(tags@[j]@),
        decreases tags@.len() - i,
    {
        lower.push(lowercase_text(tags[i].as_str()));
        i = i + 1;
    }
    assert(texts(lower@) =~= keys(texts(tags@)));
    lower
}

/// Puts behind `existing` each of `more`, in order, whose lowercase form no
/// tag before it has.
fn merge_into(existing: &mut Vec<String>, more: &Vec<String>)
    ensures
        texts(final(existing)@) == merged(texts(old(existing)@), texts(more@)),
{
    let ghost all = texts(more@);
    let mut seen = keys_of(existing);
    let mut i: usize = 0;
    assert(all.take(0) =~= Seq::<Seq<char>>::empty());
    while i < more.len()
        invariant
            i <= more@.len(),
            all == texts(more@),
            texts(existing@) == merged(texts(old(existing)@), all.take(i as int)),
            texts(seen@) == keys(texts(existing@)),
        decreases more@.len() - i,
    {
        let ghost next = all.take(i + 1);
        assert(next.drop_last() =~= all.take(i as int));
        assert(next.last() == more@[i as int]@);
        let ghost so_far = texts(existing@);
        let ghost so_far_keys = texts(seen@);
        let key = lowercase_text(more[i].as_str());
        if !holds_key(&seen, &key) {
            seen.push(key);
            existing.push(more[i].clone());
            assert(texts(existing@) =~= so_far.push(more@[i as int]@));
            assert(texts(seen@) =~= so_far_keys.push(key@));
            assert(texts(seen@) =~= keys(texts(existing@)));
        }
        i = i + 1;
    }
    assert(all.take(i as int) =~= all);
}

/// Trims every tag, drops the empty ones, and of tags that are equal up to
/// letter case keeps the first.
pub fn normalize_tags(tags: Vec<String>) -> (out: Vec<String>)
    ensures
        texts(out@) == normalized(texts(tags@)),
{
    let tidy = clean(&tags);
    let mut out: Vec<String> = Vec::new();
    assert(texts(out@) =~= Seq::<Seq<char>>::empty());
    merge_into(&mut out, &tidy);
    out
}

/// Adds the normalized `additions` behind `existing`, leaving out each that
/// equals, up to letter case, a tag already there.
pub fn add_tags(existing: &mut Vec<String>, additions: Vec<String>)
    ensures
        texts(final(existing)@) == merged(texts(old(existing)@), normalized(texts(additions@))),
{
    let to_add = normalize_tags(additions);
    merge_into(existing, &to_add);
}

/// Removes from `existing` every tag that equals, up to letter case, one of
/// `removals`, each of these taken in lowercase and trimmed; an empty one
/// removes nothing.
pub fn remove_tags(existing: &mut Vec<String>, removals: Vec<String>)
    ensures
        texts(final(existing)@) == kept(texts(old(existing)@), texts(removals@)),
{
    let lower = keys_of(&removals);
    let gone = clean(&lower);
    let ghost all = texts(existing@);
    let mut rest: Vec<String> = Vec::new();
    let mut i: usize = 0;
    assert(all.take(0) =~= Seq::<Seq<char>>::empty());
    assert(texts(rest@) =~= Seq::<Seq<char>>::empty());
    while i < existing.len()
        invariant
            i <= existing@.len(),
            existing@ == old(existing)@,
            all == texts(existing@),
            texts(gone@) == removal_keys(texts(removals@)),
            texts(rest@) == kept(all.take(i as int), texts(removals@)),
        decreases existing@.len() - i,
    {
        let ghost next = all.take(i + 1);
        assert(next.drop_last() =~= all.take(i as int));
        assert(next.last() == existing@[i as int]@);
        let ghost so_far = texts(rest@);
        let key = lowercase_text(existing[i].as_str());
        if !holds_key(&gone, &key) {
            rest.push(existing[i].clone());
            assert(texts(rest@) =~= so_far.push(existing@[i as int]@));
        }
        i = i + 1;
    }
    assert(all.take(i as int) =~= all);
    *existing = rest;
}

} // verus!
