//! A store of notes and the rules of its commands: adding, finding, removing
//! and editing notes.

use vstd::prelude::*;
use vstd::string::*;
use crate::tags::{
    add_tags, holds_key, kept, keys, keys_of, lowercase_text, lowercased, merged, normalize_tags,
    normalized, remove_tags,
};
use crate::text::{decimal, decimal_text_u64, texts};

verus! {

/// A note. The time it was made at is kept as seconds and nanoseconds since
/// the Unix epoch.
#[derive(Debug)]
pub struct Note {
    /// The number the note is found by.
    pub id: u64,
    /// The title.
    pub title: String,
    /// The body.
    pub body: String,
    /// The tags.
    pub tags: Vec<String>,
    /// When the note was made: whole seconds since the epoch.
    pub created_secs: i64,
    /// When the note was made: the nanoseconds within the second.
    pub created_nanos: u32,
}

/// The notes of a store, in the order they were added.
#[derive(Debug)]
pub struct Storage {
    /// The notes.
    pub notes: Vec<Note>,
}

/// The greatest id among `notes`, or 0 if there is none.
pub open spec fn greatest_id(notes: Seq<Note>) -> nat
    decreases notes.len(),
{
    if notes.len() == 0 {
        0
    } else if notes.last().id > greatest_id(notes.drop_last()) {
        notes.last().id as nat
    } else {
        greatest_id(notes.drop_last())
    }
}

/// No note has an id above the greatest.
pub proof fn lemma_greatest_id(notes: Seq<Note>, i: int)
    requires
        0 <= i < notes.len(),
    ensures
        notes[i].id <= greatest_id(notes),
    decreases notes.len(),
{
    if i < notes.len() - 1 {
        lemma_greatest_id(notes.drop_last(), i);
    }
}

/// `i` is the index of the first note with id `id`.
pub open spec fn is_first_with_id(notes: Seq<Note>, id: u64, i: int) -> bool {
    &&& 0 <= i < notes.len()
    &&& notes[i].id == id
    &&& forall|j: int| 0 <= j < i ==> notes[j].id != id
}

impl Storage {
    /// A store without notes.
    pub fn new() -> (store: Storage)
        ensures
            store.notes@.len() == 0,
    {
        Storage { notes: Vec::new() }
    }

    /// The id for the next note: one more than the greatest id in the store,
    /// and 1 for an empty store. No note of the store has this id.
    pub fn next_id(&self) -> (id: u64)
        requires
            greatest_id(self.notes@) < u64::MAX,
        ensures
            id == greatest_id(self.notes@) + 1,
            forall|i: int| 0 <= i < self.notes@.len() ==> (#[trigger] self.notes@[i]).id < id,
    {
        proof {
            assert forall|i: int| 0 <= i < self.notes@.len() implies (#[trigger] self.notes@[i]).id
                <= greatest_id(self.notes@) by {
                lemma_greatest_id(self.notes@, i);
            }
        }
        let mut greatest: u64 = 0;
        let mut i: usize = 0;
        assert(self.notes@.take(0) =~= Seq::<Note>::empty());
        while i < self.notes.len()
            invariant
                i <= self.notes@.len(),
                greatest == greatest_id(self.notes@.take(i as int)),
            decreases self.notes@.len() - i,
        {
            assert(self.notes@.take(i + 1).drop_last() =~= self.notes@.take(i as int));
            if self.notes[i].id > greatest {
                greatest = self.notes[i].id;
            }
            i = i + 1;
        }
        assert(self.notes@.take(i as int) =~= self.notes@);
        greatest + 1
    }

    /// The index of the first note with id `id`.
    pub fn position_of(&self, id: u64) -> (found: Option<usize>)
        ensures
            match found {
                Some(i) => is_first_with_id(self.notes@, id, i as int),
                None => forall|j: int| 0 <= j < self.notes@.len() ==> self.notes@[j].id != id,
            },
    {
        let mut i: usize = 0;
        while i < self.notes.len()
            invariant
                i <= self.notes@.len(),
                forall|j: int| 0 <= j < i ==> self.notes@[j].id != id,
            decreases self.notes@.len() - i,
        {
            if self.notes[i].id == id {
                return Some(i);
            }
            i = i + 1;
        }
        None
    }

    /// Adds a note with the next id and the normalized `tags`, and returns
    /// its id.
    pub fn add(
        &mut self,
        title: String,
        body: String,
        tags: Vec<String>,
        created_secs: i64,
        created_nanos: u32,
    ) -> (id: u64)
        requires
            greatest_id(old(self).notes@) < u64::MAX,
        ensures
            id == greatest_id(old(self).notes@) + 1,
            final(self).notes@.len() == old(self).notes@.len() + 1,
            final(self).notes@.drop_last() == old(self).notes@,
            final(self).notes@.last().id == id,
            final(self).notes@.last().title == title,
            final(self).notes@.last().body == body,
            texts(final(self).notes@.last().tags@) == normalized(texts(tags@)),
            final(self).notes@.last().created_secs == created_secs,
            final(self).notes@.last().created_nanos == created_nanos,
    {
        let id = self.next_id();
        let tags = normalize_tags(tags);
        self.notes.push(Note { id, title, body, tags, created_secs, created_nanos });
        assert(self.notes@.drop_last() =~= old(self).notes@);
        id
    }

    /// Takes the first note with id `id` out of the store, if there is one;
    /// the other notes keep their order.
    pub fn remove(&mut self, id: u64) -> (removed: Option<Note>)
        ensures
            match removed {
                Some(note) => exists|i: int|
                    is_first_with_id(old(self).notes@, id, i) && note == old(self).notes@[i]
                        && final(self).notes@ == old(self).notes@.remove(i),
                None => final(self).notes@ == old(self).notes@ && forall|j: int|
                    0 <= j < old(self).notes@.len() ==> old(self).notes@[j].id != id,
            },
    {
        match self.position_of(id) {
            Some(i) => {
                let note = self.notes.remove(i);
                assert(is_first_with_id(old(self).notes@, id, i as int));
                Some(note)
            },
            None => None,
        }
    }
}

/// `needle` stands somewhere in `hay`.
pub open spec fn holds_text(hay: Seq<char>, needle: Seq<char>) -> bool {
    exists|i: int|
        0 <= i && i + needle.len() <= hay.len() && #[trigger] hay.subrange(i, i + needle.len())
            == needle
}

/// `str::contains` with a string as the pattern: whether the pattern stands
/// somewhere in the text.
#[verifier::external_body]
fn text_contains(hay: &str, needle: &str) -> (found: bool)
    ensures
        found == holds_text(hay@, needle@),
{
    hay.contains(needle)
}

/// The query stands, up to letter case, in the title, in the body or in a tag.
pub open spec fn text_matches(note: Note, query: Seq<char>) -> bool {
    ||| holds_text(lowercased(note.title@), lowercased(query))
    ||| holds_text(lowercased(note.body@), lowercased(query))
    ||| exists|i: int|
        0 <= i < note.tags@.len() && holds_text(
            lowercased(#[trigger] note.tags@[i]@),
            lowercased(query),
        )
}

/// Each of `wanted` is, up to letter case, a tag of the note.
pub open spec fn tags_match(note: Note, wanted: Seq<Seq<char>>) -> bool {
    forall|i: int|
        0 <= i < wanted.len() ==> keys(texts(note.tags@)).contains(lowercased(#[trigger] wanted[i]))
}

/// The note answers a search for `query` with the tags `wanted`.
pub open spec fn note_matches(note: Note, query: Seq<char>, wanted: Seq<Seq<char>>) -> bool {
    text_matches(note, query) && tags_match(note, wanted)
}

/// The indices of the notes that answer the search, in order.
pub open spec fn found_in(notes: Seq<Note>, query: Seq<char>, wanted: Seq<Seq<char>>) -> Seq<usize>
    decreases notes.len(),
{
    if notes.len() == 0 {
        Seq::empty()
    } else if note_matches(notes.last(), query, wanted) {
        found_in(notes.drop_last(), query, wanted).push((notes.len() - 1) as usize)
    } else {
        found_in(notes.drop_last(), query, wanted)
    }
}

impl Note {
    /// Whether `query`, given in lowercase, stands in the lowercase form of
    /// the title, of the body or of a tag.
    fn holds_query(&self, query: &str) -> (found: bool)
        ensures
            found == (holds_text(lowercased(self.title@), query@) || holds_text(
                lowercased(self.body@),
                query@,
            ) || exists|i: int|
                0 <= i < self.tags@.len() && holds_text(
                    lowercased(#[trigger] self.tags@[i]@),
                    query@,
                )),
    {
        if text_contains(lowercase_text(self.title.as_str()).as_str(), query) {
            return true;
        }
        if text_contains(lowercase_text(self.body.as_str()).as_str(), query) {
            return true;
        }
        let mut i: usize = 0;
        while i < self.tags.len()
            invariant
                i <= self.tags@.len(),
                forall|j: int| 0 <= j < i ==> !holds_text(lowercased(#[trigger] self.tags@[j]@), query@),
            decreases self.tags@.len() - i,
        {
            if text_contains(lowercase_text(self.tags[i].as_str()).as_str(), query) {
                return true;
            }
            i = i + 1;
        }
        false
    }

    /// Whether each of `wanted`, given in lowercase, is the lowercase form
    /// of a tag.
    fn holds_tags(&self, wanted: &Vec<String>) -> (held: bool)
        ensures
            held == forall|i: int|
                0 <= i < wanted@.len() ==> keys(texts(self.tags@)).contains(
                    #[trigger] texts(wanted@)[i],
                ),
    {
        let own = keys_of(&self.tags);
        let mut i: usize = 0;
        while i < wanted.len()
            invariant
                i <= wanted@.len(),
                texts(own@) == keys(texts(self.tags@)),
                forall|j: int|
                    0 <= j < i ==> keys(texts(self.tags@)).contains(#[trigger] texts(wanted@)[j]),
            decreases wanted@.len() - i,
        {
            if !holds_key(&own, &wanted[i]) {
                assert(!keys(texts(self.tags@)).contains(texts(wanted@)[i as int]));
                return false;
            }
            i = i + 1;
        }
        true
    }
}

impl Storage {
    /// Searches the notes: a note answers if `query` stands, up to letter
    /// case, in its title, its body or one of its tags, and each of `wanted`
    /// is, up to letter case, one of its tags. Returns the indices of the
    /// notes that answer, in order.
    pub fn search(&self, query: &str, wanted: &Vec<String>) -> (found: Vec<usize>)
        ensures
            found@ == found_in(self.notes@, query@, texts(wanted@)),
    {
        let lower_query = lowercase_text(query);
        let lower_wanted = keys_of(wanted);
        let mut found: Vec<usize> = Vec::new();
        let mut i: usize = 0;
        assert(self.notes@.take(0) =~= Seq::<Note>::empty());
        while i < self.notes.len()
            invariant
                i <= self.notes@.len(),
                lower_query@ == lowercased(query@),
                texts(lower_wanted@) == keys(texts(wanted@)),
                found@ == found_in(self.notes@.take(i as int), query@, texts(wanted@)),
            decreases self.notes@.len() - i,
        {
            let ghost next = self.notes@.take(i + 1);
            assert(next.drop_last() =~= self.notes@.take(i as int));
            assert(next.last() == self.notes@[i as int]);
            let note = &self.notes[i];
            let in_text = note.holds_query(lower_query.as_str());
            let with_tags = in_text && note.holds_tags(&lower_wanted);
            proof {
                let lows = texts(lower_wanted@);
                let asked = texts(wanted@);
                let own = keys(texts(note.tags@));
                assert(lows.len() == asked.len());
                if in_text && with_tags {
                    assert forall|j: int| 0 <= j < asked.len() implies own.contains(
                        lowercased(#[trigger] asked[j]),
                    ) by {
                        assert(own.contains(lows[j]));
                        assert(lows[j] == keys(asked)[j]);
                    }
                }
                if in_text && tags_match(*note, asked) {
                    assert forall|j: int| 0 <= j < lows.len() implies own.contains(
                        #[trigger] lows[j],
                    ) by {
                        assert(own.contains(lowercased(asked[j])));
                        assert(lows[j] == keys(asked)[j]);
                    }
                }
            }
            if with_tags {
                found.push(i);
            }
            i = i + 1;
        }
        assert(self.notes@.take(i as int) =~= self.notes@);
        found
    }
}

/// What an edit sets in a note: each part is either given anew or left as
/// it is.
#[derive(Debug)]
pub struct EditableNote {
    /// The new title, if the title changes.
    pub title: Option<String>,
    /// The new body, if the body changes.
    pub body: Option<String>,
    /// The new tags, if the tags change.
    pub tags: Option<Vec<String>>,
}

/// A copy of a list of strings.
fn copy_list(list: &Vec<String>) -> (copy: Vec<String>)
    ensures
        texts(copy@) == texts(list@),
{
    let mut copy: Vec<String> = Vec::new();
    let mut i: usize = 0;
    while i < list.len()
        invariant
            i <= list@.len(),
            copy@.len() == i,
            forall|j: int| 0 <= j < i ==> (#[trigger] copy@[j])@ == list@[j]@,
        decreases list@.len() - i,
    {
        copy.push(list[i].clone());
        i = i + 1;
    }
    assert(texts(copy@) =~= texts(list@));
    copy
}

/// The edit that sets every part of a note to what it is: the starting
/// point for editing the note by hand.
pub fn editable_from_note(note: &Note) -> (edit: EditableNote)
    ensures
        edit.title is Some && edit.title.unwrap()@ == note.title@,
        edit.body is Some && edit.body.unwrap()@ == note.body@,
        edit.tags is Some && texts(edit.tags.unwrap()@) == texts(note.tags@),
{
    EditableNote {
        title: Some(note.title.clone()),
        body: Some(note.body.clone()),
        tags: Some(copy_list(&note.tags)),
    }
}

/// A text after an edit: the new one if there is one.
pub open spec fn edited_text(old: Seq<char>, new: Option<String>) -> Seq<char> {
    match new {
        Some(text) => text@,
        None => old,
    }
}

/// The tags after an edit: the new ones, normalized, if there are any.
pub open spec fn edited_tags(old: Seq<Seq<char>>, new: Option<Vec<String>>) -> Seq<Seq<char>> {
    match new {
        Some(tags) => normalized(texts(tags@)),
        None => old,
    }
}

impl Note {
    /// Applies an edit: each part that the edit gives replaces the note's
    /// own, the tags after they were normalized.
    pub fn apply_edit(&mut self, edit: EditableNote)
        ensures
            final(self).id == old(self).id,
            final(self).created_secs == old(self).created_secs,
            final(self).created_nanos == old(self).created_nanos,
            final(self).title@ == edited_text(old(self).title@, edit.title),
            final(self).body@ == edited_text(old(self).body@, edit.body),
            texts(final(self).tags@) == edited_tags(texts(old(self).tags@), edit.tags),
    {
        if let Some(title) = edit.title {
            self.title = title;
        }
        if let Some(body) = edit.body {
            self.body = body;
        }
        if let Some(tags) = edit.tags {
            self.tags = normalize_tags(tags);
        }
    }

    /// Applies the changes that a command line asks for: first the parts
    /// given anew, as in [`Note::apply_edit`], then the tags to add, then the
    /// tags to remove.
    pub fn apply_changes(&mut self, edit: EditableNote, plus: Vec<String>, minus: Vec<String>)
        ensures
            final(self).id == old(self).id,
            final(self).created_secs == old(self).created_secs,
            final(self).created_nanos == old(self).created_nanos,
            final(self).title@ == edited_text(old(self).title@, edit.title),
            final(self).body@ == edited_text(old(self).body@, edit.body),
            texts(final(self).tags@) == kept(
                merged(
                    edited_tags(texts(old(self).tags@), edit.tags),
                    normalized(texts(plus@)),
                ),
                texts(minus@),
            ),
    {
        self.apply_edit(edit);
        add_tags(&mut self.tags, plus);
        remove_tags(&mut self.tags, minus);
    }
}

/// The texts of `items` with a comma between each two.
pub open spec fn joined(items: Seq<Seq<char>>) -> Seq<char>
    decreases items.len(),
{
    if items.len() == 0 {
        Seq::empty()
    } else if items.len() == 1 {
        items[0]
    } else {
        joined(items.drop_last()) + seq![','] + items.last()
    }
}

/// Writes the tags with a comma between each two.
pub fn join_tags(tags: &Vec<String>) -> (line: String)
    ensures
        line@ == joined(texts(tags@)),
{
    proof {
        reveal_strlit(",");
    }
    let ghost all = texts(tags@);
    let mut line = String::new();
    let mut i: usize = 0;
    assert(all.take(0) =~= Seq::<Seq<char>>::empty());
    while i < tags.len()
        invariant
            i <= tags@.len(),
            all == texts(tags@),
            ","@ =~= seq![','],
            line@ == joined(all.take(i as int)),
        decreases tags@.len() - i,
    {
        let ghost next = all.take(i + 1);
        assert(next.drop_last() =~= all.take(i as int));
        assert(next.last() == tags@[i as int]@);
        if i > 0 {
            line.append(",");
        } else {
            assert(line@ + tags@[i as int]@ =~= tags@[i as int]@);
        }
        line.append(tags[i].as_str());
        i = i + 1;
    }
    assert(all.take(i as int) =~= all);
    line
}

/// `text` with spaces in front of it up to a width of three characters.
pub open spec fn padded(text: Seq<char>) -> Seq<char> {
    if text.len() >= 3 {
        text
    } else {
        Seq::new((3 - text.len()) as nat, |i: int| ' ') + text
    }
}

/// The line that shows a note in a list: `#` and the id, set right in three
/// columns, then the title, the tags in square brackets with commas between
/// them, and the time, each two spaces from the one before.
pub open spec fn listing(note: Note, created: Seq<char>) -> Seq<char> {
    seq!['#'] + padded(decimal(note.id as nat)) + seq![' ', ' '] + note.title@ + seq![' ', ' ', '[']
        + joined(texts(note.tags@)) + seq![']', ' ', ' '] + created
}

/// Writes the line that shows `note` in a list, with `created` as the text
/// of its time; see [`listing`].
pub fn listing_line(note: &Note, created: &str) -> (line: String)
    ensures
        line@ == listing(*note, created@),
{
    proof {
        reveal_strlit("#");
        reveal_strlit(" ");
        assert(decimal(note.id as nat).len() >= 1);
        reveal_strlit("  ");
        reveal_strlit("  [");
        reveal_strlit("]  ");
    }
    let number = decimal_text_u64(note.id);
    let width = number.as_str().unicode_len();
    let mut line = String::from_str("#");
    if width < 3 {
        line.append(" ");
        if width < 2 {
            line.append(" ");
        }
    }
    line.append(number.as_str());
    assert(line@ =~= seq!['#'] + padded(decimal(note.id as nat)));
    line.append("  ");
    line.append(note.title.as_str());
    line.append("  [");
    let tags = join_tags(&note.tags);
    line.append(tags.as_str());
    line.append("]  ");
    line.append(created);
    assert(line@ =~= listing(*note, created@));
    line
}

} // verus!
