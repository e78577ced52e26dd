//! The mail buffers of the open sessions.

use crate::bytes::{append_bytes, same_bytes};
use vstd::prelude::*;

verus! {

/// Entry `i` of `entries` belongs to session `id`.
spec fn holds_at(entries: Seq<(Vec<u8>, Vec<u8>)>, id: Seq<u8>, i: int) -> bool {
    0 <= i < entries.len() && entries[i].0@ == id
}

/// No identifier has two entries.
spec fn distinct(entries: Seq<(Vec<u8>, Vec<u8>)>) -> bool {
    forall|i: int, j: int| 0 <= i < j < entries.len() ==> entries[i].0@ != entries[j].0@
}

/// The buffer of each identifier that has an entry.
spec fn contents(entries: Seq<(Vec<u8>, Vec<u8>)>) -> Map<Seq<u8>, Seq<u8>> {
    Map::new(
        |id: Seq<u8>| exists|i: int| holds_at(entries, id, i),
        |id: Seq<u8>| entries[choose|i: int| holds_at(entries, id, i)].1@,
    )
}

/// With distinct identifiers, each entry's buffer is what `contents` gives
/// for its identifier.
proof fn lemma_contents_at(entries: Seq<(Vec<u8>, Vec<u8>)>, i: int)
    requires
        distinct(entries),
        0 <= i < entries.len(),
    ensures
        contents(entries).contains_key(entries[i].0@),
        contents(entries)[entries[i].0@] == entries[i].1@,
{
    assert(holds_at(entries, entries[i].0@, i));
}

/// Entries that differ from others in the buffer of one identifier give the
/// same contents but for that identifier.
proof fn lemma_buffer_changed(
    before: Seq<(Vec<u8>, Vec<u8>)>,
    after: Seq<(Vec<u8>, Vec<u8>)>,
    at: int,
)
    requires
        distinct(before),
        0 <= at < before.len(),
        after.len() == before.len(),
        forall|k: int| 0 <= k < before.len() ==> after[k].0@ == before[k].0@,
        forall|k: int| 0 <= k < before.len() && k != at ==> after[k].1@ == before[k].1@,
    ensures
        distinct(after),
        contents(after) == contents(before).insert(before[at].0@, after[at].1@),
{
    let was = contents(before);
    let now = contents(after);
    assert forall|id: Seq<u8>, k: int| holds_at(after, id, k) == holds_at(before, id, k) by {}
    lemma_contents_at(after, at);
    assert forall|id: Seq<u8>|
        was.contains_key(id) && id != before[at].0@ implies #[trigger] now[id] == was[id] by {
        let k = choose|k: int| holds_at(before, id, k);
        lemma_contents_at(before, k);
        lemma_contents_at(after, k);
    }
}

/// An entry added for an identifier that had none gives the contents with
/// that identifier added.
proof fn lemma_entry_added(before: Seq<(Vec<u8>, Vec<u8>)>, entry: (Vec<u8>, Vec<u8>))
    requires
        distinct(before),
        !contents(before).contains_key(entry.0@),
    ensures
        distinct(before.push(entry)),
        contents(before.push(entry)) == contents(before).insert(entry.0@, entry.1@),
{
    let after = before.push(entry);
    let last = before.len() as int;
    let was = contents(before);
    let now = contents(after);
    assert forall|id: Seq<u8>, k: int| holds_at(before, id, k) implies holds_at(after, id, k) by {}
    assert forall|i: int, j: int| 0 <= i < j < after.len() implies after[i].0@ != after[j].0@ by {
        if j == last {
            assert(!holds_at(before, entry.0@, i));
        }
    }
    lemma_contents_at(after, last);
    assert forall|id: Seq<u8>| id != entry.0@ implies #[trigger] now.contains_key(id)
        == was.contains_key(id) by {
        if now.contains_key(id) {
            let k = choose|k: int| holds_at(after, id, k);
            assert(holds_at(before, id, k));
        }
    }
    assert forall|id: Seq<u8>| was.contains_key(id) implies #[trigger] now[id] == was[id] by {
        let k = choose|k: int| holds_at(before, id, k);
        lemma_contents_at(before, k);
        lemma_contents_at(after, k);
    }
}

/// Putting the last entry in the place of another gives the contents
/// without the identifier of that other.
proof fn lemma_entry_removed(before: Seq<(Vec<u8>, Vec<u8>)>, at: int)
    requires
        distinct(before),
        0 <= at < before.len(),
    ensures
        distinct(before.update(at, before.last()).drop_last()),
        contents(before.update(at, before.last()).drop_last()) == contents(before).remove(
            before[at].0@,
        ),
{
    let after = before.update(at, before.last()).drop_last();
    let last = before.len() - 1;
    let gone = before[at].0@;
    let was = contents(before);
    let now = contents(after);
    // Where entry `k` of `after` stood in `before`, and the other way round.
    let origin = |k: int| if k == at { last } else { k };
    let target = |k: int| if k == last { at } else { k };
    assert forall|k: int| 0 <= k < after.len() implies after[k] == before[origin(k)] by {}
    assert forall|k: int| !holds_at(after, gone, k) by {
        if holds_at(after, gone, k) {
            assert(holds_at(before, gone, origin(k)));
        }
    }
    assert forall|id: Seq<u8>| id != gone implies #[trigger] now.contains_key(id)
        == was.contains_key(id) by {
        if was.contains_key(id) {
            let k = choose|k: int| holds_at(before, id, k);
            assert(holds_at(after, id, target(k)));
        }
        if now.contains_key(id) {
            let k = choose|k: int| holds_at(after, id, k);
            assert(holds_at(before, id, origin(k)));
        }
    }
    assert forall|id: Seq<u8>| id != gone && was.contains_key(id) implies #[trigger] now[id]
        == was[id] by {
        let k = choose|k: int| holds_at(before, id, k);
        lemma_contents_at(before, k);
        lemma_contents_at(after, target(k));
    }
}

/// Where the entry of session `id` stands, if it has one.
fn position(entries: &Vec<(Vec<u8>, Vec<u8>)>, id: &[u8]) -> (at: Option<usize>)
    ensures
        match at {
            Some(i) => holds_at(entries@, id@, i as int),
            None => !contents(entries@).contains_key(id@),
        },
{
    let mut i: usize = 0;
    while i < entries.len()
        invariant
            i <= entries@.len(),
            forall|k: int| 0 <= k < i ==> !holds_at(entries@, id@, k),
        decreases entries@.len() - i,
    {
        if same_bytes(entries[i].0.as_slice(), id) {
            return Some(i);
        }
        i += 1;
    }
    None
}

/// One buffer per open session, found by the session's identifier, which
/// is compared byte by byte with those of the open sessions in turn: the
/// sessions are kept as a list, since the hash map of the standard library
/// has no specification for keys that are byte strings. Neither the number
/// of sessions nor the size of a buffer is limited.
pub struct SessionStore {
    entries: Vec<(Vec<u8>, Vec<u8>)>,
}

impl View for SessionStore {
    type V = Map<Seq<u8>, Seq<u8>>;

    /// The buffer of each open session, by the session's identifier.
    closed spec fn view(&self) -> Map<Seq<u8>, Seq<u8>> {
        contents(self.entries@)
    }
}

impl SessionStore {
    #[verifier::type_invariant]
    spec fn well_formed(&self) -> bool {
        distinct(self.entries@)
    }

    /// A store with no session.
    pub fn new() -> (store: Self)
        ensures
            store@ == Map::<Seq<u8>, Seq<u8>>::empty(),
    {
        SessionStore { entries: Vec::new() }
    }

    /// The buffer of session `id`, if the session is open.
    pub fn get(&self, id: &[u8]) -> (mail: Option<&[u8]>)
        ensures
            match mail {
                Some(bytes) => self@.contains_key(id@) && bytes@ == self@[id@],
                None => !self@.contains_key(id@),
            },
    {
        proof {
            use_type_invariant(self);
        }
        match position(&self.entries, id) {
            Some(i) => {
                proof {
                    lemma_contents_at(self.entries@, i as int);
                }
                Some(self.entries[i].1.as_slice())
            },
            None => None,
        }
    }

    /// Opens session `id` with an empty buffer. What an earlier session of
    /// that identifier had gathered is dropped.
    pub fn reset(&mut self, id: &[u8])
        ensures
            final(self)@ == old(self)@.insert(id@, Seq::<u8>::empty()),
    {
        proof {
            use_type_invariant(&*self);
        }
        let mut entries: Vec<(Vec<u8>, Vec<u8>)> = Vec::new();
        core::mem::swap(&mut self.entries, &mut entries);
        let ghost before = entries@;
        match position(&entries, id) {
            Some(i) => {
                entries[i].1.clear();
                proof {
                    lemma_buffer_changed(before, entries@, i as int);
                }
            },
            None => {
                let mut name: Vec<u8> = Vec::new();
                append_bytes(&mut name, id);
                entries.push((name, Vec::new()));
                proof {
                    lemma_entry_added(before, entries@.last());
                }
            },
        }
        core::mem::swap(&mut self.entries, &mut entries);
    }

    /// Appends `bytes` to the buffer of session `id`. Where that session is
    /// not open, nothing changes.
    pub fn append(&mut self, id: &[u8], bytes: &[u8])
        ensures
            final(self)@ == if old(self)@.contains_key(id@) {
                old(self)@.insert(id@, old(self)@[id@] + bytes@)
            } else {
                old(self)@
            },
    {
        proof {
            use_type_invariant(&*self);
        }
        let mut entries: Vec<(Vec<u8>, Vec<u8>)> = Vec::new();
        core::mem::swap(&mut self.entries, &mut entries);
        let ghost before = entries@;
        match position(&entries, id) {
            Some(i) => {
                append_bytes(&mut entries[i].1, bytes);
                proof {
                    lemma_contents_at(before, i as int);
                    lemma_buffer_changed(before, entries@, i as int);
                }
            },
            None => {},
        }
        core::mem::swap(&mut self.entries, &mut entries);
    }

    /// Closes session `id` and drops its buffer.
    pub fn remove(&mut self, id: &[u8])
        ensures
            final(self)@ == old(self)@.remove(id@),
    {
        proof {
            use_type_invariant(&*self);
        }
        let mut entries: Vec<(Vec<u8>, Vec<u8>)> = Vec::new();
        core::mem::swap(&mut self.entries, &mut entries);
        let ghost before = entries@;
        match position(&entries, id) {
            Some(i) => {
                entries.swap_remove(i);
                proof {
                    lemma_entry_removed(before, i as int);
                }
            },
            None => {},
        }
        core::mem::swap(&mut self.entries, &mut entries);
    }
}

} // verus!
