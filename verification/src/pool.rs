//! The store of interned contents.
//!
//! Each content is kept once, in the slot it was first given; slots are never
//! removed or rewritten, so a slot number names one content for the life of the
//! pool. Beside each content the pool keeps a one-byte marker that caches what
//! is known of the NUL bytes in it.

use vstd::prelude::*;
use vstd::hash_map::StringHashMap;
use crate::bytes::{bytes_of, is_first_nul, nul_free};

verus! {

broadcast use vstd::hash_map::group_hash_map_axioms;

/// Marker of a content whose NUL bytes have not been looked at.
pub const MARKER_UNCHECKED: u8 = 255u8;

/// Marker of a content known to hold no NUL byte.
pub const MARKER_NUL_FREE: u8 = 0u8;

/// First NUL positions below this bound are cached in the marker, as the
/// position plus one.
pub const MARKER_POSITION_LIMIT: usize = 254usize;

/// What a marker says of the bytes `b` that it stands beside: `0` that no
/// byte is NUL, `1..=254` that the first NUL is one position before the
/// marker, `255` nothing.
pub open spec fn marker_agrees(b: Seq<u8>, m: u8) -> bool {
    &&& m == MARKER_NUL_FREE ==> nul_free(b)
    &&& (1 <= m && (m as int) <= MARKER_POSITION_LIMIT) ==> is_first_nul(b, m - 1)
}

/// No content occurs twice in `texts`.
pub open spec fn distinct(texts: Seq<Seq<char>>) -> bool {
    forall|i: int, j: int|
        0 <= i < texts.len() && 0 <= j < texts.len() && i != j ==> #[trigger] texts[i]
            != #[trigger] texts[j]
}

/// The contents after interning `s`: unchanged if `s` is there already, else
/// `s` appended in a new slot.
pub open spec fn interned(texts: Seq<Seq<char>>, s: Seq<char>) -> Seq<Seq<char>> {
    if texts.contains(s) {
        texts
    } else {
        texts.push(s)
    }
}

/// The markers after interning `s` into a pool with contents `texts` and
/// markers `marks`: unchanged if `s` is held already, else an unchecked
/// marker for the new slot.
pub open spec fn interned_markers(texts: Seq<Seq<char>>, marks: Seq<u8>, s: Seq<char>) -> Seq<u8> {
    if texts.contains(s) {
        marks
    } else {
        marks.push(MARKER_UNCHECKED)
    }
}

/// The slot of `texts` that holds `s`.
pub open spec fn slot_index(texts: Seq<Seq<char>>, s: Seq<char>) -> int {
    choose|i: int| 0 <= i < texts.len() && texts[i] == s
}

/// In distinct contents, the slot that holds `s` is the only one.
pub proof fn lemma_slot_index(texts: Seq<Seq<char>>, s: Seq<char>, i: int)
    requires
        distinct(texts),
        0 <= i < texts.len(),
        texts[i] == s,
    ensures
        slot_index(texts, s) == i,
{
    let j = slot_index(texts, s);
    assert(0 <= j < texts.len() && texts[j] == s);
}

/// `after` extends `before`: every stored content keeps its slot, and every
/// marker that says something keeps saying it.
pub open spec fn grows(before: &InternPool, after: &InternPool) -> bool {
    &&& before@.len() <= after@.len()
    &&& before.markers().len() <= after.markers().len()
    &&& forall|i: int| 0 <= i < before@.len() ==> #[trigger] after@[i] == before@[i]
    &&& forall|i: int|
        0 <= i < before.markers().len() && before.markers()[i] != MARKER_UNCHECKED
            ==> #[trigger] after.markers()[i] == before.markers()[i]
}

/// The three parts of a pool agree: the index maps each stored content to
/// its slot and nothing else, and every marker agrees with its content.
pub closed spec fn parts_agree(
    texts: Seq<String>,
    markers: Seq<u8>,
    index: Map<Seq<char>, usize>,
) -> bool {
    &&& markers.len() == texts.len()
    &&& forall|k: Seq<char>|
        #[trigger] index.contains_key(k) ==> {
            &&& index[k] < texts.len()
            &&& texts[index[k] as int]@ == k
        }
    &&& forall|i: int|
        0 <= i < texts.len() ==> {
            &&& index.contains_key(#[trigger] texts[i]@)
            &&& index[texts[i]@] == i
        }
    &&& forall|i: int|
        0 <= i < texts.len() ==> marker_agrees(bytes_of(#[trigger] texts[i]@), markers[i])
}

/// A store of distinct string contents, each in a fixed slot.
pub struct InternPool {
    texts: Vec<String>,
    markers: Vec<u8>,
    index: StringHashMap<usize>,
}

impl View for InternPool {
    type V = Seq<Seq<char>>;

    /// The stored contents, by slot.
    closed spec fn view(&self) -> Seq<Seq<char>> {
        Seq::new(self.texts@.len(), |i: int| self.texts@[i]@)
    }
}

impl InternPool {
    /// The markers, by slot.
    pub closed spec fn markers(&self) -> Seq<u8> {
        self.markers@
    }

    /// The pool's internal invariant, which every pool satisfies.
    #[verifier::type_invariant]
    pub closed spec fn wf(&self) -> bool {
        parts_agree(self.texts@, self.markers@, self.index@)
    }

    /// What the invariant gives callers: contents are distinct and every
    /// marker agrees with its content.
    pub proof fn lemma_wf(&self)
        requires
            self.wf(),
        ensures
            distinct(self@),
            self.markers().len() == self@.len(),
            forall|i: int|
                0 <= i < self@.len() ==> marker_agrees(
                    bytes_of(#[trigger] self@[i]),
                    self.markers()[i],
                ),
    {
        assert forall|i: int, j: int|
            0 <= i < self@.len() && 0 <= j < self@.len() && i != j implies #[trigger] self@[i]
            != #[trigger] self@[j] by {
            assert(self.index@[self.texts@[i]@] == i);
            assert(self.index@[self.texts@[j]@] == j);
        }
        assert forall|i: int| 0 <= i < self@.len() implies marker_agrees(
            bytes_of(#[trigger] self@[i]),
            self.markers()[i],
        ) by {
            assert(self@[i] == self.texts@[i]@);
        }
    }

    /// A pool holds at most `usize::MAX` contents.
    pub proof fn lemma_len_bound(&self)
        ensures
            self@.len() <= usize::MAX,
    {
        assert(self.texts.len() == self.texts@.len());
    }

    /// An empty pool.
    pub fn new() -> (p: InternPool)
        ensures
            p@ == Seq::<Seq<char>>::empty(),
            p.markers() == Seq::<u8>::empty(),
    {
        let p = InternPool { texts: Vec::new(), markers: Vec::new(), index: StringHashMap::new() };
        assert(p@ =~= Seq::<Seq<char>>::empty());
        p
    }

    /// Number of stored contents.
    pub fn len(&self) -> (n: usize)
        ensures
            n == self@.len(),
    {
        self.texts.len()
    }

    /// The slot that holds `s`, if the pool holds it.
    pub fn find(&self, s: &str) -> (r: Option<usize>)
        ensures
            match r {
                Some(i) => i < self@.len() && self@[i as int] == s@,
                None => !self@.contains(s@),
            },
    {
        proof {
            use_type_invariant(self);
        }
        match self.index.get(s) {
            Some(i) => Some(*i),
            None => {
                proof {
                    if self@.contains(s@) {
                        let j = choose|j: int| 0 <= j < self@.len() && self@[j] == s@;
                        assert(self.index@.contains_key(self.texts@[j]@));
                    }
                }
                None
            },
        }
    }

    /// Stores `s`, which the pool does not hold, in a new slot whose marker
    /// says nothing yet.
    fn insert_new(&mut self, s: &str) -> (slot: usize)
        requires
            !old(self)@.contains(s@),
        ensures
            final(self)@ == old(self)@.push(s@),
            final(self).markers() == old(self).markers().push(MARKER_UNCHECKED),
            slot == old(self)@.len(),
    {
        proof {
            use_type_invariant(&*self);
        }
        let mut taken = InternPool::new();
        core::mem::swap(self, &mut taken);
        let InternPool { mut texts, mut markers, mut index } = taken;
        let ghost texts0 = texts@;
        let ghost markers0 = markers@;
        let ghost index0 = index@;
        let slot = texts.len();
        let owned = s.to_owned();
        let key = s.to_owned();
        texts.push(owned);
        markers.push(MARKER_UNCHECKED);
        index.insert(key, slot);
        proof {
            assert forall|k: Seq<char>| #[trigger] index@.contains_key(k) implies {
                &&& index@[k] < texts@.len()
                &&& texts@[index@[k] as int]@ == k
            } by {
                if k != s@ {
                    assert(index0.contains_key(k));
                }
            }
            assert forall|i: int| 0 <= i < texts@.len() implies {
                &&& index@.contains_key(#[trigger] texts@[i]@)
                &&& index@[texts@[i]@] == i
            } by {
                if i < slot {
                    assert(old(self)@[i] == texts@[i]@);
                }
            }
            assert forall|i: int| 0 <= i < texts@.len() implies marker_agrees(
                bytes_of(#[trigger] texts@[i]@),
                markers@[i],
            ) by {
                if i < slot {
                    assert(texts0[i] == texts@[i]);
                }
            }
        }
        *self = InternPool { texts, markers, index };
        assert(self@ =~= old(self)@.push(s@));
        slot
    }

    /// The slot of `s`, storing it first if the pool does not hold it.
    pub fn slot_of(&mut self, s: &str) -> (slot: usize)
        ensures
            final(self)@ == interned(old(self)@, s@),
            grows(old(self), final(self)),
            slot < final(self)@.len(),
            final(self)@[slot as int] == s@,
            old(self)@.contains(s@) ==> final(self).markers() == old(self).markers(),
            !old(self)@.contains(s@) ==> final(self).markers() == old(self).markers().push(
                MARKER_UNCHECKED,
            ),
    {
        match self.find(s) {
            Some(i) => {
                proof {
                    assert(self@.contains(s@));
                }
                i
            },
            None => self.insert_new(s),
        }
    }

    /// The content in `slot`.
    pub fn text(&self, slot: usize) -> (t: &str)
        requires
            slot < self@.len(),
        ensures
            t@ == self@[slot as int],
    {
        self.texts[slot].as_str()
    }

    /// The marker beside the content in `slot`.
    pub fn marker(&self, slot: usize) -> (m: u8)
        requires
            slot < self.markers().len(),
        ensures
            m == self.markers()[slot as int],
    {
        self.markers[slot]
    }

    /// Records `m` as the marker of `slot`; `m` must agree with its content.
    pub(crate) fn set_marker(&mut self, slot: usize, m: u8)
        requires
            slot < old(self)@.len(),
            marker_agrees(bytes_of(old(self)@[slot as int]), m),
        ensures
            final(self)@ == old(self)@,
            final(self).markers() == old(self).markers().update(slot as int, m),
            old(self).markers()[slot as int] == MARKER_UNCHECKED || m == old(self).markers()[
                slot as int] ==> grows(old(self), final(self)),
    {
        proof {
            use_type_invariant(&*self);
        }
        let mut taken = InternPool::new();
        core::mem::swap(self, &mut taken);
        let InternPool { texts, mut markers, index } = taken;
        markers.set(slot, m);
        proof {
            assert forall|i: int| 0 <= i < texts@.len() implies marker_agrees(
                bytes_of(#[trigger] texts@[i]@),
                markers@[i],
            ) by {
                if i == slot {
                    assert(old(self)@[slot as int] == texts@[i]@);
                }
            }
        }
        *self = InternPool { texts, markers, index };
        assert(self@ =~= old(self)@);
    }
}

/// Interning is idempotent and keeps contents distinct: interning a content
/// that was just interned changes nothing, every earlier content keeps its
/// slot, and the interned content is held.
pub proof fn lemma_interned(texts: Seq<Seq<char>>, s: Seq<char>)
    requires
        distinct(texts),
    ensures
        distinct(interned(texts, s)),
        interned(interned(texts, s), s) == interned(texts, s),
        interned(texts, s).contains(s),
        texts.len() <= interned(texts, s).len() <= texts.len() + 1,
        forall|i: int| 0 <= i < texts.len() ==> #[trigger] interned(texts, s)[i] == texts[i],
{
    let t = interned(texts, s);
    if !texts.contains(s) {
        assert(t[texts.len() as int] == s);
        assert forall|i: int, j: int|
            0 <= i < t.len() && 0 <= j < t.len() && i != j implies #[trigger] t[i]
            != #[trigger] t[j] by {
            if i == texts.len() {
                assert(texts[j] != s);
            } else if j == texts.len() {
                assert(texts[i] != s);
            }
        }
    }
    assert(t.contains(s));
}

} // verus!
