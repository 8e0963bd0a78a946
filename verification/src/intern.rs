//! The interned-string handle.

use vstd::prelude::*;
use crate::pool::{grows, interned, interned_markers, InternPool, MARKER_UNCHECKED};
use crate::text::{debug_tuple, debug_tuple_string, owned};

verus! {

/// A handle on a content stored in an [`InternPool`].
///
/// Two handles from one pool are equal exactly when their contents are equal.
/// [`Intern::debug_string`] gives the `Intern("…")` form of the content.
#[derive(Clone, Copy, PartialEq, Eq, Structural, Hash)]
pub struct Intern {
    slot: usize,
}

impl Intern {
    /// A slot is below `usize::MAX`, as every slot of a pool is.
    #[verifier::type_invariant]
    spec fn slot_in_range(&self) -> bool {
        self.slot < usize::MAX
    }

    /// The pool slot this handle names.
    pub closed spec fn slot(&self) -> nat {
        self.slot as nat
    }

    /// A handle is nothing but its slot.
    pub proof fn lemma_slot_determines(a: Intern, b: Intern)
        ensures
            a == b <==> a.slot() == b.slot(),
    {
    }

    /// The handle names a slot of `pool`.
    pub open spec fn is_in(&self, pool: &InternPool) -> bool {
        self.slot() < pool@.len()
    }

    /// The content this handle names in `pool`.
    pub open spec fn content(&self, pool: &InternPool) -> Seq<char> {
        pool@[self.slot() as int]
    }

    /// Interns `s`: the handle of the slot that holds `s`, storing it in a new
    /// slot if the pool does not hold it yet.
    pub fn intern(pool: &mut InternPool, s: &str) -> (r: Intern)
        ensures
            final(pool)@ == interned(old(pool)@, s@),
            grows(old(pool), final(pool)),
            r.is_in(final(pool)),
            r.content(final(pool)) == s@,
            old(pool)@.contains(s@) ==> final(pool).markers() == old(pool).markers(),
            !old(pool)@.contains(s@) ==> final(pool).markers() == old(pool).markers().push(
                MARKER_UNCHECKED,
            ),
    {
        let slot = pool.slot_of(s);
        proof {
            pool.lemma_len_bound();
        }
        Intern { slot }
    }

    /// The handle of `s` if the pool already holds it; the pool is not changed.
    pub fn lookup(pool: &InternPool, s: &str) -> (r: Option<Intern>)
        ensures
            match r {
                Some(h) => h.is_in(pool) && h.content(pool) == s@,
                None => !pool@.contains(s@),
            },
    {
        match pool.find(s) {
            Some(i) => {
                proof {
                    pool.lemma_len_bound();
                }
                Some(Intern { slot: i })
            },
            None => None,
        }
    }

    /// Interns `s` (see [`Intern::intern`]).
    pub fn new(pool: &mut InternPool, s: &str) -> (r: Intern)
        ensures
            final(pool)@ == interned(old(pool)@, s@),
            grows(old(pool), final(pool)),
            r.is_in(final(pool)),
            r.content(final(pool)) == s@,
            old(pool)@.contains(s@) ==> final(pool).markers() == old(pool).markers(),
            !old(pool)@.contains(s@) ==> final(pool).markers() == old(pool).markers().push(
                MARKER_UNCHECKED,
            ),
    {
        Self::intern(pool, s)
    }

    /// Interns a string that lives for the whole program.
    pub fn from_static(pool: &mut InternPool, s: &'static str) -> (r: Intern)
        ensures
            final(pool)@ == interned(old(pool)@, s@),
            grows(old(pool), final(pool)),
            r.is_in(final(pool)),
            r.content(final(pool)) == s@,
            old(pool)@.contains(s@) ==> final(pool).markers() == old(pool).markers(),
            !old(pool)@.contains(s@) ==> final(pool).markers() == old(pool).markers().push(
                MARKER_UNCHECKED,
            ),
    {
        Self::new(pool, s)
    }

    /// Interns the content of an owned string.
    pub fn from_string(pool: &mut InternPool, s: String) -> (r: Intern)
        ensures
            final(pool)@ == interned(old(pool)@, s@),
            grows(old(pool), final(pool)),
            final(pool).markers() == interned_markers(old(pool)@, old(pool).markers(), s@),
            r.is_in(final(pool)),
            r.content(final(pool)) == s@,
    {
        Self::new(pool, s.as_str())
    }

    /// Interns the content of a boxed string.
    pub fn from_box_str(pool: &mut InternPool, s: Box<str>) -> (r: Intern)
        ensures
            final(pool)@ == interned(old(pool)@, s@),
            grows(old(pool), final(pool)),
            final(pool).markers() == interned_markers(old(pool)@, old(pool).markers(), s@),
            r.is_in(final(pool)),
            r.content(final(pool)) == s@,
    {
        Self::new(pool, &*s)
    }

    /// Interning the content that a handle already names gives that handle
    /// back and leaves the pool's contents unchanged: whatever string value
    /// carries a content, interning it lands on the one slot of that content.
    pub proof fn lemma_reintern(pool: &InternPool, a: Intern, after: &InternPool, b: Intern)
        requires
            pool.wf(),
            a.is_in(pool),
            after.wf(),
            after@ == interned(pool@, a.content(pool)),
            b.is_in(after),
            b.content(after) == a.content(pool),
        ensures
            after@ == pool@,
            a == b,
            a.content(after) == a.content(pool),
    {
        assert(pool@.contains(a.content(pool)));
        after.lemma_wf();
        Intern::lemma_slot_determines(a, b);
        if a.slot() != b.slot() {
            assert(after@[a.slot() as int] == after@[b.slot() as int]);
        }
    }

    /// The slot number this handle names.
    pub(crate) fn slot_number(&self) -> (n: usize)
        ensures
            n == self.slot(),
    {
        self.slot
    }

    /// The content this handle names.
    pub fn as_str<'a>(&self, pool: &'a InternPool) -> (t: &'a str)
        requires
            self.is_in(pool),
        ensures
            t@ == self.content(pool),
    {
        pool.text(self.slot)
    }

    /// A non-zero identity of the slot this handle names (the slot number
    /// plus one): equal for two handles of one
    /// pool exactly when their contents are equal.
    pub fn as_ptr(&self) -> (p: usize)
        ensures
            p == self.slot() + 1,
            p != 0,
    {
        proof {
            use_type_invariant(self);
        }
        self.slot + 1
    }

    /// The handle of the content `default_intern`.
    pub fn default(pool: &mut InternPool) -> (r: Intern)
        ensures
            final(pool)@ == interned(old(pool)@, "default_intern"@),
            grows(old(pool), final(pool)),
            final(pool).markers() == interned_markers(
                old(pool)@,
                old(pool).markers(),
                "default_intern"@,
            ),
            r.is_in(final(pool)),
            r.content(final(pool)) == "default_intern"@,
    {
        Self::from_static(pool, "default_intern")
    }

    /// The marker that the pool keeps beside this handle's content (see
    /// [`crate::pool::marker_agrees`]).
    pub fn terminator(&self, pool: &InternPool) -> (m: u8)
        requires
            self.is_in(pool),
        ensures
            m == pool.markers()[self.slot() as int],
    {
        proof {
            use_type_invariant(pool);
            pool.lemma_wf();
        }
        pool.marker(self.slot)
    }

    /// The displayed form of the handle: its content.
    pub fn display_string(&self, pool: &InternPool) -> (r: String)
        requires
            self.is_in(pool),
        ensures
            r@ == self.content(pool),
    {
        owned(self.as_str(pool))
    }

    /// The debug form of the handle: `Intern("…")`, the content quoted as
    /// std's `Debug` for `str` quotes it.
    pub fn debug_string(&self, pool: &InternPool) -> (r: String)
        requires
            self.is_in(pool),
        ensures
            r@ == debug_tuple("Intern"@, self.content(pool)),
    {
        debug_tuple_string("Intern", self.as_str(pool))
    }
}

} // verus!
