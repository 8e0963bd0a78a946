//! Interned strings that hold no NUL byte, fit to be handed to C.

use vstd::prelude::*;
use crate::bytes::{bytes_of, first_nul, is_first_nul, lemma_first_nul_unique, nul_free};
use crate::intern::Intern;
use crate::pool::{
    grows, interned, interned_markers, lemma_slot_index, slot_index, InternPool, MARKER_NUL_FREE, MARKER_POSITION_LIMIT, MARKER_UNCHECKED,
};
use crate::text::{debug_tuple, debug_tuple_string, decimal, owned, usize_decimal};

verus! {

/// The marker that settles what is known of the NUL bytes of `b`: `0` when
/// it holds none, the first NUL position plus one when that is below 254,
/// and `255` (nothing cached) otherwise.
pub open spec fn settled_marker(b: Seq<u8>) -> u8 {
    if nul_free(b) {
        MARKER_NUL_FREE
    } else {
        let p = choose|p: int| is_first_nul(b, p);
        if p < MARKER_POSITION_LIMIT {
            (p + 1) as u8
        } else {
            MARKER_UNCHECKED
        }
    }
}

/// `r` is what checking the handle `i`, whose content has the bytes `b`,
/// answers: the checked handle of the same slot when no byte is NUL, else the
/// position of the first NUL.
pub open spec fn check_verdict(b: Seq<u8>, i: Intern, r: Result<InternC, InteriorNulError>) -> bool {
    match r {
        Ok(c) => nul_free(b) && c.handle() == i,
        Err(e) => !nul_free(b) && is_first_nul(b, e.position() as int),
    }
}

/// The error of interning a string with a NUL byte as an [`InternC`].
#[derive(Clone, PartialEq, Eq, Structural, Debug)]
pub struct InteriorNulError(usize);

impl InteriorNulError {
    /// An error is nothing but its position.
    pub proof fn lemma_position_determines(a: InteriorNulError, b: InteriorNulError)
        ensures
            a == b <==> a.position() == b.position(),
    {
    }

    /// The byte position of the first NUL byte.
    pub closed spec fn position(&self) -> nat {
        self.0 as nat
    }

    /// Returns the byte position of the first interior null byte.
    pub fn nul_position(&self) -> (p: usize)
        ensures
            p == self.position(),
    {
        self.0
    }

    /// The error's message: `interior null byte at position N`.
    pub fn message(&self) -> (r: String)
        ensures
            r@ == "interior null byte at position "@ + decimal(self.position()),
    {
        let mut r = owned("interior null byte at position ");
        let n = usize_decimal(self.0);
        r.append(n.as_str());
        r
    }
}

/// An interned string guaranteed to contain no NUL byte.
///
/// It names a slot of the same pool as [`Intern`] handles do, so interning a
/// content as both gives one slot. [`InternC::debug_string`] gives the
/// `InternC("…")` form of the content.
#[derive(Clone, Copy, PartialEq, Eq, Structural, Hash)]
pub struct InternC(Intern);

impl InternC {
    /// The plain handle of the same slot.
    pub closed spec fn handle(&self) -> Intern {
        self.0
    }

    /// A checked handle is nothing but its plain handle.
    pub proof fn lemma_handle_determines(a: InternC, b: InternC)
        ensures
            a == b <==> a.handle() == b.handle(),
    {
    }

    /// The handle names a slot of `pool` whose marker records that its content
    /// holds no NUL byte.
    pub open spec fn is_valid_in(&self, pool: &InternPool) -> bool {
        &&& self.handle().is_in(pool)
        &&& pool.markers()[self.handle().slot() as int] == MARKER_NUL_FREE
    }

    /// The content this handle names in `pool`.
    pub open spec fn content(&self, pool: &InternPool) -> Seq<char> {
        self.handle().content(pool)
    }

    /// Checks that the content of `i` holds no NUL byte. The verdict is
    /// cached in the slot's marker, so that a later check of the same slot
    /// reads the marker instead of the bytes; only an unchecked marker is
    /// ever written.
    pub fn try_from(pool: &mut InternPool, i: Intern) -> (r: Result<InternC, InteriorNulError>)
        requires
            i.is_in(old(pool)),
        ensures
            final(pool)@ == old(pool)@,
            grows(old(pool), final(pool)),
            final(pool).markers() == old(pool).markers().update(
                i.slot() as int,
                settled_marker(bytes_of(i.content(old(pool)))),
            ),
            check_verdict(bytes_of(i.content(old(pool))), i, r),
            r matches Ok(c) ==> c.is_valid_in(final(pool)),
    {
        let ghost b = bytes_of(i.content(pool));
        proof {
            use_type_invariant(&*pool);
            pool.lemma_wf();
        }
        let m = i.terminator(pool);
        let slot = i.slot_number();
        if m == MARKER_NUL_FREE {
            assert(old(pool).markers().update(i.slot() as int, settled_marker(b)) =~= old(
                pool,
            ).markers());
            return Ok(InternC(i));
        }
        if m != MARKER_UNCHECKED {
            proof {
                lemma_first_nul_unique(b, (m - 1) as int, choose|p: int| is_first_nul(b, p));
            }
            assert(old(pool).markers().update(i.slot() as int, settled_marker(b)) =~= old(
                pool,
            ).markers());
            return Err(InteriorNulError((m - 1) as usize));
        }
        match first_nul(i.as_str(pool).as_bytes()) {
            Some(pos) => {
                proof {
                    lemma_first_nul_unique(b, pos as int, choose|p: int| is_first_nul(b, p));
                }
                if pos < MARKER_POSITION_LIMIT {
                    pool.set_marker(slot, (pos + 1) as u8);
                } else {
                    assert(old(pool).markers().update(i.slot() as int, settled_marker(b))
                        =~= old(pool).markers());
                }
                Err(InteriorNulError(pos))
            },
            None => {
                pool.set_marker(slot, MARKER_NUL_FREE);
                Ok(InternC(i))
            },
        }
    }

    /// Interns `s`, then checks it as [`InternC::try_from`] does. The string
    /// is interned whether or not it holds a NUL byte.
    pub fn try_new(pool: &mut InternPool, s: &str) -> (r: Result<InternC, InteriorNulError>)
        ensures
            final(pool)@ == interned(old(pool)@, s@),
            grows(old(pool), final(pool)),
            final(pool).markers() == interned_markers(old(pool)@, old(pool).markers(), s@).update(
                slot_index(final(pool)@, s@),
                settled_marker(bytes_of(s@)),
            ),
            match r {
                Ok(c) => {
                    &&& nul_free(bytes_of(s@))
                    &&& c.is_valid_in(final(pool))
                    &&& c.content(final(pool)) == s@
                },
                Err(e) => {
                    &&& !nul_free(bytes_of(s@))
                    &&& is_first_nul(bytes_of(s@), e.position() as int)
                },
            },
    {
        let i = Intern::intern(pool, s);
        proof {
            use_type_invariant(&*pool);
            pool.lemma_wf();
            lemma_slot_index(pool@, s@, i.slot() as int);
        }
        Self::try_from(pool, i)
    }

    /// Interns `s`, which must hold no NUL byte.
    pub fn new(pool: &mut InternPool, s: &str) -> (r: InternC)
        requires
            nul_free(bytes_of(s@)),
        ensures
            final(pool)@ == interned(old(pool)@, s@),
            grows(old(pool), final(pool)),
            final(pool).markers() == interned_markers(old(pool)@, old(pool).markers(), s@).update(
                slot_index(final(pool)@, s@),
                MARKER_NUL_FREE,
            ),
            r.is_valid_in(final(pool)),
            r.content(final(pool)) == s@,
    {
        let i = Intern::intern(pool, s);
        proof {
            use_type_invariant(&*pool);
            pool.lemma_wf();
            lemma_slot_index(pool@, s@, i.slot() as int);
        }
        match Self::try_from(pool, i) {
            Ok(c) => c,
            Err(_) => InternC(i),
        }
    }

    /// Interns a string that lives for the whole program; it must hold no NUL
    /// byte.
    pub fn from_static(pool: &mut InternPool, s: &'static str) -> (r: InternC)
        requires
            nul_free(bytes_of(s@)),
        ensures
            final(pool)@ == interned(old(pool)@, s@),
            grows(old(pool), final(pool)),
            final(pool).markers() == interned_markers(old(pool)@, old(pool).markers(), s@).update(
                slot_index(final(pool)@, s@),
                MARKER_NUL_FREE,
            ),
            r.is_valid_in(final(pool)),
            r.content(final(pool)) == s@,
    {
        Self::new(pool, s)
    }

    /// The content this handle names.
    pub fn as_str<'a>(&self, pool: &'a InternPool) -> (t: &'a str)
        requires
            self.handle().is_in(pool),
        ensures
            t@ == self.content(pool),
    {
        self.0.as_str(pool)
    }

    /// The non-zero identity of the slot this handle names (see
    /// [`Intern::as_ptr`]).
    pub fn as_ptr(&self) -> (p: usize)
        ensures
            p == self.handle().slot() + 1,
            p != 0,
    {
        self.0.as_ptr()
    }

    /// The plain handle of the same slot.
    pub fn as_intern(&self) -> (i: Intern)
        ensures
            i == self.handle(),
    {
        self.0
    }

    /// The content's bytes followed by the slot's marker, which is NUL for a
    /// checked handle: the NUL-terminated form of the content, whose only NUL
    /// is the last byte.
    pub fn to_bytes_with_nul(&self, pool: &InternPool) -> (r: Vec<u8>)
        requires
            self.is_valid_in(pool),
        ensures
            r@ == bytes_of(self.content(pool)).push(0u8),
            is_first_nul(r@, bytes_of(self.content(pool)).len() as int),
    {
        proof {
            use_type_invariant(pool);
            pool.lemma_wf();
        }
        let b = self.0.as_str(pool).as_bytes();
        let mut r: Vec<u8> = Vec::new();
        let mut k: usize = 0;
        while k < b.len()
            invariant
                k <= b@.len(),
                r@ == b@.subrange(0, k as int),
            decreases b@.len() - k,
        {
            r.push(b[k]);
            k = k + 1;
            assert(r@ =~= b@.subrange(0, k as int));
        }
        assert(r@ =~= b@);
        r.push(self.0.terminator(pool));
        r
    }

    /// The handle of the content `default_intern`.
    pub fn default(pool: &mut InternPool) -> (r: InternC)
        ensures
            final(pool)@ == interned(old(pool)@, "default_intern"@),
            grows(old(pool), final(pool)),
            final(pool).markers() == interned_markers(old(pool)@, old(pool).markers(), "default_intern"@).update(
                slot_index(final(pool)@, "default_intern"@),
                MARKER_NUL_FREE,
            ),

            r.is_valid_in(final(pool)),
            r.content(final(pool)) == "default_intern"@,
    {
        proof {
            reveal_strlit("default_intern");
            lemma_ascii_nul_free("default_intern"@);
        }
        Self::from_static(pool, "default_intern")
    }

    /// The displayed form of the handle: its content.
    pub fn display_string(&self, pool: &InternPool) -> (r: String)
        requires
            self.handle().is_in(pool),
        ensures
            r@ == self.content(pool),
    {
        self.0.display_string(pool)
    }

    /// The debug form of the handle: `InternC("…")`.
    pub fn debug_string(&self, pool: &InternPool) -> (r: String)
        requires
            self.handle().is_in(pool),
        ensures
            r@ == debug_tuple("InternC"@, self.content(pool)),
    {
        debug_tuple_string("InternC", self.as_str(pool))
    }
}

/// ASCII text without the NUL character has no NUL byte.
proof fn lemma_ascii_nul_free(s: Seq<char>)
    requires
        vstd::utf8::is_ascii_chars(s),
        forall|i: int| 0 <= i < s.len() ==> s[i] != '\0',
    ensures
        nul_free(bytes_of(s)),
{
    vstd::utf8::is_ascii_chars_encode_utf8(s);
    assert forall|i: int| 0 <= i < bytes_of(s).len() implies bytes_of(s)[i] != 0u8 by {
        let c = s[i];
        assert(c as u8 == bytes_of(s)[i]);
        assert('\0' < c <= '\u{7f}');
        let u = c as u32;
        assert(0 < u < 128);
    }
}

impl From<InternC> for Intern {
    fn from(c: InternC) -> (i: Intern) {
        c.0
    }
}

impl vstd::std_specs::convert::FromSpecImpl<InternC> for Intern {
    open spec fn obeys_from_spec() -> bool {
        true
    }

    open spec fn from_spec(v: InternC) -> Intern {
        v.handle()
    }
}

/// The answer of a check is decided by the content alone: whatever the
/// markers held before, two checks of one handle with one content answer the
/// same.
pub proof fn lemma_check_deterministic(
    b: Seq<u8>,
    i: Intern,
    r1: Result<InternC, InteriorNulError>,
    r2: Result<InternC, InteriorNulError>,
)
    requires
        check_verdict(b, i, r1),
        check_verdict(b, i, r2),
    ensures
        r1 == r2,
{
    match (r1, r2) {
        (Ok(c1), Ok(c2)) => {
            InternC::lemma_handle_determines(c1, c2);
        },
        (Err(e1), Err(e2)) => {
            lemma_first_nul_unique(b, e1.position() as int, e2.position() as int);
            InteriorNulError::lemma_position_determines(e1, e2);
        },
        _ => {},
    }
}

/// A checked handle stays checked as the pool grows.
pub proof fn lemma_checked_persists(old_pool: &InternPool, new_pool: &InternPool, c: InternC)
    requires
        old_pool.wf(),
        new_pool.wf(),
        grows(old_pool, new_pool),
        c.is_valid_in(old_pool),
    ensures
        c.is_valid_in(new_pool),
{
    old_pool.lemma_wf();
    new_pool.lemma_wf();
    let k = c.handle().slot() as int;
    assert(new_pool.markers()[k] == old_pool.markers()[k]);
}

/// The content of a checked handle holds no NUL byte, so checking its plain
/// handle again gives the checked handle back.
pub proof fn lemma_checked_is_nul_free(pool: &InternPool, c: InternC)
    requires
        pool.wf(),
        c.is_valid_in(pool),
    ensures
        nul_free(bytes_of(c.content(pool))),
        forall|r: Result<InternC, InteriorNulError>|
            check_verdict(bytes_of(c.content(pool)), c.handle(), r) ==> r == Ok::<
                InternC,
                InteriorNulError,
            >(c),
{
    pool.lemma_wf();
    assert forall|r: Result<InternC, InteriorNulError>|
        check_verdict(bytes_of(c.content(pool)), c.handle(), r) implies r == Ok::<
        InternC,
        InteriorNulError,
    >(c) by {
        if let Ok(c2) = r {
            InternC::lemma_handle_determines(c, c2);
        }
    }
}

} // verus!
