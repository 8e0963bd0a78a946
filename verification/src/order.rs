//! Byte-wise order of contents, as `str`'s `Ord` orders them.

use vstd::prelude::*;
use core::cmp::Ordering;
use crate::bytes::{bytes_of, lemma_bytes_injective};
use crate::cstr::InternC;
use crate::intern::Intern;
use crate::pool::InternPool;

verus! {

/// `a` comes strictly before `b` in lexicographic byte order: at the first
/// position where they differ `a` has the smaller byte, or `a` is a proper
/// prefix of `b`.
pub open spec fn lex_lt(a: Seq<u8>, b: Seq<u8>) -> bool
    decreases a.len(),
{
    if a.len() == 0 {
        b.len() > 0
    } else if b.len() == 0 {
        false
    } else if a[0] != b[0] {
        a[0] < b[0]
    } else {
        lex_lt(a.drop_first(), b.drop_first())
    }
}

/// The order is irreflexive: no sequence comes before itself.
pub proof fn lemma_lex_irreflexive(a: Seq<u8>)
    ensures
        !lex_lt(a, a),
    decreases a.len(),
{
    if a.len() > 0 {
        lemma_lex_irreflexive(a.drop_first());
    }
}

/// The order is asymmetric: of two sequences at most one comes before the
/// other.
pub proof fn lemma_lex_asymmetric(a: Seq<u8>, b: Seq<u8>)
    ensures
        !(lex_lt(a, b) && lex_lt(b, a)),
    decreases a.len(),
{
    if a.len() > 0 && b.len() > 0 && a[0] == b[0] {
        lemma_lex_asymmetric(a.drop_first(), b.drop_first());
    }
}

/// The order is transitive.
pub proof fn lemma_lex_transitive(a: Seq<u8>, b: Seq<u8>, c: Seq<u8>)
    requires
        lex_lt(a, b),
        lex_lt(b, c),
    ensures
        lex_lt(a, c),
    decreases a.len(),
{
    if a.len() > 0 && b.len() > 0 && c.len() > 0 && a[0] == b[0] && b[0] == c[0] {
        lemma_lex_transitive(a.drop_first(), b.drop_first(), c.drop_first());
    }
}

/// The order is total: of two different sequences one comes before the other.
pub proof fn lemma_lex_total(a: Seq<u8>, b: Seq<u8>)
    requires
        a != b,
    ensures
        lex_lt(a, b) || lex_lt(b, a),
    decreases a.len(),
{
    if a.len() > 0 && b.len() > 0 && a[0] == b[0] {
        if a.drop_first() == b.drop_first() {
            assert(a =~= seq![a[0]] + a.drop_first());
            assert(b =~= seq![b[0]] + b.drop_first());
        }
        lemma_lex_total(a.drop_first(), b.drop_first());
    } else if a.len() == 0 && b.len() == 0 {
        assert(a =~= b);
    }
}

/// Two sequences that agree on their first `i` positions compare as their
/// tails from `i` on compare.
proof fn lemma_lex_skip(a: Seq<u8>, b: Seq<u8>, i: int)
    requires
        0 <= i <= a.len(),
        i <= b.len(),
        forall|j: int| 0 <= j < i ==> a[j] == b[j],
    ensures
        lex_lt(a, b) == lex_lt(a.skip(i), b.skip(i)),
    decreases i,
{
    if i > 0 {
        lemma_lex_skip(a.drop_first(), b.drop_first(), i - 1);
        assert(a.drop_first().skip(i - 1) =~= a.skip(i));
        assert(b.drop_first().skip(i - 1) =~= b.skip(i));
    } else {
        assert(a.skip(0) =~= a);
        assert(b.skip(0) =~= b);
    }
}

/// Once two sequences agree on their first `i` positions, position `i`
/// decides their order.
proof fn lemma_lex_decided_at(a: Seq<u8>, b: Seq<u8>, i: usize)
    requires
        i <= a.len(),
        i <= b.len(),
        forall|j: int| 0 <= j < i ==> a[j] == b[j],
    ensures
        i < a.len() && i < b.len() && a[i as int] != b[i as int] ==> {
            &&& lex_lt(a, b) == (a[i as int] < b[i as int])
            &&& lex_lt(b, a) == (b[i as int] < a[i as int])
        },
        i == a.len() && i < b.len() ==> lex_lt(a, b) && !lex_lt(b, a),
        i == b.len() && i < a.len() ==> lex_lt(b, a) && !lex_lt(a, b),
        i == a.len() && i == b.len() ==> a == b && !lex_lt(a, b),
{
    lemma_lex_skip(a, b, i as int);
    lemma_lex_skip(b, a, i as int);
    if i == a.len() && i == b.len() {
        assert(a =~= b);
        lemma_lex_irreflexive(a);
    }
}

/// Compares two byte strings in lexicographic order.
pub fn compare_bytes(a: &[u8], b: &[u8]) -> (r: Ordering)
    ensures
        r == Ordering::Less <==> lex_lt(a@, b@),
        r == Ordering::Equal <==> a@ == b@,
        r == Ordering::Greater <==> lex_lt(b@, a@),
{
    let mut i: usize = 0;
    while i < a.len() && i < b.len()
        invariant
            i <= a@.len(),
            i <= b@.len(),
            forall|j: int| 0 <= j < i ==> a@[j] == b@[j],
        decreases a@.len() - i,
    {
        if a[i] != b[i] {
            proof {
                lemma_lex_decided_at(a@, b@, i);
            }
            if a[i] < b[i] {
                return Ordering::Less;
            } else {
                return Ordering::Greater;
            }
        }
        i = i + 1;
    }
    proof {
        lemma_lex_decided_at(a@, b@, i);
    }
    if a.len() == b.len() {
        Ordering::Equal
    } else if i == a.len() {
        Ordering::Less
    } else {
        Ordering::Greater
    }
}

/// `a` comes before `b` in `pool`: the bytes of `a`'s content come before
/// those of `b`'s.
pub open spec fn intern_lt(pool: &InternPool, a: Intern, b: Intern) -> bool {
    lex_lt(bytes_of(a.content(pool)), bytes_of(b.content(pool)))
}

/// Handles of one pool are ordered strictly and totally, consistently with
/// `==`: of two handles exactly one comes first, unless they are equal.
pub proof fn lemma_intern_order(pool: &InternPool, a: Intern, b: Intern, c: Intern)
    requires
        pool.wf(),
        a.is_in(pool),
        b.is_in(pool),
        c.is_in(pool),
    ensures
        a == b ==> !intern_lt(pool, a, b) && !intern_lt(pool, b, a),
        a != b ==> intern_lt(pool, a, b) != intern_lt(pool, b, a),
        intern_lt(pool, a, b) && intern_lt(pool, b, c) ==> intern_lt(pool, a, c),
{
    pool.lemma_wf();
    lemma_bytes_injective(a.content(pool), b.content(pool));
    lemma_lex_irreflexive(bytes_of(a.content(pool)));
    lemma_lex_asymmetric(bytes_of(a.content(pool)), bytes_of(b.content(pool)));
    if a != b {
        lemma_intern_slot_content(pool, a, b);
        lemma_lex_total(bytes_of(a.content(pool)), bytes_of(b.content(pool)));
    }
    if intern_lt(pool, a, b) && intern_lt(pool, b, c) {
        lemma_lex_transitive(
            bytes_of(a.content(pool)),
            bytes_of(b.content(pool)),
            bytes_of(c.content(pool)),
        );
    }
}

/// Two handles of one pool are equal exactly when their contents are.
pub proof fn lemma_intern_slot_content(pool: &InternPool, a: Intern, b: Intern)
    requires
        pool.wf(),
        a.is_in(pool),
        b.is_in(pool),
    ensures
        a == b <==> a.content(pool) == b.content(pool),
{
    pool.lemma_wf();
    Intern::lemma_slot_determines(a, b);
    if a != b {
        assert(pool@[a.slot() as int] != pool@[b.slot() as int]);
    }
}

impl Intern {
    /// Compares the contents of two handles of `pool` byte by byte, as `str`
    /// compares; a handle compared with itself is equal at once.
    pub fn cmp(&self, other: &Intern, pool: &InternPool) -> (r: Ordering)
        requires
            self.is_in(pool),
            other.is_in(pool),
        ensures
            r == Ordering::Less <==> intern_lt(pool, *self, *other),
            r == Ordering::Equal <==> *self == *other,
            r == Ordering::Greater <==> intern_lt(pool, *other, *self),
    {
        proof {
            use_type_invariant(pool);
            lemma_intern_slot_content(pool, *self, *other);
            lemma_bytes_injective(self.content(pool), other.content(pool));
            lemma_lex_irreflexive(bytes_of(self.content(pool)));
        }
        if self.as_ptr() == other.as_ptr() {
            proof {
                Intern::lemma_slot_determines(*self, *other);
            }
            return Ordering::Equal;
        }
        compare_bytes(self.as_str(pool).as_bytes(), other.as_str(pool).as_bytes())
    }
}

impl InternC {
    /// Compares the contents of two handles of `pool` as [`Intern::cmp`] does.
    pub fn cmp(&self, other: &InternC, pool: &InternPool) -> (r: Ordering)
        requires
            self.handle().is_in(pool),
            other.handle().is_in(pool),
        ensures
            r == Ordering::Less <==> intern_lt(pool, self.handle(), other.handle()),
            r == Ordering::Equal <==> *self == *other,
            r == Ordering::Greater <==> intern_lt(pool, other.handle(), self.handle()),
    {
        proof {
            use_type_invariant(pool);
            InternC::lemma_handle_determines(*self, *other);
        }
        self.as_intern().cmp(&other.as_intern(), pool)
    }
}

} // verus!
