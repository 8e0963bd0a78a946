//! The quoted form that std's `Debug` gives a string, for the characters whose
//! treatment std fixes without its Unicode tables: printable ASCII, the
//! printable letters and signs of Latin-1 and Latin Extended-A, and the five
//! characters written with a backslash.

use vstd::prelude::*;

verus! {

/// A character that `Debug` writes as it is: printable ASCII other than `"`
/// and `\`, and U+00A1..=U+017F other than the soft hyphen U+00AD.
pub open spec fn debug_plain(c: char) -> bool {
    let u = c as u32;
    ||| (0x20 <= u <= 0x7e && c != '"' && c != '\\')
    ||| (0xa1 <= u <= 0x17f && u != 0xad)
}

/// A character that `Debug` writes as a backslash and a letter.
pub open spec fn debug_backslashed(c: char) -> bool {
    c == '"' || c == '\\' || c == '\n' || c == '\r' || c == '\t'
}

/// Every character of `s` is plain or backslashed.
pub open spec fn debug_known(s: Seq<char>) -> bool {
    forall|i: int| 0 <= i < s.len() ==> debug_plain(#[trigger] s[i]) || debug_backslashed(s[i])
}

/// How `Debug` writes one character inside a quoted string.
pub open spec fn escape_char(c: char) -> Seq<char> {
    if c == '"' {
        seq!['\\', '"']
    } else if c == '\\' {
        seq!['\\', '\\']
    } else if c == '\n' {
        seq!['\\', 'n']
    } else if c == '\r' {
        seq!['\\', 'r']
    } else if c == '\t' {
        seq!['\\', 't']
    } else {
        seq![c]
    }
}

/// The characters of `s`, each written as `escape_char` writes it.
pub open spec fn escape_text(s: Seq<char>) -> Seq<char>
    decreases s.len(),
{
    if s.len() == 0 {
        Seq::empty()
    } else {
        escape_char(s[0]) + escape_text(s.drop_first())
    }
}

/// `s` between double quotes, escaped.
pub open spec fn quoted(s: Seq<char>) -> Seq<char> {
    seq!['"'] + escape_text(s) + seq!['"']
}

/// Escaping distributes over concatenation.
pub proof fn lemma_escape_concat(a: Seq<char>, b: Seq<char>)
    ensures
        escape_text(a + b) == escape_text(a) + escape_text(b),
    decreases a.len(),
{
    if a.len() == 0 {
        assert(a + b =~= b);
        assert(escape_text(a) =~= Seq::<char>::empty());
        assert(escape_text(a) + escape_text(b) =~= escape_text(b));
    } else {
        assert((a + b).drop_first() =~= a.drop_first() + b);
        assert((a + b)[0] == a[0]);
        lemma_escape_concat(a.drop_first(), b);
        assert(escape_text(a + b) =~= escape_char(a[0]) + (escape_text(a.drop_first())
            + escape_text(b)));
    }
}

/// Text of plain characters is written unchanged.
pub proof fn lemma_escape_plain(s: Seq<char>)
    requires
        forall|i: int| 0 <= i < s.len() ==> debug_plain(#[trigger] s[i]),
    ensures
        escape_text(s) == s,
    decreases s.len(),
{
    if s.len() > 0 {
        lemma_escape_plain(s.drop_first());
        assert(escape_text(s) =~= seq![s[0]] + s.drop_first());
        assert(s =~= seq![s[0]] + s.drop_first());
    }
}

/// Escaping a single character.
proof fn lemma_escape_single(c: char)
    ensures
        escape_text(seq![c]) == escape_char(c),
{
    let e = seq![c].drop_first();
    assert(e.len() == 0);
    assert(escape_text(e) == Seq::<char>::empty());
    assert(seq![c][0] == c);
    assert(escape_char(c) + Seq::<char>::empty() =~= escape_char(c));
}

/// The first character written for `c` is `\` exactly when `c` is
/// backslashed, and then the second names it.
proof fn lemma_escape_char_shape(c: char)
    requires
        debug_plain(c) || debug_backslashed(c),
    ensures
        debug_plain(c) ==> escape_char(c) == seq![c] && c != '\\',
        debug_backslashed(c) ==> escape_char(c).len() == 2 && escape_char(c)[0] == '\\',
{
}

/// Escaping loses nothing: two escapable texts with the same escaped form are
/// the same text.
pub proof fn lemma_escape_injective(s: Seq<char>, t: Seq<char>)
    requires
        debug_known(s),
        debug_known(t),
        escape_text(s) == escape_text(t),
    ensures
        s == t,
    decreases s.len(),
{
    if s.len() == 0 {
        if t.len() > 0 {
            assert(t[0] == t[0]);
            assert(escape_text(t).len() >= 1);
        }
        assert(s =~= t);
    } else if t.len() == 0 {
        assert(s[0] == s[0]);
        assert(escape_text(s).len() >= 1);
    } else {
        let (a, b) = (s[0], t[0]);
        assert(debug_plain(a) || debug_backslashed(a));
        assert(debug_plain(b) || debug_backslashed(b));
        lemma_escape_char_shape(a);
        lemma_escape_char_shape(b);
        let es = escape_text(s);
        assert(es == escape_char(a) + escape_text(s.drop_first()));
        assert(es == escape_char(b) + escape_text(t.drop_first()));
        assert(es[0] == escape_char(a)[0]);
        assert(es[0] == escape_char(b)[0]);
        if debug_backslashed(a) {
            assert(es[1] == escape_char(a)[1]);
            assert(es[1] == escape_char(b)[1]);
        }
        assert(a == b);
        let n = escape_char(a).len() as int;
        assert(escape_text(s.drop_first()) =~= es.subrange(n, es.len() as int));
        assert(escape_text(t.drop_first()) =~= es.subrange(n, es.len() as int));
        assert forall|i: int| 0 <= i < s.drop_first().len() implies debug_plain(
            #[trigger] s.drop_first()[i],
        ) || debug_backslashed(s.drop_first()[i]) by {
            assert(s.drop_first()[i] == s[i + 1]);
        }
        assert forall|i: int| 0 <= i < t.drop_first().len() implies debug_plain(
            #[trigger] t.drop_first()[i],
        ) || debug_backslashed(t.drop_first()[i]) by {
            assert(t.drop_first()[i] == t[i + 1]);
        }
        lemma_escape_injective(s.drop_first(), t.drop_first());
        assert(s =~= seq![a] + s.drop_first());
        assert(t =~= seq![b] + t.drop_first());
    }
}

/// Whether `c` is plain, tested without spec-only operations.
fn is_plain(c: char) -> (b: bool)
    ensures
        b == debug_plain(c),
{
    let u = c as u32;
    (0x20 <= u && u <= 0x7e && c != '"' && c != '\\') || (0xa1 <= u && u <= 0x17f && u != 0xad)
}

/// The escape of a backslashed character.
fn backslash_escape(c: char) -> (r: Option<&'static str>)
    ensures
        match r {
            Some(e) => debug_backslashed(c) && e@ == escape_char(c),
            None => !debug_backslashed(c),
        },
{
    proof {
        reveal_strlit("\\\"");
        reveal_strlit("\\\\");
        reveal_strlit("\\n");
        reveal_strlit("\\r");
        reveal_strlit("\\t");
    }
    if c == '"' {
        Some("\\\"")
    } else if c == '\\' {
        Some("\\\\")
    } else if c == '\n' {
        Some("\\n")
    } else if c == '\r' {
        Some("\\r")
    } else if c == '\t' {
        Some("\\t")
    } else {
        None
    }
}

/// The quoted form of `s` when every character of it is plain or
/// backslashed; `None` otherwise.
pub fn quote_known(s: &str) -> (r: Option<String>)
    ensures
        match r {
            Some(q) => debug_known(s@) && q@ == quoted(s@),
            None => !debug_known(s@),
        },
{
    let n = s.unicode_len();
    let mut out = "\"".to_owned();
    proof {
        reveal_strlit("\"");
    }
    let mut run: usize = 0;
    let mut k: usize = 0;
    for c in it: s.chars()
        invariant
            it.seq() == s@,
            n == s@.len(),
            k == it.index(),
            run <= k <= n,
            out@ == seq!['"'] + escape_text(s@.subrange(0, run as int)),
            forall|i: int| run <= i < k ==> debug_plain(#[trigger] s@[i]),
            forall|i: int| 0 <= i < k ==> debug_plain(#[trigger] s@[i]) || debug_backslashed(s@[i]),
    {
        assert(c == s@[k as int]);
        if !is_plain(c) {
            match backslash_escape(c) {
                Some(e) => {
                    let plain = s.substring_char(run, k);
                    out.append(plain);
                    out.append(e);
                    proof {
                        let head = s@.subrange(0, run as int);
                        lemma_escape_plain(plain@);
                        lemma_escape_single(c);
                        lemma_escape_concat(head, plain@);
                        lemma_escape_concat(head + plain@, seq![c]);
                        assert(head + plain@ + seq![c] =~= s@.subrange(0, k + 1));
                    }
                    run = k + 1;
                },
                None => {
                    return None;
                },
            }
        }
        k = k + 1;
    }
    let plain = s.substring_char(run, n);
    out.append(plain);
    out.append("\"");
    proof {
        let head = s@.subrange(0, run as int);
        lemma_escape_plain(plain@);
        lemma_escape_concat(head, plain@);
        assert(head + plain@ =~= s@);
    }
    assert(out@ =~= quoted(s@));
    Some(out)
}

} // verus!
