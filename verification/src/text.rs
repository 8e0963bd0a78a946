//! Renderings of contents as text, for display and for debugging.

use vstd::prelude::*;
use crate::escape::{debug_known, debug_plain, escape_text, lemma_escape_injective, lemma_escape_plain, quote_known, quoted};

verus! {

/// The text that std's `Debug` writes for a string with content `s`: the
/// content between double quotes, with quotes, backslashes and non-printable
/// characters escaped.
pub uninterp spec fn debug_quoted(s: Seq<char>) -> Seq<char>;

/// The decimal digits of `n`, most significant first, without leading zeros
/// (`"0"` for zero).
pub open spec fn decimal(n: nat) -> Seq<char>
    decreases n,
{
    if n < 10 {
        seq![digit(n)]
    } else {
        decimal(n / 10) + seq![digit(n % 10)]
    }
}

/// The character of the decimal digit `d`.
pub open spec fn digit(d: nat) -> char {
    if d == 0 { '0' }
    else if d == 1 { '1' }
    else if d == 2 { '2' }
    else if d == 3 { '3' }
    else if d == 4 { '4' }
    else if d == 5 { '5' }
    else if d == 6 { '6' }
    else if d == 7 { '7' }
    else if d == 8 { '8' }
    else { '9' }
}

/// Calls std's `Debug` formatting of `str` (`format!("{:?}", s)`); its
/// result is named by `debug_quoted`, which nothing here defines further.
#[verifier::external_body]
pub(crate) fn quote_debug(s: &str) -> (r: String)
    ensures
        r@ == debug_quoted(s@),
{
    format!("{:?}", s)
}

/// Calls std's `ToString` on a `usize`, which std documents as the decimal
/// representation of the number.
#[verifier::external_body]
pub(crate) fn usize_decimal(n: usize) -> (r: String)
    ensures
        r@ == decimal(n as nat),
{
    n.to_string()
}

/// The string with content `s`.
pub(crate) fn owned(s: &str) -> (r: String)
    ensures
        r@ == s@,
{
    s.to_owned()
}

/// The text that `Debug` writes for a string with content `content`: the
/// content quoted and escaped as [`quoted`] says where every character is
/// plain or backslashed, std's own form otherwise.
pub open spec fn debug_form(content: Seq<char>) -> Seq<char> {
    if debug_known(content) {
        quoted(content)
    } else {
        debug_quoted(content)
    }
}

/// `name(` + the debug form of `content` + `)`, as std's tuple-struct
/// `Debug` writes a one-field value named `name`.
pub open spec fn debug_tuple(name: Seq<char>, content: Seq<char>) -> Seq<char> {
    name + seq!['('] + debug_form(content) + seq![')']
}

/// A content of plain characters is written between double quotes exactly
/// as it is: `name("content")`.
pub proof fn lemma_debug_tuple_plain(name: Seq<char>, content: Seq<char>)
    requires
        forall|i: int| 0 <= i < content.len() ==> debug_plain(#[trigger] content[i]),
    ensures
        debug_tuple(name, content) == name + seq!['(', '"'] + content + seq!['"', ')'],
{
    lemma_escape_plain(content);
    assert(debug_known(content));
    assert(debug_tuple(name, content) =~= name + seq!['(', '"'] + content + seq!['"', ')']);
}

/// The debug form tells contents apart: two contents of plain or backslashed
/// characters with the same debug form under one name are the same content.
pub proof fn lemma_debug_tuple_injective(name: Seq<char>, s: Seq<char>, t: Seq<char>)
    requires
        debug_known(s),
        debug_known(t),
        debug_tuple(name, s) == debug_tuple(name, t),
    ensures
        s == t,
{
    let ds = debug_tuple(name, s);
    let n = name.len() as int;
    assert(escape_text(s) =~= ds.subrange(n + 2, ds.len() - 2));
    assert(escape_text(t) =~= ds.subrange(n + 2, ds.len() - 2));
    lemma_escape_injective(s, t);
}

/// `name(` + `quoted` + `)`: the tuple-struct form around a content that is
/// already quoted.
pub fn wrap_tuple(name: &str, quoted: &str) -> (r: String)
    ensures
        r@ == name@ + seq!['('] + quoted@ + seq![')'],
{
    let mut r = name.to_owned();
    r.append("(");
    r.append(quoted);
    r.append(")");
    proof {
        reveal_strlit("(");
        reveal_strlit(")");
    }
    assert(r@ =~= name@ + seq!['('] + quoted@ + seq![')']);
    r
}

/// Writes `debug_tuple(name, content)`.
pub(crate) fn debug_tuple_string(name: &str, content: &str) -> (r: String)
    ensures
        r@ == debug_tuple(name@, content@),
{
    match quote_known(content) {
        Some(q) => wrap_tuple(name, q.as_str()),
        None => {
            let q = quote_debug(content);
            wrap_tuple(name, q.as_str())
        },
    }
}

} // verus!
