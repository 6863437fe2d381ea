//! The order in which buckets are listed: by user, then by date. Dates are
//! compared as text, byte by byte, which for dates written year first is
//! the order of the calendar.

use vstd::prelude::*;
use vstd::string::StringSliceAdditionalSpecFns;
use vstd::utf8::{encode_utf8, encode_utf8_decode_utf8};

verus! {

/// Whether `a` comes before `b` in dictionary order, given that the two
/// agree before index `i`.
pub open spec fn lex_lt_from(a: Seq<u8>, b: Seq<u8>, i: int) -> bool
    decreases b.len() - i,
{
    if i < 0 || i >= b.len() {
        false
    } else if i >= a.len() {
        true
    } else if a[i] != b[i] {
        a[i] < b[i]
    } else {
        lex_lt_from(a, b, i + 1)
    }
}

/// Dictionary order on byte strings: a proper prefix comes first, and
/// otherwise the first byte that differs decides.
pub open spec fn lex_lt(a: Seq<u8>, b: Seq<u8>) -> bool {
    lex_lt_from(a, b, 0)
}

/// A bucket is named by its user and its date.
pub type Key = (int, Seq<char>);

/// The order of buckets: by user, and for one user by date.
pub open spec fn key_lt(a: Key, b: Key) -> bool {
    a.0 < b.0 || (a.0 == b.0 && lex_lt(encode_utf8(a.1), encode_utf8(b.1)))
}

/// No text comes before itself.
proof fn lex_irreflexive(a: Seq<u8>, i: int)
    ensures
        !lex_lt_from(a, a, i),
    decreases a.len() - i,
{
    if 0 <= i < a.len() {
        lex_irreflexive(a, i + 1);
    }
}

/// Dictionary order is transitive.
proof fn lex_transitive(a: Seq<u8>, b: Seq<u8>, c: Seq<u8>, i: int)
    requires
        lex_lt_from(a, b, i),
        lex_lt_from(b, c, i),
    ensures
        lex_lt_from(a, c, i),
    decreases c.len() - i,
{
    if i < a.len() && a[i] == b[i] && b[i] == c[i] {
        lex_transitive(a, b, c, i + 1);
    }
}

/// Two texts of which neither comes before the other are the same from the
/// index on up to which they are known to agree.
proof fn lex_total(a: Seq<u8>, b: Seq<u8>, i: int)
    requires
        0 <= i <= a.len(),
        i <= b.len(),
        !lex_lt_from(a, b, i),
        !lex_lt_from(b, a, i),
    ensures
        a.len() == b.len(),
        forall|k: int| i <= k < a.len() ==> a[k] == b[k],
    decreases a.len() - i,
{
    if i < a.len() && i < b.len() {
        lex_total(a, b, i + 1);
    }
}

/// No key comes before itself.
pub proof fn key_lt_irreflexive(a: Key)
    ensures
        !key_lt(a, a),
{
    lex_irreflexive(encode_utf8(a.1), 0);
}

/// A key that comes before a second, which comes before a third, comes
/// before the third.
pub proof fn key_lt_transitive(a: Key, b: Key, c: Key)
    requires
        key_lt(a, b),
        key_lt(b, c),
    ensures
        key_lt(a, c),
{
    if a.0 == b.0 && b.0 == c.0 {
        lex_transitive(encode_utf8(a.1), encode_utf8(b.1), encode_utf8(c.1), 0);
    }
}

/// Of two different keys one comes before the other.
pub proof fn key_lt_total(a: Key, b: Key)
    ensures
        key_lt(a, b) || key_lt(b, a) || a == b,
{
    if a.0 == b.0 && !key_lt(a, b) && !key_lt(b, a) {
        lex_total(encode_utf8(a.1), encode_utf8(b.1), 0);
        assert(encode_utf8(a.1) =~= encode_utf8(b.1));
        encode_utf8_decode_utf8(a.1);
        encode_utf8_decode_utf8(b.1);
        assert(a.1 == b.1);
    }
}

/// Compares two byte strings in dictionary order.
pub fn bytes_before(a: &[u8], b: &[u8]) -> (before: bool)
    ensures
        before == lex_lt(a@, b@),
{
    let mut i: usize = 0;
    while i < a.len() && i < b.len()
        invariant
            i <= a@.len(),
            i <= b@.len(),
            lex_lt(a@, b@) == lex_lt_from(a@, b@, i as int),
        decreases a@.len() - i,
    {
        if a[i] != b[i] {
            return a[i] < b[i];
        }
        i = i + 1;
    }
    i < b.len()
}

/// Whether the bucket of `user` on `date` is listed before that of
/// `other_user` on `other_date`.
pub fn key_before(user: i64, date: &str, other_user: i64, other_date: &str) -> (before: bool)
    ensures
        before == key_lt((user as int, date@), (other_user as int, other_date@)),
{
    if user != other_user {
        user < other_user
    } else {
        bytes_before(date.as_bytes(), other_date.as_bytes())
    }
}

} // verus!
