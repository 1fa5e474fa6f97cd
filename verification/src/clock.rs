//! The wall clock.
use vstd::prelude::*;

verus! {

/// Every character of `t` is an ASCII digit.
pub open spec fn all_digits(t: Seq<char>) -> bool {
    forall|i: int| 0 <= i < t.len() ==> '0' <= #[trigger] t[i] <= '9'
}

/// The characters `t[from..to]` are ASCII digits.
pub open spec fn digits_between(t: Seq<char>, from: int, to: int) -> bool {
    all_digits(t.subrange(from, to))
}

/// `t` is an RFC 3339 UTC time whose year takes `y` characters and whose
/// fraction of a second takes `f`: a four-digit year (or `+` and more
/// digits), `-MM-DDTHH:MM:SS`, an optional fraction of three, six or nine
/// digits after a dot, and the offset `+00:00`.
pub open spec fn rfc3339_utc_parts(t: Seq<char>, y: int, f: int) -> bool {
    &&& t.len() == y + 15 + f + 6
    &&& ((y == 4 && digits_between(t, 0, 4)) || (y >= 5 && t[0] == '+' && digits_between(t, 1, y)))
    &&& t[y] == '-' && digits_between(t, y + 1, y + 3)
    &&& t[y + 3] == '-' && digits_between(t, y + 4, y + 6)
    &&& t[y + 6] == 'T' && digits_between(t, y + 7, y + 9)
    &&& t[y + 9] == ':' && digits_between(t, y + 10, y + 12)
    &&& t[y + 12] == ':' && digits_between(t, y + 13, y + 15)
    &&& (f == 0 || ((f == 4 || f == 7 || f == 10) && t[y + 15] == '.' && digits_between(t, y + 16, y + 15 + f)))
    &&& t.subrange(y + 15 + f, t.len() as int) == seq!['+', '0', '0', ':', '0', '0']
}

/// `t` is an RFC 3339 time in UTC, as `DateTime<Utc>::to_rfc3339` writes
/// one.
pub open spec fn is_rfc3339_utc(t: Seq<char>) -> bool {
    exists|y: int, f: int| #[trigger] rfc3339_utc_parts(t, y, f)
}

/// Calls `chrono::Utc::now` and `DateTime::to_rfc3339`: the current UTC
/// time as RFC 3339 text.  Which time it is depends on the moment of the
/// call; trusted only for the shape of the text, which is how chrono's
/// `write_rfc3339` writes a UTC time (automatic precision, offset `+00:00`).
#[verifier::external_body]
pub fn utc_now_rfc3339() -> (r: String)
    ensures
        is_rfc3339_utc(r@),
{
    chrono::Utc::now().to_rfc3339()
}

} // verus!
