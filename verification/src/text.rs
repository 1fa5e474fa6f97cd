//! Character-level text operations used across the library.
use vstd::prelude::*;
use vstd::string::*;

verus! {

/// `needle` occurs in `hay` as a contiguous run of characters.
pub open spec fn has_run(hay: Seq<char>, needle: Seq<char>) -> bool {
    exists|i: int|
        0 <= i && i + needle.len() <= hay.len() && #[trigger] hay.subrange(i, i + needle.len())
            == needle
}

/// The characters of `s`, in order.
pub fn chars_of(s: &str) -> (r: Vec<char>)
    ensures
        r@ == s@,
{
    let n = s.unicode_len();
    let mut r: Vec<char> = Vec::new();
    let mut i: usize = 0;
    while i < n
        invariant
            n == s@.len(),
            i <= n,
            r@ == s@.subrange(0, i as int),
        decreases n - i,
    {
        r.push(s.get_char(i));
        i += 1;
        assert(r@ =~= s@.subrange(0, i as int));
    }
    assert(r@ =~= s@);
    r
}

/// Whether `a` and `b` hold the same characters.
pub fn same_text(a: &str, b: &str) -> (r: bool)
    ensures
        r == (a@ == b@),
{
    let x = chars_of(a);
    let y = chars_of(b);
    if x.len() != y.len() {
        return false;
    }
    let mut i: usize = 0;
    while i < x.len()
        invariant
            x@ == a@,
            y@ == b@,
            x.len() == y.len(),
            i <= x.len(),
            forall|j: int| 0 <= j < i ==> x@[j] == y@[j],
        decreases x.len() - i,
    {
        if x[i] != y[i] {
            return false;
        }
        i += 1;
    }
    assert(x@ =~= y@);
    true
}

/// Whether `needle` occurs in `hay`, as `str::contains` answers for a
/// string pattern.
pub fn contains_text(hay: &str, needle: &str) -> (r: bool)
    ensures
        r == has_run(hay@, needle@),
{
    let h = chars_of(hay);
    let n = chars_of(needle);
    if n.len() > h.len() {
        return false;
    }
    let last = h.len() - n.len();
    let mut i: usize = 0;
    while i <= last
        invariant
            h@ == hay@,
            n@ == needle@,
            last == h.len() - n.len(),
            n.len() <= h.len(),
            i <= last + 1,
            forall|j: int| 0 <= j < i ==> #[trigger] h@.subrange(j, j + n.len()) != n@,
        decreases last + 1 - i,
    {
        let mut k: usize = 0;
        let mut same = true;
        while k < n.len()
            invariant
                h@ == hay@,
                n@ == needle@,
                i <= last,
                last == h.len() - n.len(),
                k <= n.len(),
                same == (forall|m: int| 0 <= m < k ==> h@[i + m] == n@[m]),
            decreases n.len() - k,
        {
            if h[i + k] != n[k] {
                same = false;
            }
            k += 1;
        }
        if same {
            assert(h@.subrange(i as int, i + n.len()) =~= n@);
            return true;
        }
        let ghost m = choose|m: int| 0 <= m < n.len() && h@[i + m] != n@[m];
        assert(h@.subrange(i as int, i + n.len())[m] != n@[m]);
        i += 1;
    }
    false
}

/// `String::from_iter` over characters: the string made of `chars`.
#[verifier::external_body]
pub fn string_from_chars(chars: &Vec<char>) -> (r: String)
    ensures
        r@ == chars@,
{
    chars.iter().collect()
}

/// The decimal digits of `n`, most significant first.
pub open spec fn digits(n: nat) -> Seq<char>
    decreases n,
{
    if n < 10 {
        seq![digit_char(n)]
    } else {
        digits(n / 10).push(digit_char(n % 10))
    }
}

/// The ASCII digit for `d < 10`.
pub open spec fn digit_char(d: nat) -> char {
    (48 + d) as char
}

/// An integer written in decimal, with a leading `-` when negative.
pub open spec fn decimal(n: int) -> Seq<char> {
    if n < 0 {
        seq!['-'] + digits((-n) as nat)
    } else {
        digits(n as nat)
    }
}

/// The number a run of decimal digits stands for.
pub open spec fn digits_value(s: Seq<char>) -> int
    decreases s.len(),
{
    if s.len() == 0 {
        0
    } else {
        digits_value(s.drop_last()) * 10 + ((s.last() as int) - 48)
    }
}

/// The integer a decimal text stands for: a leading `-` negates the digits
/// that follow.
pub open spec fn decimal_value(s: Seq<char>) -> int {
    if s.len() > 0 && s[0] == '-' {
        -digits_value(s.drop_first())
    } else {
        digits_value(s)
    }
}

/// The digits of `n` are ASCII digits, at least one, and read back as `n`.
pub proof fn digits_read_back(n: nat)
    ensures
        digits(n).len() > 0,
        forall|i: int| 0 <= i < digits(n).len() ==> '0' <= #[trigger] digits(n)[i] <= '9',
        digits_value(digits(n)) == n,
    decreases n,
{
    let d = (n % 10) as nat;
    assert((digit_char(d) as int) == 48 + d);
    if n >= 10 {
        digits_read_back(n / 10);
        let s = digits(n);
        assert(s == digits(n / 10).push(digit_char(d)));
        assert(s.drop_last() =~= digits(n / 10));
        assert forall|i: int| 0 <= i < s.len() implies '0' <= #[trigger] s[i] <= '9' by {
            if i < s.len() - 1 {
                assert(s[i] == digits(n / 10)[i]);
            }
        }
        assert(digits_value(s) == (n / 10) * 10 + d);
        assert((n / 10) * 10 + d == n);
    } else {
        assert(digits(n).drop_last() =~= Seq::<char>::empty());
        assert(digits(n).last() == digit_char(d));
        assert(digits_value(Seq::<char>::empty()) == 0);
        assert(d == n);
    }
}

/// Writing an integer in decimal and reading the text back gives the same
/// integer: the text is exactly the integer's value.
pub proof fn decimal_read_back(n: int)
    ensures
        decimal_value(decimal(n)) == n,
{
    if n < 0 {
        let m = (-n) as nat;
        digits_read_back(m);
        assert((seq!['-'] + digits(m)).drop_first() =~= digits(m));
    } else {
        digits_read_back(n as nat);
        assert(digits(n as nat)[0] != '-');
    }
}

fn push_digits(n: u64, out: &mut Vec<char>)
    ensures
        final(out)@ == old(out)@ + digits(n as nat),
    decreases n,
{
    if n >= 10 {
        push_digits(n / 10, out);
    }
    let d: u8 = (n % 10) as u8;
    let c: char = (48u8 + d) as char;
    out.push(c);
    proof {
        assert(c == digit_char((n % 10) as nat));
        if n >= 10 {
            assert(digits(n as nat) == digits((n / 10) as nat).push(digit_char((n % 10) as nat)));
        }
    }
}

/// `n` written in decimal.
pub fn unsigned_decimal(n: u64) -> (r: String)
    ensures
        r@ == decimal(n as int),
{
    let mut v: Vec<char> = Vec::new();
    push_digits(n, &mut v);
    assert(v@ =~= digits(n as nat));
    string_from_chars(&v)
}

/// `n` written in decimal, with a leading `-` when negative.
pub fn signed_decimal(n: i64) -> (r: String)
    ensures
        r@ == decimal(n as int),
{
    let mut v: Vec<char> = Vec::new();
    if n < 0 {
        v.push('-');
        let m: u64 = (-(n as i128)) as u64;
        push_digits(m, &mut v);
        assert(v@ =~= seq!['-'] + digits((-n) as nat));
    } else {
        push_digits(n as u64, &mut v);
        assert(v@ =~= digits(n as nat));
    }
    string_from_chars(&v)
}

/// `a` and `b` agree on their first `n` characters.
pub open spec fn agree_upto(a: Seq<char>, b: Seq<char>, n: int) -> bool {
    forall|k: int| 0 <= k < n ==> #[trigger] a[k] == #[trigger] b[k]
}

/// `a` comes before `b` in the order of `String`: the first character where
/// they differ is smaller in `a` (by code point, which orders UTF-8 bytes
/// the same way), or `a` is a proper prefix of `b`.
pub open spec fn text_lt(a: Seq<char>, b: Seq<char>) -> bool {
    exists|i: int|
        0 <= i <= a.len() && i <= b.len() && agree_upto(a, b, i) && #[trigger] splits_before(a, b, i)
}

/// At position `i`, `a` ends while `b` goes on, or `a` has the smaller
/// character.
pub open spec fn splits_before(a: Seq<char>, b: Seq<char>, i: int) -> bool {
    if i == a.len() {
        i < b.len()
    } else {
        i < b.len() && a[i] < b[i]
    }
}

/// No text comes before itself.
pub proof fn text_lt_irreflexive(a: Seq<char>)
    ensures
        !text_lt(a, a),
{
}

/// The order of texts is transitive.
pub proof fn text_lt_transitive(a: Seq<char>, b: Seq<char>, c: Seq<char>)
    requires
        text_lt(a, b),
        text_lt(b, c),
    ensures
        text_lt(a, c),
{
    let i = choose|i: int| 0 <= i <= a.len() && i <= b.len() && agree_upto(a, b, i) && #[trigger] splits_before(a, b, i);
    let j = choose|j: int| 0 <= j <= b.len() && j <= c.len() && agree_upto(b, c, j) && #[trigger] splits_before(b, c, j);
    let m = if i < j { i } else { j };
    assert forall|k: int| 0 <= k < m implies #[trigger] a[k] == #[trigger] c[k] by {
        assert(a[k] == b[k]);
        assert(b[k] == c[k]);
    }
    if i < j {
        assert(b[i] == c[i]);
        assert(splits_before(a, c, i));
    } else if j < i {
        assert(a[j] == b[j]);
        assert(splits_before(a, c, j));
    } else {
        assert(splits_before(a, c, i));
    }
}

/// Of two different texts, one comes before the other.
pub proof fn text_lt_total(a: Seq<char>, b: Seq<char>)
    requires
        a != b,
    ensures
        text_lt(a, b) || text_lt(b, a),
{
    first_difference(a, b, 0);
}

proof fn first_difference(a: Seq<char>, b: Seq<char>, i: int)
    requires
        a != b,
        0 <= i <= a.len(),
        i <= b.len(),
        agree_upto(a, b, i),
    ensures
        text_lt(a, b) || text_lt(b, a),
    decreases a.len() - i,
{
    if i == a.len() || i == b.len() {
        if i == a.len() && i == b.len() {
            assert(a =~= b);
        } else if i == a.len() {
            assert(splits_before(a, b, i));
        } else {
            assert(agree_upto(b, a, i));
            assert(splits_before(b, a, i));
        }
    } else if a[i] == b[i] {
        assert(agree_upto(a, b, i + 1));
        first_difference(a, b, i + 1);
    } else if a[i] < b[i] {
        assert(splits_before(a, b, i));
    } else {
        assert(agree_upto(b, a, i));
        assert(splits_before(b, a, i));
    }
}

/// How two texts compare.
#[derive(Debug, Clone, Copy, PartialEq, Eq, Structural)]
pub enum TextOrder {
    Less,
    Equal,
    Greater,
}

/// How `a` compares with `b` in the order of `String`.
pub fn compare_text(a: &Vec<char>, b: &Vec<char>) -> (r: TextOrder)
    ensures
        r == TextOrder::Less <==> text_lt(a@, b@),
        r == TextOrder::Greater <==> text_lt(b@, a@),
        r == TextOrder::Equal <==> a@ == b@,
{
    let n = if a.len() <= b.len() { a.len() } else { b.len() };
    let mut i: usize = 0;
    while i < n && a[i] == b[i]
        invariant
            n <= a.len(),
            n <= b.len(),
            i <= n,
            agree_upto(a@, b@, i as int),
        decreases n - i,
    {
        i += 1;
    }
    proof {
        assert(agree_upto(b@, a@, i as int));
        text_lt_irreflexive(a@);
        if text_lt(a@, b@) && text_lt(b@, a@) {
            text_lt_transitive(a@, b@, a@);
        }
    }
    if i < n {
        if a[i] < b[i] {
            assert(splits_before(a@, b@, i as int));
            TextOrder::Less
        } else {
            assert(splits_before(b@, a@, i as int));
            TextOrder::Greater
        }
    } else if a.len() < b.len() {
        assert(splits_before(a@, b@, i as int));
        TextOrder::Less
    } else if b.len() < a.len() {
        assert(splits_before(b@, a@, i as int));
        TextOrder::Greater
    } else {
        assert(a@ =~= b@);
        TextOrder::Equal
    }
}

} // verus!
