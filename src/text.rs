//! String helpers: case folding and trimming as std defines them, substring
//! tests, decimal numerals and the byte-wise order of strings.

use vstd::prelude::*;
use vstd::string::*;

verus! {

/// The characters of each string in turn.
pub open spec fn strs(v: Seq<String>) -> Seq<Seq<char>> {
    v.map_values(|s: String| s@)
}

/// The characters of an optional string.
pub open spec fn opt_str(o: Option<String>) -> Option<Seq<char>> {
    match o {
        Some(s) => Some(s@),
        None => None,
    }
}

/// A copy of an optional string.
pub fn copy_opt(o: &Option<String>) -> (r: Option<String>)
    ensures
        opt_str(r) == opt_str(*o),
{
    match o {
        Some(s) => Some(s.clone()),
        None => None,
    }
}

/// What `str::trim` leaves of a string.
pub uninterp spec fn trim_of(s: Seq<char>) -> Seq<char>;

/// What `str::to_lowercase` makes of a string.
pub uninterp spec fn lower_of(s: Seq<char>) -> Seq<char>;

/// What `str::to_uppercase` makes of a string.
pub uninterp spec fn upper_of(s: Seq<char>) -> Seq<char>;

/// Relies on `str::trim`: the result depends on the characters alone.
#[verifier::external_body]
pub(crate) fn trimmed(s: &str) -> (r: String)
    ensures
        r@ == trim_of(s@),
{
    s.trim().to_string()
}

/// Relies on `str::to_lowercase`: the result depends on the characters alone.
#[verifier::external_body]
pub(crate) fn lowercase(s: &str) -> (r: String)
    ensures
        r@ == lower_of(s@),
{
    s.to_lowercase()
}

/// Relies on `str::to_uppercase`: the result depends on the characters alone.
#[verifier::external_body]
pub(crate) fn uppercase(s: &str) -> (r: String)
    ensures
        r@ == upper_of(s@),
{
    s.to_uppercase()
}

/// `needle` occurs as a contiguous run of characters in `hay`.
pub open spec fn is_substring(needle: Seq<char>, hay: Seq<char>) -> bool {
    exists|i: int|
        0 <= i && i + needle.len() <= hay.len() && #[trigger] hay.subrange(i, i + needle.len())
            == needle
}

/// Whether `s` begins with `prefix`.
pub fn has_prefix(s: &str, prefix: &str) -> (r: bool)
    ensures
        r == (prefix@.len() <= s@.len() && s@.subrange(0, prefix@.len() as int) == prefix@),
{
    let n = s.unicode_len();
    let m = prefix.unicode_len();
    if m > n {
        return false;
    }
    let mut i: usize = 0;
    while i < m
        invariant
            n == s@.len(),
            m == prefix@.len(),
            m <= n,
            i <= m,
            forall|j: int| 0 <= j < i ==> s@[j] == prefix@[j],
        decreases m - i,
    {
        if s.get_char(i) != prefix.get_char(i) {
            assert(s@.subrange(0, m as int)[i as int] != prefix@[i as int]);
            return false;
        }
        i = i + 1;
    }
    assert(s@.subrange(0, m as int) =~= prefix@);
    true
}

/// Whether `needle` occurs in `hay`, as `str::contains` with a `&str`
/// pattern answers it.
pub fn contains_str(hay: &str, needle: &str) -> (r: bool)
    ensures
        r == is_substring(needle@, hay@),
{
    let n = hay.unicode_len();
    let m = needle.unicode_len();
    if m > n {
        return false;
    }
    if m == 0 {
        assert(hay@.subrange(0, 0 + needle@.len() as int) =~= needle@);
        return true;
    }
    let mut i: usize = 0;
    while i <= n - m
        invariant
            n == hay@.len(),
            m == needle@.len(),
            0 < m <= n,
            i <= n - m + 1,
            forall|j: int| 0 <= j < i ==> #[trigger] hay@.subrange(j, j + m) != needle@,
        decreases n - m + 1 - i,
    {
        let rest = hay.substring_char(i, n);
        if has_prefix(rest, needle) {
            assert(rest@.subrange(0, m as int) =~= hay@.subrange(i as int, i + m));
            return true;
        }
        assert(rest@.subrange(0, m as int) =~= hay@.subrange(i as int, i + m));
        i = i + 1;
    }
    false
}

/// The string consisting of the single character `c`.
pub open spec fn single(c: char) -> Seq<char> {
    seq![c]
}

/// Whether `s` is the one-character string `c`.
pub fn is_single_char(s: &str, c: char) -> (r: bool)
    ensures
        r == (s@ == single(c)),
{
    let n = s.unicode_len();
    if n != 1 {
        proof {
            if s@ == single(c) {
                assert(s@.len() == 1);
            }
        }
        return false;
    }
    let first = s.get_char(0);
    proof {
        if first == c {
            assert(s@ =~= single(c));
        }
    }
    first == c
}

/// Whether `s` begins with the character `c`.
pub fn starts_with_char(s: &str, c: char) -> (r: bool)
    ensures
        r == (s@.len() > 0 && s@[0] == c),
{
    let n = s.unicode_len();
    if n == 0 {
        false
    } else {
        s.get_char(0) == c
    }
}

/// The digit character of a value below ten.
pub open spec fn digit_char(d: nat) -> char {
    if d == 0 {
        '0'
    } else if d == 1 {
        '1'
    } else if d == 2 {
        '2'
    } else if d == 3 {
        '3'
    } else if d == 4 {
        '4'
    } else if d == 5 {
        '5'
    } else if d == 6 {
        '6'
    } else if d == 7 {
        '7'
    } else if d == 8 {
        '8'
    } else {
        '9'
    }
}

/// The value of a digit character, if it is one.
pub open spec fn digit_value(c: char) -> Option<nat> {
    if c == '0' {
        Some(0)
    } else if c == '1' {
        Some(1)
    } else if c == '2' {
        Some(2)
    } else if c == '3' {
        Some(3)
    } else if c == '4' {
        Some(4)
    } else if c == '5' {
        Some(5)
    } else if c == '6' {
        Some(6)
    } else if c == '7' {
        Some(7)
    } else if c == '8' {
        Some(8)
    } else if c == '9' {
        Some(9)
    } else {
        None
    }
}

/// The decimal numeral of `n`, without sign or leading zeros.
pub open spec fn decimal(n: nat) -> Seq<char>
    decreases n,
{
    if n < 10 {
        seq![digit_char(n)]
    } else {
        decimal(n / 10).push(digit_char(n % 10))
    }
}

/// All characters of `s` are decimal digits.
pub open spec fn all_digits(s: Seq<char>) -> bool {
    forall|i: int| 0 <= i < s.len() ==> (#[trigger] digit_value(s[i])) is Some
}

/// The value of a run of digits, most significant first.
pub open spec fn digits_value(s: Seq<char>) -> nat
    decreases s.len(),
{
    if s.len() == 0 {
        0
    } else {
        digits_value(s.drop_last()) * 10 + digit_value(s.last()).unwrap_or(0)
    }
}

/// The number a non-empty run of digits denotes; `None` for anything else.
pub open spec fn parse_decimal(s: Seq<char>) -> Option<nat> {
    if s.len() > 0 && all_digits(s) {
        Some(digits_value(s))
    } else {
        None
    }
}

proof fn lemma_digit_round_trip(d: nat)
    requires
        d < 10,
    ensures
        digit_value(digit_char(d)) == Some(d),
{
}

proof fn lemma_decimal_digits(n: nat)
    ensures
        decimal(n).len() > 0,
        all_digits(decimal(n)),
        digits_value(decimal(n)) == n,
    decreases n,
{
    if n < 10 {
        lemma_digit_round_trip(n);
        assert(decimal(n).drop_last() =~= Seq::<char>::empty());
        assert(digits_value(Seq::<char>::empty()) == 0);
        assert(digits_value(decimal(n)) == n);
    } else {
        lemma_decimal_digits(n / 10);
        lemma_digit_round_trip(n % 10);
        let s = decimal(n);
        assert(s.drop_last() =~= decimal(n / 10));
        assert forall|i: int| 0 <= i < s.len() implies (#[trigger] digit_value(s[i])) is Some by {
            if i < s.len() - 1 {
                assert(s[i] == decimal(n / 10)[i]);
            }
        }
        assert(s.last() == digit_char(n % 10));
        assert(digits_value(s) == digits_value(decimal(n / 10)) * 10 + n % 10);
        assert(n == (n / 10) * 10 + n % 10) by (nonlinear_arith);
    }
}

/// A decimal numeral reads back as the number it was made from.
pub proof fn lemma_decimal_round_trip(n: nat)
    ensures
        parse_decimal(decimal(n)) == Some(n),
{
    lemma_decimal_digits(n);
}

fn digit_str(d: u64) -> (r: &'static str)
    requires
        d < 10,
    ensures
        r@ == seq![digit_char(d as nat)],
{
    if d == 0 {
        proof { reveal_strlit("0"); }
        "0"
    } else if d == 1 {
        proof { reveal_strlit("1"); }
        "1"
    } else if d == 2 {
        proof { reveal_strlit("2"); }
        "2"
    } else if d == 3 {
        proof { reveal_strlit("3"); }
        "3"
    } else if d == 4 {
        proof { reveal_strlit("4"); }
        "4"
    } else if d == 5 {
        proof { reveal_strlit("5"); }
        "5"
    } else if d == 6 {
        proof { reveal_strlit("6"); }
        "6"
    } else if d == 7 {
        proof { reveal_strlit("7"); }
        "7"
    } else if d == 8 {
        proof { reveal_strlit("8"); }
        "8"
    } else {
        proof { reveal_strlit("9"); }
        "9"
    }
}

/// The decimal numeral of `n`.
pub fn decimal_string(n: u64) -> (r: String)
    ensures
        r@ == decimal(n as nat),
    decreases n,
{
    if n < 10 {
        String::from_str(digit_str(n))
    } else {
        let mut s = decimal_string(n / 10);
        s.append(digit_str(n % 10));
        s
    }
}

/// Reads a non-empty run of decimal digits; `None` where the text is no
/// such run or its value does not fit in 64 bits.
pub fn parse_u64(s: &str) -> (r: Option<u64>)
    ensures
        r matches Some(v) ==> parse_decimal(s@) == Some(v as nat),
        parse_decimal(s@) matches Some(n) ==> (n <= u64::MAX <==> r == Some(n as u64)),
{
    let n = s.unicode_len();
    if n == 0 {
        return None;
    }
    let mut acc: u64 = 0;
    let mut i: usize = 0;
    while i < n
        invariant
            n == s@.len(),
            i <= n,
            acc as nat == digits_value(s@.subrange(0, i as int)),
            all_digits(s@.subrange(0, i as int)),
        decreases n - i,
    {
        let c = s.get_char(i);
        let d: u64 = if c == '0' {
            0
        } else if c == '1' {
            1
        } else if c == '2' {
            2
        } else if c == '3' {
            3
        } else if c == '4' {
            4
        } else if c == '5' {
            5
        } else if c == '6' {
            6
        } else if c == '7' {
            7
        } else if c == '8' {
            8
        } else if c == '9' {
            9
        } else {
            proof {
                assert(digit_value(s@[i as int]) is None);
            }
            return None;
        };
        let ghost next = s@.subrange(0, i + 1);
        proof {
            assert(next.drop_last() =~= s@.subrange(0, i as int));
            assert(next.last() == c);
            assert(digits_value(next) == digits_value(s@.subrange(0, i as int)) * 10 + d);
        }
        if acc > (u64::MAX - d) / 10 {
            proof {
                assert(acc * 10 + d > u64::MAX) by (nonlinear_arith)
                    requires
                        acc > (u64::MAX - d) / 10,
                        d < 10,
                ;
                lemma_prefix_value_bound(s@, i + 1);
            }
            return None;
        }
        proof {
            assert(acc * 10 + d <= u64::MAX) by (nonlinear_arith)
                requires
                    acc <= (u64::MAX - d) / 10,
                    d < 10,
            ;
            assert forall|j: int| 0 <= j < next.len() implies (#[trigger] digit_value(
                next[j],
            )) is Some by {
                if j < i {
                    assert(next[j] == s@.subrange(0, i as int)[j]);
                }
            }
        }
        acc = acc * 10 + d;
        i = i + 1;
    }
    assert(s@.subrange(0, n as int) =~= s@);
    Some(acc)
}

/// Where the whole text is digits, a prefix never weighs more than the whole.
proof fn lemma_prefix_value_bound(s: Seq<char>, k: int)
    requires
        0 <= k <= s.len(),
    ensures
        all_digits(s) ==> digits_value(s.subrange(0, k)) <= digits_value(s),
    decreases s.len() - k,
{
    if k < s.len() {
        lemma_prefix_value_bound(s, k + 1);
        let p = s.subrange(0, k + 1);
        assert(p.drop_last() =~= s.subrange(0, k));
        assert(digits_value(p) >= digits_value(s.subrange(0, k)));
    } else {
        assert(s.subrange(0, k) =~= s);
    }
}

/// The order of `String`'s `Ord`: byte-wise on UTF-8, which is the order of
/// code points, taken lexicographically.
pub open spec fn str_lt(a: Seq<char>, b: Seq<char>) -> bool
    decreases a.len(),
{
    if a.len() == 0 {
        b.len() > 0
    } else if b.len() == 0 {
        false
    } else if a[0] != b[0] {
        (a[0] as int) < (b[0] as int)
    } else {
        str_lt(a.drop_first(), b.drop_first())
    }
}

pub proof fn lemma_str_lt_irreflexive(a: Seq<char>)
    ensures
        !str_lt(a, a),
    decreases a.len(),
{
    if a.len() > 0 {
        lemma_str_lt_irreflexive(a.drop_first());
    }
}

pub proof fn lemma_str_lt_transitive(a: Seq<char>, b: Seq<char>, c: Seq<char>)
    requires
        str_lt(a, b),
        str_lt(b, c),
    ensures
        str_lt(a, c),
    decreases a.len(),
{
    if a.len() > 0 && b.len() > 0 && c.len() > 0 {
        if a[0] == b[0] && b[0] == c[0] {
            lemma_str_lt_transitive(a.drop_first(), b.drop_first(), c.drop_first());
        }
    }
}

pub proof fn lemma_str_lt_total(a: Seq<char>, b: Seq<char>)
    requires
        a != b,
    ensures
        str_lt(a, b) || str_lt(b, a),
    decreases a.len(),
{
    if a.len() > 0 && b.len() > 0 && a[0] == b[0] {
        if a.drop_first() == b.drop_first() {
            assert(a =~= seq![a[0]] + a.drop_first());
            assert(b =~= seq![b[0]] + b.drop_first());
        }
        lemma_str_lt_total(a.drop_first(), b.drop_first());
    } else if a.len() > 0 && b.len() > 0 {
        assert((a[0] as int) != (b[0] as int));
    } else if a.len() == 0 && b.len() == 0 {
        assert(a =~= b);
    }
}

/// Compares two strings in the order of `String`'s `Ord`.
pub fn less_than(a: &str, b: &str) -> (r: bool)
    ensures
        r == str_lt(a@, b@),
{
    let n = a.unicode_len();
    let m = b.unicode_len();
    let mut i: usize = 0;
    assert(a@.subrange(0, n as int) =~= a@);
    assert(b@.subrange(0, m as int) =~= b@);
    while i < n && i < m
        invariant
            n == a@.len(),
            m == b@.len(),
            i <= n,
            i <= m,
            a@.subrange(0, i as int) == b@.subrange(0, i as int),
            str_lt(a@, b@) == str_lt(a@.subrange(i as int, n as int), b@.subrange(i as int, m as int)),
        decreases n - i,
    {
        let x = a.get_char(i);
        let y = b.get_char(i);
        let ghost sa = a@.subrange(i as int, n as int);
        let ghost sb = b@.subrange(i as int, m as int);
        assert(sa[0] == x && sb[0] == y);
        if x != y {
            return (x as u32) < (y as u32);
        }
        proof {
            assert(sa.drop_first() =~= a@.subrange(i + 1, n as int));
            assert(sb.drop_first() =~= b@.subrange(i + 1, m as int));
            assert(a@.subrange(0, i + 1) =~= a@.subrange(0, i as int).push(x));
            assert(b@.subrange(0, i + 1) =~= b@.subrange(0, i as int).push(y));
        }
        i = i + 1;
    }
    i == n && i < m
}

/// The number of bytes the UTF-8 encoding of a character takes.
pub open spec fn utf8_width(c: char) -> nat {
    if (c as int) < 0x80 {
        1
    } else if (c as int) < 0x800 {
        2
    } else if (c as int) < 0x10000 {
        3
    } else {
        4
    }
}

/// The length of a string in bytes, as `str::len` counts it: the UTF-8
/// widths of its characters added up.
pub open spec fn utf8_len(s: Seq<char>) -> nat
    decreases s.len(),
{
    if s.len() == 0 {
        0
    } else {
        utf8_len(s.drop_last()) + utf8_width(s.last())
    }
}

/// The length of `s` in UTF-8 bytes.
pub fn byte_len(s: &str) -> (r: u128)
    ensures
        r as nat == utf8_len(s@),
{
    let n = s.unicode_len();
    let mut total: u128 = 0;
    let mut i: usize = 0;
    while i < n
        invariant
            n == s@.len(),
            i <= n,
            total as nat == utf8_len(s@.subrange(0, i as int)),
            total <= 4 * i,
        decreases n - i,
    {
        let c = s.get_char(i);
        let w: u128 = if (c as u32) < 0x80 {
            1
        } else if (c as u32) < 0x800 {
            2
        } else if (c as u32) < 0x10000 {
            3
        } else {
            4
        };
        proof {
            let pre = s@.subrange(0, i + 1);
            assert(pre.drop_last() =~= s@.subrange(0, i as int));
            assert(pre.last() == c);
        }
        total = total + w;
        i = i + 1;
    }
    assert(s@.subrange(0, n as int) =~= s@);
    total
}

} // verus!
