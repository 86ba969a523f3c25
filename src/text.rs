//! Character-level helpers: lowercasing, word characters, substring search
//! and lexicographic order over `char` sequences.

use vstd::prelude::*;

verus! {

/// The lowercase mapping of a character sequence, as Unicode defines it.
pub uninterp spec fn lower_of(s: Seq<char>) -> Seq<char>;

/// Whether a character is alphabetic or numeric, as Unicode defines it.
pub uninterp spec fn is_alnum(c: char) -> bool;

/// Relies on `str::to_lowercase`: the lowercase mapping of every character;
/// an empty string stays empty.
#[verifier::external_body]
pub(crate) fn lowercase(s: &str) -> (r: String)
    ensures
        r@ == lower_of(s@),
        s@.len() == 0 ==> r@.len() == 0,
{
    s.to_lowercase()
}

/// Relies on `char::is_alphanumeric`.
#[verifier::external_body]
pub(crate) fn alphanumeric(c: char) -> (r: bool)
    ensures
        r == is_alnum(c),
{
    c.is_alphanumeric()
}

/// The characters of a string, in order.
pub fn chars_of(s: &str) -> (r: Vec<char>)
    ensures
        r@ == s@,
{
    let mut r: Vec<char> = Vec::new();
    for c in it: s.chars()
        invariant
            r@ == it.seq().take(it.index() as int),
            it.seq() == s@,
    {
        r.push(c);
    }
    r
}

/// Whether two character sequences are equal.
pub fn chars_equal(a: &Vec<char>, b: &Vec<char>) -> (r: bool)
    ensures
        r == (a@ == b@),
{
    if a.len() != b.len() {
        return false;
    }
    let mut i: usize = 0;
    while i < a.len()
        invariant
            a.len() == b.len(),
            i <= a.len(),
            a@.take(i as int) == b@.take(i as int),
        decreases a.len() - i,
    {
        if a[i] != b[i] {
            assert(a@[i as int] != b@[i as int]);
            return false;
        }
        assert(a@.take(i + 1) == a@.take(i as int).push(a@[i as int]));
        assert(b@.take(i + 1) == b@.take(i as int).push(b@[i as int]));
        i = i + 1;
    }
    assert(a@ == a@.take(i as int));
    assert(b@ == b@.take(i as int));
    true
}

/// Whether a character sequence spells out the given text.
pub fn chars_are(a: &Vec<char>, text: &str) -> (r: bool)
    ensures
        r == (a@ == text@),
{
    let t = chars_of(text);
    chars_equal(a, &t)
}

/// `needle` occurs in `hay` as a contiguous run starting at `i`.
pub open spec fn occurs_at(hay: Seq<char>, needle: Seq<char>, i: int) -> bool {
    0 <= i && i + needle.len() <= hay.len() && hay.subrange(i, i + needle.len()) == needle
}

/// `needle` occurs somewhere in `hay` as a contiguous run.
pub open spec fn has_infix(hay: Seq<char>, needle: Seq<char>) -> bool {
    exists|i: int| occurs_at(hay, needle, i)
}

/// Whether `needle` occurs at position `i` of `hay`.
fn occurs_here(hay: &Vec<char>, needle: &Vec<char>, i: usize) -> (r: bool)
    requires
        i + needle.len() <= hay.len(),
    ensures
        r == occurs_at(hay@, needle@, i as int),
{
    let mut j: usize = 0;
    while j < needle.len()
        invariant
            i + needle.len() <= hay.len(),
            j <= needle.len(),
            forall|k: int| 0 <= k < j ==> hay@[i + k] == needle@[k],
        decreases needle.len() - j,
    {
        if hay[i + j] != needle[j] {
            assert(hay@.subrange(i as int, i + needle.len())[j as int] != needle@[j as int]);
            return false;
        }
        j = j + 1;
    }
    assert(hay@.subrange(i as int, i + needle.len()) =~= needle@);
    true
}

/// Whether `needle` occurs in `hay` as a contiguous run.
pub fn contains_chars(hay: &Vec<char>, needle: &Vec<char>) -> (r: bool)
    ensures
        r == has_infix(hay@, needle@),
{
    if needle.len() > hay.len() {
        assert(forall|i: int| !occurs_at(hay@, needle@, i));
        return false;
    }
    if needle.len() == 0 {
        assert(hay@.subrange(0, 0) =~= needle@);
        assert(occurs_at(hay@, needle@, 0));
        return true;
    }
    let last = hay.len() - needle.len();
    let mut i: usize = 0;
    while i <= last
        invariant
            last == hay.len() - needle.len(),
            0 < needle.len() <= hay.len(),
            i <= last + 1,
            forall|k: int| 0 <= k < i ==> !occurs_at(hay@, needle@, k),
        decreases last + 1 - i,
    {
        if occurs_here(hay, needle, i) {
            return true;
        }
        i = i + 1;
    }
    assert forall|k: int| !occurs_at(hay@, needle@, k) by {
        if 0 <= k && k < i {
        }
    }
    false
}

/// Lexicographic order on character sequences, by code point (the order of
/// `str`'s comparison, since UTF-8 keeps code point order).
pub open spec fn chars_before(a: Seq<char>, b: Seq<char>) -> bool
    decreases a.len(),
{
    if a.len() == 0 {
        b.len() > 0
    } else if b.len() == 0 {
        false
    } else if a[0] != b[0] {
        (a[0] as int) < (b[0] as int)
    } else {
        chars_before(a.drop_first(), b.drop_first())
    }
}

/// No sequence comes before itself, and of two sequences at most one comes first.
pub proof fn lemma_chars_before_asymmetric(a: Seq<char>, b: Seq<char>)
    ensures
        !(chars_before(a, b) && chars_before(b, a)),
    decreases a.len(),
{
    if a.len() > 0 && b.len() > 0 && a[0] == b[0] {
        lemma_chars_before_asymmetric(a.drop_first(), b.drop_first());
    }
}

/// Of two different sequences, one comes first.
pub proof fn lemma_chars_before_total(a: Seq<char>, b: Seq<char>)
    requires
        a != b,
    ensures
        chars_before(a, b) || chars_before(b, a),
    decreases a.len(),
{
    if a.len() > 0 && b.len() > 0 && a[0] == b[0] {
        if a.drop_first() == b.drop_first() {
            assert(a =~= seq![a[0]] + a.drop_first());
            assert(b =~= seq![b[0]] + b.drop_first());
        }
        lemma_chars_before_total(a.drop_first(), b.drop_first());
    } else if a.len() > 0 && b.len() > 0 {
        assert((a[0] as int) != (b[0] as int));
    } else if a.len() == 0 && b.len() == 0 {
        assert(a =~= b);
    }
}

/// The order is transitive.
pub proof fn lemma_chars_before_transitive(a: Seq<char>, b: Seq<char>, c: Seq<char>)
    requires
        chars_before(a, b),
        chars_before(b, c),
    ensures
        chars_before(a, c),
    decreases a.len(),
{
    if a.len() > 0 && b.len() > 0 && c.len() > 0 && a[0] == b[0] && b[0] == c[0] {
        lemma_chars_before_transitive(a.drop_first(), b.drop_first(), c.drop_first());
    }
}

/// Whether `a` comes before `b` in lexicographic order.
pub fn less_chars(a: &Vec<char>, b: &Vec<char>) -> (r: bool)
    ensures
        r == chars_before(a@, b@),
{
    let mut i: usize = 0;
    assert(a@.skip(0) =~= a@);
    assert(b@.skip(0) =~= b@);
    while i < a.len() && i < b.len()
        invariant
            i <= a.len(),
            i <= b.len(),
            chars_before(a@, b@) == chars_before(a@.skip(i as int), b@.skip(i as int)),
        decreases a.len() - i,
    {
        assert(a@.skip(i as int)[0] == a@[i as int]);
        assert(b@.skip(i as int)[0] == b@[i as int]);
        if a[i] != b[i] {
            return a[i] < b[i];
        }
        assert(a@.skip(i as int).drop_first() =~= a@.skip(i + 1));
        assert(b@.skip(i as int).drop_first() =~= b@.skip(i + 1));
        i = i + 1;
    }
    i < b.len()
}

/// Relies on `String::push_str`: appends the text.
#[verifier::external_body]
pub(crate) fn append(s: &mut String, t: &str)
    ensures
        final(s)@ == old(s)@ + t@,
{
    s.push_str(t)
}

/// Relies on `String::push`: appends the character.
#[verifier::external_body]
pub(crate) fn push_char(s: &mut String, c: char)
    ensures
        final(s)@ == old(s)@.push(c),
{
    s.push(c)
}

/// Relies on `String::pop`: removes and returns the last character.
#[verifier::external_body]
pub(crate) fn pop_char(s: &mut String) -> (r: Option<char>)
    ensures
        old(s)@.len() == 0 ==> r is None && final(s)@ == old(s)@,
        old(s)@.len() > 0 ==> r == Some(old(s)@.last()) && final(s)@ == old(s)@.drop_last(),
{
    s.pop()
}

/// Relies on `String::clear`: removes all characters.
#[verifier::external_body]
pub(crate) fn clear_string(s: &mut String)
    ensures
        final(s)@.len() == 0,
{
    s.clear()
}

/// Value of a character that is an ASCII digit.
pub open spec fn digit_value(c: char) -> int {
    c as int - '0' as int
}

/// Whether the character is an ASCII digit.
pub open spec fn is_digit(c: char) -> bool {
    '0' <= c && c <= '9'
}

/// Whether every character is an ASCII digit.
pub open spec fn all_digits(s: Seq<char>) -> bool {
    forall|i: int| 0 <= i < s.len() ==> is_digit(#[trigger] s[i])
}

/// The number that a run of decimal digits spells.
pub open spec fn digits_value(s: Seq<char>) -> int
    decreases s.len(),
{
    if s.len() == 0 {
        0
    } else {
        digits_value(s.drop_last()) * 10 + digit_value(s.last())
    }
}

proof fn lemma_digits_prefix(d: Seq<char>, k: int)
    requires
        all_digits(d),
        0 <= k <= d.len(),
    ensures
        0 <= digits_value(d.take(k)) <= digits_value(d),
    decreases d.len(),
{
    if k < d.len() {
        let init = d.drop_last();
        assert(all_digits(init)) by {
            assert forall|i: int| 0 <= i < init.len() implies is_digit(#[trigger] init[i]) by {
                assert(init[i] == d[i]);
            }
        }
        lemma_digits_prefix(init, k);
        assert(init.take(k) =~= d.take(k));
        lemma_digits_prefix(init, init.len() as int);
        assert(init.take(init.len() as int) =~= init);
        assert(is_digit(d[d.len() - 1]));
    } else {
        assert(d.take(k) =~= d);
        if d.len() > 0 {
            let init = d.drop_last();
            assert(all_digits(init)) by {
                assert forall|i: int| 0 <= i < init.len() implies is_digit(#[trigger] init[i]) by {
                    assert(init[i] == d[i]);
                }
            }
            lemma_digits_prefix(init, init.len() as int);
            assert(init.take(init.len() as int) =~= init);
            assert(is_digit(d[d.len() - 1]));
        }
    }
}

/// Reads a run of decimal digits as a number no larger than `limit`.
/// `None` when the run is empty, holds another character, or is larger.
fn read_digits(s: &Vec<char>, start: usize, limit: u64) -> (r: Option<u64>)
    requires
        start <= s.len(),
        limit >= 9,
    ensures
        ({
            let d = s@.subrange(start as int, s.len() as int);
            r == if d.len() > 0 && all_digits(d) && digits_value(d) <= limit {
                Some(digits_value(d) as u64)
            } else {
                None::<u64>
            }
        }),
{
    let ghost d = s@.subrange(start as int, s.len() as int);
    if start == s.len() {
        return None;
    }
    let mut v: u64 = 0;
    let mut i: usize = start;
    while i < s.len()
        invariant
            start <= i <= s.len(),
            d == s@.subrange(start as int, s.len() as int),
            all_digits(s@.subrange(start as int, i as int)),
            v as int == digits_value(s@.subrange(start as int, i as int)),
            v <= limit,
            limit >= 9,
        decreases s.len() - i,
    {
        let c = s[i];
        assert(s@.subrange(start as int, i + 1).drop_last() =~= s@.subrange(start as int, i as int));
        if !('0' <= c && c <= '9') {
            assert(d[i - start] == c);
            return None;
        }
        assert(all_digits(s@.subrange(start as int, i + 1))) by {
            assert forall|k: int| 0 <= k < i + 1 - start implies is_digit(
                #[trigger] s@.subrange(start as int, i + 1)[k],
            ) by {
                if k < i - start {
                    assert(s@.subrange(start as int, i + 1)[k] == s@.subrange(start as int, i as int)[k]);
                }
            }
        }
        let dv = (c as u32 - '0' as u32) as u64;
        assert(dv as int == digit_value(c));
        if v > (limit - dv) / 10 {
            proof {
                assert(digits_value(s@.subrange(start as int, i + 1)) == v * 10 + dv) by (nonlinear_arith)
                    requires
                        digits_value(s@.subrange(start as int, i + 1)) == digits_value(s@.subrange(start as int, i as int)) * 10 + digit_value(c),
                        v as int == digits_value(s@.subrange(start as int, i as int)),
                        dv as int == digit_value(c);
                assert(v * 10 + dv > limit) by (nonlinear_arith)
                    requires
                        v > (limit - dv) / 10,
                        dv <= 9;
                if all_digits(d) {
                    assert(s@.subrange(start as int, i + 1) =~= d.take(i + 1 - start));
                    lemma_digits_prefix(d, i + 1 - start);
                }
            }
            return None;
        }
        assert(v * 10 + dv <= limit) by (nonlinear_arith)
            requires
                v <= (limit - dv) / 10,
                dv <= 9,
                dv <= limit;
        v = v * 10 + dv;
        i = i + 1;
    }
    assert(s@.subrange(start as int, i as int) =~= d);
    Some(v)
}

/// Text of an unsigned decimal number: an optional `+`, then digits.
pub open spec fn unsigned_text(s: Seq<char>) -> Option<int> {
    let d = if s.len() > 0 && s[0] == '+' {
        s.drop_first()
    } else {
        s
    };
    if d.len() > 0 && all_digits(d) {
        Some(digits_value(d))
    } else {
        None
    }
}

/// Text of a signed decimal number: an optional `+` or `-`, then digits.
pub open spec fn signed_text(s: Seq<char>) -> Option<int> {
    if s.len() > 0 && s[0] == '-' {
        let d = s.drop_first();
        if d.len() > 0 && all_digits(d) {
            Some(-digits_value(d))
        } else {
            None
        }
    } else {
        unsigned_text(s)
    }
}

/// Reads an unsigned 64-bit number, as `u64`'s `FromStr` does.
pub fn parse_u64(text: &str) -> (r: Option<u64>)
    ensures
        r == match unsigned_text(text@) {
            Some(v) => if v <= u64::MAX {
                Some(v as u64)
            } else {
                None
            },
            None => None,
        },
{
    let s = chars_of(text);
    let start: usize = if s.len() > 0 && s[0] == '+' {
        1
    } else {
        0
    };
    assert(s@.subrange(start as int, s@.len() as int) =~= if s@.len() > 0 && s@[0] == '+' {
        s@.drop_first()
    } else {
        s@
    });
    read_digits(&s, start, u64::MAX)
}

/// The signed 64-bit number that a text spells, if any.
pub open spec fn i64_of(s: Seq<char>) -> Option<i64> {
    match signed_text(s) {
        Some(v) => if i64::MIN <= v <= i64::MAX {
            Some(v as i64)
        } else {
            None
        },
        None => None,
    }
}

/// Reads a signed 64-bit number, as `i64`'s `FromStr` does.
pub fn parse_i64(text: &str) -> (r: Option<i64>)
    ensures
        r == i64_of(text@),
{
    let s = chars_of(text);
    if s.len() > 0 && s[0] == '-' {
        assert(s@.subrange(1, s@.len() as int) =~= s@.drop_first());
        match read_digits(&s, 1, 0x8000_0000_0000_0000u64) {
            Some(v) => {
                proof {
                    lemma_digits_nonnegative(s@.drop_first());
                }
                assert(v as int == digits_value(s@.drop_first()));
                if v == 0x8000_0000_0000_0000u64 {
                    Some(i64::MIN)
                } else {
                    Some(-(v as i64))
                }
            },
            None => {
                proof {
                    let d = s@.drop_first();
                    if d.len() > 0 && all_digits(d) {
                        assert(digits_value(d) > 0x8000_0000_0000_0000);
                    }
                }
                None
            },
        }
    } else {
        let start: usize = if s.len() > 0 && s[0] == '+' {
            1
        } else {
            0
        };
        assert(s@.subrange(start as int, s@.len() as int) =~= if s@.len() > 0 && s@[0] == '+' {
            s@.drop_first()
        } else {
            s@
        });
        match read_digits(&s, start, i64::MAX as u64) {
            Some(v) => {
                proof {
                    lemma_unsigned_nonnegative(s@);
                }
                Some(v as i64)
            },
            None => {
                proof {
                    lemma_unsigned_nonnegative(s@);
                }
                None
            },
        }
    }
}

proof fn lemma_digits_nonnegative(d: Seq<char>)
    requires
        all_digits(d),
    ensures
        digits_value(d) >= 0,
{
    lemma_digits_prefix(d, 0);
}

proof fn lemma_unsigned_nonnegative(s: Seq<char>)
    ensures
        unsigned_text(s) matches Some(v) ==> v >= 0,
{
    let d = if s.len() > 0 && s[0] == '+' {
        s.drop_first()
    } else {
        s
    };
    if d.len() > 0 && all_digits(d) {
        lemma_digits_nonnegative(d);
    }
}

/// The decimal digit character of a value below ten.
pub open spec fn digit_char(d: int) -> char {
    if d == 0 {
        '0'
    } else if d == 1 {
        '1'
    } else if d == 2 {
        '2'
    } else if d == 3 {
        '3'
    } else if d == 4 {
        '4'
    } else if d == 5 {
        '5'
    } else if d == 6 {
        '6'
    } else if d == 7 {
        '7'
    } else if d == 8 {
        '8'
    } else {
        '9'
    }
}

/// Decimal digits of a natural number, most significant first.
pub open spec fn nat_digits(n: nat) -> Seq<char>
    decreases n,
{
    if n < 10 {
        seq![digit_char(n as int)]
    } else {
        nat_digits(n / 10).push(digit_char((n % 10) as int))
    }
}

/// Decimal text of an integer, with a leading `-` when negative.
pub open spec fn decimal_of(n: int) -> Seq<char> {
    if n < 0 {
        seq!['-'] + nat_digits((-n) as nat)
    } else {
        nat_digits(n as nat)
    }
}

fn digit(d: u64) -> (c: char)
    requires
        d < 10,
    ensures
        c == digit_char(d as int),
{
    match d {
        0 => '0',
        1 => '1',
        2 => '2',
        3 => '3',
        4 => '4',
        5 => '5',
        6 => '6',
        7 => '7',
        8 => '8',
        _ => '9',
    }
}

pub(crate) fn push_digits(s: &mut String, n: u64)
    ensures
        final(s)@ == old(s)@ + nat_digits(n as nat),
    decreases n,
{
    if n >= 10 {
        push_digits(s, n / 10);
    }
    push_char(s, digit(n % 10));
    proof {
        if n >= 10 {
            assert(old(s)@ + nat_digits((n / 10) as nat) + seq![digit_char((n % 10) as int)]
                =~= old(s)@ + nat_digits(n as nat));
        } else {
            assert(old(s)@.push(digit_char((n % 10) as int)) =~= old(s)@ + nat_digits(n as nat));
        }
    }
}

/// Appends the decimal text of `n`.
pub fn push_decimal(s: &mut String, n: i64)
    ensures
        final(s)@ == old(s)@ + decimal_of(n as int),
{
    if n < 0 {
        push_char(s, '-');
        let m: u64 = if n == i64::MIN {
            0x8000_0000_0000_0000u64
        } else {
            (-n) as u64
        };
        push_digits(s, m);
        assert(old(s)@.push('-') + nat_digits(m as nat) =~= old(s)@ + decimal_of(n as int));
    } else {
        push_digits(s, n as u64);
    }
}

} // verus!
