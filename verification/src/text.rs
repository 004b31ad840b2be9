//! Text: ASCII letters, decimal numbers, order, and the building of strings.
use vstd::prelude::*;
use vstd::string::*;

verus! {

/// `String::push` appends one character.
pub assume_specification[ String::push ](s: &mut String, c: char)
    ensures
        final(s)@ == old(s)@.push(c),
;

/// The characters of `s`, in order.
pub fn chars_of(s: &str) -> (r: Vec<char>)
    ensures
        r@ == s@,
{
    let mut out: Vec<char> = Vec::new();
    for c in it: s.chars()
        invariant
            out@ == it.seq().take(it.index() as int),
            it.seq() == s@,
    {
        out.push(c);
        assert(it.seq().take(it.index() + 1) =~= it.seq().take(it.index() as int).push(c));
    }
    assert(s@.take(s@.len() as int) =~= s@);
    out
}

/// Whether two strings hold the same characters.
pub fn same_text(a: &str, b: &str) -> (r: bool)
    ensures
        r == (a@ == b@),
{
    a.to_owned() == b.to_owned()
}

/// The string that holds `chars`.
pub fn string_of(chars: &Vec<char>) -> (r: String)
    ensures
        r@ == chars@,
{
    let mut out = String::new();
    for i in 0..chars.len()
        invariant
            out@ == chars@.take(i as int),
    {
        out.push(chars[i]);
        assert(chars@.take(i + 1) =~= chars@.take(i as int).push(chars@[i as int]));
    }
    assert(chars@.take(chars@.len() as int) =~= chars@);
    out
}

// ---------------------------------------------------------------------------
// ASCII

/// The lower-case form of an ASCII character.
pub open spec fn ascii_lower(c: char) -> char {
    if 'A' <= c <= 'Z' {
        (c as u8 + 32) as char
    } else {
        c
    }
}

/// The text with each of its characters in lower case, as far as they are ASCII letters.
pub open spec fn ascii_lowercase(text: Seq<char>) -> Seq<char> {
    text.map_values(|c: char| ascii_lower(c))
}

pub open spec fn is_ascii_text(text: Seq<char>) -> bool {
    forall|i: int| 0 <= i < text.len() ==> (#[trigger] text[i]) as u32 <= 0x7f
}

/// The lower-case form of an ASCII character; any other is handed back.
pub fn to_ascii_lower(c: char) -> (r: char)
    ensures
        r == ascii_lower(c),
{
    if c >= 'A' && c <= 'Z' {
        (c as u8 + 32) as char
    } else {
        c
    }
}

pub open spec fn is_ascii_alphanumeric(c: char) -> bool {
    '0' <= c <= '9' || 'a' <= c <= 'z' || 'A' <= c <= 'Z'
}

/// Whether `c` is an ASCII letter or digit.
pub fn ascii_alphanumeric(c: char) -> (r: bool)
    ensures
        r == is_ascii_alphanumeric(c),
{
    (c >= '0' && c <= '9') || (c >= 'a' && c <= 'z') || (c >= 'A' && c <= 'Z')
}

/// Whether two texts differ at most in the case of ASCII letters.
pub open spec fn same_ignoring_case(a: Seq<char>, b: Seq<char>) -> bool {
    a.len() == b.len() && forall|i: int|
        0 <= i < a.len() ==> ascii_lower(#[trigger] a[i]) == ascii_lower(b[i])
}

/// Whether two strings differ at most in the case of ASCII letters.
pub fn eq_ignore_ascii_case(a: &str, b: &str) -> (r: bool)
    ensures
        r == same_ignoring_case(a@, b@),
{
    let x = chars_of(a);
    let y = chars_of(b);
    if x.len() != y.len() {
        return false;
    }
    for i in 0..x.len()
        invariant
            x@ == a@,
            y@ == b@,
            x@.len() == y@.len(),
            forall|j: int| 0 <= j < i ==> ascii_lower(#[trigger] x@[j]) == ascii_lower(y@[j]),
    {
        if to_ascii_lower(x[i]) != to_ascii_lower(y[i]) {
            return false;
        }
    }
    true
}

// ---------------------------------------------------------------------------
// Decimal numbers

/// The decimal digit for `d`, which is below ten.
pub open spec fn digit(d: int) -> char {
    (('0' as u8) + d) as char
}

/// The decimal notation of `n`, without leading zeros.
pub open spec fn decimal(n: nat) -> Seq<char>
    decreases n,
{
    if n < 10 {
        seq![digit(n as int)]
    } else {
        decimal(n / 10).push(digit((n % 10) as int))
    }
}

pub open spec fn is_digit(c: char) -> bool {
    '0' <= c <= '9'
}

pub open spec fn all_digits(s: Seq<char>) -> bool {
    forall|i: int| 0 <= i < s.len() ==> is_digit(#[trigger] s[i])
}

/// The number that the digits of `s` denote.
pub open spec fn digits_value(s: Seq<char>) -> nat
    decreases s.len(),
{
    if s.len() == 0 {
        0
    } else {
        10 * digits_value(s.drop_last()) + (s.last() as nat - '0' as nat) as nat
    }
}

/// The digits of a number written with an optional leading plus sign.
pub open spec fn unsigned_part(s: Seq<char>) -> Seq<char> {
    if s.len() > 0 && s[0] == '+' {
        s.skip(1)
    } else {
        s
    }
}

/// The number that `s` denotes: an optional plus sign and at least one digit, and nothing else.
/// There is none where it does not fit into 64 bits.
pub open spec fn number_in(s: Seq<char>) -> Option<u64> {
    let digits = unsigned_part(s);
    if digits.len() > 0 && all_digits(digits) && digits_value(digits) <= u64::MAX {
        Some(digits_value(digits) as u64)
    } else {
        None
    }
}

/// Appends the decimal notation of `n`.
pub fn push_decimal(out: &mut String, n: u64)
    ensures
        final(out)@ == old(out)@ + decimal(n as nat),
    decreases n,
{
    if n >= 10 {
        push_decimal(out, n / 10);
    }
    let d: u8 = (n % 10) as u8;
    out.push((48u8 + d) as char);
    assert(out@ =~= old(out)@ + decimal(n as nat));
}

proof fn lemma_value_grows(s: Seq<char>, k: int)
    requires
        0 <= k <= s.len(),
    ensures
        digits_value(s.take(k)) <= digits_value(s),
    decreases s.len() - k,
{
    if k < s.len() {
        lemma_value_grows(s, k + 1);
        assert(s.take(k + 1).drop_last() =~= s.take(k));
    } else {
        assert(s.take(k) =~= s);
    }
}

/// Reads an unsigned 64-bit number.
pub fn parse_u64(s: &str) -> (r: Option<u64>)
    ensures
        r == number_in(s@),
{
    let chars = chars_of(s);
    let start: usize = if chars.len() > 0 && chars[0] == '+' { 1 } else { 0 };
    let ghost digits = unsigned_part(s@);
    assert(digits =~= chars@.skip(start as int));
    if start == chars.len() {
        return None;
    }
    let mut value: u64 = 0;
    for i in start..chars.len()
        invariant
            start <= i <= chars.len(),
            start < chars.len(),
            chars@ == s@,
            digits == chars@.skip(start as int),
            digits == unsigned_part(s@),
            all_digits(digits.take(i - start)),
            value == digits_value(digits.take(i - start)),
    {
        let c = chars[i];
        assert(c == digits[i - start]);
        assert(digits.take(i - start + 1).drop_last() =~= digits.take(i - start));
        if !(c >= '0' && c <= '9') {
            return None;
        }
        let d: u64 = (c as u32 - '0' as u32) as u64;
        proof {
            lemma_value_grows(digits, i - start + 1);
        }
        match value.checked_mul(10) {
            None => {
                return None;
            },
            Some(tens) => match tens.checked_add(d) {
                None => {
                    return None;
                },
                Some(next) => {
                    value = next;
                },
            },
        }
    }
    assert(digits.take(digits.len() as int) =~= digits);
    Some(value)
}

proof fn lemma_decimal_reads_back(n: nat)
    ensures
        decimal(n).len() > 0,
        all_digits(decimal(n)),
        digits_value(decimal(n)) == n,
    decreases n,
{
    reveal_with_fuel(digits_value, 2);
    if n < 10 {
        assert(decimal(n).drop_last() =~= Seq::empty());
    } else {
        lemma_decimal_reads_back(n / 10);
        assert(decimal(n).drop_last() =~= decimal(n / 10));
    }
}

/// Reading the decimal notation of a number gives the number back.
pub proof fn decimal_round_trip(n: u64)
    ensures
        number_in(decimal(n as nat)) == Some(n),
        decimal(n as nat).len() > 0,
        all_digits(decimal(n as nat)),
{
    lemma_decimal_reads_back(n as nat);
    assert(is_digit(decimal(n as nat)[0]));
    assert(unsigned_part(decimal(n as nat)) == decimal(n as nat));
}

// ---------------------------------------------------------------------------
// Order

/// Whether `a` and `b` agree before `k` and differ there for `a` to come first.
pub open spec fn splits_at(a: Seq<char>, b: Seq<char>, k: int) -> bool {
    &&& 0 <= k <= a.len()
    &&& k < b.len()
    &&& a.take(k) == b.take(k)
    &&& k == a.len() || a[k] < b[k]
}

/// The lexicographic order by code point, which is the order of strings.
pub open spec fn text_less(a: Seq<char>, b: Seq<char>) -> bool {
    exists|k: int| splits_at(a, b, k)
}

pub proof fn lemma_text_order(a: Seq<char>, b: Seq<char>)
    ensures
        text_less(a, b) || text_less(b, a) || a == b,
        !(text_less(a, b) && text_less(b, a)),
        !text_less(a, a),
    decreases a.len() + b.len(),
{
    assert(a.take(0) =~= b.take(0));
    lemma_text_total(a, b, 0);
    if exists|k: int| splits_at(a, b, k) {
        let k = choose|k: int| splits_at(a, b, k);
        assert forall|m: int| !splits_at(b, a, m) by {
            if splits_at(b, a, m) {
                if m < k {
                    assert(a.take(k)[m] == b.take(k)[m]);
                } else if k < m {
                    assert(a.take(m)[k] == b.take(m)[k]);
                }
            }
        }
    }
    assert forall|m: int| !splits_at(a, a, m) by {}
}

proof fn lemma_text_total(a: Seq<char>, b: Seq<char>, k: int)
    requires
        0 <= k <= a.len(),
        k <= b.len(),
        a.take(k) == b.take(k),
    ensures
        text_less(a, b) || text_less(b, a) || a == b,
    decreases a.len() - k,
{
    if k == a.len() && k == b.len() {
        assert(a.take(k) =~= a);
        assert(b.take(k) =~= b);
    } else if k == a.len() {
        assert(splits_at(a, b, k));
    } else if k == b.len() {
        assert(splits_at(b, a, k));
    } else if a[k] < b[k] {
        assert(splits_at(a, b, k));
    } else if b[k] < a[k] {
        assert(splits_at(b, a, k));
    } else {
        assert(a.take(k + 1) =~= a.take(k).push(a[k]));
        assert(b.take(k + 1) =~= b.take(k).push(b[k]));
        lemma_text_total(a, b, k + 1);
    }
}

pub proof fn lemma_text_transitive(a: Seq<char>, b: Seq<char>, c: Seq<char>)
    requires
        text_less(a, b),
        text_less(b, c),
    ensures
        text_less(a, c),
{
    let k = choose|k: int| splits_at(a, b, k);
    let m = choose|m: int| splits_at(b, c, m);
    let n = if k < m { k } else { m };
    assert(a.take(n) =~= a.take(k).take(n));
    assert(b.take(n) =~= b.take(k).take(n));
    assert(b.take(n) =~= b.take(m).take(n));
    assert(c.take(n) =~= c.take(m).take(n));
    if k < m {
        assert(b.take(m)[k] == c.take(m)[k]);
    } else if m < k {
        assert(a.take(k)[m] == b.take(k)[m]);
    }
    assert(splits_at(a, c, n));
}

/// Whether `a` comes before `b` in the order by code point.
pub fn text_before(a: &str, b: &str) -> (r: bool)
    ensures
        r == text_less(a@, b@),
{
    let x = chars_of(a);
    let y = chars_of(b);
    let mut i: usize = 0;
    while i < x.len() && i < y.len()
        invariant
            x@ == a@,
            y@ == b@,
            i <= x.len(),
            i <= y.len(),
            x@.take(i as int) == y@.take(i as int),
        decreases x.len() - i,
    {
        if x[i] < y[i] {
            assert(splits_at(a@, b@, i as int));
            return true;
        }
        if y[i] < x[i] {
            proof {
                assert(splits_at(b@, a@, i as int));
                lemma_text_order(a@, b@);
            }
            return false;
        }
        assert(x@.take(i + 1) =~= x@.take(i as int).push(x@[i as int]));
        assert(y@.take(i + 1) =~= y@.take(i as int).push(y@[i as int]));
        i = i + 1;
    }
    if i < y.len() {
        assert(splits_at(a@, b@, i as int));
        true
    } else {
        proof {
            lemma_text_order(a@, b@);
            if i < x.len() {
                assert(splits_at(b@, a@, i as int));
            } else {
                assert(x@.take(i as int) =~= a@);
                assert(y@.take(i as int) =~= b@);
            }
        }
        false
    }
}

// ---------------------------------------------------------------------------
// What holds of texts

/// Two texts are the same but for the case of ASCII letters exactly where they are of one length and
/// at each place have the same character, or the capital and the small form of one of the letters A
/// to Z, which lie 32 apart.
pub proof fn case_is_a_matter_of_single_letters(a: Seq<char>, b: Seq<char>)
    ensures
        same_ignoring_case(a, b) <==> a.len() == b.len() && forall|i: int|
            #![trigger a[i]]
            0 <= i < a.len() ==> a[i] == b[i] || (65 <= a[i] as int <= 90 && b[i] as int
                == a[i] as int + 32) || (65 <= b[i] as int <= 90 && a[i] as int == b[i] as int
                + 32),
{
    assert forall|c: char, d: char| ascii_lower(c) == ascii_lower(d) <==> (c == d || (65 <= c as int
        <= 90 && d as int == c as int + 32) || (65 <= d as int <= 90 && c as int == d as int
        + 32)) by {
        lemma_lower(c);
        lemma_lower(d);
    }
}

proof fn lemma_code(c: char)
    ensures
        c as u32 == c as int,
{
}

proof fn lemma_lower(c: char)
    ensures
        ascii_lower(c) as int == if 65 <= c as int <= 90 {
            c as int + 32
        } else {
            c as int
        },
{
}

/// In lower case a text is as long as before: the letters A to Z lie 32 further on, and every other
/// character is the same.
pub proof fn lower_case_shifts_capital_letters(text: Seq<char>)
    ensures
        ascii_lowercase(text).len() == text.len(),
        forall|i: int|
            #![trigger ascii_lowercase(text)[i]]
            0 <= i < text.len() ==> ascii_lowercase(text)[i] as int == if 65 <= text[i] as int
                <= 90 {
                text[i] as int + 32
            } else {
                text[i] as int
            },
        is_ascii_text(text) <==> forall|i: int|
            0 <= i < text.len() ==> 128 > (#[trigger] text[i]) as int,
{
    assert forall|i: int|
        #![trigger ascii_lowercase(text)[i]]
        0 <= i < text.len() implies ascii_lowercase(text)[i] as int == (if 65 <= text[i] as int
        <= 90 {
        text[i] as int + 32
    } else {
        text[i] as int
    }) by {
        lemma_lower(text[i]);
    }
    assert forall|i: int| 0 <= i < text.len() implies (#[trigger] text[i]) as u32 == text[i] as int by {
        lemma_code(text[i]);
    }
}

/// A further digit makes ten times the number and the digit, as far as that fits into 64 bits, and
/// any other character leaves no number. One digit is a number, and a plus sign before a number that
/// has none changes nothing.
pub proof fn numbers_grow_digit_by_digit(text: Seq<char>, c: char)
    ensures
        text.len() == 0 || text == seq!['+'] ==> number_in(text.push(c)) == if 48 <= c as int
            <= 57 {
            Some((c as int - 48) as u64)
        } else {
            None
        },
        number_in(text) matches Some(n) ==> number_in(text.push(c)) == if 48 <= c as int <= 57 && 10
            * n + (c as int - 48) <= u64::MAX {
            Some((10 * n + (c as int - 48)) as u64)
        } else {
            None
        },
        number_in(text) is None && text.len() > 0 && text != seq!['+'] ==> number_in(text.push(c))
            is None,
        number_in(Seq::empty()) is None,
        number_in(seq!['+']) is None,
        text.len() > 0 && text[0] != '+' ==> number_in(seq!['+'] + text) == number_in(text),
{
    reveal_with_fuel(digits_value, 3);
    let more = text.push(c);
    if text == seq!['+'] {
        assert(unsigned_part(more) =~= seq![c]);
        assert(seq![c].drop_last() =~= Seq::empty());
    } else if text.len() == 0 {
        assert(more =~= seq![c]);
        assert(seq![c].drop_last() =~= Seq::empty());
        if c == '+' {
            assert(unsigned_part(more) =~= Seq::empty());
        } else {
            assert(unsigned_part(more) =~= seq![c]);
        }
    } else {
        let digits = unsigned_part(text);
        assert(unsigned_part(more) =~= digits.push(c));
        assert(digits.push(c).drop_last() =~= digits);
        assert(digits.len() > 0) by {
            if digits.len() == 0 {
                assert(text =~= seq!['+']);
            }
        }
        assert(all_digits(digits.push(c)) <==> all_digits(digits) && is_digit(c)) by {
            if all_digits(digits.push(c)) {
                assert forall|i: int| 0 <= i < digits.len() implies is_digit(
                    #[trigger] digits[i],
                ) by {
                    assert(is_digit(digits.push(c)[i]));
                }
                assert(is_digit(digits.push(c)[digits.len() as int]));
            }
        }
    }
    assert(unsigned_part(seq!['+']) =~= Seq::empty());
    if text.len() > 0 && text[0] != '+' {
        assert(unsigned_part(seq!['+'] + text) =~= text);
    }
}

/// The decimal notation of a number has only its digits, and no zero in front of others.
pub proof fn decimals_have_no_leading_zero(n: nat)
    ensures
        decimal(n).len() >= 1,
        forall|i: int| 0 <= i < decimal(n).len() ==> 48 <= (#[trigger] decimal(n)[i]) as int <= 57,
        decimal(n)[0] == '0' ==> n == 0,
        decimal(n).len() == 1 <==> n < 10,
        n >= 10 ==> decimal(n).drop_last() == decimal(n / 10) && decimal(n).last() as int == 48 + n
            % 10,
        n < 10 ==> decimal(n)[0] as int == 48 + n,
    decreases n,
{
    if n >= 10 {
        decimals_have_no_leading_zero(n / 10);
        assert(decimal(n).drop_last() =~= decimal(n / 10));
        assert forall|i: int| 0 <= i < decimal(n).len() implies 48 <= (
        #[trigger] decimal(n)[i]) as int <= 57 by {
            if i < decimal(n / 10).len() {
                assert(decimal(n)[i] == decimal(n / 10)[i]);
            }
        }
        assert(decimal(n)[0] == decimal(n / 10)[0]);
    }
}

/// The first character in which two texts differ decides which comes first, and a text comes before
/// every longer one that starts with it.
pub proof fn first_difference_decides(
    common: Seq<char>,
    a: char,
    rest: Seq<char>,
    b: char,
    other_rest: Seq<char>,
)
    ensures
        a != b ==> (text_less(common.push(a) + rest, common.push(b) + other_rest) <==> (a as int) < (
        b as int)),
        text_less(common, common.push(a) + rest),
        !text_less(common.push(a) + rest, common),
        !text_less(common, common),
{
    let one = common.push(a) + rest;
    let other = common.push(b) + other_rest;
    let k = common.len() as int;
    assert(one.take(k) =~= common);
    assert(other.take(k) =~= common);
    assert(common.take(k) =~= common);
    assert(one[k] == a && other[k] == b);
    if a != b {
        if (a as int) < (b as int) {
            assert(splits_at(one, other, k));
        } else {
            assert(splits_at(other, one, k));
        }
        lemma_text_order(one, other);
    }
    assert(splits_at(common, one, k));
    lemma_text_order(common, one);
}

} // verus!
