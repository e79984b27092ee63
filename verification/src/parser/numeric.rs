//! Which symbols read as numbers: the grammars that `str::parse::<i64>` and
//! `str::parse::<f64>` accept, as the standard library documents them.
use vstd::prelude::*;

verus! {

pub open spec fn is_digit(c: char) -> bool {
    '0' <= c <= '9'
}

pub open spec fn all_digits(s: Seq<char>) -> bool {
    forall|i: int| 0 <= i < s.len() ==> is_digit(#[trigger] s[i])
}

/// The value of a string of decimal digits.
pub open spec fn digits_value(s: Seq<char>) -> int
    decreases s.len(),
{
    if s.len() == 0 {
        0
    } else {
        digits_value(s.drop_last()) * 10 + (s.last() as int - '0' as int)
    }
}

pub open spec fn is_sign(c: char) -> bool {
    c == '+' || c == '-'
}

/// `s` without its leading `+` or `-`, if it has one.
pub open spec fn unsigned_part(s: Seq<char>) -> Seq<char> {
    if s.len() > 0 && is_sign(s[0]) {
        s.skip(1)
    } else {
        s
    }
}

/// Whether `str::parse::<i64>` accepts `s`: an optional `+` or `-`, then one or more
/// ASCII digits, whose value lies in the range of `i64`.
pub open spec fn parses_as_i64(s: Seq<char>) -> bool {
    let digits = unsigned_part(s);
    &&& digits.len() > 0
    &&& all_digits(digits)
    &&& if s[0] == '-' {
        digits_value(digits) <= 9223372036854775808
    } else {
        digits_value(digits) <= 9223372036854775807
    }
}

/// ASCII lower case.
pub open spec fn lower(c: char) -> char {
    if 'A' <= c <= 'Z' {
        ((c as u32) + 32) as char
    } else {
        c
    }
}

/// Whether `s` spells `word` (given in lower case), ignoring ASCII case.
pub open spec fn spells(s: Seq<char>, word: Seq<char>) -> bool {
    s.len() == word.len() && forall|i: int| 0 <= i < s.len() ==> lower(#[trigger] s[i]) == word[i]
}

/// Digits with at most one `.` among them, and at least one digit.
pub open spec fn is_mantissa(m: Seq<char>) -> bool {
    &&& forall|i: int| 0 <= i < m.len() ==> is_digit(#[trigger] m[i]) || m[i] == '.'
    &&& forall|i: int, j: int| 0 <= i < j < m.len() ==> !(#[trigger] m[i] == '.' && #[trigger] m[j] == '.')
    &&& exists|i: int| 0 <= i < m.len() && is_digit(#[trigger] m[i])
}

/// An optional sign, then one or more digits.
pub open spec fn is_exponent_digits(x: Seq<char>) -> bool {
    unsigned_part(x).len() > 0 && all_digits(unsigned_part(x))
}

/// The index of the first `e` or `E` in `s` at or after `i`, or `s.len()`.
pub open spec fn first_exponent_mark(s: Seq<char>, i: int) -> int
    decreases s.len() - i,
{
    if i >= s.len() {
        s.len() as int
    } else if lower(s[i]) == 'e' {
        i
    } else {
        first_exponent_mark(s, i + 1)
    }
}

/// `Number ::= ( Digit+ | Digit+ '.' Digit* | Digit* '.' Digit+ ) Exp?` with
/// `Exp ::= 'e' Sign? Digit+`.
pub open spec fn is_decimal_number(b: Seq<char>) -> bool {
    let k = first_exponent_mark(b, 0);
    if k < b.len() {
        is_mantissa(b.take(k)) && is_exponent_digits(b.skip(k + 1))
    } else {
        is_mantissa(b)
    }
}

/// Whether `str::parse::<f64>` accepts `s`: an optional sign, then `inf`, `infinity`,
/// `nan` (ignoring ASCII case) or a decimal number.
pub open spec fn parses_as_f64(s: Seq<char>) -> bool {
    let body = unsigned_part(s);
    ||| spells(body, seq!['i', 'n', 'f'])
    ||| spells(body, seq!['i', 'n', 'f', 'i', 'n', 'i', 't', 'y'])
    ||| spells(body, seq!['n', 'a', 'n'])
    ||| is_decimal_number(body)
}

proof fn lemma_digits_value_nonneg(s: Seq<char>)
    requires
        all_digits(s),
    ensures
        digits_value(s) >= 0,
    decreases s.len(),
{
    if s.len() > 0 {
        assert(all_digits(s.drop_last()));
        lemma_digits_value_nonneg(s.drop_last());
        assert(is_digit(s[s.len() - 1]));
    }
}

/// Whether the characters `s[lo..hi]` are all digits, `lo < hi`.
fn digits_in(s: &[char], lo: usize, hi: usize) -> (r: bool)
    requires
        lo <= hi <= s@.len(),
    ensures
        r == (lo < hi && all_digits(s@.subrange(lo as int, hi as int))),
{
    if lo == hi {
        return false;
    }
    let mut i = lo;
    while i < hi
        invariant
            lo <= i <= hi <= s@.len(),
            forall|j: int| lo <= j < i ==> is_digit(s@[j]),
        decreases hi - i,
    {
        if !(s[i] >= '0' && s[i] <= '9') {
            assert(!is_digit(s@.subrange(lo as int, hi as int)[i - lo]));
            return false;
        }
        i = i + 1;
    }
    assert forall|j: int| 0 <= j < hi - lo implies is_digit(#[trigger] s@.subrange(lo as int, hi as int)[j]) by {
        assert(s@.subrange(lo as int, hi as int)[j] == s@[lo + j]);
    }
    true
}

/// Whether `str::parse::<i64>` accepts the characters `s`.
pub fn parses_as_i64_chars(s: &[char]) -> (r: bool)
    ensures
        r == parses_as_i64(s@),
{
    let len = s.len();
    if len == 0 {
        return false;
    }
    let start: usize = if s[0] == '+' || s[0] == '-' { 1 } else { 0 };
    let ghost digits = unsigned_part(s@);
    assert(digits =~= s@.subrange(start as int, len as int));
    if !digits_in(s, start, len) {
        return false;
    }
    let limit: u128 = if s[0] == '-' { 9223372036854775808 } else { 9223372036854775807 };
    let mut acc: u128 = 0;
    let mut i = start;
    while i < len
        invariant
            start <= i <= len == s@.len(),
            all_digits(s@.subrange(start as int, len as int)),
            acc <= limit <= 9223372036854775808,
            acc == digits_value(s@.subrange(start as int, i as int)),
            len > 0,
            digits == s@.subrange(start as int, len as int),
            digits == unsigned_part(s@),
            limit == (if s@[0] == '-' { 9223372036854775808u128 } else { 9223372036854775807u128 }),
        decreases len - i,
    {
        assert(s@.subrange(start as int, i + 1).drop_last() =~= s@.subrange(start as int, i as int));
        assert(s@.subrange(start as int, len as int)[i - start] == s@[i as int]);
        let d = (s[i] as u32 - '0' as u32) as u128;
        let next = acc * 10 + d;
        if next > limit {
            // every longer prefix has a value at least this large
            proof {
                let full = s@.subrange(start as int, len as int);
                assert(digits_value(s@.subrange(start as int, i + 1)) == next);
                assert(full =~= digits);
                lemma_prefix_value_grows(full, i + 1 - start);
                assert(full.take(i + 1 - start) =~= s@.subrange(start as int, i + 1));
            }
            return false;
        }
        acc = next;
        i = i + 1;
    }
    assert(s@.subrange(start as int, len as int) =~= digits);
    true
}

/// The value of a string of digits is at least that of each of its prefixes.
proof fn lemma_prefix_value_grows(s: Seq<char>, k: int)
    requires
        all_digits(s),
        0 <= k <= s.len(),
    ensures
        digits_value(s.take(k)) <= digits_value(s),
    decreases s.len() - k,
{
    if k < s.len() {
        lemma_prefix_value_grows(s, k + 1);
        assert(s.take(k + 1).drop_last() =~= s.take(k));
        assert(all_digits(s.take(k)));
        lemma_digits_value_nonneg(s.take(k));
        assert(is_digit(s[k]));
    } else {
        assert(s.take(k) =~= s);
    }
}

fn lower_char(c: char) -> (r: char)
    ensures
        r == lower(c),
{
    if c >= 'A' && c <= 'Z' {
        let v: u32 = c as u32 + 32;
        // lower-case ASCII letters are valid chars
        let r = if v == 97 { 'a' } else if v == 98 { 'b' } else if v == 99 { 'c' } else if v == 100 { 'd' }
            else if v == 101 { 'e' } else if v == 102 { 'f' } else if v == 103 { 'g' } else if v == 104 { 'h' }
            else if v == 105 { 'i' } else if v == 106 { 'j' } else if v == 107 { 'k' } else if v == 108 { 'l' }
            else if v == 109 { 'm' } else if v == 110 { 'n' } else if v == 111 { 'o' } else if v == 112 { 'p' }
            else if v == 113 { 'q' } else if v == 114 { 'r' } else if v == 115 { 's' } else if v == 116 { 't' }
            else if v == 117 { 'u' } else if v == 118 { 'v' } else if v == 119 { 'w' } else if v == 120 { 'x' }
            else if v == 121 { 'y' } else { 'z' };
        r
    } else {
        c
    }
}

/// Whether `s[lo..]` spells `word` ignoring ASCII case.
fn spells_from(s: &[char], lo: usize, word: &[char]) -> (r: bool)
    requires
        lo <= s@.len(),
    ensures
        r == spells(s@.skip(lo as int), word@),
{
    if s.len() - lo != word.len() {
        return false;
    }
    let mut i: usize = 0;
    assert(s@.len() == s.len());
    while i < word.len()
        invariant
            s@.len() - lo == word@.len(),
            lo + word@.len() == s@.len(),
            s@.len() <= usize::MAX,
            i <= word@.len(),
            forall|j: int| 0 <= j < i ==> lower(#[trigger] s@.skip(lo as int)[j]) == word@[j],
        decreases word.len() - i,
    {
        assert(s@.skip(lo as int)[i as int] == s@[lo + i]);
        if lower_char(s[lo + i]) != word[i] {
            return false;
        }
        i = i + 1;
    }
    true
}

/// Whether `s[lo..hi]` is a mantissa.
fn mantissa_in(s: &[char], lo: usize, hi: usize) -> (r: bool)
    requires
        lo <= hi <= s@.len(),
    ensures
        r == is_mantissa(s@.subrange(lo as int, hi as int)),
{
    let ghost m = s@.subrange(lo as int, hi as int);
    let mut seen_dot = false;
    let mut seen_digit = false;
    let mut i = lo;
    while i < hi
        invariant
            lo <= i <= hi <= s@.len(),
            m == s@.subrange(lo as int, hi as int),
            forall|j: int| lo <= j < i ==> is_digit(#[trigger] s@[j]) || s@[j] == '.',
            forall|j: int, k: int| lo <= j < k < i ==> !(#[trigger] s@[j] == '.' && #[trigger] s@[k] == '.'),
            seen_dot == exists|j: int| lo <= j < i && #[trigger] s@[j] == '.',
            seen_digit == exists|j: int| lo <= j < i && is_digit(#[trigger] s@[j]),
        decreases hi - i,
    {
        let c = s[i];
        assert(m[i - lo] == c);
        if c == '.' {
            if seen_dot {
                let ghost j0 = choose|j: int| lo <= j < i && #[trigger] s@[j] == '.';
                assert(m[j0 - lo] == '.' && m[i - lo] == '.');
                return false;
            }
            seen_dot = true;
        } else if c >= '0' && c <= '9' {
            seen_digit = true;
        } else {
            return false;
        }
        i = i + 1;
    }
    assert forall|j: int| 0 <= j < m.len() implies is_digit(#[trigger] m[j]) || m[j] == '.' by {
        assert(m[j] == s@[lo + j]);
    }
    assert forall|j: int, k: int| 0 <= j < k < m.len() implies !(#[trigger] m[j] == '.' && #[trigger] m[k] == '.') by {
        assert(m[j] == s@[lo + j] && m[k] == s@[lo + k]);
    }
    if seen_digit {
        let ghost j0 = choose|j: int| lo <= j < hi && is_digit(#[trigger] s@[j]);
        assert(is_digit(m[j0 - lo]));
    } else {
        assert forall|j: int| 0 <= j < m.len() implies !is_digit(#[trigger] m[j]) by {
            assert(m[j] == s@[lo + j]);
        }
    }
    seen_digit
}

/// Whether `str::parse::<f64>` accepts the characters `s`.
pub fn parses_as_f64_chars(s: &[char]) -> (r: bool)
    ensures
        r == parses_as_f64(s@),
{
    let len = s.len();
    let start: usize = if len > 0 && (s[0] == '+' || s[0] == '-') { 1 } else { 0 };
    let ghost body = unsigned_part(s@);
    assert(body =~= s@.skip(start as int));
    let w_inf = ['i', 'n', 'f'];
    let w_infinity = ['i', 'n', 'f', 'i', 'n', 'i', 't', 'y'];
    let w_nan = ['n', 'a', 'n'];
    assert(w_inf@ =~= seq!['i', 'n', 'f']);
    assert(w_infinity@ =~= seq!['i', 'n', 'f', 'i', 'n', 'i', 't', 'y']);
    assert(w_nan@ =~= seq!['n', 'a', 'n']);
    if spells_from(s, start, &w_inf) || spells_from(s, start, &w_infinity) || spells_from(s, start, &w_nan) {
        return true;
    }
    // find the exponent mark
    let mut k = start;
    while k < len && lower_char(s[k]) != 'e'
        invariant
            start <= k <= len == s@.len(),
            body == s@.skip(start as int),
            first_exponent_mark(body, 0) == first_exponent_mark(body, k - start),
        decreases len - k,
    {
        assert(body[k - start] == s@[k as int]);
        k = k + 1;
    }
    proof {
        if k < len {
            assert(body[k - start] == s@[k as int]);
        }
        assert(first_exponent_mark(body, k - start) == k - start);
    }
    if k < len {
        assert(body.take(k - start) =~= s@.subrange(start as int, k as int));
        let e_start: usize = if k + 1 < len && (s[k + 1] == '+' || s[k + 1] == '-') { k + 2 } else { k + 1 };
        assert(unsigned_part(body.skip(k + 1 - start)) =~= s@.subrange(e_start as int, len as int));
        mantissa_in(s, start, k) && digits_in(s, e_start, len)
    } else {
        assert(body =~= s@.subrange(start as int, len as int));
        mantissa_in(s, start, len)
    }
}

} // verus!
