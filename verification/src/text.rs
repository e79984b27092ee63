//! Text helpers: characters of strings, decimal numbers, and the lines of a text.
use vstd::prelude::*;

verus! {

/// The characters of `s`, in order.
pub fn chars_of(s: &str) -> (r: Vec<char>)
    ensures
        r@ == s@,
{
    broadcast use vstd::string::axiom_spec_iter;

    let mut out: Vec<char> = Vec::new();
    for c in it: s.chars()
        invariant
            out@ == it.seq().take(it.index() as int),
    {
        out.push(c);
        assert(out@ =~= it.seq().take(it.index() + 1));
    }
    assert(out@ =~= s@);
    out
}

/// The string made of the characters `cs`, in order: calls `String::from_iter`, which
/// collects the characters that the slice iterator yields into a new `String`.
#[verifier::external_body]
pub(crate) fn string_from_chars(cs: &[char]) -> (r: String)
    ensures
        r@ == cs@,
{
    String::from_iter(cs.iter())
}

/// An owned copy of `s`.
pub fn owned(s: &str) -> (r: String)
    ensures
        r@ == s@,
{
    s.to_string()
}

/// Whether `cs` holds exactly the characters of `lit`.
pub fn chars_match(cs: &[char], lit: &[char]) -> (r: bool)
    ensures
        r == (cs@ == lit@),
{
    if cs.len() != lit.len() {
        return false;
    }
    let mut i: usize = 0;
    while i < cs.len()
        invariant
            cs@.len() == lit@.len(),
            i <= cs@.len(),
            forall|j: int| 0 <= j < i ==> cs@[j] == lit@[j],
        decreases cs.len() - i,
    {
        if cs[i] != lit[i] {
            return false;
        }
        i = i + 1;
    }
    assert(cs@ =~= lit@);
    true
}

/// Whether `s` holds exactly the characters of `w`.
pub fn text_is(s: &String, w: &str) -> (r: bool)
    ensures
        r == (s@ == w@),
{
    let cs = chars_of(s.as_str());
    let cw = chars_of(w);
    chars_match(cs.as_slice(), cw.as_slice())
}

/// `s` followed by the characters of `t`.
pub fn concat(s: String, t: &str) -> (r: String)
    ensures
        r@ == s@ + t@,
{
    s.concat(t)
}

/// The decimal digits of `n`, most significant first, without leading zeros ("0" for zero).
pub open spec fn decimal(n: nat) -> Seq<char>
    decreases n,
{
    if n < 10 {
        seq![digit_char(n)]
    } else {
        decimal(n / 10).push(digit_char(n % 10))
    }
}

/// The ASCII digit for a value below ten.
pub open spec fn digit_char(d: nat) -> char {
    ('0' as u32 + d) as char
}

/// The decimal representation of `n`, as `usize::to_string` writes it.
pub fn decimal_string(n: usize) -> (r: String)
    ensures
        r@ == decimal(n as nat),
{
    let mut digits: Vec<char> = Vec::new();
    let mut m: usize = n;
    // digits holds the low-order digits of n in reverse order; m the part not yet written
    loop
        invariant_except_break
            m <= n,
            decimal(n as nat) == decimal(m as nat) + digits@.reverse(),
        ensures
            decimal(n as nat) == digits@.reverse(),
        decreases m,
    {
        let d: usize = m % 10;
        let c = char_for_digit(d);
        if m < 10 {
            digits.push(c);
            assert(decimal(m as nat) == seq![digit_char(m as nat)]);
            assert(digits@.reverse() =~= seq![c] + digits@.drop_last().reverse());
            assert(decimal(n as nat) =~= digits@.reverse());
            break;
        }
        assert(decimal(m as nat) == decimal((m / 10) as nat).push(digit_char((m % 10) as nat)));
        let ghost before = digits@;
        digits.push(c);
        assert(digits@.reverse() =~= seq![c] + before.reverse());
        m = m / 10;
    }
    let mut out: Vec<char> = Vec::new();
    let len = digits.len();
    let mut i: usize = 0;
    while i < len
        invariant
            len == digits@.len(),
            i <= len,
            out@ =~= digits@.reverse().take(i as int),
        decreases len - i,
    {
        out.push(digits[len - 1 - i]);
        i = i + 1;
        assert(out@ =~= digits@.reverse().take(i as int));
    }
    assert(digits@.reverse().take(len as int) =~= digits@.reverse());
    string_from_chars(out.as_slice())
}

/// Where the line that starts at `i` ends: the index of the next `\n`, or the length of `s`.
pub open spec fn line_end(s: Seq<char>, i: int) -> int
    decreases s.len() - i,
{
    if i < 0 || i >= s.len() {
        s.len() as int
    } else if s[i] == '\n' {
        i
    } else {
        line_end(s, i + 1)
    }
}

pub proof fn lemma_line_end(s: Seq<char>, i: int)
    requires
        0 <= i <= s.len(),
    ensures
        i <= line_end(s, i) <= s.len(),
        line_end(s, i) < s.len() ==> s[line_end(s, i)] == '\n',
        forall|j: int| i <= j < line_end(s, i) ==> s[j] != '\n',
    decreases s.len() - i,
{
    if i < s.len() && s[i] != '\n' {
        lemma_line_end(s, i + 1);
    }
}

/// The lines of `s[i..]`, as `str::lines` yields them: split at each `\n`, with a `\r`
/// just before the `\n` dropped, and no empty line after a final `\n`.
pub open spec fn lines_from(s: Seq<char>, i: int) -> Seq<Seq<char>>
    decreases s.len() - i,
{
    if i < 0 || i >= s.len() {
        seq![]
    } else {
        proof {
            lemma_line_end(s, i);
        }
        let e = line_end(s, i);
        let raw = s.subrange(i, e);
        if e < s.len() {
            let line = if raw.len() > 0 && raw.last() == '\r' {
                raw.drop_last()
            } else {
                raw
            };
            seq![line] + lines_from(s, e + 1)
        } else {
            seq![raw]
        }
    }
}

/// The lines of `s`.
pub open spec fn lines(s: Seq<char>) -> Seq<Seq<char>> {
    lines_from(s, 0)
}

fn find_line_end(s: &Vec<char>, i: usize) -> (e: usize)
    requires
        i <= s@.len(),
    ensures
        e == line_end(s@, i as int),
{
    let mut j: usize = i;
    while j < s.len() && s[j] != '\n'
        invariant
            i <= j <= s@.len(),
            line_end(s@, i as int) == line_end(s@, j as int),
        decreases s.len() - j,
    {
        j = j + 1;
    }
    j
}

/// The line of `s` with index `n` (from zero), if `s` has that many lines.
pub fn nth_line(s: &Vec<char>, n: usize) -> (r: Option<Vec<char>>)
    ensures
        match r {
            None => n >= lines(s@).len(),
            Some(l) => n < lines(s@).len() && l@ == lines(s@)[n as int],
        },
{
    let ghost mut done: Seq<Seq<char>> = seq![];
    let mut start: usize = 0;
    let mut k: usize = 0;
    while start < s.len()
        invariant
            start <= s@.len(),
            k <= n,
            done.len() == k,
            lines(s@) == done + lines_from(s@, start as int),
        decreases s.len() - start,
    {
        let e = find_line_end(s, start);
        proof {
            lemma_line_end(s@, start as int);
        }
        let ghost line = lines_from(s@, start as int)[0];
        let end = if e < s.len() && e > start && s[e - 1] == '\r' {
            e - 1
        } else {
            e
        };
        assert(line =~= s@.subrange(start as int, end as int));
        if k == n {
            let mut out: Vec<char> = Vec::new();
            let mut j: usize = start;
            while j < end
                invariant
                    start <= j <= end,
                    end <= s@.len(),
                    out@ =~= s@.subrange(start as int, j as int),
                decreases end - j,
            {
                out.push(s[j]);
                j = j + 1;
            }
            return Some(out);
        }
        proof {
            if e < s.len() {
                assert(lines_from(s@, start as int) == seq![line] + lines_from(s@, e + 1));
            } else {
                assert(lines_from(s@, start as int) == seq![line] + lines_from(s@, e as int));
            }
            done = done.push(line);
        }
        if e < s.len() {
            start = e + 1;
        } else {
            start = e;
        }
        k = k + 1;
    }
    None
}

fn char_for_digit(d: usize) -> (c: char)
    requires
        d < 10,
    ensures
        c == digit_char(d as nat),
{
    let c = if d == 0 { '0' } else if d == 1 { '1' } else if d == 2 { '2' } else if d == 3 { '3' }
        else if d == 4 { '4' } else if d == 5 { '5' } else if d == 6 { '6' } else if d == 7 { '7' }
        else if d == 8 { '8' } else { '9' };
    assert(c == digit_char(d as nat)) by {
        assert('0' as u32 == 48);
        assert(c as u32 == 48 + d);
    }
    c
}

} // verus!

verus! {

/// Concatenation is associative.
pub broadcast proof fn lemma_seq_add_assoc<A>(a: Seq<A>, b: Seq<A>, c: Seq<A>)
    ensures
        #[trigger] ((a + b) + c) == a + (b + c),
{
    assert((a + b) + c =~= a + (b + c));
}

/// Pushing after a concatenation pushes onto its second part.
pub broadcast proof fn lemma_seq_push_add<A>(a: Seq<A>, b: Seq<A>, x: A)
    ensures
        #[trigger] (a + b).push(x) == a + b.push(x),
{
    assert((a + b).push(x) =~= a + b.push(x));
}

/// Pushing is concatenating a one-element sequence.
pub broadcast proof fn lemma_seq_add_single<A>(a: Seq<A>, x: A)
    ensures
        #[trigger] (a + seq![x]) == a.push(x),
{
    assert(a + seq![x] =~= a.push(x));
}

/// The empty sequence is a unit of concatenation.
pub broadcast proof fn lemma_seq_add_empty<A>(a: Seq<A>)
    ensures
        #[trigger] (a + Seq::<A>::empty()) == a,
        #[trigger] (Seq::<A>::empty() + a) == a,
{
    assert(a + Seq::<A>::empty() =~= a);
    assert(Seq::<A>::empty() + a =~= a);
}

pub broadcast group group_seq_concat {
    lemma_seq_add_assoc,
    lemma_seq_push_add,
    lemma_seq_add_single,
    lemma_seq_add_empty,
}

} // verus!
