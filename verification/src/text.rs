//! Small tools for reading names: their characters, and the numbers in them.

use vstd::prelude::*;

verus! {

/// The characters of `s`.
pub fn chars_of(s: &str) -> (r: Vec<char>)
    ensures
        r@ == s@,
{
    let mut out: Vec<char> = Vec::new();
    for c in it: s.chars()
        invariant
            it.seq() == s@,
            out@ == s@.take(it.index() as int),
    {
        out.push(c);
    }
    out
}

/// Whether `chars` begins with `prefix`.
pub fn starts_with(chars: &Vec<char>, prefix: &Vec<char>) -> (r: bool)
    ensures
        r == prefix@.is_prefix_of(chars@),
{
    if chars.len() < prefix.len() {
        return false;
    }
    let mut i: usize = 0;
    while i < prefix.len()
        invariant
            i <= prefix@.len() <= chars@.len(),
            forall|j: int| 0 <= j < i ==> chars@[j] == prefix@[j],
        decreases prefix@.len() - i,
    {
        if chars[i] != prefix[i] {
            assert(chars@.subrange(0, prefix@.len() as int)[i as int] != prefix@[i as int]);
            return false;
        }
        i += 1;
    }
    assert(chars@.subrange(0, prefix@.len() as int) =~= prefix@);
    true
}

/// Whether `c` is one of the ten decimal digits.
pub open spec fn is_digit(c: char) -> bool {
    '0' <= c <= '9'
}

/// The number that the decimal digits `s` write; 0 for none.
pub open spec fn decimal_value(s: Seq<char>) -> nat
    decreases s.len(),
{
    if s.len() == 0 {
        0
    } else {
        (10 * decimal_value(s.drop_last()) + (s.last() as u32 - '0' as u32)) as nat
    }
}

/// Whether `s` writes a number that a `usize` holds: one digit or more,
/// digits only.
pub open spec fn is_number(s: Seq<char>) -> bool {
    &&& s.len() > 0
    &&& forall|i: int| 0 <= i < s.len() ==> is_digit(s[i])
    &&& decimal_value(s) <= usize::MAX
}

/// A number never grows smaller as digits are added to it.
pub proof fn lemma_decimal_grows(s: Seq<char>, k: int)
    requires
        0 <= k <= s.len(),
        forall|i: int| 0 <= i < s.len() ==> is_digit(s[i]),
    ensures
        decimal_value(s.take(k)) <= decimal_value(s),
    decreases s.len() - k,
{
    if k < s.len() {
        let t = s.drop_last();
        if k < s.len() - 1 {
            lemma_decimal_grows(t, k);
            assert(t.take(k) =~= s.take(k));
        } else {
            assert(t =~= s.take(k));
        }
        assert(is_digit(s.last()));
    } else {
        assert(s.take(k) =~= s);
    }
}

/// How many elements stand before the first `x` of `s`; the length of `s` if
/// it holds none.
pub open spec fn offset_of(s: Seq<char>, x: char) -> int
    decreases s.len(),
{
    if s.len() == 0 || s[0] == x {
        0
    } else {
        1 + offset_of(s.drop_first(), x)
    }
}

/// `offset_of` is the one position that holds `x` after none, or the length
/// where there is none.
pub proof fn lemma_offset_of(s: Seq<char>, x: char, k: int)
    requires
        0 <= k <= s.len(),
        forall|j: int| 0 <= j < k ==> s[j] != x,
        k < s.len() ==> s[k] == x,
    ensures
        offset_of(s, x) == k,
    decreases k,
{
    if k > 0 {
        let t = s.drop_first();
        assert forall|j: int| 0 <= j < k - 1 implies t[j] != x by {
            assert(t[j] == s[j + 1]);
        }
        lemma_offset_of(t, x, k - 1);
    }
}

/// The position of the first `x` at or after `from`, or the length of
/// `chars` if there is none.
pub fn find_from(chars: &Vec<char>, from: usize, x: char) -> (k: usize)
    requires
        from <= chars@.len(),
    ensures
        from <= k <= chars@.len(),
        k - from == offset_of(chars@.skip(from as int), x),
{
    let mut k: usize = from;
    while k < chars.len() && chars[k] != x
        invariant
            from <= k <= chars@.len(),
            forall|j: int| from <= j < k ==> chars@[j] != x,
        decreases chars@.len() - k,
    {
        k += 1;
    }
    proof {
        lemma_offset_of(chars@.skip(from as int), x, k - from);
    }
    k
}

/// Reads the characters from `from` up to `to` as a decimal number.
pub fn parse_number(chars: &Vec<char>, from: usize, to: usize) -> (r: Option<usize>)
    requires
        from <= to <= chars@.len(),
    ensures
        r is Some <==> is_number(chars@.subrange(from as int, to as int)),
        r matches Some(n) ==> n == decimal_value(chars@.subrange(from as int, to as int)),
{
    let ghost digits = chars@.subrange(from as int, to as int);
    if from == to {
        return None;
    }
    let mut value: usize = 0;
    let mut i: usize = from;
    while i < to
        invariant
            from <= i <= to <= chars@.len(),
            digits == chars@.subrange(from as int, to as int),
            forall|j: int| 0 <= j < i - from ==> is_digit(digits[j]),
            value == decimal_value(digits.take(i - from)),
        decreases to - i,
    {
        let c = chars[i];
        if c < '0' || c > '9' {
            assert(!is_digit(digits[i - from]));
            return None;
        }
        let d: usize = (c as u32 - '0' as u32) as usize;
        proof {
            let next = digits.take(i - from + 1);
            assert(next.drop_last() =~= digits.take(i - from));
            assert(next.last() == c);
            assert(decimal_value(next) == 10 * value + d);
        }
        if value > (usize::MAX - d) / 10 {
            proof {
                if forall|j: int| 0 <= j < digits.len() ==> is_digit(digits[j]) {
                    lemma_decimal_grows(digits, i - from + 1);
                }
            }
            return None;
        }
        value = value * 10 + d;
        i += 1;
    }
    assert(digits.take(to - from) =~= digits);
    Some(value)
}

} // verus!
