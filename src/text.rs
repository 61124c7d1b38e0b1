//! Decimal digits and character sequences: the text that the library reads
//! and writes.

use vstd::prelude::*;

verus! {

pub open spec fn is_digit(c: char) -> bool {
    '0' <= c && c <= '9'
}

pub open spec fn digit_value(c: char) -> nat {
    (c as nat - '0' as nat) as nat
}

/// The character of a decimal digit `d < 10`.
pub open spec fn digit_char(d: nat) -> char {
    if d == 0 { '0' }
    else if d == 1 { '1' }
    else if d == 2 { '2' }
    else if d == 3 { '3' }
    else if d == 4 { '4' }
    else if d == 5 { '5' }
    else if d == 6 { '6' }
    else if d == 7 { '7' }
    else if d == 8 { '8' }
    else { '9' }
}

/// The decimal numeral of `n`, without leading zeros ("0" for zero).
pub open spec fn numeral(n: nat) -> Seq<char>
    decreases n,
{
    if n < 10 {
        seq![digit_char(n)]
    } else {
        numeral(n / 10).push(digit_char(n % 10))
    }
}

/// The last `k` decimal digits of `n`, padded with leading zeros.
pub open spec fn padded_numeral(n: nat, k: nat) -> Seq<char>
    decreases k,
{
    if k == 0 {
        Seq::empty()
    } else {
        padded_numeral(n / 10, (k - 1) as nat).push(digit_char(n % 10))
    }
}

/// The value of a sequence of decimal digits, most significant first
/// (zero for the empty sequence).
pub open spec fn digits_value(s: Seq<char>) -> nat
    decreases s.len(),
{
    if s.len() == 0 {
        0
    } else {
        digits_value(s.drop_last()) * 10 + digit_value(s.last())
    }
}

pub open spec fn all_digits(s: Seq<char>) -> bool {
    forall|i: int| 0 <= i < s.len() ==> is_digit(#[trigger] s[i])
}

/// Number of decimal digits at the start of `s`.
pub open spec fn leading_digits(s: Seq<char>) -> nat
    decreases s.len(),
{
    if s.len() == 0 || !is_digit(s[0]) {
        0
    } else {
        1 + leading_digits(s.subrange(1, s.len() as int))
    }
}

/// The first position at or after `i` that holds `c`.
pub open spec fn find_char(s: Seq<char>, c: char, i: int) -> Option<int>
    decreases s.len() - i,
{
    if i < 0 || i >= s.len() {
        None
    } else if s[i] == c {
        Some(i)
    } else {
        find_char(s, c, i + 1)
    }
}

/// The first position at or after `i` where `word` (non-empty) starts.
pub open spec fn find_word(s: Seq<char>, word: Seq<char>, i: int) -> Option<int>
    decreases s.len() - i,
{
    if i < 0 || i + word.len() > s.len() || word.len() == 0 {
        None
    } else if s.subrange(i, i + word.len()) == word {
        Some(i)
    } else {
        find_word(s, word, i + 1)
    }
}

/// The first position at or after `from` in `s[..end]` that holds `c`.
pub fn find_char_exec(s: &Vec<char>, c: char, from: usize, end: usize) -> (r: Option<usize>)
    requires
        from <= end <= s@.len(),
    ensures
        match r {
            Some(i) => find_char(s@.subrange(0, end as int), c, from as int) == Some(i as int) && from <= i < end,
            None => find_char(s@.subrange(0, end as int), c, from as int) is None,
        },
{
    let ghost t = s@.subrange(0, end as int);
    let mut i = from;
    while i < end
        invariant
            from <= i <= end <= s@.len(),
            t == s@.subrange(0, end as int),
            find_char(t, c, from as int) == find_char(t, c, i as int),
        decreases end - i,
    {
        if s[i] == c {
            return Some(i);
        }
        i = i + 1;
    }
    None
}

/// The first position at or after `from` in `s[..end]` where `word`
/// starts.
pub fn find_word_exec(s: &Vec<char>, word: &str, from: usize, end: usize) -> (r: Option<usize>)
    requires
        from <= end <= s@.len(),
    ensures
        match r {
            Some(i) => find_word(s@.subrange(0, end as int), word@, from as int) == Some(i as int) && from <= i
                && i + word@.len() <= end,
            None => find_word(s@.subrange(0, end as int), word@, from as int) is None,
        },
{
    let ghost t = s@.subrange(0, end as int);
    let n = word.unicode_len();
    if n == 0 || n > end {
        return None;
    }
    let mut i = from;
    while i <= end - n
        invariant
            from <= i <= end <= s@.len(),
            n == word@.len(),
            0 < n <= end,
            t == s@.subrange(0, end as int),
            find_word(t, word@, from as int) == find_word(t, word@, i as int),
        decreases end - i,
    {
        if slice_is(s, i, i + n, word) {
            assert(t.subrange(i as int, i + n) =~= s@.subrange(i as int, i + n));
            return Some(i);
        }
        assert(t.subrange(i as int, i + n) =~= s@.subrange(i as int, i + n));
        i = i + 1;
    }
    None
}

pub proof fn lemma_leading_digits(s: Seq<char>, i: int)
    requires
        0 <= i <= s.len(),
        forall|j: int| 0 <= j < i ==> is_digit(#[trigger] s[j]),
        i == s.len() || !is_digit(s[i]),
    ensures
        leading_digits(s) == i,
    decreases i,
{
    if i > 0 {
        let t = s.subrange(1, s.len() as int);
        assert forall|j: int| 0 <= j < i - 1 implies is_digit(#[trigger] t[j]) by {
            assert(t[j] == s[j + 1]);
        }
        if i - 1 < t.len() {
            assert(t[i - 1] == s[i]);
        }
        lemma_leading_digits(t, i - 1);
    }
}

/// A longer digit sequence is worth at least as much as its prefix.
pub proof fn lemma_digits_value_prefix(s: Seq<char>, i: int)
    requires
        0 <= i <= s.len(),
    ensures
        digits_value(s.subrange(0, i)) <= digits_value(s),
    decreases s.len() - i,
{
    if i < s.len() {
        lemma_digits_value_prefix(s, i + 1);
        let t = s.subrange(0, i + 1);
        assert(t.drop_last() =~= s.subrange(0, i));
    } else {
        assert(s.subrange(0, i) =~= s);
    }
}

pub fn digit_str(d: u8) -> (r: &'static str)
    requires
        d < 10,
    ensures
        r@ == seq![digit_char(d as nat)],
{
    proof {
        reveal_strlit("0");
        reveal_strlit("1");
        reveal_strlit("2");
        reveal_strlit("3");
        reveal_strlit("4");
        reveal_strlit("5");
        reveal_strlit("6");
        reveal_strlit("7");
        reveal_strlit("8");
        reveal_strlit("9");
    }
    if d == 0 {
        "0"
    } else if d == 1 {
        "1"
    } else if d == 2 {
        "2"
    } else if d == 3 {
        "3"
    } else if d == 4 {
        "4"
    } else if d == 5 {
        "5"
    } else if d == 6 {
        "6"
    } else if d == 7 {
        "7"
    } else if d == 8 {
        "8"
    } else {
        "9"
    }
}

/// Appends the decimal numeral of `n`.
pub fn push_numeral(out: &mut String, n: u128)
    ensures
        final(out)@ == old(out)@ + numeral(n as nat),
    decreases n,
{
    if n >= 10 {
        push_numeral(out, n / 10);
    }
    out.append(digit_str((n % 10) as u8));
    assert(final(out)@ =~= old(out)@ + numeral(n as nat));
}

/// Appends the last `k` decimal digits of `n`, padded with leading zeros.
pub fn push_padded_numeral(out: &mut String, n: u128, k: u32)
    ensures
        final(out)@ == old(out)@ + padded_numeral(n as nat, k as nat),
    decreases k,
{
    if k > 0 {
        push_padded_numeral(out, n / 10, k - 1);
        out.append(digit_str((n % 10) as u8));
    }
    assert(final(out)@ =~= old(out)@ + padded_numeral(n as nat, k as nat));
}

/// The characters of `s`, in order.
pub fn chars_of(s: &str) -> (r: Vec<char>)
    ensures
        r@ == s@,
{
    let n = s.unicode_len();
    let mut r: Vec<char> = Vec::new();
    let mut i: usize = 0;
    while i < n
        invariant
            n == s@.len(),
            i <= n,
            r@ == s@.subrange(0, i as int),
        decreases n - i,
    {
        r.push(s.get_char(i));
        i = i + 1;
        assert(r@ =~= s@.subrange(0, i as int));
    }
    assert(r@ =~= s@);
    r
}

/// Whether the characters `s[start..end]` spell `word`.
pub fn slice_is(s: &Vec<char>, start: usize, end: usize, word: &str) -> (r: bool)
    requires
        start <= end <= s@.len(),
    ensures
        r == (s@.subrange(start as int, end as int) == word@),
{
    let n = word.unicode_len();
    if end - start != n {
        return false;
    }
    let mut i: usize = 0;
    while i < n
        invariant
            n == word@.len(),
            start <= end <= s@.len(),
            end - start == n,
            i <= n,
            forall|j: int| 0 <= j < i ==> s@[start + j] == word@[j],
        decreases n - i,
    {
        if s[start + i] != word.get_char(i) {
            return false;
        }
        i = i + 1;
    }
    assert(s@.subrange(start as int, end as int) =~= word@);
    true
}

} // verus!
