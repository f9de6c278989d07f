//! Character sequences: conversion between strings and character vectors,
//! searching, and decimal numbers.

use vstd::prelude::*;
use vstd::std_specs::iter::IteratorSpec;
use vstd::string::*;

verus! {

/// `String::push` of std appends one character to the end of the string.
pub assume_specification[ String::push ](s: &mut String, c: char)
    ensures
        final(s)@ == old(s)@.push(c),
;

/// Index of the first `c` in `s`, or the length of `s` where there is none.
pub open spec fn index_of(s: Seq<char>, c: char) -> int
    decreases s.len(),
{
    if s.len() == 0 {
        0
    } else if s[0] == c {
        0
    } else {
        1 + index_of(s.drop_first(), c)
    }
}

/// Length of the run of `c` that `s` starts with.
pub open spec fn run_len(s: Seq<char>, c: char) -> int
    decreases s.len(),
{
    if s.len() == 0 {
        0
    } else if s[0] != c {
        0
    } else {
        1 + run_len(s.drop_first(), c)
    }
}

/// `s` holds no `c`.
pub open spec fn free_of(s: Seq<char>, c: char) -> bool {
    forall|j: int| 0 <= j < s.len() ==> s[j] != c
}

/// The first place of `c` in `s` is `k` where no place before `k` holds
/// `c` and `k` holds it or is the end of `s`.
pub proof fn lemma_index_of(s: Seq<char>, c: char, k: int)
    requires
        0 <= k <= s.len(),
        forall|j: int| 0 <= j < k ==> s[j] != c,
        k == s.len() || s[k] == c,
    ensures
        index_of(s, c) == k,
    decreases k,
{
    if k > 0 {
        let t = s.drop_first();
        assert forall|j: int| 0 <= j < k - 1 implies t[j] != c by {
            assert(t[j] == s[j + 1]);
        }
        lemma_index_of(t, c, k - 1);
    }
}

/// `index_of` gives a place of `s` or its length; no place before it holds
/// `c`, and the place itself does.
pub proof fn lemma_index_of_found(s: Seq<char>, c: char)
    ensures
        0 <= index_of(s, c) <= s.len(),
        forall|j: int| 0 <= j < index_of(s, c) ==> s[j] != c,
        index_of(s, c) < s.len() ==> s[index_of(s, c)] == c,
    decreases s.len(),
{
    if s.len() > 0 && s[0] != c {
        let t = s.drop_first();
        lemma_index_of_found(t, c);
        assert forall|j: int| 0 <= j < index_of(s, c) implies s[j] != c by {
            if j > 0 {
                assert(t[j - 1] == s[j]);
            }
        }
    }
}

/// The run of `c` at the start of `s` has the length `k` where every place
/// before `k` holds `c` and `k` does not or is the end of `s`.
pub proof fn lemma_run_len(s: Seq<char>, c: char, k: int)
    requires
        0 <= k <= s.len(),
        forall|j: int| 0 <= j < k ==> s[j] == c,
        k == s.len() || s[k] != c,
    ensures
        run_len(s, c) == k,
    decreases k,
{
    if k > 0 {
        let t = s.drop_first();
        assert forall|j: int| 0 <= j < k - 1 implies t[j] == c by {
            assert(t[j] == s[j + 1]);
        }
        lemma_run_len(t, c, k - 1);
    }
}

/// The value of a decimal digit, or -1 for any other character.
pub open spec fn digit_num(c: char) -> int {
    if c == '0' {
        0
    } else if c == '1' {
        1
    } else if c == '2' {
        2
    } else if c == '3' {
        3
    } else if c == '4' {
        4
    } else if c == '5' {
        5
    } else if c == '6' {
        6
    } else if c == '7' {
        7
    } else if c == '8' {
        8
    } else if c == '9' {
        9
    } else {
        -1
    }
}

/// The digit that writes a value from 0 to 9.
pub open spec fn digit_char(d: int) -> char {
    if d == 1 {
        '1'
    } else if d == 2 {
        '2'
    } else if d == 3 {
        '3'
    } else if d == 4 {
        '4'
    } else if d == 5 {
        '5'
    } else if d == 6 {
        '6'
    } else if d == 7 {
        '7'
    } else if d == 8 {
        '8'
    } else if d == 9 {
        '9'
    } else {
        '0'
    }
}

/// The number that `s` writes in decimal: `None` unless `s` is one or more
/// decimal digits.
pub open spec fn dec_value(s: Seq<char>) -> Option<int>
    decreases s.len(),
{
    if s.len() == 0 {
        None
    } else if digit_num(s.last()) < 0 {
        None
    } else if s.len() == 1 {
        Some(digit_num(s.last()))
    } else {
        match dec_value(s.drop_last()) {
            Some(h) => Some(10 * h + digit_num(s.last())),
            None => None,
        }
    }
}

/// The shortest decimal writing of `n`.
pub open spec fn dec_digits(n: nat) -> Seq<char>
    decreases n,
{
    if n < 10 {
        seq![digit_char(n as int)]
    } else {
        dec_digits(n / 10).push(digit_char((n % 10) as int))
    }
}

/// Every character of `s` is a decimal digit.
pub open spec fn all_digits(s: Seq<char>) -> bool {
    forall|j: int| 0 <= j < s.len() ==> digit_num(s[j]) >= 0
}

/// Exactly the sequences of one or more digits write a number, and that
/// number is not negative.
pub proof fn lemma_dec_value_digits(s: Seq<char>)
    ensures
        dec_value(s) is Some <==> (s.len() > 0 && all_digits(s)),
        dec_value(s) is Some ==> dec_value(s)->0 >= 0,
    decreases s.len(),
{
    if s.len() > 1 {
        let t = s.drop_last();
        lemma_dec_value_digits(t);
        if dec_value(s) is Some {
            assert forall|j: int| 0 <= j < s.len() implies digit_num(s[j]) >= 0 by {
                if j < s.len() - 1 {
                    assert(t[j] == s[j]);
                }
            }
        }
        if all_digits(s) {
            assert forall|j: int| 0 <= j < t.len() implies digit_num(t[j]) >= 0 by {
                assert(t[j] == s[j]);
            }
        }
    }
}

/// Reading back what `dec_digits` wrote gives the number; the writing holds
/// digits only.
pub proof fn lemma_dec_round_trip(n: nat)
    ensures
        dec_value(dec_digits(n)) == Some(n as int),
        dec_digits(n).len() > 0,
        all_digits(dec_digits(n)),
    decreases n,
{
    if n >= 10 {
        lemma_dec_round_trip(n / 10);
        let h = dec_digits(n / 10);
        let s = dec_digits(n);
        assert(s.drop_last() =~= h);
        assert(s.last() == digit_char((n % 10) as int));
        assert(dec_value(s) == Some(n as int));
    }
}

/// What a field that should hold a decimal number turned out to be.
#[derive(Debug, Clone, Copy, PartialEq, Eq, Structural)]
pub enum Decimal {
    /// Empty, or with a character that is no digit.
    Invalid,
    /// Digits only, of a number above `u64::MAX`.
    TooLarge,
    /// Digits only, of this number.
    Value(u64),
}

/// What `read_decimal` returns for the characters `s`.
pub open spec fn decimal_of(s: Seq<char>) -> Decimal {
    match dec_value(s) {
        None => Decimal::Invalid,
        Some(v) => if v <= u64::MAX {
            Decimal::Value(v as u64)
        } else {
            Decimal::TooLarge
        },
    }
}

/// The value of the digit `c`, if it is one.
pub fn digit_of(c: char) -> (d: Option<u64>)
    ensures
        d is Some <==> digit_num(c) >= 0,
        d is Some ==> d->0 == digit_num(c),
{
    if c == '0' {
        Some(0)
    } else if c == '1' {
        Some(1)
    } else if c == '2' {
        Some(2)
    } else if c == '3' {
        Some(3)
    } else if c == '4' {
        Some(4)
    } else if c == '5' {
        Some(5)
    } else if c == '6' {
        Some(6)
    } else if c == '7' {
        Some(7)
    } else if c == '8' {
        Some(8)
    } else if c == '9' {
        Some(9)
    } else {
        None
    }
}

/// Reads the characters from `from` up to `to` as a decimal number.
pub fn read_decimal(chars: &Vec<char>, from: usize, to: usize) -> (r: Decimal)
    requires
        from <= to <= chars.len(),
    ensures
        r == decimal_of(chars@.subrange(from as int, to as int)),
{
    let ghost whole = chars@.subrange(from as int, to as int);
    let mut acc: u64 = 0;
    let mut over: bool = false;
    let mut i: usize = from;
    while i < to
        invariant
            from <= i <= to <= chars.len(),
            whole == chars@.subrange(from as int, to as int),
            i == from ==> acc == 0 && !over,
            i > from ==> dec_value(chars@.subrange(from as int, i as int)) is Some,
            i > from && !over ==> dec_value(chars@.subrange(from as int, i as int)) == Some(
                acc as int,
            ),
            i > from && over ==> dec_value(chars@.subrange(from as int, i as int))->0 > u64::MAX,
        decreases to - i,
    {
        let ghost p = chars@.subrange(from as int, i as int);
        let ghost q = chars@.subrange(from as int, i + 1);
        proof {
            assert(q.drop_last() =~= p);
            assert(q.last() == chars@[i as int]);
        }
        match digit_of(chars[i]) {
            None => {
                proof {
                    assert(whole[i - from] == chars@[i as int]);
                    lemma_dec_value_digits(whole);
                }
                return Decimal::Invalid;
            },
            Some(d) => {
                if !over {
                    if acc > (u64::MAX - d) / 10 {
                        over = true;
                    } else {
                        acc = acc * 10 + d;
                    }
                }
            },
        }
        i = i + 1;
    }
    proof {
        assert(chars@.subrange(from as int, i as int) =~= whole);
    }
    if from == to {
        Decimal::Invalid
    } else if over {
        Decimal::TooLarge
    } else {
        Decimal::Value(acc)
    }
}

/// The digit that writes `d`.
pub fn digit_to_char(d: u64) -> (c: char)
    requires
        d < 10,
    ensures
        c == digit_char(d as int),
{
    if d == 1 {
        '1'
    } else if d == 2 {
        '2'
    } else if d == 3 {
        '3'
    } else if d == 4 {
        '4'
    } else if d == 5 {
        '5'
    } else if d == 6 {
        '6'
    } else if d == 7 {
        '7'
    } else if d == 8 {
        '8'
    } else if d == 9 {
        '9'
    } else {
        '0'
    }
}

/// Appends the decimal writing of `n` to `out`.
pub fn push_decimal(out: &mut String, n: u64)
    ensures
        final(out)@ == old(out)@ + dec_digits(n as nat),
    decreases n,
{
    if n >= 10 {
        push_decimal(out, n / 10);
    }
    out.push(digit_to_char(n % 10));
    proof {
        assert(final(out)@ =~= old(out)@ + dec_digits(n as nat));
    }
}

/// The characters of `s`, in order.
pub fn chars_of(s: &str) -> (v: Vec<char>)
    ensures
        v@ == s@,
{
    broadcast use vstd::string::group_string_axioms;

    let mut it = s.chars();
    let mut v: Vec<char> = Vec::new();
    loop
        invariant
            v@ + it.remaining() == s@,
            it.decrease() is Some,
        decreases it.decrease()->0,
    {
        match it.next() {
            Some(c) => {
                v.push(c);
                proof {
                    assert(v@ + it.remaining() =~= s@);
                }
            },
            None => {
                proof {
                    assert(v@ =~= s@);
                }
                return v;
            },
        }
    }
}

/// The characters of `chars` from `from` up to `to`, as a string.
pub fn string_of(chars: &Vec<char>, from: usize, to: usize) -> (s: String)
    requires
        from <= to <= chars.len(),
    ensures
        s@ == chars@.subrange(from as int, to as int),
{
    let mut s = String::new();
    let mut i: usize = from;
    while i < to
        invariant
            from <= i <= to <= chars.len(),
            s@ == chars@.subrange(from as int, i as int),
        decreases to - i,
    {
        s.push(chars[i]);
        i = i + 1;
        proof {
            assert(s@ =~= chars@.subrange(from as int, i as int));
        }
    }
    s
}

/// The first place at or after `from` and before `to` that holds `c`, or
/// `to` where none does.
pub fn find_char(chars: &Vec<char>, from: usize, to: usize, c: char) -> (r: usize)
    requires
        from <= to <= chars.len(),
    ensures
        from <= r <= to,
        forall|j: int| from <= j < r ==> chars@[j] != c,
        r == to || chars@[r as int] == c,
{
    let mut i: usize = from;
    while i < to && chars[i] != c
        invariant
            from <= i <= to <= chars.len(),
            forall|j: int| from <= j < i ==> chars@[j] != c,
        decreases to - i,
    {
        i = i + 1;
    }
    i
}

/// The first place at or after `from` and before `to` that does not hold
/// `c`, or `to` where all do.
pub fn skip_char(chars: &Vec<char>, from: usize, to: usize, c: char) -> (r: usize)
    requires
        from <= to <= chars.len(),
    ensures
        from <= r <= to,
        forall|j: int| from <= j < r ==> chars@[j] == c,
        r == to || chars@[r as int] != c,
{
    let mut i: usize = from;
    while i < to && chars[i] == c
        invariant
            from <= i <= to <= chars.len(),
            forall|j: int| from <= j < i ==> chars@[j] == c,
        decreases to - i,
    {
        i = i + 1;
    }
    i
}

/// Index of the last `c` in `s`, or -1 where there is none.
pub open spec fn last_index_of(s: Seq<char>, c: char) -> int
    decreases s.len(),
{
    if s.len() == 0 {
        -1
    } else if s.last() == c {
        s.len() - 1
    } else {
        last_index_of(s.drop_last(), c)
    }
}

/// The last place of `c` in `s` is `k - 1` where no place from `k` on holds
/// `c` and the place before `k` holds it or `k` is 0.
pub proof fn lemma_last_index_of(s: Seq<char>, c: char, k: int)
    requires
        0 <= k <= s.len(),
        forall|j: int| k <= j < s.len() ==> s[j] != c,
        k == 0 || s[k - 1] == c,
    ensures
        last_index_of(s, c) == k - 1,
    decreases s.len() - k,
{
    if k < s.len() {
        let t = s.drop_last();
        assert forall|j: int| k <= j < t.len() implies t[j] != c by {
            assert(t[j] == s[j]);
        }
        lemma_last_index_of(t, c, k);
    }
}

/// The views of a sequence of strings.
pub open spec fn string_views(v: Seq<String>) -> Seq<Seq<char>> {
    v.map_values(|s: String| s@)
}

/// Tells whether `names` holds `name`.
pub fn holds_name(names: &Vec<String>, name: &String) -> (r: bool)
    ensures
        r == string_views(names@).contains(name@),
{
    let mut i: usize = 0;
    while i < names.len()
        invariant
            i <= names.len(),
            forall|j: int| 0 <= j < i ==> string_views(names@)[j] != name@,
        decreases names.len() - i,
    {
        if names[i] == *name {
            proof {
                assert(string_views(names@)[i as int] == name@);
            }
            return true;
        }
        i = i + 1;
    }
    false
}

} // verus!
