//! Character-level helpers shared by the rest of the crate.
//!
//! Text is specified as `Seq<char>`, the view of `str` and `String`.

use vstd::prelude::*;

verus! {

/// `String::push` appends one character.
pub assume_specification[ std::string::String::push ](s: &mut std::string::String, c: char)
    ensures
        final(s)@ == old(s)@.push(c),
;

/// Two string slices compare equal exactly when they hold the same characters.
pub assume_specification[ <str as PartialEq>::eq ](a: &str, b: &str) -> (r: bool)
    ensures
        r == (a@ == b@),
;

/// Whether two pieces of text hold the same characters.
pub fn str_eq(a: &str, b: &str) -> (r: bool)
    ensures
        r == (a@ == b@),
{
    *a == *b
}

/// The characters of `text`, in order.
pub fn chars_of(text: &str) -> (r: Vec<char>)
    ensures
        r@ == text@,
{
    let mut out: Vec<char> = Vec::new();
    for c in it: text.chars()
        invariant
            it.seq() == text@,
            out@ == text@.take(it.index() as int),
    {
        out.push(c);
    }
    out
}

/// The text made of `chars[from..to]`.
pub fn string_of(chars: &Vec<char>, from: usize, to: usize) -> (r: String)
    requires
        from <= to <= chars@.len(),
    ensures
        r@ == chars@.subrange(from as int, to as int),
{
    let mut out = String::new();
    let mut i: usize = from;
    while i < to
        invariant
            from <= i <= to <= chars@.len(),
            out@ == chars@.subrange(from as int, i as int),
        decreases to - i,
    {
        out.push(chars[i]);
        i += 1;
    }
    out
}

/// Whether `text` begins with the character `c`.
pub fn starts_with_char(text: &str, c: char) -> (r: bool)
    ensures
        r == (text@.len() > 0 && text@[0] == c),
{
    let mut it = text.chars();
    match it.next() {
        Some(first) => first == c,
        None => false,
    }
}

/// The position of the first of `keys` that equals `key`, or the number of
/// keys where none does.
pub open spec fn key_position(keys: Seq<Seq<char>>, key: Seq<char>) -> int
    decreases keys.len(),
{
    if keys.len() == 0 {
        0
    } else if keys[0] == key {
        0
    } else {
        1 + key_position(keys.drop_first(), key)
    }
}

/// `key_position` is in range, names a key that equals `key`, and no earlier key does.
pub proof fn lemma_key_position(keys: Seq<Seq<char>>, key: Seq<char>)
    ensures
        0 <= key_position(keys, key) <= keys.len(),
        key_position(keys, key) < keys.len() ==> keys[key_position(keys, key)] == key,
        forall|i: int| 0 <= i < key_position(keys, key) ==> keys[i] != key,
    decreases keys.len(),
{
    if keys.len() > 0 && keys[0] != key {
        let rest = keys.drop_first();
        lemma_key_position(rest, key);
        assert forall|i: int| 0 <= i < key_position(keys, key) implies keys[i] != key by {
            if i > 0 {
                assert(keys[i] == rest[i - 1]);
            }
        }
    }
}

/// The position of the last `c` in `s`, or -1 where `s` holds none.
pub open spec fn last_index_of(s: Seq<char>, c: char) -> int
    decreases s.len(),
{
    if s.len() == 0 {
        -1
    } else if s.last() == c {
        s.len() - 1
    } else {
        last_index_of(s.drop_last(), c)
    }
}

/// `last_index_of` names an occurrence of `c` after which none follows.
pub proof fn lemma_last_index_of(s: Seq<char>, c: char)
    ensures
        -1 <= last_index_of(s, c) < s.len(),
        last_index_of(s, c) >= 0 ==> s[last_index_of(s, c)] == c,
        forall|i: int| last_index_of(s, c) < i < s.len() ==> s[i] != c,
    decreases s.len(),
{
    if s.len() > 0 && s.last() != c {
        let front = s.drop_last();
        lemma_last_index_of(front, c);
        assert forall|i: int| last_index_of(s, c) < i < s.len() implies s[i] != c by {
            if i < front.len() {
                assert(s[i] == front[i]);
            }
        }
    }
}

/// The position of the last `c` among the first `end` characters, if any.
pub fn find_last(chars: &Vec<char>, end: usize, c: char) -> (r: Option<usize>)
    requires
        end <= chars@.len(),
    ensures
        match r {
            Some(i) => i as int == last_index_of(chars@.take(end as int), c),
            None => last_index_of(chars@.take(end as int), c) == -1,
        },
{
    let mut i: usize = end;
    while i > 0
        invariant
            i <= end <= chars@.len(),
            last_index_of(chars@.take(end as int), c) == last_index_of(chars@.take(i as int), c),
        decreases i,
    {
        proof {
            assert(chars@.take(i as int).drop_last() == chars@.take(i as int - 1));
        }
        if chars[i - 1] == c {
            return Some(i - 1);
        }
        i -= 1;
    }
    None
}

/// `s` with every `from` replaced by `to`.
pub open spec fn replace_char(s: Seq<char>, from: char, to: char) -> Seq<char> {
    s.map_values(
        |c: char|
            if c == from {
                to
            } else {
                c
            },
    )
}

/// `s` without the run of `c` at its end.
pub open spec fn trim_end_char(s: Seq<char>, c: char) -> Seq<char>
    decreases s.len(),
{
    if s.len() > 0 && s.last() == c {
        trim_end_char(s.drop_last(), c)
    } else {
        s
    }
}

/// The character of the decimal digit `d`.
pub open spec fn digit_char(d: int) -> char
    recommends
        0 <= d < 10,
{
    (('0' as u8) + d) as char
}

/// The decimal digits of `n`, most significant first, without leading zeros.
pub open spec fn decimal_digits(n: nat) -> Seq<char>
    decreases n,
{
    if n < 10 {
        seq![digit_char(n as int)]
    } else {
        decimal_digits(n / 10).push(digit_char((n % 10) as int))
    }
}

/// The decimal form of `v`: a minus sign for a negative number, then its digits.
pub open spec fn decimal_text(v: int) -> Seq<char> {
    if v < 0 {
        seq!['-'] + decimal_digits((-v) as nat)
    } else {
        decimal_digits(v as nat)
    }
}

/// Whether `c` is a decimal digit.
pub open spec fn is_digit(c: char) -> bool {
    '0' <= c <= '9'
}

/// The number that a run of decimal digits stands for.
pub open spec fn digits_value(digits: Seq<char>) -> int
    decreases digits.len(),
{
    if digits.len() == 0 {
        0
    } else {
        digits_value(digits.drop_last()) * 10 + (digits.last() as int - '0' as int)
    }
}

/// The digits of a number are digits, at least one, and stand for the number.
pub proof fn lemma_decimal_digits(n: nat)
    ensures
        decimal_digits(n).len() >= 1,
        forall|i: int| 0 <= i < decimal_digits(n).len() ==> is_digit(#[trigger] decimal_digits(n)[i]),
        digits_value(decimal_digits(n)) == n,
    decreases n,
{
    if n < 10 {
        assert(decimal_digits(n).drop_last() == Seq::<char>::empty());
        assert(digits_value(Seq::<char>::empty()) == 0);
    } else {
        lemma_decimal_digits(n / 10);
        assert(decimal_digits(n).drop_last() == decimal_digits(n / 10));
    }
}

/// Two numbers with one decimal form are one number.
pub proof fn lemma_decimal_text_injective(a: int, b: int)
    requires
        decimal_text(a) == decimal_text(b),
    ensures
        a == b,
{
    let abs_a = (if a < 0 { -a } else { a }) as nat;
    let abs_b = (if b < 0 { -b } else { b }) as nat;
    lemma_decimal_digits(abs_a);
    lemma_decimal_digits(abs_b);
    if a < 0 {
        assert(decimal_text(a)[0] == '-');
        assert(decimal_text(a).skip(1) == decimal_digits(abs_a));
    } else {
        assert(decimal_text(a)[0] == decimal_digits(abs_a)[0]);
    }
    if b < 0 {
        assert(decimal_text(b)[0] == '-');
        assert(decimal_text(b).skip(1) == decimal_digits(abs_b));
    } else {
        assert(decimal_text(b)[0] == decimal_digits(abs_b)[0]);
    }
}

/// The decimal form of `v`, as `i64`'s own formatting writes it.
pub fn decimal_string(v: i64) -> (r: String)
    ensures
        r@ == decimal_text(v as int),
{
    let magnitude: u64 = if v >= 0 {
        v as u64
    } else {
        (-(v + 1)) as u64 + 1
    };
    // Digits come out least significant first.
    let mut reversed: Vec<char> = Vec::new();
    let mut rest: u64 = magnitude;
    while rest >= 10
        invariant
            decimal_digits(magnitude as nat) == decimal_digits(rest as nat) + reversed@.reverse(),
        decreases rest,
    {
        let d: u8 = (rest % 10) as u8;
        let c: char = (48u8 + d) as char;
        proof {
            let ghost before = reversed@;
            assert(c == digit_char((rest % 10) as int));
            assert(before.push(c).reverse() == seq![c] + before.reverse());
            assert(decimal_digits(rest as nat) == decimal_digits((rest / 10) as nat).push(c));
            assert(decimal_digits((rest / 10) as nat).push(c) + before.reverse()
                == decimal_digits((rest / 10) as nat) + (seq![c] + before.reverse()));
        }
        reversed.push(c);
        rest = rest / 10;
    }
    let first: char = (48u8 + (rest as u8)) as char;
    let mut out = String::new();
    if v < 0 {
        out.push('-');
    }
    out.push(first);
    let ghost head = out@;
    assert(decimal_digits(rest as nat) == seq![first]);
    let mut i: usize = reversed.len();
    while i > 0
        invariant
            i <= reversed@.len(),
            out@ == head + reversed@.reverse().take(reversed@.len() - i),
        decreases i,
    {
        i -= 1;
        proof {
            let n = reversed@.len() as int;
            assert(reversed@.reverse()[n - 1 - i] == reversed@[i as int]);
            assert(reversed@.reverse().take(n - i) == reversed@.reverse().take(n - i - 1).push(
                reversed@[i as int],
            ));
        }
        out.push(reversed[i]);
    }
    proof {
        assert(reversed@.reverse().take(reversed@.len() as int) == reversed@.reverse());
        if v < 0 {
            assert(head == seq!['-'] + seq![first]);
            assert(out@ == seq!['-'] + (seq![first] + reversed@.reverse()));
        }
    }
    out
}

} // verus!
