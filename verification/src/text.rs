//! Text that the shell reads and prints: characters of a line, decimal
//! numbers, words separated by spaces.

use vstd::prelude::*;
use vstd::string::StringExecFns;

verus! {

/// `String::push` of std appends the character to the end of the string.
pub assume_specification[ String::push ](s: &mut String, ch: char)
    ensures
        final(s)@ == old(s)@.push(ch),
;

/// `==` of std on string slices holds when both hold the same characters.
pub assume_specification[ <str as PartialEq>::eq ](a: &str, b: &str) -> (same: bool)
    ensures
        same == (a@ == b@),
;

/// Whether two string slices hold the same characters.
pub fn same_text(a: &str, b: &str) -> (same: bool)
    ensures
        same == (a@ == b@),
{
    *a == *b
}

/// The character sequences of a sequence of strings.
pub open spec fn texts(words: Seq<String>) -> Seq<Seq<char>> {
    words.map_values(|w: String| w@)
}

/// The decimal digit for `d`, which is below ten.
pub open spec fn digit(d: int) -> char {
    if d == 0 {
        '0'
    } else if d == 1 {
        '1'
    } else if d == 2 {
        '2'
    } else if d == 3 {
        '3'
    } else if d == 4 {
        '4'
    } else if d == 5 {
        '5'
    } else if d == 6 {
        '6'
    } else if d == 7 {
        '7'
    } else if d == 8 {
        '8'
    } else {
        '9'
    }
}

/// The decimal numeral of `n`, without leading zeros.
pub open spec fn decimal(n: nat) -> Seq<char>
    decreases n,
{
    if n < 10 {
        seq![digit(n as int)]
    } else {
        decimal(n / 10).push(digit((n % 10) as int))
    }
}

/// The decimal numeral of `i`, with a minus sign where `i` is negative.
pub open spec fn signed_decimal(i: int) -> Seq<char> {
    if i < 0 {
        seq!['-'] + decimal((-i) as nat)
    } else {
        decimal(i as nat)
    }
}

fn digit_of(d: u64) -> (c: char)
    requires
        d < 10,
    ensures
        c == digit(d as int),
{
    if d == 0 {
        '0'
    } else if d == 1 {
        '1'
    } else if d == 2 {
        '2'
    } else if d == 3 {
        '3'
    } else if d == 4 {
        '4'
    } else if d == 5 {
        '5'
    } else if d == 6 {
        '6'
    } else if d == 7 {
        '7'
    } else if d == 8 {
        '8'
    } else {
        '9'
    }
}

/// Appends the decimal numeral of `n` to `out`.
pub fn push_decimal(out: &mut String, n: u64)
    ensures
        final(out)@ == old(out)@ + decimal(n as nat),
    decreases n,
{
    if n >= 10 {
        push_decimal(out, n / 10);
    }
    out.push(digit_of(n % 10));
    assert(out@ =~= old(out)@ + decimal(n as nat));
}

/// Appends the decimal numeral of `i` to `out`, with its sign.
pub fn push_signed_decimal(out: &mut String, i: i32)
    ensures
        final(out)@ == old(out)@ + signed_decimal(i as int),
{
    if i < 0 {
        out.push('-');
        let magnitude: u64 = (-(i as i64)) as u64;
        push_decimal(out, magnitude);
        assert(out@ =~= old(out)@ + signed_decimal(i as int));
    } else {
        push_decimal(out, i as u64);
    }
}

/// Appends `text` to `out`.
pub fn push_text(out: &mut String, text: &str)
    ensures
        final(out)@ == old(out)@ + text@,
{
    out.append(text);
}

/// The characters of `s`.
pub fn chars_of(s: &str) -> (chars: Vec<char>)
    ensures
        chars@ == s@,
{
    let mut chars: Vec<char> = Vec::new();
    for c in it: s.chars()
        invariant
            it.seq() == s@,
            chars@ == s@.take(it.index()),
    {
        chars.push(c);
        assert(chars@ =~= s@.take(it.index() + 1));
    }
    assert(chars@ =~= s@);
    chars
}

/// The string made of the characters of `chars` from position `from` up to
/// `to`.
pub fn string_of(chars: &Vec<char>, from: usize, to: usize) -> (text: String)
    requires
        from <= to <= chars@.len(),
    ensures
        text@ == chars@.subrange(from as int, to as int),
{
    let mut text = String::new();
    let mut i: usize = from;
    while i < to
        invariant
            from <= i <= to <= chars@.len(),
            text@ == chars@.subrange(from as int, i as int),
        decreases to - i,
    {
        text.push(chars[i]);
        i += 1;
        assert(text@ =~= chars@.subrange(from as int, i as int));
    }
    text
}

/// The position of the first space in `s`, or the length of `s` if it
/// holds none.
pub open spec fn space_pos(s: Seq<char>) -> int
    decreases s.len(),
{
    if s.len() == 0 || s[0] == ' ' {
        0
    } else {
        1 + space_pos(s.drop_first())
    }
}

/// The pieces of `s` between its spaces, in order. A string without a
/// space is its only piece; each space ends one piece and starts the next,
/// so pieces can be empty.
pub open spec fn split_spaces(s: Seq<char>) -> Seq<Seq<char>>
    decreases s.len(),
    via split_spaces_decreases
{
    let p = space_pos(s);
    if p >= s.len() {
        seq![s]
    } else {
        seq![s.take(p)] + split_spaces(s.skip(p + 1))
    }
}

#[via_fn]
proof fn split_spaces_decreases(s: Seq<char>) {
    lemma_space_pos(s);
}

/// The first space stands inside `s` or `space_pos` is its length, and no
/// space stands before it.
pub proof fn lemma_space_pos(s: Seq<char>)
    ensures
        0 <= space_pos(s) <= s.len(),
        forall|k: int| 0 <= k < space_pos(s) ==> #[trigger] s[k] != ' ',
        space_pos(s) < s.len() ==> s[space_pos(s)] == ' ',
    decreases s.len(),
{
    if s.len() > 0 && s[0] != ' ' {
        let t = s.drop_first();
        lemma_space_pos(t);
        assert forall|k: int| 0 <= k < space_pos(s) implies #[trigger] s[k] != ' ' by {
            if k > 0 {
                assert(s[k] == t[k - 1]);
            }
        }
        if space_pos(s) < s.len() {
            assert(s[space_pos(s)] == t[space_pos(t)]);
        }
    }
}

/// Where no character before position `n` is a space and the one at `n`
/// is, or `s` ends there, `space_pos` is `n`.
pub proof fn lemma_space_pos_is(s: Seq<char>, n: int)
    requires
        0 <= n <= s.len(),
        forall|k: int| 0 <= k < n ==> #[trigger] s[k] != ' ',
        n < s.len() ==> s[n] == ' ',
    ensures
        space_pos(s) == n,
    decreases n,
{
    if n > 0 {
        let t = s.drop_first();
        assert(s[0] != ' ');
        assert forall|k: int| 0 <= k < n - 1 implies #[trigger] t[k] != ' ' by {
            assert(t[k] == s[k + 1]);
        }
        if n < s.len() {
            assert(t[n - 1] == s[n]);
        }
        lemma_space_pos_is(t, n - 1);
    }
}

/// `s` holds a space.
pub open spec fn has_space(s: Seq<char>) -> bool {
    exists|k: int| 0 <= k < s.len() && #[trigger] s[k] == ' '
}

/// There is at least one piece, and no piece holds a space.
pub proof fn lemma_split_spaces(s: Seq<char>)
    ensures
        split_spaces(s).len() >= 1,
        !has_space(s) <==> split_spaces(s) == seq![s],
        forall|i: int| 0 <= i < split_spaces(s).len() ==> !has_space(#[trigger] split_spaces(s)[i]),
    decreases s.len(),
{
    lemma_space_pos(s);
    let p = space_pos(s);
    if p < s.len() {
        let rest = s.skip(p + 1);
        lemma_split_spaces(rest);
        let head = s.take(p);
        assert(s[p] == ' ');
        assert forall|k: int| 0 <= k < head.len() implies #[trigger] head[k] != ' ' by {
            assert(head[k] == s[k]);
        }
        assert forall|i: int| 0 <= i < split_spaces(s).len() implies !has_space(#[trigger] split_spaces(s)[i]) by {
            if i > 0 {
                assert(split_spaces(s)[i] == split_spaces(rest)[i - 1]);
            }
        }
        assert(split_spaces(s).len() >= 2);
        assert(seq![s].len() == 1);
    }
}

/// The pieces of `text` between its spaces.
pub fn split_words(text: &Vec<char>) -> (words: Vec<String>)
    ensures
        texts(words@) == split_spaces(text@),
{
    let mut words: Vec<String> = Vec::new();
    let mut start: usize = 0;
    let mut i: usize = 0;
    assert(text@.skip(0) =~= text@);
    assert(texts(words@) + split_spaces(text@) =~= split_spaces(text@));
    while i < text.len()
        invariant
            start <= i <= text@.len(),
            forall|k: int| start <= k < i ==> #[trigger] text@[k] != ' ',
            split_spaces(text@) == texts(words@) + split_spaces(text@.skip(start as int)),
        decreases text@.len() - i,
    {
        if text[i] == ' ' {
            let ghost rest = text@.skip(start as int);
            let ghost before = texts(words@);
            proof {
                assert forall|k: int| 0 <= k < i - start implies #[trigger] rest[k] != ' ' by {
                    assert(rest[k] == text@[start + k]);
                }
                assert(rest[i - start] == text@[i as int]);
                lemma_space_pos_is(rest, i - start);
            }
            let word = string_of(text, start, i);
            assert(word@ =~= rest.take(i - start));
            words.push(word);
            assert(texts(words@) =~= before + seq![word@]);
            assert(rest.skip(i - start + 1) =~= text@.skip(i + 1));
            assert(before + (seq![word@] + split_spaces(text@.skip(i + 1))) =~= (before + seq![word@]) + split_spaces(
                text@.skip(i + 1),
            ));
            start = i + 1;
        }
        i += 1;
    }
    let ghost rest = text@.skip(start as int);
    let ghost before = texts(words@);
    proof {
        assert forall|k: int| 0 <= k < rest.len() implies #[trigger] rest[k] != ' ' by {
            assert(rest[k] == text@[start + k]);
        }
        lemma_space_pos_is(rest, rest.len() as int);
    }
    let word = string_of(text, start, text.len());
    assert(word@ =~= rest);
    words.push(word);
    assert(texts(words@) =~= before + seq![word@]);
    words
}

/// The value of a decimal digit, or `None` for any other character.
pub open spec fn digit_value(c: char) -> Option<int> {
    if c == '0' {
        Some(0)
    } else if c == '1' {
        Some(1)
    } else if c == '2' {
        Some(2)
    } else if c == '3' {
        Some(3)
    } else if c == '4' {
        Some(4)
    } else if c == '5' {
        Some(5)
    } else if c == '6' {
        Some(6)
    } else if c == '7' {
        Some(7)
    } else if c == '8' {
        Some(8)
    } else if c == '9' {
        Some(9)
    } else {
        None
    }
}

/// Every character of `s` is a decimal digit.
pub open spec fn all_digits(s: Seq<char>) -> bool {
    forall|i: int| 0 <= i < s.len() ==> digit_value(#[trigger] s[i]) is Some
}

/// The number that the digits of `s` write.
pub open spec fn digits_value(s: Seq<char>) -> nat
    decreases s.len(),
{
    if s.len() == 0 {
        0
    } else {
        let last = match digit_value(s.last()) {
            Some(d) => d,
            None => 0,
        };
        (digits_value(s.drop_last()) * 10 + last) as nat
    }
}

/// The number that `s` writes in decimal: one digit or more, after an
/// optional `+`, with a value that 32 bits hold. `None` for anything else.
pub open spec fn parse_number(s: Seq<char>) -> Option<u32> {
    let digits = if s.len() > 0 && s[0] == '+' {
        s.skip(1)
    } else {
        s
    };
    if digits.len() > 0 && all_digits(digits) && digits_value(digits) <= u32::MAX {
        Some(digits_value(digits) as u32)
    } else {
        None
    }
}

/// The decimal numeral of a number is one digit or more, starts with no
/// sign, and writes that number.
pub proof fn lemma_decimal_reads_back(n: nat)
    ensures
        decimal(n).len() > 0,
        all_digits(decimal(n)),
        digits_value(decimal(n)) == n,
        n <= u32::MAX ==> parse_number(decimal(n)) == Some(n as u32),
    decreases n,
{
    if n >= 10 {
        lemma_decimal_reads_back(n / 10);
        let front = decimal(n / 10);
        let all = decimal(n);
        assert(all.drop_last() =~= front);
        assert(all.last() == digit((n % 10) as int));
        assert forall|i: int| 0 <= i < all.len() implies digit_value(#[trigger] all[i]) is Some by {
            if i < front.len() {
                assert(all[i] == front[i]);
            }
        }
    } else {
        let all = decimal(n);
        assert(all.drop_last() =~= Seq::<char>::empty());
        assert(digits_value(all.drop_last()) == 0);
    }
    assert(digit_value(decimal(n)[0]) is Some);
}

/// A longer numeral writes no smaller number.
pub proof fn lemma_digits_value_grows(s: Seq<char>, n: int)
    requires
        0 <= n <= s.len(),
    ensures
        digits_value(s.take(n)) <= digits_value(s),
    decreases s.len() - n,
{
    if n < s.len() {
        assert(s.drop_last().take(n) =~= s.take(n));
        lemma_digits_value_grows(s.drop_last(), n);
    } else {
        assert(s.take(n) =~= s);
    }
}

fn digit_value_of(c: char) -> (d: Option<u64>)
    ensures
        match d {
            Some(v) => digit_value(c) == Some(v as int) && v < 10,
            None => digit_value(c) is None,
        },
{
    if c == '0' {
        Some(0)
    } else if c == '1' {
        Some(1)
    } else if c == '2' {
        Some(2)
    } else if c == '3' {
        Some(3)
    } else if c == '4' {
        Some(4)
    } else if c == '5' {
        Some(5)
    } else if c == '6' {
        Some(6)
    } else if c == '7' {
        Some(7)
    } else if c == '8' {
        Some(8)
    } else if c == '9' {
        Some(9)
    } else {
        None
    }
}

/// Reads the decimal number that the characters of `text` from position
/// `from` on write.
pub fn read_number(text: &Vec<char>, from: usize) -> (number: Option<u32>)
    requires
        from <= text@.len(),
    ensures
        number == parse_number(text@.skip(from as int)),
{
    let ghost s = text@.skip(from as int);
    let start: usize = if from < text.len() && text[from] == '+' {
        from + 1
    } else {
        from
    };
    let ghost digits = text@.skip(start as int);
    assert(digits =~= if s.len() > 0 && s[0] == '+' {
        s.skip(1)
    } else {
        s
    });
    if start >= text.len() {
        return None;
    }
    let mut value: u64 = 0;
    let mut i: usize = start;
    assert(digits.take(0) =~= Seq::<char>::empty());
    while i < text.len()
        invariant
            start <= i <= text@.len(),
            digits == text@.skip(start as int),
            digits.len() > 0,
            parse_number(text@.skip(from as int)) == if all_digits(digits) && digits_value(digits) <= u32::MAX {
                Some(digits_value(digits) as u32)
            } else {
                None
            },
            value == digits_value(digits.take(i - start)),
            value <= u32::MAX,
            forall|k: int| 0 <= k < i - start ==> digit_value(#[trigger] digits[k]) is Some,
        decreases text@.len() - i,
    {
        let ghost longer = digits.take(i - start + 1);
        proof {
            assert(longer.drop_last() =~= digits.take(i - start));
            assert(longer.last() == text@[i as int]);
            assert(digits[i - start] == text@[i as int]);
        }
        match digit_value_of(text[i]) {
            Some(d) => {
                value = value * 10 + d;
                assert(value == digits_value(longer));
                if value > 0xffff_ffff {
                    proof {
                        lemma_digits_value_grows(digits, i - start + 1);
                    }
                    return None;
                }
            },
            None => {
                return None;
            },
        }
        i += 1;
    }
    assert(digits.take(i - start) =~= digits);
    Some(value as u32)
}

} // verus!
