//! Small operations on text, stated over sequences of characters.

use vstd::prelude::*;
use vstd::string::*;
use crate::unicode::{ascii_digit, whitespace};

verus! {

/// `String::push` appends one character to the end of the string.
pub assume_specification[ String::push ](s: &mut String, c: char)
    ensures
        final(s)@ == old(s)@.push(c),
;

/// `==` on string slices holds exactly when both have the same characters.
#[verifier::external_body]
pub(crate) fn same_text(a: &str, b: &str) -> (same: bool)
    ensures
        same == (a@ == b@),
{
    a == b
}

/// A line break becomes a space; every other character stays.
pub open spec fn unbroken_char(c: char) -> char {
    if c == '\n' {
        ' '
    } else {
        c
    }
}

/// `s` with every line break replaced by a space.
pub open spec fn unbroken(s: Seq<char>) -> Seq<char> {
    s.map_values(|c: char| unbroken_char(c))
}

/// Copies `s`, writing a space for every line break.
pub fn replace_newlines(s: &str) -> (r: String)
    ensures
        r@ == unbroken(s@),
{
    let mut out = String::new();
    for c in it: s.chars()
        invariant
            it.seq() == s@,
            out@ == unbroken(s@.take(it.index() as int)),
    {
        let d = if c == '\n' { ' ' } else { c };
        out.push(d);
        assert(s@.take(it.index() + 1) == s@.take(it.index() as int).push(c));
        assert(unbroken(s@.take(it.index() + 1)) =~= unbroken(s@.take(it.index() as int)).push(d));
    }
    assert(s@.take(s@.len() as int) =~= s@);
    out
}

/// The character that writes the digit `d`, for `d` below ten.
pub open spec fn digit(d: nat) -> char {
    ((48 + d) as u8) as char
}

/// The decimal digits of `n`, most significant first, without leading zeros.
pub open spec fn digits(n: nat) -> Seq<char>
    decreases n,
{
    if n < 10 {
        seq![digit(n)]
    } else {
        digits(n / 10).push(digit(n % 10))
    }
}

/// `n` in decimal, with a minus sign in front where it is negative.
pub open spec fn decimal(n: int) -> Seq<char> {
    if n < 0 {
        seq!['-'] + digits((-n) as nat)
    } else {
        digits(n as nat)
    }
}

/// Appends the decimal digits of `n` to `out`.
fn push_digits(out: &mut String, n: u128)
    ensures
        final(out)@ == old(out)@ + digits(n as nat),
    decreases n,
{
    if n >= 10 {
        push_digits(out, n / 10);
    }
    let d: u8 = (n % 10) as u8;
    out.push((48u8 + d) as char);
    assert(out@ =~= old(out)@ + digits(n as nat));
}

/// Appends `n` in decimal to `out`.
pub fn push_decimal(out: &mut String, n: i128)
    ensures
        final(out)@ == old(out)@ + decimal(n as int),
{
    if n < 0 {
        out.push('-');
        let magnitude: u128 = (-(n + 1)) as u128 + 1;
        push_digits(out, magnitude);
        assert(out@ =~= old(out)@ + decimal(n as int));
    } else {
        push_digits(out, n as u128);
    }
}

/// The number that the digits of `s` write in base ten; zero for no digits.
pub open spec fn number(s: Seq<char>) -> nat
    decreases s.len(),
{
    if s.len() == 0 {
        0
    } else {
        (number(s.drop_last()) * 10 + (s.last() as int - 48)) as nat
    }
}

/// Whether every character of `s` is an ASCII digit.
pub open spec fn all_digits(s: Seq<char>) -> bool {
    forall|i: int| 0 <= i < s.len() ==> ascii_digit(#[trigger] s[i])
}

/// How many characters the sign of a written integer takes: one or none.
pub open spec fn sign_len(s: Seq<char>) -> nat {
    if s.len() > 0 && (s[0] == '-' || s[0] == '+') {
        1
    } else {
        0
    }
}

/// The integer that `s` writes: an optional sign, then one or more ASCII
/// digits and nothing else, with a value that a 32-bit signed integer holds.
/// `None` for every other text.
pub open spec fn parse_i32(s: Seq<char>) -> Option<int> {
    let body = s.skip(sign_len(s) as int);
    let value = if s.len() > 0 && s[0] == '-' {
        -(number(body) as int)
    } else {
        number(body) as int
    };
    if body.len() > 0 && all_digits(body) && i32::MIN <= value <= i32::MAX {
        Some(value)
    } else {
        None
    }
}

/// Reading more digits never makes the number smaller.
proof fn lemma_number_grows(s: Seq<char>, n: int)
    requires
        0 <= n <= s.len(),
        all_digits(s),
    ensures
        number(s.take(n)) <= number(s),
    decreases s.len() - n,
{
    if n == s.len() {
        assert(s.take(n) =~= s);
    } else {
        lemma_number_grows(s, n + 1);
        let longer = s.take(n + 1);
        assert(longer.drop_last() =~= s.take(n));
        assert(longer.last() == s[n]);
        assert(ascii_digit(s[n]));
    }
}

/// Reads a 32-bit signed integer in decimal.
pub fn read_i32(s: &str) -> (r: Option<i32>)
    ensures
        match r {
            Some(v) => parse_i32(s@) == Some(v as int),
            None => parse_i32(s@) is None,
        },
{
    let ghost body = s@.skip(sign_len(s@) as int);
    let mut negative = false;
    let mut signed = false;
    let mut value: i64 = 0;
    let mut count: usize = 0;
    let ghost mut read: int = 0;
    let total = s.unicode_len();
    for c in it: s.chars()
        invariant
            it.seq() == s@,
            total == s@.len(),
            count == it.index(),
            body == s@.skip(sign_len(s@) as int),
            signed <==> count > 0 && sign_len(s@) == 1,
            negative <==> count > 0 && s@[0] == '-',
            read == if count > 0 { count - sign_len(s@) } else { 0 },
            all_digits(body.take(read)),
            value == number(body.take(read)),
            0 <= value <= 2147483648,
    {
        if count == 0 && (c == '-' || c == '+') {
            signed = true;
            negative = c == '-';
        } else if '0' <= c && c <= '9' {
            let d: i64 = (c as u8 - 48) as i64;
            proof {
                assert(body[read] == c);
                assert(body.take(read + 1).drop_last() =~= body.take(read));
                assert(number(body.take(read + 1)) == value * 10 + d);
            }
            if value * 10 + d > 2147483648 {
                proof {
                    if all_digits(body) {
                        lemma_number_grows(body, read + 1);
                    }
                }
                return None;
            }
            value = value * 10 + d;
            proof {
                read = read + 1;
            }
        } else {
            assert(body[read] == c);
            return None;
        }
        count = count + 1;
    }
    assert(body.take(body.len() as int) =~= body);
    let digits_read = if signed { count - 1 } else { count };
    if digits_read == 0 {
        return None;
    }
    if negative {
        Some((-value) as i32)
    } else if value > 2147483647 {
        None
    } else {
        Some(value as i32)
    }
}

/// `s` without the whitespace at its start.
pub open spec fn trim_start(s: Seq<char>) -> Seq<char>
    decreases s.len(),
{
    if s.len() > 0 && whitespace(s[0]) {
        trim_start(s.drop_first())
    } else {
        s
    }
}

/// `s` without the whitespace at its end.
pub open spec fn trim_end(s: Seq<char>) -> Seq<char>
    decreases s.len(),
{
    if s.len() > 0 && whitespace(s.last()) {
        trim_end(s.drop_last())
    } else {
        s
    }
}

/// `s` without the whitespace at either end.
pub open spec fn trimmed(s: Seq<char>) -> Seq<char> {
    trim_end(trim_start(s))
}

/// Where whitespace fills `s` up to `n` and stops there, `trim_start` cuts at `n`.
proof fn lemma_trim_start_at(s: Seq<char>, n: int)
    requires
        0 <= n <= s.len(),
        forall|k: int| 0 <= k < n ==> whitespace(#[trigger] s[k]),
        n < s.len() ==> !whitespace(s[n]),
    ensures
        trim_start(s) == s.skip(n),
    decreases n,
{
    if n == 0 {
        assert(s.skip(0) =~= s);
    } else {
        let rest = s.drop_first();
        assert forall|k: int| 0 <= k < n - 1 implies whitespace(#[trigger] rest[k]) by {
            assert(rest[k] == s[k + 1]);
        }
        lemma_trim_start_at(rest, n - 1);
        assert(rest.skip(n - 1) =~= s.skip(n));
    }
}

/// Where whitespace fills `s` from `m` on and starts there, `trim_end` cuts at `m`.
proof fn lemma_trim_end_at(s: Seq<char>, m: int)
    requires
        0 <= m <= s.len(),
        forall|k: int| m <= k < s.len() ==> whitespace(#[trigger] s[k]),
        m > 0 ==> !whitespace(s[m - 1]),
    ensures
        trim_end(s) == s.take(m),
    decreases s.len() - m,
{
    if m == s.len() {
        assert(s.take(m) =~= s);
    } else {
        let rest = s.drop_last();
        lemma_trim_end_at(rest, m);
        assert(rest.take(m) =~= s.take(m));
    }
}

/// Copies `s` without the whitespace at either end.
pub fn trim(s: &str) -> (r: String)
    ensures
        r@ == trimmed(s@),
{
    let total = s.unicode_len();
    let mut start: usize = 0;
    let mut end: usize = 0;
    let mut count: usize = 0;
    for c in it: s.chars()
        invariant
            it.seq() == s@,
            total == s@.len(),
            count == it.index(),
            start <= end <= count,
            forall|k: int| 0 <= k < start ==> whitespace(#[trigger] s@[k]),
            forall|k: int| end <= k < count ==> whitespace(#[trigger] s@[k]),
            end == 0 ==> start == 0,
            end > 0 ==> start < end && !whitespace(s@[start as int]) && !whitespace(s@[end - 1]),
    {
        if !c.is_whitespace() {
            if end == 0 {
                start = count;
            }
            end = count + 1;
        }
        count = count + 1;
    }
    proof {
        if end == 0 {
            lemma_trim_start_at(s@, s@.len() as int);
            assert(s@.skip(s@.len() as int) =~= Seq::<char>::empty());
            assert(s@.subrange(0, 0) =~= Seq::<char>::empty());
        } else {
            lemma_trim_start_at(s@, start as int);
            let tail = s@.skip(start as int);
            assert forall|k: int| end - start <= k < tail.len() implies whitespace(
                #[trigger] tail[k],
            ) by {
                assert(tail[k] == s@[k + start]);
            }
            assert(tail[end - start - 1] == s@[end - 1]);
            lemma_trim_end_at(tail, end - start);
            assert(tail.take(end - start) =~= s@.subrange(start as int, end as int));
        }
    }
    String::from_str(s.substring_char(start, end))
}

/// Whether `word` stands in `s` at `i` as a whole word: a run of characters
/// that are not whitespace, with whitespace or an end of `s` on either side.
pub open spec fn is_word_at(s: Seq<char>, word: Seq<char>, i: int) -> bool {
    &&& word.len() > 0
    &&& 0 <= i && i + word.len() <= s.len()
    &&& s.subrange(i, i + word.len()) == word
    &&& forall|k: int| 0 <= k < word.len() ==> !whitespace(#[trigger] word[k])
    &&& (i == 0 || whitespace(s[i - 1]))
    &&& (i + word.len() == s.len() || whitespace(s[i + word.len()]))
}

/// Whether `word` is one of the words that whitespace splits `s` into.
pub open spec fn has_word(s: Seq<char>, word: Seq<char>) -> bool {
    exists|i: int| is_word_at(s, word, i)
}

/// A whole word that ends at `end` is the run that starts at `begin`, where
/// `begin` is the start of the run of non-whitespace characters before `end`.
proof fn lemma_word_ends_at(s: Seq<char>, word: Seq<char>, begin: int, end: int)
    requires
        0 <= begin <= end <= s.len(),
        begin == 0 || whitespace(s[begin - 1]),
        forall|k: int| begin <= k < end ==> !whitespace(#[trigger] s[k]),
        end == s.len() || whitespace(s[end]),
    ensures
        (exists|i: int| is_word_at(s, word, i) && i + word.len() == end) <==> (begin < end
            && s.subrange(begin, end) == word),
{
    if begin < end && s.subrange(begin, end) == word {
        assert forall|k: int| 0 <= k < word.len() implies !whitespace(#[trigger] word[k]) by {
            assert(word[k] == s[begin + k]);
        }
        assert(is_word_at(s, word, begin));
    }
    if exists|i: int| is_word_at(s, word, i) && i + word.len() == end {
        let i = choose|i: int| is_word_at(s, word, i) && i + word.len() == end;
        if i < begin {
            assert(word[begin - 1 - i] == s.subrange(i, i + word.len())[begin - 1 - i]);
        }
        if i > begin {
            assert(!whitespace(s[i - 1]));
        }
        assert(i == begin);
    }
}

/// Whether `word_to_find` is one of the words that whitespace splits `text` into.
pub fn find_word_in_string(text: &str, word_to_find: &str) -> (found: bool)
    ensures
        found == has_word(text@, word_to_find@),
{
    let total = text.unicode_len();
    let mut current = String::new();
    let mut found = false;
    let mut count: usize = 0;
    let ghost mut begin: int = 0;
    for c in it: text.chars()
        invariant
            it.seq() == text@,
            total == text@.len(),
            count == it.index(),
            0 <= begin <= count,
            current@ == text@.subrange(begin, count as int),
            begin == 0 || whitespace(text@[begin - 1]),
            forall|k: int| begin <= k < count ==> !whitespace(#[trigger] text@[k]),
            found <==> exists|i: int|
                is_word_at(text@, word_to_find@, i) && i + word_to_find@.len() < count,
    {
        if c.is_whitespace() {
            proof {
                lemma_word_ends_at(text@, word_to_find@, begin, count as int);
            }
            if !current.as_str().is_empty() && same_text(current.as_str(), word_to_find) {
                found = true;
            }
            current = String::new();
            proof {
                begin = count + 1;
            }
            assert(current@ =~= text@.subrange(begin, count + 1));
        } else {
            current.push(c);
            assert(current@ =~= text@.subrange(begin, count + 1));
        }
        count = count + 1;
    }
    proof {
        lemma_word_ends_at(text@, word_to_find@, begin, count as int);
    }
    found || (!current.as_str().is_empty() && same_text(current.as_str(), word_to_find))
}

/// `s` without the line break at its end: without `\r\n` where it ends in
/// that, else without `\n` where it ends in that, else `s` itself.
pub open spec fn without_trailing_newline(s: Seq<char>) -> Seq<char> {
    let n = s.len() as int;
    if n >= 2 && s[n - 2] == '\r' && s[n - 1] == '\n' {
        s.take(n - 2)
    } else if n >= 1 && s[n - 1] == '\n' {
        s.take(n - 1)
    } else {
        s
    }
}

/// The part of `input` before the line break at its end; all of it where it
/// ends in none.
pub fn strip_trailing_newline<'a>(input: &'a str) -> (stripped: &'a str)
    ensures
        stripped@ == without_trailing_newline(input@),
{
    let n = input.unicode_len();
    if n >= 1 && input.get_char(n - 1) == '\n' {
        if n >= 2 && input.get_char(n - 2) == '\r' {
            input.substring_char(0, n - 2)
        } else {
            input.substring_char(0, n - 1)
        }
    } else {
        input
    }
}

/// Whether `part` stands somewhere in `s`, character for character.
pub open spec fn contains_text(s: Seq<char>, part: Seq<char>) -> bool {
    exists|i: int| 0 <= i && i + part.len() <= s.len() && #[trigger] s.subrange(i, i + part.len()) == part
}

/// `str::contains` with a string slice for the pattern: whether the pattern
/// is a part of the text.
#[verifier::external_body]
pub(crate) fn text_contains(s: &str, part: &str) -> (found: bool)
    ensures
        found == contains_text(s@, part@),
{
    s.contains(part)
}

} // verus!
