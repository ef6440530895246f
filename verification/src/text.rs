//! Numbers in text: decimal digits, words between white space, and the
//! numbers that a line of text holds. Text is a row of bytes in UTF-8, and
//! white space is every character that counts as such there, whether it
//! takes one byte, two or three.

use vstd::prelude::*;

verus! {

/// Whether the byte is white space by itself: a blank, a tab, a line feed,
/// a vertical tab, a form feed or a carriage return.
pub open spec fn is_space(byte: u8) -> bool {
    byte == 32 || (9 <= byte <= 13)
}

/// Whether the two bytes are a white-space character: the next-line
/// character or the no-break space.
pub open spec fn is_space_pair(first: u8, second: u8) -> bool {
    first == 0xc2 && (second == 0x85 || second == 0xa0)
}

/// Whether the three bytes are a white-space character: the ogham space
/// mark, one of the spaces from the en quad to the hair space, the line or
/// the paragraph separator, the narrow no-break space, the medium
/// mathematical space or the ideographic space.
pub open spec fn is_space_triple(first: u8, second: u8, third: u8) -> bool {
    ||| (first == 0xe1 && second == 0x9a && third == 0x80)
    ||| (first == 0xe2 && second == 0x80 && (0x80 <= third <= 0x8a || third == 0xa8 || third
        == 0xa9 || third == 0xaf))
    ||| (first == 0xe2 && second == 0x81 && third == 0x9f)
    ||| (first == 0xe3 && second == 0x80 && third == 0x80)
}

/// How many bytes the white-space character at the start of a text takes,
/// and 0 where the text starts with none. White space is what separates
/// words in text: the six characters of one byte and the characters of two
/// and three bytes that stand for a space or a line end.
pub open spec fn space_len(text: Seq<u8>) -> nat {
    if text.len() >= 1 && is_space(text[0]) {
        1
    } else if text.len() >= 2 && is_space_pair(text[0], text[1]) {
        2
    } else if text.len() >= 3 && is_space_triple(text[0], text[1], text[2]) {
        3
    } else {
        0
    }
}

/// How many bytes the white-space character at the end of a text takes,
/// and 0 where the text ends with none.
pub open spec fn space_len_back(text: Seq<u8>) -> nat {
    let n = text.len() as int;
    if n >= 1 && is_space(text[n - 1]) {
        1
    } else if n >= 2 && is_space_pair(text[n - 2], text[n - 1]) {
        2
    } else if n >= 3 && is_space_triple(text[n - 3], text[n - 2], text[n - 1]) {
        3
    } else {
        0
    }
}

/// Whether the byte is a decimal digit.
pub open spec fn is_digit(byte: u8) -> bool {
    48 <= byte <= 57
}

/// Whether every byte is a decimal digit.
pub open spec fn all_digits(text: Seq<u8>) -> bool {
    forall|i: int| 0 <= i < text.len() ==> is_digit(#[trigger] text[i])
}

/// The number that a run of decimal digits stands for.
pub open spec fn decimal(digits: Seq<u8>) -> nat
    decreases digits.len(),
{
    if digits.len() == 0 {
        0
    } else {
        decimal(digits.drop_last()) * 10 + (digits.last() - 48) as nat
    }
}

/// The decimal digits of a number, without leading zeros.
pub open spec fn digits_of(n: nat) -> Seq<u8>
    decreases n,
{
    if n < 10 {
        seq![(48 + n) as u8]
    } else {
        digits_of(n / 10).push((48 + n % 10) as u8)
    }
}

/// The number that a word stands for, if it stands for one that is no
/// larger than `max`: an optional plus sign, then at least one decimal
/// digit and nothing else.
pub open spec fn token_value(word: Seq<u8>, max: nat) -> Option<nat> {
    let digits = if word.len() > 0 && word[0] == 43 {
        word.skip(1)
    } else {
        word
    };
    if digits.len() > 0 && all_digits(digits) && decimal(digits) <= max {
        Some(decimal(digits))
    } else {
        None
    }
}

/// The length of the word at the start of `text`: the bytes before the
/// first white space.
pub open spec fn word_len(text: Seq<u8>) -> nat
    decreases text.len(),
{
    if text.len() == 0 || space_len(text) > 0 {
        0
    } else {
        1 + word_len(text.skip(1))
    }
}

/// The word at the start of a text ends within the text, holds no white
/// space, and ends at white space or at the end of the text.
pub proof fn lemma_word_len(text: Seq<u8>)
    ensures
        word_len(text) <= text.len(),
        forall|i: int| 0 <= i < word_len(text) ==> space_len(#[trigger] text.skip(i)) == 0,
        word_len(text) == text.len() || space_len(text.skip(word_len(text) as int)) > 0,
        text.len() > 0 && space_len(text) == 0 ==> word_len(text) >= 1,
    decreases text.len(),
{
    assert(text.skip(0) =~= text);
    if text.len() > 0 && space_len(text) == 0 {
        let rest = text.skip(1);
        lemma_word_len(rest);
        assert forall|i: int| 0 <= i < word_len(text) implies space_len(
            #[trigger] text.skip(i),
        ) == 0 by {
            if i > 0 {
                assert(text.skip(i) =~= rest.skip(i - 1));
            }
        }
        assert(text.skip(word_len(text) as int) =~= rest.skip(word_len(rest) as int));
    }
}

/// A word is known by its bytes: a run in which no white space starts and
/// that ends at white space or at the end of the text is the word at the
/// start.
pub proof fn lemma_word_known(text: Seq<u8>, n: int)
    requires
        0 <= n <= text.len(),
        forall|i: int| 0 <= i < n ==> space_len(#[trigger] text.skip(i)) == 0,
        n == text.len() || space_len(text.skip(n)) > 0,
    ensures
        word_len(text) == n,
    decreases n,
{
    assert(text.skip(0) =~= text);
    if n > 0 {
        let rest = text.skip(1);
        assert forall|i: int| 0 <= i < n - 1 implies space_len(#[trigger] rest.skip(i)) == 0 by {
            assert(rest.skip(i) =~= text.skip(i + 1));
        }
        assert(rest.skip(n - 1) =~= text.skip(n));
        lemma_word_known(rest, n - 1);
    }
}

/// No white space starts at a decimal digit.
pub proof fn lemma_digit_starts_word(text: Seq<u8>, at: int)
    requires
        0 <= at < text.len(),
        is_digit(text[at]),
    ensures
        space_len(text.skip(at)) == 0,
        space_len_back(text.take(at + 1)) == 0,
{
}

/// The numbers of up to 255 that a text holds, in order: the words that
/// stand for such a number, where white space separates the words. Other
/// words are passed over.
pub open spec fn numbers(text: Seq<u8>) -> Seq<u8>
    decreases text.len(),
{
    if text.len() == 0 {
        Seq::empty()
    } else if space_len(text) > 0 {
        numbers(text.skip(space_len(text) as int))
    } else {
        let n = word_len(text) as int;
        proof {
            lemma_word_len(text);
        }
        let rest = numbers(text.skip(n));
        match token_value(text.take(n), 255) {
            Some(value) => seq![value as u8] + rest,
            None => rest,
        }
    }
}

/// The digits of a number are decimal digits, at least one, and stand for
/// the number.
pub proof fn lemma_digits_of(n: nat)
    ensures
        digits_of(n).len() >= 1,
        all_digits(digits_of(n)),
        decimal(digits_of(n)) == n,
    decreases n,
{
    if n < 10 {
        let one = digits_of(n);
        assert(one.drop_last() =~= Seq::<u8>::empty());
        assert(decimal(one.drop_last()) == 0);
    } else {
        lemma_digits_of(n / 10);
        let all = digits_of(n);
        assert(all.drop_last() =~= digits_of(n / 10));
    }
}

/// One more digit at the end multiplies by ten and adds the digit.
pub proof fn lemma_decimal_step(digits: Seq<u8>, k: int)
    requires
        0 <= k < digits.len(),
    ensures
        decimal(digits.take(k + 1)) == decimal(digits.take(k)) * 10 + (digits[k] - 48) as nat,
{
    assert(digits.take(k + 1).drop_last() =~= digits.take(k));
}

/// How many bytes the white-space character at `at` takes, and 0 where
/// none starts there.
pub fn space_width(text: &[u8], at: usize) -> (width: usize)
    requires
        at <= text.len(),
    ensures
        width == space_len(text@.skip(at as int)),
        at + width <= text.len(),
{
    let left: usize = text.len() - at;
    if left >= 1 {
        let first: u8 = text[at];
        if first == 32 || (9 <= first && first <= 13) {
            return 1;
        }
        if left >= 2 {
            let second: u8 = text[at + 1];
            if first == 0xc2 && (second == 0x85 || second == 0xa0) {
                return 2;
            }
            if left >= 3 && wide_space(first, second, text[at + 2]) {
                return 3;
            }
        }
    }
    0
}

/// How many bytes the white-space character takes that ends at `to`, within
/// the text from `from` on, and 0 where none ends there.
pub fn space_width_back(text: &[u8], from: usize, to: usize) -> (width: usize)
    requires
        from <= to <= text.len(),
    ensures
        width == space_len_back(text@.subrange(from as int, to as int)),
        from + width <= to,
{
    let left: usize = to - from;
    if left >= 1 {
        let last: u8 = text[to - 1];
        if last == 32 || (9 <= last && last <= 13) {
            return 1;
        }
        if left >= 2 {
            let before: u8 = text[to - 2];
            if before == 0xc2 && (last == 0x85 || last == 0xa0) {
                return 2;
            }
            if left >= 3 && wide_space(text[to - 3], before, last) {
                return 3;
            }
        }
    }
    0
}

/// Whether the three bytes are a white-space character.
pub fn wide_space(first: u8, second: u8, third: u8) -> (yes: bool)
    ensures
        yes == is_space_triple(first, second, third),
{
    (first == 0xe1 && second == 0x9a && third == 0x80) || (first == 0xe2 && second == 0x80 && ((
    0x80 <= third && third <= 0x8a) || third == 0xa8 || third == 0xa9 || third == 0xaf)) || (first
        == 0xe2 && second == 0x81 && third == 0x9f) || (first == 0xe3 && second == 0x80 && third
        == 0x80)
}

/// Appends the decimal digits of `n` to `out`.
pub fn push_number(out: &mut Vec<u8>, n: u64)
    ensures
        final(out)@ == old(out)@ + digits_of(n as nat),
    decreases n,
{
    if n >= 10 {
        push_number(out, n / 10);
    }
    out.push(48 + (n % 10) as u8);
    proof {
        if n < 10 {
            assert(out@ =~= old(out)@ + digits_of(n as nat));
        } else {
            assert(out@ =~= old(out)@ + digits_of((n / 10) as nat).push((48 + n % 10) as u8));
        }
    }
}

/// Where the word that starts at `from` ends.
pub fn word_end(text: &[u8], from: usize) -> (end: usize)
    requires
        from <= text.len(),
    ensures
        end == from + word_len(text@.skip(from as int)),
        from <= end <= text.len(),
{
    let mut end: usize = from;
    while end < text.len() && space_width(text, end) == 0
        invariant
            from <= end <= text.len(),
            forall|i: int| from <= i < end ==> space_len(#[trigger] text@.skip(i)) == 0,
        decreases text.len() - end,
    {
        end = end + 1;
    }
    proof {
        let rest = text@.skip(from as int);
        assert forall|i: int| 0 <= i < end - from implies space_len(#[trigger] rest.skip(i))
            == 0 by {
            assert(rest.skip(i) =~= text@.skip(from + i));
        }
        assert(rest.skip(end - from) =~= text@.skip(end as int));
        lemma_word_known(rest, end - from);
    }
    end
}

/// Reads the word `text[from..to]` as a number of at most `max`.
pub fn parse_token(text: &[u8], from: usize, to: usize, max: u32) -> (value: Option<u32>)
    requires
        from <= to <= text.len(),
    ensures
        match value {
            Some(v) => token_value(text@.subrange(from as int, to as int), max as nat) == Some(
                v as nat,
            ),
            None => token_value(text@.subrange(from as int, to as int), max as nat).is_none(),
        },
{
    let ghost word = text@.subrange(from as int, to as int);
    let mut at: usize = from;
    if at < to && text[at] == 43 {
        at = at + 1;
    }
    let start: usize = at;
    let ghost digits = text@.subrange(start as int, to as int);
    proof {
        if start > from {
            assert(digits =~= word.skip(1));
        } else {
            assert(digits =~= word);
        }
    }
    if at == to {
        return None;
    }
    let mut value: u64 = 0;
    let mut over: bool = false;
    while at < to
        invariant
            start <= at <= to <= text.len(),
            digits == text@.subrange(start as int, to as int),
            word == text@.subrange(from as int, to as int),
            digits == if word.len() > 0 && word[0] == 43 {
                word.skip(1)
            } else {
                word
            },
            all_digits(digits.take(at - start)),
            !over ==> value == decimal(digits.take(at - start)) && value <= max,
            over ==> decimal(digits.take(at - start)) > max,
        decreases to - at,
    {
        let byte: u8 = text[at];
        if byte < 48 || byte > 57 {
            assert(!is_digit(digits[at - start]));
            return None;
        }
        proof {
            lemma_decimal_step(digits, at - start);
            assert forall|i: int| 0 <= i < at + 1 - start implies is_digit(
                #[trigger] digits.take(at + 1 - start)[i],
            ) by {
                if i < at - start {
                    assert(digits.take(at - start)[i] == digits[i]);
                }
            }
        }
        if !over {
            value = value * 10 + (byte - 48) as u64;
            if value > max as u64 {
                over = true;
            }
        }
        at = at + 1;
    }
    proof {
        assert(digits.take(to - start) =~= digits);
    }
    if over {
        None
    } else {
        Some(value as u32)
    }
}

/// The numbers of up to 255 that the line holds, in order. Words that do
/// not stand for such a number are passed over.
pub fn parse_line_to_vec(line: &[u8]) -> (found: Vec<u8>)
    ensures
        found@ == numbers(line@),
{
    let mut found: Vec<u8> = Vec::new();
    let mut at: usize = 0;
    proof {
        assert(line@.skip(0) =~= line@);
        assert(found@ + numbers(line@) =~= numbers(line@));
    }
    while at < line.len()
        invariant
            at <= line.len(),
            found@ + numbers(line@.skip(at as int)) == numbers(line@),
        decreases line.len() - at,
    {
        let ghost rest = line@.skip(at as int);
        let width: usize = space_width(line, at);
        if width > 0 {
            proof {
                assert(rest.skip(width as int) =~= line@.skip(at + width));
            }
            at = at + width;
        } else {
            let end: usize = word_end(line, at);
            proof {
                lemma_word_len(rest);
                assert(rest.take(end - at) =~= line@.subrange(at as int, end as int));
                assert(rest.skip(end - at) =~= line@.skip(end as int));
            }
            let ghost before = found@;
            match parse_token(line, at, end, 255) {
                Some(value) => {
                    found.push(value as u8);
                    assert(found@ + numbers(line@.skip(end as int)) =~= before + (seq![
                        value as u8,
                    ] + numbers(line@.skip(end as int))));
                },
                None => {},
            }
            at = end;
        }
    }
    proof {
        assert(found@ + Seq::<u8>::empty() =~= found@);
    }
    found
}

/// How many bytes of white space a text starts with.
pub open spec fn leading(text: Seq<u8>) -> nat
    decreases text.len(),
{
    if space_len(text) == 0 {
        0
    } else {
        space_len(text) + leading(text.skip(space_len(text) as int))
    }
}

/// How many bytes of white space a text ends with.
pub open spec fn trailing(text: Seq<u8>) -> nat
    decreases text.len(),
{
    if space_len_back(text) == 0 {
        0
    } else {
        space_len_back(text) + trailing(text.take(text.len() - space_len_back(text)))
    }
}

/// A text without the white space at its start and, then, without the
/// white space at its end.
pub open spec fn trimmed(text: Seq<u8>) -> Seq<u8> {
    let rest = text.skip(leading(text) as int);
    rest.take(rest.len() - trailing(rest))
}

/// Where the white space ends that starts at `from`.
pub fn skip_space(text: &[u8], from: usize) -> (end: usize)
    requires
        from <= text.len(),
    ensures
        end == from + leading(text@.skip(from as int)),
        from <= end <= text.len(),
        space_len(text@.skip(end as int)) == 0,
{
    let mut end: usize = from;
    loop
        invariant
            from <= end <= text.len(),
            end + leading(text@.skip(end as int)) == from + leading(text@.skip(from as int)),
        ensures
            from <= end <= text.len(),
            end == from + leading(text@.skip(from as int)),
            space_len(text@.skip(end as int)) == 0,
        decreases text.len() - end,
    {
        let width: usize = space_width(text, end);
        if width == 0 {
            break;
        }
        proof {
            assert(text@.skip(end as int).skip(width as int) =~= text@.skip(end + width));
        }
        end = end + width;
    }
    end
}

/// Where the text `text[from..to]` ends once the white space at its end is
/// left out.
pub fn trim_end(text: &[u8], from: usize, to: usize) -> (end: usize)
    requires
        from <= to <= text.len(),
    ensures
        from <= end <= to,
        end == to - trailing(text@.subrange(from as int, to as int)),
{
    let ghost whole = text@.subrange(from as int, to as int);
    let mut end: usize = to;
    proof {
        assert(whole.take(to - from) =~= whole);
    }
    loop
        invariant
            from <= end <= to <= text.len(),
            whole == text@.subrange(from as int, to as int),
            (to - end) + trailing(whole.take(end - from)) == trailing(whole),
        ensures
            from <= end <= to,
            end == to - trailing(whole),
        decreases end,
    {
        let width: usize = space_width_back(text, from, end);
        proof {
            assert(whole.take(end - from) =~= text@.subrange(from as int, end as int));
        }
        if width == 0 {
            break;
        }
        proof {
            let part = whole.take(end - from);
            assert(part.take(part.len() - width) =~= whole.take(end - width - from));
        }
        end = end - width;
    }
    end
}

/// The length of the first line of a text, its line feed included. A text
/// without a line feed is one line.
pub open spec fn line_len(text: Seq<u8>) -> nat
    decreases text.len(),
{
    if text.len() == 0 {
        0
    } else if text[0] == 10 {
        1
    } else {
        1 + line_len(text.skip(1))
    }
}

/// The first line lies within the text and is not empty unless the text is.
pub proof fn lemma_line_len(text: Seq<u8>)
    ensures
        line_len(text) <= text.len(),
        text.len() > 0 ==> line_len(text) >= 1,
    decreases text.len(),
{
    if text.len() > 0 && text[0] != 10 {
        lemma_line_len(text.skip(1));
    }
}

/// A line is known by its bytes: a run without a line feed that is followed
/// by one, or by the end of the text.
pub proof fn lemma_line_known(text: Seq<u8>, n: int)
    requires
        0 <= n <= text.len(),
        forall|i: int| 0 <= i < n ==> #[trigger] text[i] != 10,
        n == text.len() || text[n] == 10,
    ensures
        line_len(text) == if n == text.len() {
            n
        } else {
            n + 1
        },
    decreases n,
{
    if n > 0 {
        let rest = text.skip(1);
        assert forall|i: int| 0 <= i < n - 1 implies #[trigger] rest[i] != 10 by {
            assert(rest[i] == text[i + 1]);
        }
        lemma_line_known(rest, n - 1);
    }
}

/// Where the line that starts at `from` ends, its line feed included.
pub fn line_end(text: &[u8], from: usize) -> (end: usize)
    requires
        from <= text.len(),
    ensures
        end == from + line_len(text@.skip(from as int)),
        from <= end <= text.len(),
{
    let mut end: usize = from;
    while end < text.len() && text[end] != 10
        invariant
            from <= end <= text.len(),
            forall|i: int| from <= i < end ==> #[trigger] text@[i] != 10,
        decreases text.len() - end,
    {
        end = end + 1;
    }
    proof {
        lemma_line_known(text@.skip(from as int), end - from);
    }
    if end < text.len() {
        end + 1
    } else {
        end
    }
}

} // verus!
