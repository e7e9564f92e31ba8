//! Text as characters: white space, lines, words and decimal numbers.

use vstd::prelude::*;

verus! {

/// White space: the characters with the Unicode property `White_Space`.
pub open spec fn is_white_space(c: char) -> bool {
    let code = c as u32;
    ||| 0x09 <= code <= 0x0D
    ||| code == 0x20
    ||| code == 0x85
    ||| code == 0xA0
    ||| code == 0x1680
    ||| 0x2000 <= code <= 0x200A
    ||| code == 0x2028
    ||| code == 0x2029
    ||| code == 0x202F
    ||| code == 0x205F
    ||| code == 0x3000
}

/// Whether `c` is white space.
pub fn white_space(c: char) -> (b: bool)
    ensures
        b == is_white_space(c),
{
    let code = c as u32;
    (0x09 <= code && code <= 0x0D) || code == 0x20 || code == 0x85 || code == 0xA0 || code
        == 0x1680 || (0x2000 <= code && code <= 0x200A) || code == 0x2028 || code == 0x2029
        || code == 0x202F || code == 0x205F || code == 0x3000
}

/// The characters of a text.
pub fn characters(text: &str) -> (chars: Vec<char>)
    ensures
        chars@ == text@,
{
    let mut chars: Vec<char> = Vec::new();
    for c in it: text.chars()
        invariant
            chars@ == it.seq().take(it.index()),
            it.seq() == text@,
    {
        chars.push(c);
    }
    chars
}

/// The view of each text of a list.
pub open spec fn views(texts: Seq<Vec<char>>) -> Seq<Seq<char>> {
    Seq::new(texts.len(), |i: int| texts[i]@)
}

/// What has been read of the lines of a text once all of it is read: the
/// lines that a line feed has closed, and the characters after the last line
/// feed.
pub open spec fn lines_read(text: Seq<char>) -> (Seq<Seq<char>>, Seq<char>)
    decreases text.len(),
{
    if text.len() == 0 {
        (Seq::empty(), Seq::empty())
    } else {
        let (closed, open) = lines_read(text.drop_last());
        if text.last() == '\n' {
            (closed.push(open), Seq::empty())
        } else {
            (closed, open.push(text.last()))
        }
    }
}

/// The lines of a text: what stands between its line feeds, before the first
/// and after the last. The line after the last line feed counts only where
/// it is not empty. A carriage return before a line feed stays in its line.
pub open spec fn text_lines(text: Seq<char>) -> Seq<Seq<char>> {
    let (closed, open) = lines_read(text);
    if open.len() > 0 {
        closed.push(open)
    } else {
        closed
    }
}

/// What has been read of the words of a line once all of it is read: the
/// words that white space has closed, and the characters after the last
/// white space.
pub open spec fn words_read(line: Seq<char>) -> (Seq<Seq<char>>, Seq<char>)
    decreases line.len(),
{
    if line.len() == 0 {
        (Seq::empty(), Seq::empty())
    } else {
        let (closed, open) = words_read(line.drop_last());
        if !is_white_space(line.last()) {
            (closed, open.push(line.last()))
        } else if open.len() > 0 {
            (closed.push(open), Seq::empty())
        } else {
            (closed, open)
        }
    }
}

/// The words of a line: its longest runs of characters that are no white
/// space, in order.
pub open spec fn words_of(line: Seq<char>) -> Seq<Seq<char>> {
    let (closed, open) = words_read(line);
    if open.len() > 0 {
        closed.push(open)
    } else {
        closed
    }
}

/// A text without line feed.
pub open spec fn is_one_line(line: Seq<char>) -> bool {
    forall|i: int| 0 <= i < line.len() ==> #[trigger] line[i] != '\n'
}

/// A text of at least one character and without white space.
pub open spec fn is_one_word(word: Seq<char>) -> bool {
    &&& word.len() > 0
    &&& forall|i: int| 0 <= i < word.len() ==> !is_white_space(#[trigger] word[i])
}

proof fn lemma_lines_read_hold_no_line_feed(text: Seq<char>)
    ensures
        forall|l: int|
            0 <= l < lines_read(text).0.len() ==> is_one_line(#[trigger] lines_read(text).0[l]),
        is_one_line(lines_read(text).1),
    decreases text.len(),
{
    if text.len() > 0 {
        lemma_lines_read_hold_no_line_feed(text.drop_last());
    }
}

/// No line holds a line feed.
pub proof fn lemma_lines_hold_no_line_feed(text: Seq<char>)
    ensures
        forall|l: int| 0 <= l < text_lines(text).len() ==> is_one_line(#[trigger] text_lines(text)[l]),
{
    lemma_lines_read_hold_no_line_feed(text);
}

/// The lines one after the other, each with a line feed behind it.
pub open spec fn closed_lines(lines: Seq<Seq<char>>) -> Seq<char>
    decreases lines.len(),
{
    if lines.len() == 0 {
        Seq::empty()
    } else {
        closed_lines(lines.drop_last()) + lines.last().push('\n')
    }
}

/// The lines that line feeds have closed, each with its line feed, and the
/// characters after the last line feed make up the text again.
pub proof fn lemma_lines_make_up_the_text(text: Seq<char>)
    ensures
        closed_lines(lines_read(text).0) + lines_read(text).1 == text,
    decreases text.len(),
{
    if text.len() > 0 {
        let front = text.drop_last();
        lemma_lines_make_up_the_text(front);
        let (closed, open) = lines_read(front);
        if text.last() == '\n' {
            assert(closed.push(open).drop_last() =~= closed);
            assert(closed_lines(closed.push(open)) + Seq::<char>::empty() =~= (closed_lines(closed)
                + open).push('\n'));
        } else {
            assert(closed_lines(closed) + open.push(text.last()) =~= (closed_lines(closed)
                + open).push(text.last()));
        }
        assert(front.push(text.last()) =~= text);
    } else {
        assert(closed_lines(lines_read(text).0) + lines_read(text).1 =~= text);
    }
}

proof fn lemma_words_read_hold_no_white_space(line: Seq<char>)
    ensures
        forall|w: int|
            0 <= w < words_read(line).0.len() ==> is_one_word(#[trigger] words_read(line).0[w]),
        forall|i: int|
            0 <= i < words_read(line).1.len() ==> !is_white_space(#[trigger] words_read(line).1[i]),
    decreases line.len(),
{
    if line.len() > 0 {
        lemma_words_read_hold_no_white_space(line.drop_last());
        let (closed, open) = words_read(line.drop_last());
        let (now_closed, now_open) = words_read(line);
        assert forall|w: int| 0 <= w < now_closed.len() implies is_one_word(
            #[trigger] now_closed[w],
        ) by {
            if w < closed.len() {
                assert(now_closed[w] == closed[w]);
            } else {
                assert(now_closed[w] == open);
            }
        }
        assert forall|i: int| 0 <= i < now_open.len() implies !is_white_space(
            #[trigger] now_open[i],
        ) by {
            if i < open.len() {
                assert(now_open[i] == open[i]);
            }
        }
    }
}

/// Every word has a character, and none of its characters is white space.
pub proof fn lemma_words_hold_no_white_space(line: Seq<char>)
    ensures
        forall|w: int| 0 <= w < words_of(line).len() ==> is_one_word(#[trigger] words_of(line)[w]),
{
    lemma_words_read_hold_no_white_space(line);
}

/// The lines of a text.
pub fn split_lines(text: &Vec<char>) -> (lines: Vec<Vec<char>>)
    ensures
        views(lines@) == text_lines(text@),
{
    let mut closed: Vec<Vec<char>> = Vec::new();
    let mut open: Vec<char> = Vec::new();
    let mut i: usize = 0;
    proof {
        assert(views(closed@) =~= Seq::<Seq<char>>::empty());
    }
    while i < text.len()
        invariant
            i <= text.len(),
            (views(closed@), open@) == lines_read(text@.take(i as int)),
        decreases text.len() - i,
    {
        let ghost before = closed@;
        proof {
            assert(text@.take(i + 1).drop_last() =~= text@.take(i as int));
        }
        if text[i] == '\n' {
            closed.push(open);
            open = Vec::new();
            proof {
                assert(views(closed@) =~= views(before).push(closed@[before.len() as int]@));
            }
        } else {
            open.push(text[i]);
        }
        i += 1;
    }
    proof {
        assert(text@.take(i as int) =~= text@);
    }
    if open.len() > 0 {
        let ghost before = closed@;
        closed.push(open);
        proof {
            assert(views(closed@) =~= views(before).push(closed@[before.len() as int]@));
        }
    }
    closed
}

/// The words of a line.
pub fn split_words(line: &Vec<char>) -> (words: Vec<Vec<char>>)
    ensures
        views(words@) == words_of(line@),
{
    let mut closed: Vec<Vec<char>> = Vec::new();
    let mut open: Vec<char> = Vec::new();
    let mut i: usize = 0;
    proof {
        assert(views(closed@) =~= Seq::<Seq<char>>::empty());
    }
    while i < line.len()
        invariant
            i <= line.len(),
            (views(closed@), open@) == words_read(line@.take(i as int)),
        decreases line.len() - i,
    {
        let ghost before = closed@;
        proof {
            assert(line@.take(i + 1).drop_last() =~= line@.take(i as int));
        }
        if !white_space(line[i]) {
            open.push(line[i]);
        } else if open.len() > 0 {
            closed.push(open);
            open = Vec::new();
            proof {
                assert(views(closed@) =~= views(before).push(closed@[before.len() as int]@));
            }
        }
        i += 1;
    }
    proof {
        assert(line@.take(i as int) =~= line@);
    }
    if open.len() > 0 {
        let ghost before = closed@;
        closed.push(open);
        proof {
            assert(views(closed@) =~= views(before).push(closed@[before.len() as int]@));
        }
    }
    closed
}

/// Whether `c` is one of the digits 0 to 9.
pub open spec fn is_digit(c: char) -> bool {
    0x30 <= c as u32 <= 0x39
}

/// The value of a digit.
pub open spec fn digit_of(c: char) -> nat {
    (c as u32 - 0x30) as nat
}

/// Whether a text holds digits only.
pub open spec fn all_digits(text: Seq<char>) -> bool {
    forall|i: int| 0 <= i < text.len() ==> is_digit(#[trigger] text[i])
}

/// The number that digits write in base ten.
pub open spec fn decimal(digits: Seq<char>) -> nat
    decreases digits.len(),
{
    if digits.len() == 0 {
        0
    } else {
        10 * decimal(digits.drop_last()) + digit_of(digits.last())
    }
}

/// Whether a text begins with a sign.
pub open spec fn has_sign(text: Seq<char>) -> bool {
    text.len() > 0 && (text[0] == '+' || text[0] == '-')
}

/// The digits of a text: all of it but its sign.
pub open spec fn digits_of(text: Seq<char>) -> Seq<char> {
    if has_sign(text) {
        text.subrange(1, text.len() as int)
    } else {
        text
    }
}

/// The number that a text writes, if it writes one: an optional sign `+` or
/// `-`, then digits only, at least one. Nothing else may stand in the text,
/// white space neither.
pub open spec fn written_number(text: Seq<char>) -> Option<int> {
    if digits_of(text).len() > 0 && all_digits(digits_of(text)) {
        if text[0] == '-' {
            Some(-(decimal(digits_of(text)) as int))
        } else {
            Some(decimal(digits_of(text)) as int)
        }
    } else {
        None
    }
}

/// The size that a text writes, if it writes one: a number without the sign
/// `-` that fits the type.
pub open spec fn written_usize(text: Seq<char>) -> Option<usize> {
    match written_number(text) {
        Some(number) => if text[0] != '-' && number <= usize::MAX {
            Some(number as usize)
        } else {
            None
        },
        None => None,
    }
}

/// The 32-bit integer that a text writes, if it writes one: a number that
/// fits the type.
pub open spec fn written_i32(text: Seq<char>) -> Option<i32> {
    match written_number(text) {
        Some(number) => if i32::MIN <= number <= i32::MAX {
            Some(number as i32)
        } else {
            None
        },
        None => None,
    }
}

/// More digits never write a smaller number.
proof fn lemma_decimal_grows(digits: Seq<char>, shorter: int)
    requires
        0 <= shorter <= digits.len(),
    ensures
        decimal(digits.take(shorter)) <= decimal(digits),
    decreases digits.len() - shorter,
{
    if shorter < digits.len() {
        lemma_decimal_grows(digits, shorter + 1);
        assert(digits.take(shorter + 1).drop_last() =~= digits.take(shorter));
    } else {
        assert(digits.take(shorter) =~= digits);
    }
}

/// The number that the characters from `from` on write, where they are
/// digits only, at least one, and the number is at most `limit`.
fn parse_digits(text: &Vec<char>, from: usize, limit: u64) -> (r: Option<u64>)
    requires
        from <= text.len(),
    ensures
        r == ({
            let digits = text@.subrange(from as int, text.len() as int);
            if digits.len() > 0 && all_digits(digits) && decimal(digits) <= limit {
                Some(decimal(digits) as u64)
            } else {
                None
            }
        }),
{
    let ghost digits = text@.subrange(from as int, text.len() as int);
    if from == text.len() {
        return None;
    }
    let mut value: u64 = 0;
    let mut i: usize = from;
    proof {
        assert(digits.take(0) =~= Seq::<char>::empty());
    }
    while i < text.len()
        invariant
            from <= i <= text.len(),
            digits == text@.subrange(from as int, text.len() as int),
            all_digits(digits.take(i - from)),
            value == decimal(digits.take(i - from)),
            value <= limit,
        decreases text.len() - i,
    {
        let code = text[i] as u32;
        proof {
            assert(digits[i - from] == text@[i as int]);
            assert(digits.take(i - from + 1).drop_last() =~= digits.take(i - from));
            lemma_decimal_grows(digits, i - from + 1);
        }
        if code < 0x30 || code > 0x39 {
            return None;
        }
        let digit = (code - 0x30) as u64;
        let grown = match value.checked_mul(10) {
            Some(tenfold) => tenfold.checked_add(digit),
            None => None,
        };
        match grown {
            Some(number) => {
                if number > limit {
                    return None;
                }
                value = number;
            },
            None => {
                return None;
            },
        }
        proof {
            assert forall|k: int| 0 <= k < i - from + 1 implies is_digit(
                #[trigger] digits.take(i - from + 1)[k],
            ) by {
                if k < i - from {
                    assert(digits.take(i - from)[k] == digits.take(i - from + 1)[k]);
                }
            }
        }
        i += 1;
    }
    proof {
        assert(digits.take(i - from) =~= digits);
    }
    Some(value)
}

/// The size that a text writes, as `usize` reads it from a string.
pub fn parse_usize(text: &Vec<char>) -> (r: Option<usize>)
    ensures
        r == written_usize(text@),
{
    if text.len() == 0 || text[0] == '-' {
        return None;
    }
    let from: usize = if text[0] == '+' {
        1
    } else {
        0
    };
    proof {
        assert(text@.subrange(0, text.len() as int) =~= text@);
    }
    match parse_digits(text, from, usize::MAX as u64) {
        Some(number) => Some(number as usize),
        None => None,
    }
}

/// The 32-bit integer that a text writes, as `i32` reads it from a string.
pub fn parse_i32(text: &Vec<char>) -> (r: Option<i32>)
    ensures
        r == written_i32(text@),
{
    if text.len() == 0 {
        return None;
    }
    proof {
        assert(text@.subrange(0, text.len() as int) =~= text@);
    }
    if text[0] == '-' {
        match parse_digits(text, 1, 0x8000_0000) {
            Some(number) => Some((0 - number as i64) as i32),
            None => None,
        }
    } else {
        let from: usize = if text[0] == '+' {
            1
        } else {
            0
        };
        match parse_digits(text, from, 0x7fff_ffff) {
            Some(number) => Some(number as i32),
            None => None,
        }
    }
}

} // verus!
