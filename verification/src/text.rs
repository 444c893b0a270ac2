//! Text helpers: searching, splitting into lines, and decimal numbers.

use vstd::prelude::*;

verus! {

/// Whether `part` stands in `text` at position `at`.
pub open spec fn occurs_at(text: Seq<char>, part: Seq<char>, at: int) -> bool {
    &&& 0 <= at
    &&& at + part.len() <= text.len()
    &&& text.subrange(at, at + part.len()) == part
}

/// Whether `part` stands somewhere in `text`.
pub open spec fn contains_text(text: Seq<char>, part: Seq<char>) -> bool {
    exists|at: int| occurs_at(text, part, at)
}

/// Whether `at` is the first position at which `part` stands in `text`.
pub open spec fn first_occurs_at(text: Seq<char>, part: Seq<char>, at: int) -> bool {
    &&& occurs_at(text, part, at)
    &&& forall|earlier: int| 0 <= earlier < at ==> !occurs_at(text, part, earlier)
}

/// The part of `text` before the first `separator`, or all of it where there is none.
pub open spec fn before_first(text: Seq<char>, separator: Seq<char>) -> Seq<char> {
    if contains_text(text, separator) {
        text.take(choose|at: int| first_occurs_at(text, separator, at))
    } else {
        text
    }
}

/// Calls `str::split_once`. The text is cut at the first place where the separator stands; with
/// no such place there is no result.
#[verifier::external_body]
fn split_once<'a>(text: &'a str, separator: &str) -> (halves: Option<(&'a str, &'a str)>)
    ensures
        halves is Some <==> contains_text(text@, separator@),
        halves matches Some((head, tail)) ==> first_occurs_at(text@, separator@, head@.len() as int)
            && text@ == head@ + separator@ + tail@,
{
    text.split_once(separator)
}

/// Calls `String::push`, which appends one character.
pub assume_specification[ String::push ](text: &mut String, c: char)
    ensures
        final(text)@ == old(text)@.push(c),
;

/// Whether a character has the property `White_Space` of Unicode.
pub open spec fn white_space(c: char) -> bool {
    let code = c as int;
    ||| 0x9 <= code <= 0xd
    ||| code == 0x20
    ||| code == 0x85
    ||| code == 0xa0
    ||| code == 0x1680
    ||| 0x2000 <= code <= 0x200a
    ||| 0x2028 <= code <= 0x2029
    ||| code == 0x202f
    ||| code == 0x205f
    ||| code == 0x3000
}

/// Calls `char::is_whitespace`, which tells whether a character has the property `White_Space` of
/// Unicode. The characters that have it are listed in [`white_space`].
pub assume_specification[ char::is_whitespace ](c: char) -> (white: bool)
    ensures
        white == white_space(c),
;

/// Whether a text holds nothing but white space.
pub open spec fn blank(text: Seq<char>) -> bool {
    forall|i: int| 0 <= i < text.len() ==> white_space(#[trigger] text[i])
}

/// Whether a text holds nothing but white space.
pub fn is_blank(text: &str) -> (empty: bool)
    ensures
        empty == blank(text@),
{
    for c in iter: text.chars()
        invariant
            iter.seq() == text@,
            forall|i: int| 0 <= i < iter.index() ==> white_space(#[trigger] text@[i]),
    {
        if !c.is_whitespace() {
            assert(!white_space(text@[iter.index()]));
            return false;
        }
    }
    true
}

/// Whether `part` stands somewhere in `text`.
pub fn contains(text: &str, part: &str) -> (found: bool)
    ensures
        found == contains_text(text@, part@),
{
    split_once(text, part).is_some()
}

/// The part of `text` before the first `separator`, or all of it where there is none.
pub fn head_before<'a>(text: &'a str, separator: &str) -> (head: &'a str)
    ensures
        head@ == before_first(text@, separator@),
{
    match split_once(text, separator) {
        Some((head, _)) => {
            proof {
                let at = choose|at: int| first_occurs_at(text@, separator@, at);
                assert(first_occurs_at(text@, separator@, head@.len() as int));
                assert(at == head@.len());
                assert(head@ =~= text@.take(at));
            }
            head
        },
        None => text,
    }
}

/// Whether `text` begins with the two characters given.
pub fn starts_with_pair(text: &str, first: char, second: char) -> (begins: bool)
    ensures
        begins == (text@.len() >= 2 && text@[0] == first && text@[1] == second),
{
    let mut chars = text.chars();
    match chars.next() {
        Some(c) if c == first => {},
        _ => {
            return false;
        },
    }
    match chars.next() {
        Some(c) => c == second,
        None => false,
    }
}

/// A line without the carriage return that belongs to its line feed.
pub open spec fn strip_carriage_return(line: Seq<char>) -> Seq<char> {
    if line.len() > 0 && line.last() == '\r' {
        line.drop_last()
    } else {
        line
    }
}

/// The lines of `text`. A line ends at a line feed, alone or after a carriage return; the last
/// one may end with the text.
pub open spec fn text_lines(text: Seq<char>) -> Seq<Seq<char>>
    decreases text.len(),
{
    if text.len() == 0 {
        Seq::empty()
    } else if text.contains('\n') {
        let end = text.index_of_first('\n').unwrap();
        if 0 <= end < text.len() {
            seq![strip_carriage_return(text.take(end))] + text_lines(text.skip(end + 1))
        } else {
            Seq::empty()
        }
    } else {
        seq![text]
    }
}

/// A line that ends at a line feed is the first line of the text it begins.
pub proof fn lemma_first_line(line: Seq<char>, rest: Seq<char>)
    requires
        !line.contains('\n'),
    ensures
        text_lines(line.push('\n') + rest) == seq![strip_carriage_return(line)] + text_lines(rest),
{
    let text = line.push('\n') + rest;
    let end = line.len() as int;
    assert(text[end] == '\n');
    assert(text.contains('\n'));
    text.index_of_first_ensures('\n');
    let found = text.index_of_first('\n').unwrap();
    assert(found == end) by {
        if found < end {
            assert(line[found] == '\n');
        }
    }
    assert(text.take(end) =~= line);
    assert(text.skip(end + 1) =~= rest);
}

/// Splits a text into its lines.
pub fn split_lines(text: &str) -> (lines: Vec<String>)
    ensures
        lines@.map_values(|line: String| line@) == text_lines(text@),
{
    let mut lines: Vec<String> = Vec::new();
    let mut line: String = String::new();
    // A carriage return that is held back until it is known whether a line feed follows.
    let mut held: bool = false;
    let ghost view = |line: String| line@;
    let ghost mut open: Seq<char> = Seq::empty();
    assert(lines@.map_values(view) =~= Seq::empty());
    assert(open + text@.skip(0) =~= text@);
    for c in iter: text.chars()
        invariant
            iter.seq() == text@,
            view == (|line: String| line@),
            !open.contains('\n'),
            held ==> open == line@.push('\r'),
            !held ==> open == line@ && (open.len() > 0 ==> open.last() != '\r'),
            lines@.map_values(view) + text_lines(open + text@.skip(iter.index())) =~= text_lines(
                text@,
            ),
    {
        let ghost at = iter.index();
        let ghost rest = text@.skip(at + 1);
        let ghost before = open;
        assert(c == text@[at]);
        proof {
            assert(open + text@.skip(at) =~= open.push(c) + rest);
        }
        if c == '\n' {
            proof {
                lemma_first_line(open, rest);
                if held {
                    assert(strip_carriage_return(open) =~= line@);
                }
            }
            let ghost done = lines@;
            let ghost ended = line@;
            lines.push(line);
            line = String::new();
            held = false;
            proof {
                open = Seq::empty();
                assert(lines@.map_values(view) =~= done.map_values(view).push(ended));
                assert(open + rest =~= rest);
            }
        } else {
            if held {
                line.push('\r');
            }
            if c == '\r' {
                held = true;
            } else {
                line.push(c);
                held = false;
            }
            proof {
                open = before.push(c);
                assert(!open.contains('\n')) by {
                    if open.contains('\n') {
                        let k = choose|k: int| 0 <= k < open.len() && open[k] == '\n';
                        assert(before[k] == '\n');
                    }
                }
            }
        }
    }
    assert(text@.skip(text@.len() as int) =~= Seq::empty());
    assert(open + Seq::<char>::empty() =~= open);
    if held {
        line.push('\r');
    }
    assert(line@ =~= open);
    let ghost done = lines@;
    if !line.as_str().is_empty() {
        let ghost ended = line@;
        lines.push(line);
        proof {
            assert(lines@.map_values(view) =~= done.map_values(view).push(ended));
            assert(text_lines(open) =~= seq![ended]);
        }
    } else {
        assert(text_lines(open) =~= Seq::empty());
    }
    assert(lines@.map_values(view) =~= text_lines(text@));
    lines
}

/// Whether every character is a decimal digit.
pub open spec fn all_digits(text: Seq<char>) -> bool {
    forall|i: int| 0 <= i < text.len() ==> '0' <= #[trigger] text[i] <= '9'
}

/// The number that decimal digits write.
pub open spec fn decimal_value(digits: Seq<char>) -> nat
    decreases digits.len(),
{
    if digits.len() == 0 {
        0
    } else {
        10 * decimal_value(digits.drop_last()) + (digits.last() as int - '0' as int) as nat
    }
}

/// The decimal digits of a number, without leading zeros.
pub open spec fn decimal_digits(n: nat) -> Seq<char>
    decreases n,
{
    if n < 10 {
        seq![('0' as int + n) as char]
    } else {
        decimal_digits(n / 10).push(('0' as int + n % 10) as char)
    }
}

/// The number written by one digit or more, where it is at most `limit`.
pub open spec fn number_up_to(digits: Seq<char>, limit: nat) -> Option<nat> {
    if digits.len() > 0 && all_digits(digits) && decimal_value(digits) <= limit {
        Some(decimal_value(digits))
    } else {
        None
    }
}

/// The unsigned number that a text writes: an optional plus sign and digits.
pub open spec fn unsigned_value(text: Seq<char>, limit: nat) -> Option<nat> {
    if text.len() > 0 && text[0] == '+' {
        number_up_to(text.skip(1), limit)
    } else {
        number_up_to(text, limit)
    }
}

/// The signed number of 64 bits that a text writes: an optional sign and digits.
pub open spec fn signed_value(text: Seq<char>) -> Option<int> {
    if text.len() > 0 && text[0] == '-' {
        match number_up_to(text.skip(1), 0x8000_0000_0000_0000) {
            Some(n) => Some(-(n as int)),
            None => None,
        }
    } else {
        match unsigned_value(text, 0x7fff_ffff_ffff_ffff) {
            Some(n) => Some(n as int),
            None => None,
        }
    }
}

/// A longer row of digits writes no smaller a number.
proof fn lemma_value_grows(digits: Seq<char>, shorter: int)
    requires
        all_digits(digits),
        0 <= shorter <= digits.len(),
    ensures
        decimal_value(digits.take(shorter)) <= decimal_value(digits),
    decreases digits.len() - shorter,
{
    if shorter < digits.len() {
        lemma_value_grows(digits, shorter + 1);
        assert(digits.take(shorter + 1).drop_last() =~= digits.take(shorter));
        assert(digits.take(shorter + 1).last() == digits[shorter]);
    } else {
        assert(digits.take(shorter) =~= digits);
    }
}

/// A number's decimal digits are digits, at least one, and write that number.
pub proof fn lemma_digits_write_number(n: nat)
    ensures
        decimal_digits(n).len() > 0,
        all_digits(decimal_digits(n)),
        decimal_value(decimal_digits(n)) == n,
    decreases n,
{
    if n >= 10 {
        lemma_digits_write_number(n / 10);
        let head = decimal_digits(n / 10);
        let digits = decimal_digits(n);
        assert(digits.drop_last() =~= head);
    } else {
        let digits = decimal_digits(n);
        assert(digits.drop_last() =~= Seq::empty());
        assert(decimal_value(digits.drop_last()) == 0);
    }
}

/// Reads the number that the characters of `chars` write, from position `from` on.
fn parse_digits(chars: &Vec<char>, from: usize, limit: u64) -> (value: Option<u64>)
    requires
        from <= chars@.len(),
    ensures
        match value {
            Some(n) => number_up_to(chars@.skip(from as int), limit as nat) == Some(n as nat),
            None => number_up_to(chars@.skip(from as int), limit as nat) is None,
        },
{
    let ghost digits = chars@.skip(from as int);
    if from == chars.len() {
        return None;
    }
    let mut value: u64 = 0;
    let mut next: usize = from;
    assert(digits.take(0) =~= Seq::empty());
    while next < chars.len()
        invariant
            from <= next <= chars@.len(),
            digits == chars@.skip(from as int),
            all_digits(digits.take(next - from)),
            value == decimal_value(digits.take(next - from)),
            value <= limit,
        decreases chars@.len() - next,
    {
        let c: char = chars[next];
        assert(c == digits[next - from]);
        if c < '0' || '9' < c {
            assert(!all_digits(digits));
            return None;
        }
        let digit: u64 = c as u64 - '0' as u64;
        proof {
            assert(digits.take(next - from + 1).drop_last() =~= digits.take(next - from));
            assert(digits.take(next - from + 1).last() == c);
            assert(decimal_value(digits.take(next - from + 1)) == 10 * value + digit);
            if all_digits(digits) {
                lemma_value_grows(digits, next - from + 1);
            }
        }
        if digit > limit || value > (limit - digit) / 10 {
            assert(10 * value + digit > limit);
            return None;
        }
        value = 10 * value + digit;
        next = next + 1;
    }
    assert(digits.take(next - from) =~= digits);
    Some(value)
}

/// The characters of a text.
fn characters(text: &str) -> (chars: Vec<char>)
    ensures
        chars@ == text@,
{
    let mut chars: Vec<char> = Vec::new();
    for c in iter: text.chars()
        invariant
            iter.seq() == text@,
            chars@ =~= text@.take(iter.index()),
    {
        chars.push(c);
    }
    assert(text@.take(text@.len() as int) =~= text@);
    chars
}

/// Reads an unsigned number: an optional plus sign and digits, at most `usize::MAX`.
pub fn parse_usize(text: &str) -> (value: Option<usize>)
    ensures
        match value {
            Some(n) => unsigned_value(text@, usize::MAX as nat) == Some(n as nat),
            None => unsigned_value(text@, usize::MAX as nat) is None,
        },
{
    let chars = characters(text);
    let from: usize = if chars.len() > 0 && chars[0] == '+' {
        1
    } else {
        0
    };
    assert(text@.skip(0) =~= text@);
    match parse_digits(&chars, from, usize::MAX as u64) {
        Some(n) => Some(n as usize),
        None => None,
    }
}

/// Reads a signed number of 64 bits: an optional sign and digits.
pub fn parse_i64(text: &str) -> (value: Option<i64>)
    ensures
        match value {
            Some(n) => signed_value(text@) == Some(n as int),
            None => signed_value(text@) is None,
        },
{
    let chars = characters(text);
    assert(text@.skip(0) =~= text@);
    if chars.len() > 0 && chars[0] == '-' {
        match parse_digits(&chars, 1, 0x8000_0000_0000_0000) {
            Some(n) => if n == 0x8000_0000_0000_0000 {
                Some(i64::MIN)
            } else {
                Some(-(n as i64))
            },
            None => None,
        }
    } else {
        let from: usize = if chars.len() > 0 && chars[0] == '+' {
            1
        } else {
            0
        };
        match parse_digits(&chars, from, 0x7fff_ffff_ffff_ffff) {
            Some(n) => Some(n as i64),
            None => None,
        }
    }
}

/// Writes a number in decimal digits.
pub fn decimal(n: u64) -> (text: String)
    ensures
        text@ == decimal_digits(n as nat),
    decreases n,
{
    let mut text: String = if n < 10 {
        String::new()
    } else {
        decimal(n / 10)
    };
    let digit: u8 = (n % 10) as u8;
    text.push((48u8 + digit) as char);
    assert(text@ =~= decimal_digits(n as nat));
    text
}

/// Reading back what was written gives the number, where it is in range, and nothing otherwise.
pub proof fn law_decimal_reads_back(n: nat, limit: nat)
    ensures
        unsigned_value(decimal_digits(n), limit) == if n <= limit {
            Some(n)
        } else {
            None
        },
        signed_value(decimal_digits(n)) == if n <= i64::MAX {
            Some(n as int)
        } else {
            None
        },
{
    lemma_digits_write_number(n);
    let digits = decimal_digits(n);
    assert('0' <= digits[0] <= '9');
}

} // verus!
