//! How texts split into lines, how numbers are written, and what is blank.

use crate::metrics::types::{sparse_string, SparseValue};
use crate::text::{
    all_digits, before_first, blank, contains_text, decimal_digits, decimal_value,
    first_occurs_at, lemma_digits_write_number, lemma_first_line, occurs_at, signed_value,
    text_lines, unsigned_value, white_space,
};
use vstd::prelude::*;

verus! {

/// A line ends at a line feed. A carriage return right before it belongs to the end of the line,
/// and any other character to the line. What follows is split in the same way.
pub proof fn law_line_ends_at_line_feed(line: Seq<char>, rest: Seq<char>)
    requires
        forall|i: int| 0 <= i < line.len() ==> #[trigger] line[i] != '\n',
    ensures
        text_lines(line.push('\n') + rest) == seq![
            if line.len() > 0 && line[line.len() - 1] == '\r' {
                line.take(line.len() - 1)
            } else {
                line
            },
        ] + text_lines(rest),
{
    assert(!line.contains('\n'));
    lemma_first_line(line, rest);
    if line.len() > 0 {
        assert(line.drop_last() =~= line.take(line.len() - 1));
    }
}

/// What stands after the last line feed is a line as it is, unless it is empty.
pub proof fn law_last_line_needs_no_line_feed(line: Seq<char>)
    requires
        forall|i: int| 0 <= i < line.len() ==> #[trigger] line[i] != '\n',
    ensures
        line.len() > 0 ==> text_lines(line) == seq![line],
        line.len() == 0 ==> text_lines(line).len() == 0,
{
    assert(!line.contains('\n'));
}

/// One more digit makes ten times the number, and the digit.
pub proof fn law_digits_are_decimal(digits: Seq<char>, digit: int)
    requires
        0 <= digit <= 9,
    ensures
        decimal_value(digits.push(('0' as int + digit) as char)) == 10 * decimal_value(digits)
            + digit,
        decimal_value(Seq::empty()) == 0,
{
    let longer = digits.push(('0' as int + digit) as char);
    assert(longer.drop_last() =~= digits);
}

/// Digits alone, or after a plus sign, write a number that is not negative, and digits after a
/// minus sign one that is not positive, as long as it is in the range of 64 bits.
pub proof fn law_signs_and_digits_write_numbers(digits: Seq<char>, limit: nat)
    requires
        digits.len() > 0,
        forall|i: int| 0 <= i < digits.len() ==> '0' <= #[trigger] digits[i] <= '9',
    ensures
        unsigned_value(digits, limit) == if decimal_value(digits) <= limit {
            Some(decimal_value(digits))
        } else {
            None
        },
        unsigned_value(seq!['+'] + digits, limit) == unsigned_value(digits, limit),
        unsigned_value(seq!['-'] + digits, limit) is None,
        signed_value(digits) == if decimal_value(digits) <= 0x7fff_ffff_ffff_ffff {
            Some(decimal_value(digits) as int)
        } else {
            None
        },
        signed_value(seq!['+'] + digits) == signed_value(digits),
        signed_value(seq!['-'] + digits) == if decimal_value(digits) <= 0x8000_0000_0000_0000 {
            Some(-(decimal_value(digits) as int))
        } else {
            None
        },
{
    assert('0' <= digits[0] <= '9');
    assert((seq!['+'] + digits).skip(1) =~= digits);
    assert((seq!['-'] + digits).skip(1) =~= digits);
    assert((seq!['+'] + digits)[0] == '+');
    assert((seq!['-'] + digits)[0] == '-');
}

/// A text with anything else in it writes no number: without digits, with something that is no
/// digit after the first character, or with a first character that is neither a digit nor a sign.
pub proof fn law_anything_else_is_no_number(text: Seq<char>, limit: nat)
    requires
        ({
            ||| text.len() == 0
            ||| text.len() == 1 && !('0' <= text[0] <= '9')
            ||| exists|i: int| 1 <= i < text.len() && !('0' <= #[trigger] text[i] <= '9')
            ||| text[0] != '+' && text[0] != '-' && !('0' <= text[0] <= '9')
        }),
    ensures
        unsigned_value(text, limit) is None,
        signed_value(text) is None,
{
    if text.len() > 0 {
        let rest = text.skip(1);
        if exists|i: int| 1 <= i < text.len() && !('0' <= #[trigger] text[i] <= '9') {
            let i = choose|i: int| 1 <= i < text.len() && !('0' <= #[trigger] text[i] <= '9');
            assert(rest[i - 1] == text[i]);
        }
        if all_digits(text) {
            assert('0' <= text[0] <= '9');
        }
    }
}

/// A number is written with digits alone, at least one, and no zero before others.
pub proof fn law_numbers_are_written_short(n: nat)
    ensures
        decimal_digits(n).len() > 0,
        forall|i: int|
            0 <= i < decimal_digits(n).len() ==> '0' <= #[trigger] decimal_digits(n)[i] <= '9',
        decimal_value(decimal_digits(n)) == n,
        decimal_digits(n).len() > 1 ==> decimal_digits(n)[0] != '0',
    decreases n,
{
    lemma_digits_write_number(n);
    if n >= 10 {
        law_numbers_are_written_short(n / 10);
        let head = decimal_digits(n / 10);
        assert(decimal_digits(n)[0] == head[0]);
        if n < 100 {
            assert(head[0] as int == '0' as int + n / 10);
        } else {
            lemma_digits_write_number(n / 10 / 10);
            assert(head.len() > 1);
        }
    }
}

/// A text is blank exactly when both of its parts are, and one character when it is white space;
/// the empty text is.
pub proof fn law_blank_is_white_space(first: Seq<char>, second: Seq<char>, c: char)
    ensures
        blank(first + second) <==> blank(first) && blank(second),
        blank(Seq::empty()),
        blank(seq![c]) <==> white_space(c),
        white_space(' ') && white_space('\t') && white_space('\n') && white_space('\r'),
        'a' <= c <= 'z' || 'A' <= c <= 'Z' || '0' <= c <= '9' || c == '/' || c == '.' || c == '_'
            ==> !white_space(c),
{
    let both = first + second;
    if blank(both) {
        assert forall|i: int| 0 <= i < first.len() implies white_space(#[trigger] first[i]) by {
            assert(both[i] == first[i]);
        }
        assert forall|i: int| 0 <= i < second.len() implies white_space(#[trigger] second[i]) by {
            assert(both[first.len() + i] == second[i]);
        }
    }
    assert(seq![c][0] == c);
}

/// What stands before a separator ends where the separator first occurs; without one it is the
/// whole text.
pub proof fn law_head_ends_at_first_separator(head: Seq<char>, separator: Seq<char>, tail: Seq<char>)
    requires
        separator.len() > 0,
        forall|at: int| 0 <= at < head.len() ==> !occurs_at(head + separator + tail, separator, at),
    ensures
        before_first(head + separator + tail, separator) == head,
        !contains_text(tail, separator) ==> before_first(tail, separator) == tail,
        contains_text(head + separator + tail, separator),
{
    let text = head + separator + tail;
    let end = head.len() as int;
    assert(text.subrange(end, end + separator.len()) =~= separator);
    assert(occurs_at(text, separator, end));
    assert(first_occurs_at(text, separator, end));
    let at = choose|at: int| first_occurs_at(text, separator, at);
    assert(at == end);
    assert(text.take(end) =~= head);
}

/// The text at a position of a sparse array is what stands there, by the digits of the position: a
/// text is returned, null as an inner none, and anything else or nothing as none.
pub proof fn law_sparse_text_is_read(array: Map<Seq<char>, SparseValue>, position: nat)
    ensures
        ({
            let key = decimal_digits(position);
            &&& !array.contains_key(key) ==> sparse_string(array, position) is None
            &&& array.contains_key(key) && array[key] is Null ==> sparse_string(array, position)
                == Some(None::<String>)
            &&& array.contains_key(key) && array[key] is Text ==> sparse_string(array, position)
                == Some(Some(array[key]->Text_0))
            &&& array.contains_key(key) && array[key] is Json ==> sparse_string(
                array,
                position,
            ) is None
        }),
{
}

} // verus!
