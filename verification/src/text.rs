//! Texts: their characters, their white space, and the integers they write.

use vstd::prelude::*;

verus! {

/// Whether Unicode gives the character the property `White_Space`: the
/// controls from tab to carriage return, the space, next line, the no-break
/// space, the ogham space mark, the spaces from en quad to hair space, the
/// line and the paragraph separator, the narrow no-break space, the medium
/// mathematical space and the ideographic space.
pub open spec fn white_space(c: char) -> bool {
    let code = c as u32;
    ||| 0x09 <= code <= 0x0D
    ||| code == 0x20
    ||| code == 0x85
    ||| code == 0xA0
    ||| code == 0x1680
    ||| 0x2000 <= code <= 0x200A
    ||| code == 0x2028
    ||| code == 0x2029
    ||| code == 0x202F
    ||| code == 0x205F
    ||| code == 0x3000
}

/// `char::is_whitespace` of std. Claims that std goes by the property
/// `White_Space` of Unicode, which its documentation names, and that the
/// property holds of the 25 characters listed in `white_space`.
#[verifier::external_body]
pub(crate) fn is_whitespace(c: char) -> (white: bool)
    ensures
        white == white_space(c),
{
    c.is_whitespace()
}

/// The characters of a text.
pub fn characters(text: &str) -> (all: Vec<char>)
    ensures
        all@ == text@,
{
    let mut all: Vec<char> = Vec::new();
    for c in it: text.chars()
        invariant
            it.seq() == text@,
            all@ == text@.take(it.index() as int),
    {
        all.push(c);
        assert(all@ =~= text@.take(it.index() + 1));
    }
    assert(text@.take(text@.len() as int) =~= text@);
    all
}

/// The character is one of `0` to `9`.
pub open spec fn is_digit(c: char) -> bool {
    '0' <= c <= '9'
}

/// The number that decimal digits write.
pub open spec fn digits_value(digits: Seq<char>) -> int
    decreases digits.len(),
{
    if digits.len() == 0 {
        0
    } else {
        digits_value(digits.drop_last()) * 10 + (digits.last() as int - '0' as int)
    }
}

/// The piece from position `from` on is made of digits, one at least.
pub open spec fn all_digits(piece: Seq<char>, from: int) -> bool {
    from < piece.len() && forall|i: int| from <= i < piece.len() ==> is_digit(#[trigger] piece[i])
}

/// The integer that a piece writes: an optional sign, then digits, one at
/// least, whose number fits in 32 bits.
pub open spec fn integer(piece: Seq<char>) -> Option<i32> {
    let signed = piece.len() > 0 && (piece[0] == '+' || piece[0] == '-');
    let from: int = if signed {
        1
    } else {
        0
    };
    let size = digits_value(piece.skip(from));
    let number = if piece.len() > 0 && piece[0] == '-' {
        -size
    } else {
        size
    };
    if all_digits(piece, from) && i32::MIN <= number <= i32::MAX {
        Some(number as i32)
    } else {
        None
    }
}

/// The integer that the piece writes, if it writes one.
pub fn parse_integer(piece: &Vec<char>) -> (number: Option<i32>)
    ensures
        number == integer(piece@),
{
    let count: usize = piece.len();
    let negative = count > 0 && piece[0] == '-';
    let signed = count > 0 && (piece[0] == '+' || piece[0] == '-');
    let from: usize = if signed {
        1
    } else {
        0
    };
    if from >= count {
        return None;
    }
    let ghost digits = piece@.skip(from as int);
    let mut size: i64 = 0;
    let mut too_large = false;
    let mut i: usize = from;
    while i < count
        invariant
            from <= i <= count,
            count == piece@.len(),
            from as int == (if piece@.len() > 0 && (piece@[0] == '+' || piece@[0] == '-') {
                1int
            } else {
                0int
            }),
            digits == piece@.skip(from as int),
            forall|k: int| from <= k < i ==> is_digit(#[trigger] piece@[k]),
            !too_large ==> size == digits_value(digits.take(i - from)) && 0 <= size <= 2147483649,
            too_large ==> digits_value(digits.take(i - from)) > 2147483648,
        decreases count - i,
    {
        let c: char = piece[i];
        if !(c >= '0' && c <= '9') {
            assert(!is_digit(piece@[i as int]));
            return None;
        }
        let digit: i64 = (c as u32 - '0' as u32) as i64;
        assert(digits.take(i - from + 1).drop_last() =~= digits.take(i - from));
        assert(digits.take(i - from + 1).last() == c);
        if !too_large {
            if size > 214748364 {
                too_large = true;
            } else {
                size = size * 10 + digit;
            }
        }
        i += 1;
    }
    assert(digits.take(count - from) =~= digits);
    if too_large {
        None
    } else if negative {
        if size <= 2147483648 {
            Some((-size) as i32)
        } else {
            None
        }
    } else if size <= 2147483647 {
        Some(size as i32)
    } else {
        None
    }
}

} // verus!
