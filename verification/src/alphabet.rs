//! The keyword alphabet: the Hangul syllable block, enumerated circularly.
//!
//! Every crawl keyword is a single character from this block. Advancing a
//! keyword moves to the next code point and wraps from the last syllable
//! back to the first, so the enumeration never runs out.

use vstd::prelude::*;

verus! {

/// First character of the keyword alphabet (the Hangul syllable "ga").
pub const FIRST_KEYWORD: char = '\u{AC00}';

/// Last character of the keyword alphabet (the Hangul syllable "hih").
pub const LAST_KEYWORD: char = '\u{D7A3}';

/// A character is a valid crawl keyword when it lies in the Hangul
/// syllable block.
pub open spec fn is_keyword(c: char) -> bool {
    FIRST_KEYWORD as u32 <= c as u32 <= LAST_KEYWORD as u32
}

/// The keyword that follows `c` in the circular enumeration of the
/// alphabet: the next code point, wrapping from the last syllable to the
/// first.
pub open spec fn next_keyword(c: char) -> char {
    if c == LAST_KEYWORD {
        FIRST_KEYWORD
    } else {
        ((c as u32 + 1) as char)
    }
}

/// Relies on `char::from_u32` of std: it returns `Some` of the character
/// with code point `i` exactly when `i` is a Unicode scalar value (not a
/// surrogate and at most `char::MAX`), and `None` otherwise.
pub assume_specification[ char::from_u32 ](i: u32) -> (r: Option<char>)
    ensures
        vstd::utf8::is_scalar(i) ==> r == Some(i as char),
        !vstd::utf8::is_scalar(i) ==> r is None,
;

/// Advance a keyword one step along the circular alphabet.
pub fn advance_keyword(c: char) -> (r: char)
    requires
        is_keyword(c),
    ensures
        r == next_keyword(c),
        is_keyword(r),
{
    if c == LAST_KEYWORD {
        FIRST_KEYWORD
    } else {
        let code: u32 = c as u32 + 1;
        match char::from_u32(code) {
            Some(next) => next,
            None => {
                proof {
                    assert(vstd::utf8::is_scalar(code));
                }
                FIRST_KEYWORD
            },
        }
    }
}

/// Keyword advance is a total bijection on the alphabet and cycles:
/// it maps the alphabet into the alphabet, is injective (hence, on a
/// finite set, bijective), and carries the last element back to the
/// first.
pub proof fn lemma_next_keyword_bijective(c1: char, c2: char)
    requires
        is_keyword(c1),
        is_keyword(c2),
    ensures
        is_keyword(next_keyword(c1)),
        next_keyword(c1) == next_keyword(c2) ==> c1 == c2,
        next_keyword(LAST_KEYWORD) == FIRST_KEYWORD,
{
    vstd::utf8::char_is_scalar(c1);
    vstd::utf8::char_is_scalar(c2);
    if c1 != LAST_KEYWORD {
        vstd::utf8::char_u32_cast(c1, c1 as u32);
    }
    if c2 != LAST_KEYWORD {
        vstd::utf8::char_u32_cast(c2, c2 as u32);
    }
}

} // verus!
