//! Text comparison and trimming.

use vstd::prelude::*;

verus! {

/// The two texts hold the same characters.
pub fn same_text(a: &str, b: &str) -> (result: bool)
    ensures
        result == (a@ == b@),
{
    a.to_owned() == b.to_owned()
}

/// Both texts are absent, or both are present and hold the same characters.
pub fn same_optional_text(a: Option<&str>, b: Option<&str>) -> (result: bool)
    ensures
        result == (optional_view(a) == optional_view(b)),
{
    match (a, b) {
        (Some(x), Some(y)) => same_text(x, y),
        (None, None) => true,
        _ => false,
    }
}

/// The characters of a text that may be absent.
pub open spec fn optional_view(text: Option<&str>) -> Option<Seq<char>> {
    match text {
        Some(value) => Some(value@),
        None => None,
    }
}

/// The characters that Unicode gives the property `White_Space`.
pub open spec fn white_space(c: char) -> bool {
    let code = c as u32;
    ||| 0x9 <= code <= 0xd
    ||| code == 0x20
    ||| code == 0x85
    ||| code == 0xa0
    ||| code == 0x1680
    ||| 0x2000 <= code <= 0x200a
    ||| code == 0x2028
    ||| code == 0x2029
    ||| code == 0x202f
    ||| code == 0x205f
    ||| code == 0x3000
}

/// `text` without the white space at its two ends.
pub open spec fn trimmed(text: Seq<char>) -> Seq<char>
    decreases text.len(),
{
    if text.len() > 0 && white_space(text.first()) {
        trimmed(text.drop_first())
    } else if text.len() > 0 && white_space(text.last()) {
        trimmed(text.drop_last())
    } else {
        text
    }
}

fn is_white_space(c: char) -> (result: bool)
    ensures
        result == white_space(c),
{
    let code: u32 = c as u32;
    (0x9 <= code && code <= 0xd) || code == 0x20 || code == 0x85 || code == 0xa0 || code == 0x1680
        || (0x2000 <= code && code <= 0x200a) || code == 0x2028 || code == 0x2029 || code == 0x202f
        || code == 0x205f || code == 0x3000
}

/// The text without the white space at its two ends.
pub fn trim(text: &str) -> (result: &str)
    ensures
        result@ == trimmed(text@),
{
    let len: usize = text.unicode_len();
    let mut from: usize = 0;
    let mut to: usize = len;
    assert(text@.subrange(0, len as int) =~= text@);
    while from < to && is_white_space(text.get_char(from))
        invariant
            from <= to == len == text@.len(),
            trimmed(text@.subrange(from as int, to as int)) == trimmed(text@),
        decreases to - from,
    {
        assert(text@.subrange(from as int, to as int).drop_first() =~= text@.subrange(
            from + 1,
            to as int,
        ));
        from = from + 1;
    }
    while from < to && is_white_space(text.get_char(to - 1))
        invariant
            from <= to <= len == text@.len(),
            from < to ==> !white_space(text@[from as int]),
            trimmed(text@.subrange(from as int, to as int)) == trimmed(text@),
        decreases to - from,
    {
        assert(text@.subrange(from as int, to as int).drop_last() =~= text@.subrange(
            from as int,
            to - 1,
        ));
        to = to - 1;
    }
    text.substring_char(from, to)
}

/// `c` with an ASCII capital letter replaced by its small letter.
pub open spec fn small_letter(c: char) -> char {
    if 'A' <= c <= 'Z' {
        (c as u32 + 32) as char
    } else {
        c
    }
}

/// `text` with its ASCII capital letters replaced by small ones.
pub open spec fn small_letters(text: Seq<char>) -> Seq<char> {
    text.map_values(|c: char| small_letter(c))
}

/// `text`, its ASCII capital letters read as small ones, is `label`.
pub fn reads_as(text: &str, label: &str) -> (result: bool)
    ensures
        result == (small_letters(text@) == label@),
{
    let len: usize = text.unicode_len();
    if len != label.unicode_len() {
        assert(small_letters(text@).len() == text@.len());
        return false;
    }
    let mut i: usize = 0;
    while i < len
        invariant
            i <= len,
            len == text@.len() == label@.len(),
            forall|k: int| 0 <= k < i ==> small_letter(#[trigger] text@[k]) == label@[k],
        decreases len - i,
    {
        let c = text.get_char(i);
        let code: u32 = c as u32;
        let small: u32 = if 65 <= code && code <= 90 {
            code + 32
        } else {
            code
        };
        if small != label.get_char(i) as u32 {
            assert(small_letters(text@)[i as int] == small_letter(text@[i as int]));
            return false;
        }
        i = i + 1;
    }
    assert(small_letters(text@) =~= label@);
    true
}

/// White space is the tabs, line and page breaks, spaces and separators of Unicode, and nothing else.
pub proof fn law_white_space_is_these_characters(c: char)
    ensures
        white_space(c) <==> {
            ||| c as u32 == 0x9
            ||| c as u32 == 0xa
            ||| c as u32 == 0xb
            ||| c as u32 == 0xc
            ||| c as u32 == 0xd
            ||| c == ' '
            ||| c as u32 == 0x85
            ||| c as u32 == 0xa0
            ||| c as u32 == 0x1680
            ||| c as u32 == 0x2000
            ||| c as u32 == 0x2001
            ||| c as u32 == 0x2002
            ||| c as u32 == 0x2003
            ||| c as u32 == 0x2004
            ||| c as u32 == 0x2005
            ||| c as u32 == 0x2006
            ||| c as u32 == 0x2007
            ||| c as u32 == 0x2008
            ||| c as u32 == 0x2009
            ||| c as u32 == 0x200a
            ||| c as u32 == 0x2028
            ||| c as u32 == 0x2029
            ||| c as u32 == 0x202f
            ||| c as u32 == 0x205f
            ||| c as u32 == 0x3000
        },
{
}

/// Trimming cuts white space off the two ends and nothing else: what is left is the stretch between
/// two places outside which all is white space, and it neither begins nor ends with white space.
pub proof fn law_trimming_cuts_only_white_space_off_the_ends(text: Seq<char>) -> (cut: (int, int))
    ensures
        0 <= cut.0 <= cut.1 <= text.len(),
        trimmed(text) == text.subrange(cut.0, cut.1),
        forall|k: int| 0 <= k < cut.0 ==> white_space(#[trigger] text[k]),
        forall|k: int| cut.1 <= k < text.len() ==> white_space(#[trigger] text[k]),
        cut.0 < cut.1 ==> !white_space(text[cut.0]) && !white_space(text[cut.1 - 1]),
    decreases text.len(),
{
    if text.len() > 0 && white_space(text.first()) {
        let rest = text.drop_first();
        let (from, to) = law_trimming_cuts_only_white_space_off_the_ends(rest);
        assert(rest.subrange(from, to) =~= text.subrange(from + 1, to + 1));
        assert forall|k: int| 0 <= k < from + 1 implies white_space(#[trigger] text[k]) by {
            if k > 0 {
                assert(white_space(rest[k - 1]));
            }
        }
        assert forall|k: int| to + 1 <= k < text.len() implies white_space(#[trigger] text[k]) by {
            assert(white_space(rest[k - 1]));
        }
        (from + 1, to + 1)
    } else if text.len() > 0 && white_space(text.last()) {
        let rest = text.drop_last();
        let (from, to) = law_trimming_cuts_only_white_space_off_the_ends(rest);
        assert(rest.subrange(from, to) =~= text.subrange(from, to));
        assert forall|k: int| 0 <= k < from implies white_space(#[trigger] text[k]) by {
            assert(white_space(rest[k]));
        }
        assert forall|k: int| to <= k < text.len() implies white_space(#[trigger] text[k]) by {
            if k < rest.len() {
                assert(white_space(rest[k]));
            }
        }
        (from, to)
    } else {
        assert(text.subrange(0, text.len() as int) =~= text);
        (0, text.len() as int)
    }
}

/// Reading in small letters changes the ASCII capital letters, each to its small letter, and nothing
/// else.
pub proof fn law_small_letters_change_only_capitals(text: Seq<char>, k: int)
    requires
        0 <= k < text.len(),
    ensures
        small_letters(text).len() == text.len(),
        'A' <= text[k] <= 'Z' ==> small_letters(text)[k] as u32 == text[k] as u32 + 32,
        !('A' <= text[k] <= 'Z') ==> small_letters(text)[k] == text[k],
{
}

} // verus!
