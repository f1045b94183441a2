//! Working on text by its bytes.

use smol_str::SmolStr;
use vstd::prelude::*;
use vstd::string::{StringExecFns, StringSliceAdditionalSpecFns};
use vstd::utf8::{
    encode_utf8_valid_utf8, is_char_boundary, is_char_boundary_iff_not_is_continuation_byte,
    is_char_boundary_start_end_of_seq, pop_first_scalar, valid_utf8, valid_utf8_split,
};

use crate::kind::bytes_eq;

verus! {

#[verifier::external_type_specification]
#[verifier::external_body]
pub struct ExSmolStr(SmolStr);

/// The characters that a `SmolStr` holds.
pub uninterp spec fn smol_chars(text: SmolStr) -> Seq<char>;

/// `SmolStr::new`: the string made holds the characters of `text`, inline
/// if they are few and on the heap otherwise.
#[verifier::external_body]
pub(crate) fn smol_new(text: &str) -> (r: SmolStr)
    ensures
        smol_chars(r) == text@,
{
    SmolStr::new(text)
}

/// `SmolStr::as_str`: the characters that the string holds, as a slice.
#[verifier::external_body]
pub(crate) fn smol_as_str(text: &SmolStr) -> (r: &str)
    ensures
        r@ == smol_chars(*text),
{
    text.as_str()
}

/// `Clone` for `SmolStr`: the copy holds the same characters.
pub assume_specification[ <SmolStr as Clone>::clone ](text: &SmolStr) -> (r: SmolStr)
    ensures
        smol_chars(r) == smol_chars(*text),
;

/// The byte that spells a hyphen.
pub const HYPHEN: u8 = 0x2D;

/// In well-formed text a byte of the ASCII range is a character of its own:
/// a character begins at it, and the next begins right after it.
pub proof fn lemma_boundary_at_ascii(bytes: Seq<u8>, i: int)
    requires
        valid_utf8(bytes),
        0 <= i < bytes.len(),
        bytes[i] < 0x80,
    ensures
        is_char_boundary(bytes, i),
        is_char_boundary(bytes, i + 1),
{
    is_char_boundary_iff_not_is_continuation_byte(bytes, i);
    valid_utf8_split(bytes, i);
    let tail = bytes.subrange(i, bytes.len() as int);
    assert(tail[0] == bytes[i]);
    let rest = pop_first_scalar(tail);
    assert(rest =~= bytes.subrange(i + 1, bytes.len() as int));
    assert(valid_utf8(rest));
    if i + 1 == bytes.len() {
        is_char_boundary_start_end_of_seq(bytes);
    } else {
        assert(rest[0] == bytes[i + 1]);
        is_char_boundary_iff_not_is_continuation_byte(bytes, i + 1);
    }
}

/// The text between two places at which characters begin.
pub fn substring<'a>(text: &'a str, from: usize, to: usize) -> (r: &'a str)
    requires
        from <= to <= text.spec_bytes().len(),
        is_char_boundary(text.spec_bytes(), from as int),
        is_char_boundary(text.spec_bytes(), to as int),
    ensures
        r.spec_bytes() == text.spec_bytes().subrange(from as int, to as int),
{
    let ghost bytes = text.spec_bytes();
    proof {
        encode_utf8_valid_utf8(text@);
        valid_utf8_split(bytes, to as int);
    }
    let (head, _) = text.split_at(to);
    proof {
        let front = bytes.subrange(0, to as int);
        assert(head.spec_bytes() == front);
        if from < to {
            is_char_boundary_iff_not_is_continuation_byte(bytes, from as int);
            assert(front[from as int] == bytes[from as int]);
            is_char_boundary_iff_not_is_continuation_byte(front, from as int);
        } else {
            is_char_boundary_start_end_of_seq(front);
        }
    }
    let (_, tail) = head.split_at(from);
    assert(tail.spec_bytes() =~= bytes.subrange(from as int, to as int));
    tail
}

/// Whether two strings hold the same characters.
pub fn str_eq(a: &str, b: &str) -> (r: bool)
    ensures
        r == (a@ == b@),
{
    let same = bytes_eq(a.as_bytes(), b.as_bytes());
    proof {
        vstd::utf8::encode_utf8_decode_utf8(a@);
        vstd::utf8::encode_utf8_decode_utf8(b@);
    }
    same
}

/// The number of hyphens that the bytes end with.
pub open spec fn trailing_hyphens(bytes: Seq<u8>) -> int
    decreases bytes.len(),
{
    if bytes.len() > 0 && bytes.last() == HYPHEN {
        1 + trailing_hyphens(bytes.drop_last())
    } else {
        0
    }
}

/// The bytes without the hyphens that they end with.
pub open spec fn without_trailing_hyphens(bytes: Seq<u8>) -> Seq<u8> {
    bytes.subrange(0, bytes.len() - trailing_hyphens(bytes))
}

/// Counting from the back agrees with `trailing_hyphens`.
pub proof fn lemma_trailing_hyphens_is(bytes: Seq<u8>, n: int)
    requires
        0 <= n <= bytes.len(),
        forall|i: int| bytes.len() - n <= i < bytes.len() ==> #[trigger] bytes[i] == HYPHEN,
        n < bytes.len() ==> bytes[bytes.len() - n - 1] != HYPHEN,
    ensures
        trailing_hyphens(bytes) == n,
    decreases bytes.len(),
{
    if n > 0 {
        let rest = bytes.drop_last();
        assert(bytes[bytes.len() - 1] == HYPHEN);
        assert forall|i: int| rest.len() - (n - 1) <= i < rest.len() implies #[trigger] rest[i]
            == HYPHEN by {
            assert(rest[i] == bytes[i]);
        }
        lemma_trailing_hyphens_is(rest, n - 1);
    }
}

/// The text without the hyphens that it ends with.
pub fn trim_end_hyphens<'a>(text: &'a str) -> (r: &'a str)
    ensures
        r.spec_bytes() == without_trailing_hyphens(text.spec_bytes()),
{
    let bytes = text.as_bytes();
    let mut end: usize = bytes.len();
    proof {
        encode_utf8_valid_utf8(text@);
        is_char_boundary_start_end_of_seq(bytes@);
    }
    while end > 0 && bytes[end - 1] == HYPHEN
        invariant
            end <= bytes@.len(),
            bytes@ == text.spec_bytes(),
            valid_utf8(bytes@),
            is_char_boundary(bytes@, end as int),
            forall|i: int| end <= i < bytes@.len() ==> #[trigger] bytes@[i] == HYPHEN,
        decreases end,
    {
        proof {
            lemma_boundary_at_ascii(bytes@, end - 1);
        }
        end -= 1;
    }
    proof {
        lemma_trailing_hyphens_is(bytes@, bytes@.len() - end);
    }
    substring(text, 0, end)
}

/// The character that spells a digit.
pub open spec fn digit_char(digit: int) -> char {
    if digit == 0 {
        '0'
    } else if digit == 1 {
        '1'
    } else if digit == 2 {
        '2'
    } else if digit == 3 {
        '3'
    } else if digit == 4 {
        '4'
    } else if digit == 5 {
        '5'
    } else if digit == 6 {
        '6'
    } else if digit == 7 {
        '7'
    } else if digit == 8 {
        '8'
    } else {
        '9'
    }
}

/// The decimal spelling of a number, without leading zeros.
pub open spec fn decimal_chars(n: nat) -> Seq<char>
    decreases n,
{
    if n < 10 {
        seq![digit_char(n as int)]
    } else {
        decimal_chars(n / 10).push(digit_char((n % 10) as int))
    }
}

/// The spelling of a digit.
fn digit_str(digit: u32) -> (r: &'static str)
    requires
        digit < 10,
    ensures
        r@ == seq![digit_char(digit as int)],
{
    proof {
        reveal_strlit("0");
        reveal_strlit("1");
        reveal_strlit("2");
        reveal_strlit("3");
        reveal_strlit("4");
        reveal_strlit("5");
        reveal_strlit("6");
        reveal_strlit("7");
        reveal_strlit("8");
        reveal_strlit("9");
    }
    let r = if digit == 0 {
        "0"
    } else if digit == 1 {
        "1"
    } else if digit == 2 {
        "2"
    } else if digit == 3 {
        "3"
    } else if digit == 4 {
        "4"
    } else if digit == 5 {
        "5"
    } else if digit == 6 {
        "6"
    } else if digit == 7 {
        "7"
    } else if digit == 8 {
        "8"
    } else {
        "9"
    };
    assert(r@ =~= seq![digit_char(digit as int)]);
    r
}

/// Appends the decimal spelling of a number.
pub fn push_decimal(out: &mut String, n: u32)
    ensures
        final(out)@ == old(out)@ + decimal_chars(n as nat),
    decreases n,
{
    if n >= 10 {
        push_decimal(out, n / 10);
    }
    out.append(digit_str(n % 10));
    assert(out@ =~= old(out)@ + decimal_chars(n as nat));
}

} // verus!
