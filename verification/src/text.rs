//! Text and its bytes.

use vstd::prelude::*;
use vstd::string::StringExecFns;
use vstd::utf8::{encode_utf8, valid_utf8};

verus! {

/// `String::from_utf8`: the text whose UTF-8 encoding `bytes` is.  There is
/// such a text exactly if `bytes` is valid UTF-8.
#[verifier::external_body]
pub(crate) fn text_of_utf8(bytes: Vec<u8>) -> (text: Option<String>)
    ensures
        text is Some <==> valid_utf8(bytes@),
        text matches Some(t) ==> encode_utf8(t@) == bytes@,
{
    String::from_utf8(bytes).ok()
}

/// The encoding of a text in two parts is the encoding of the first part
/// followed by that of the second.
pub proof fn lemma_encode_utf8_concat(first: Seq<char>, second: Seq<char>)
    ensures
        encode_utf8(first + second) == encode_utf8(first) + encode_utf8(second),
    decreases first.len(),
{
    if first.len() == 0 {
        assert(first + second =~= second);
        assert(encode_utf8(first) + encode_utf8(second) =~= encode_utf8(second));
    } else {
        lemma_encode_utf8_concat(first.drop_first(), second);
        assert((first + second).drop_first() =~= first.drop_first() + second);
        assert(encode_utf8(first + second) =~= encode_utf8(first) + encode_utf8(second));
    }
}

/// The digit for `d`: `0` to `9`, then `A` to `F`.
pub open spec fn digit_char(d: int) -> char {
    if d < 10 {
        (48 + d) as char
    } else {
        (55 + d) as char
    }
}

/// The numeral of `v` without leading zeros: hexadecimal in upper case if
/// `hex`, else decimal.
pub open spec fn numeral(v: nat, hex: bool) -> Seq<char>
    decreases v,
{
    if hex {
        if v < 16 {
            seq![digit_char(v as int)]
        } else {
            numeral(v / 16, hex).push(digit_char((v % 16) as int))
        }
    } else {
        if v < 10 {
            seq![digit_char(v as int)]
        } else {
            numeral(v / 10, hex).push(digit_char((v % 10) as int))
        }
    }
}

/// The digit for `d` as text.
fn digit_text(d: u64) -> (text: &'static str)
    requires
        d < 16,
    ensures
        text@ == seq![digit_char(d as int)],
{
    proof {
        reveal_strlit("0");
        reveal_strlit("1");
        reveal_strlit("2");
        reveal_strlit("3");
        reveal_strlit("4");
        reveal_strlit("5");
        reveal_strlit("6");
        reveal_strlit("7");
        reveal_strlit("8");
        reveal_strlit("9");
        reveal_strlit("A");
        reveal_strlit("B");
        reveal_strlit("C");
        reveal_strlit("D");
        reveal_strlit("E");
        reveal_strlit("F");
    }
    let text = if d == 0 {
        "0"
    } else if d == 1 {
        "1"
    } else if d == 2 {
        "2"
    } else if d == 3 {
        "3"
    } else if d == 4 {
        "4"
    } else if d == 5 {
        "5"
    } else if d == 6 {
        "6"
    } else if d == 7 {
        "7"
    } else if d == 8 {
        "8"
    } else if d == 9 {
        "9"
    } else if d == 10 {
        "A"
    } else if d == 11 {
        "B"
    } else if d == 12 {
        "C"
    } else if d == 13 {
        "D"
    } else if d == 14 {
        "E"
    } else {
        "F"
    };
    assert(text@ =~= seq![digit_char(d as int)]);
    text
}

/// Appends the numeral of `v` to `out`: hexadecimal in upper case if `hex`,
/// else decimal.
pub fn append_numeral(out: &mut String, v: u64, hex: bool)
    ensures
        final(out)@ == old(out)@ + numeral(v as nat, hex),
    decreases v,
{
    if hex {
        if v < 16 {
            out.append(digit_text(v));
        } else {
            append_numeral(out, v / 16, hex);
            out.append(digit_text(v % 16));
        }
    } else {
        if v < 10 {
            out.append(digit_text(v));
        } else {
            append_numeral(out, v / 10, hex);
            out.append(digit_text(v % 10));
        }
    }
    assert(out@ =~= old(out)@ + numeral(v as nat, hex));
}

/// `text` followed by the decimal numeral of `v`.
pub fn with_decimal(text: &str, v: u64) -> (out: String)
    ensures
        out@ == text@ + numeral(v as nat, false),
{
    let mut out = String::from_str(text);
    append_numeral(&mut out, v, false);
    out
}

} // verus!
