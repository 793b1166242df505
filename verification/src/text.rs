//! Text as it is used around log records: decimal numbers, padding, prefixes,
//! and the step between bytes and validated text.

use vstd::prelude::*;
use vstd::utf8::*;

verus! {

/// The character that stands for a decimal digit.
pub open spec fn digit_char(digit: nat) -> char
    recommends
        digit < 10,
{
    (48 + digit) as u8 as char
}

/// The decimal numeral of `value`, without sign or leading zeros.
pub open spec fn decimal_text(value: nat) -> Seq<char>
    decreases value,
{
    if value < 10 {
        seq![digit_char(value)]
    } else {
        decimal_text(value / 10).push(digit_char(value % 10))
    }
}

/// `count` blanks.
pub open spec fn blanks(count: nat) -> Seq<char> {
    Seq::new(count, |i: int| ' ')
}

/// `text` filled up with blanks on the right to at least `width` characters.
pub open spec fn padded_text(text: Seq<char>, width: nat) -> Seq<char> {
    if text.len() >= width {
        text
    } else {
        text + blanks((width - text.len()) as nat)
    }
}

/// The numeral of one decimal digit.
fn digit_str(digit: u8) -> (text: &'static str)
    requires
        digit < 10,
    ensures
        text@ == seq![digit_char(digit as nat)],
{
    proof {
        reveal_strlit("0");
        reveal_strlit("1");
        reveal_strlit("2");
        reveal_strlit("3");
        reveal_strlit("4");
        reveal_strlit("5");
        reveal_strlit("6");
        reveal_strlit("7");
        reveal_strlit("8");
        reveal_strlit("9");
    }
    let text = if digit == 0 {
        "0"
    } else if digit == 1 {
        "1"
    } else if digit == 2 {
        "2"
    } else if digit == 3 {
        "3"
    } else if digit == 4 {
        "4"
    } else if digit == 5 {
        "5"
    } else if digit == 6 {
        "6"
    } else if digit == 7 {
        "7"
    } else if digit == 8 {
        "8"
    } else {
        "9"
    };
    assert(text@ =~= seq![digit_char(digit as nat)]);
    text
}

/// Appends the decimal numeral of `value` to `out`.
pub fn push_decimal(out: &mut String, value: u32)
    ensures
        final(out)@ == old(out)@ + decimal_text(value as nat),
    decreases value,
{
    if value >= 10 {
        push_decimal(out, value / 10);
    }
    out.append(digit_str((value % 10) as u8));
    assert(out@ =~= old(out)@ + decimal_text(value as nat));
}

/// Appends `text` to `out`, then blanks until `width` characters have been
/// appended.
pub fn push_padded(out: &mut String, text: &str, width: usize)
    ensures
        final(out)@ == old(out)@ + padded_text(text@, width as nat),
{
    out.append(text);
    let mut count: usize = text.unicode_len();
    while count < width
        invariant
            text@.len() <= count,
            count > text@.len() ==> count <= width,
            out@ == old(out)@ + text@ + blanks((count - text@.len()) as nat),
        decreases width - count,
    {
        proof {
            reveal_strlit(" ");
        }
        out.append(" ");
        count += 1;
        assert(out@ =~= old(out)@ + text@ + blanks((count - text@.len()) as nat));
    }
    assert(out@ =~= old(out)@ + padded_text(text@, width as nat));
}

/// Encoding text as UTF-8 goes through concatenation.
pub proof fn lemma_encode_utf8_concat(a: Seq<char>, b: Seq<char>)
    ensures
        encode_utf8(a + b) == encode_utf8(a) + encode_utf8(b),
    decreases a.len(),
{
    if a.len() == 0 {
        assert(a + b =~= b);
        assert(encode_utf8(a) + encode_utf8(b) =~= encode_utf8(b));
    } else {
        assert((a + b).drop_first() =~= a.drop_first() + b);
        lemma_encode_utf8_concat(a.drop_first(), b);
        assert(encode_utf8(a + b) =~= encode_utf8(a) + encode_utf8(b));
    }
}

/// One text begins another exactly when its UTF-8 form begins the other's.
pub proof fn lemma_prefix_by_bytes(a: Seq<char>, b: Seq<char>)
    ensures
        encode_utf8(a).is_prefix_of(encode_utf8(b)) <==> a.is_prefix_of(b),
    decreases a.len(),
{
    if a.is_prefix_of(b) {
        let rest = b.skip(a.len() as int);
        assert(b =~= a + rest);
        lemma_encode_utf8_concat(a, rest);
    }
    if encode_utf8(a).is_prefix_of(encode_utf8(b)) {
        if a.len() > 0 {
            let ea = encode_utf8(a);
            let eb = encode_utf8(b);
            encode_utf8_first_scalar(a);
            assert(ea.len() > 0);
            assert(b.len() > 0);
            encode_utf8_first_scalar(b);
            let width = length_of_first_scalar(ea);
            assert(width <= ea.len());
            assert(ea[0] == eb[0]);
            assert(width >= 2 ==> ea[1] == eb[1]);
            assert(width >= 3 ==> ea[2] == eb[2]);
            assert(width >= 4 ==> ea[3] == eb[3]);
            assert(decode_first_scalar(ea) == decode_first_scalar(eb));
            char_u32_cast(a[0], a[0] as u32);
            char_u32_cast(b[0], b[0] as u32);
            assert(a[0] == b[0]);
            let head = encode_scalar(a[0] as u32);
            assert(encode_utf8(a.drop_first()) =~= ea.skip(head.len() as int));
            assert(encode_utf8(b.drop_first()) =~= eb.skip(head.len() as int));
            assert(encode_utf8(a.drop_first()).is_prefix_of(encode_utf8(b.drop_first())));
            lemma_prefix_by_bytes(a.drop_first(), b.drop_first());
            assert(a.is_prefix_of(b)) by {
                assert forall|i: int| 0 <= i < a.len() implies a[i] == b[i] by {
                    if i > 0 {
                        assert(a.drop_first()[i - 1] == b.drop_first()[i - 1]);
                    }
                }
            }
        }
    }
}

/// Whether the bytes of `whole` begin with those of `head`.
pub fn bytes_start_with(whole: &[u8], head: &[u8]) -> (yes: bool)
    ensures
        yes == head@.is_prefix_of(whole@),
{
    if head.len() > whole.len() {
        return false;
    }
    let mut i: usize = 0;
    while i < head.len()
        invariant
            i <= head@.len() <= whole@.len(),
            forall|j: int| 0 <= j < i ==> head@[j] == whole@[j],
        decreases head@.len() - i,
    {
        if head[i] != whole[i] {
            assert(head@[i as int] != whole@[i as int]);
            return false;
        }
        i += 1;
    }
    assert(head@ =~= whole@.subrange(0, head@.len() as int));
    true
}

/// Whether `text` begins with `prefix`.
pub fn starts_with(text: &str, prefix: &str) -> (yes: bool)
    ensures
        yes == prefix@.is_prefix_of(text@),
{
    proof {
        lemma_prefix_by_bytes(prefix@, text@);
    }
    bytes_start_with(text.as_bytes(), prefix.as_bytes())
}

/// Reads bytes as text.
///
/// This is `core::str::from_utf8` with its error dropped: the bytes are
/// accepted exactly when they are well-formed UTF-8, and the text returned
/// is then made of those very bytes.
#[verifier::external_body]
pub(crate) fn utf8_text(bytes: &[u8]) -> (text: Option<&str>)
    ensures
        text is Some <==> valid_utf8(bytes@),
        text matches Some(s) ==> encode_utf8(s@) == bytes@,
{
    core::str::from_utf8(bytes).ok()
}

/// Reads bytes as text: `None` unless they are well-formed UTF-8, else the
/// text that they encode.
pub fn decode_text(bytes: &[u8]) -> (text: Option<&str>)
    ensures
        text is Some <==> valid_utf8(bytes@),
        text matches Some(s) ==> s@ == decode_utf8(bytes@),
{
    let text = utf8_text(bytes);
    proof {
        if let Some(s) = text {
            encode_utf8_decode_utf8(s@);
        }
    }
    text
}

} // verus!
