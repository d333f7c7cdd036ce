//! ASCII letter predicates and case conversion shared by the word types.

use vstd::prelude::*;

verus! {

/// Whether `c` is an ASCII lowercase letter.
pub open spec fn spec_is_lower(c: char) -> bool {
    'a' <= c && c <= 'z'
}

/// Whether `c` is an ASCII uppercase letter.
pub open spec fn spec_is_upper(c: char) -> bool {
    'A' <= c && c <= 'Z'
}

/// Whether `c` is an ASCII alphabetic letter.
pub open spec fn spec_is_letter(c: char) -> bool {
    spec_is_lower(c) || spec_is_upper(c)
}

/// ASCII uppercasing: lowercase letters move up, all else is unchanged.
pub open spec fn spec_to_upper(c: char) -> char {
    if spec_is_lower(c) {
        ((c as u8) - 0x20) as char
    } else {
        c
    }
}

/// ASCII lowercasing: uppercase letters move down, all else is unchanged.
pub open spec fn spec_to_lower(c: char) -> char {
    if spec_is_upper(c) {
        ((c as u8) + 0x20) as char
    } else {
        c
    }
}

/// Relies on `String::from_utf8`: a buffer of ASCII bytes is valid UTF-8
/// and decodes to the string whose characters are exactly those bytes.
#[verifier::external_body]
pub(crate) fn ascii_bytes_to_string(v: Vec<u8>) -> (r: String)
    requires
        forall|i: int| 0 <= i < v@.len() ==> v@[i] < 128,
    ensures
        r@.len() == v@.len(),
        forall|i: int| 0 <= i < v@.len() ==> r@[i] == v@[i] as char,
{
    match String::from_utf8(v) {
        Ok(s) => s,
        Err(_) => String::new(),
    }
}

/// A buffer of ASCII bytes read as characters encodes back, in UTF-8, to
/// exactly those bytes.
pub proof fn lemma_ascii_chars_bytes(b: Seq<u8>)
    requires
        forall|k: int| 0 <= k < b.len() ==> b[k] < 128,
    ensures
        vstd::utf8::encode_utf8(b.map_values(|x: u8| x as char)) =~= b,
{
    let chars = b.map_values(|x: u8| x as char);
    assert(vstd::utf8::is_ascii_chars(chars)) by {
        assert forall|i: int| 0 <= i < chars.len() implies '\0' <= #[trigger] chars[i]
            <= '\u{7f}' by {
            assert(chars[i] == b[i] as char);
        }
    }
    vstd::utf8::is_ascii_chars_encode_utf8(chars);
    assert forall|i: int| 0 <= i < b.len() implies vstd::utf8::encode_utf8(chars)[i] == b[i] by {
        assert(chars[i] == b[i] as char);
    }
}

/// The decimal digit characters of `n`, most significant first.
pub open spec fn spec_decimal(n: int) -> Seq<char>
    decreases n,
{
    if n < 10 {
        seq![((n + 48) as u8) as char]
    } else {
        spec_decimal(n / 10) + seq![((n % 10 + 48) as u8) as char]
    }
}

/// Every character of a decimal rendering is a digit.
pub proof fn lemma_decimal_digits(n: int)
    requires
        n >= 0,
    ensures
        forall|k: int|
            0 <= k < spec_decimal(n).len() ==> '0' <= #[trigger] spec_decimal(n)[k]
                && spec_decimal(n)[k] <= '9',
    decreases n,
{
    if n >= 10 {
        lemma_decimal_digits(n / 10);
        let e = spec_decimal(n);
        let head = spec_decimal(n / 10);
        assert forall|k: int| 0 <= k < e.len() implies '0' <= #[trigger] e[k] && e[k] <= '9' by {
            if k < head.len() {
                assert(e[k] == head[k]);
            } else {
                assert(e[k] == ((n % 10 + 48) as u8) as char);
            }
        }
    }
}

/// Appends the decimal digits of `n` as ASCII bytes.
pub(crate) fn push_decimal(out: &mut Vec<u8>, n: usize)
    ensures
        final(out)@.len() == old(out)@.len() + spec_decimal(n as int).len(),
        forall|k: int|
            0 <= k < spec_decimal(n as int).len() ==> final(out)@[old(out)@.len() + k]
                == #[trigger] spec_decimal(n as int)[k] as u8,
        forall|k: int| 0 <= k < old(out)@.len() ==> final(out)@[k] == old(out)@[k],
    decreases n,
{
    if n >= 10 {
        push_decimal(out, n / 10);
    }
    out.push((n % 10) as u8 + 48);
    proof {
        lemma_decimal_digits(n as int);
        if n >= 10 {
            assert(spec_decimal(n as int) == spec_decimal(n as int / 10) + seq![
                ((n as int % 10 + 48) as u8) as char,
            ]);
        }
    }
}

/// The decimal rendering of `n` as a string.
pub fn decimal_string(n: usize) -> (r: String)
    ensures
        r@ == spec_decimal(n as int),
{
    let mut bytes: Vec<u8> = Vec::new();
    push_decimal(&mut bytes, n);
    proof {
        lemma_decimal_digits(n as int);
        assert forall|k: int| 0 <= k < bytes@.len() implies bytes@[k] < 128 by {
            assert(bytes@[k] == spec_decimal(n as int)[k] as u8);
        }
    }
    let s = ascii_bytes_to_string(bytes);
    proof {
        assert(s@ =~= spec_decimal(n as int));
    }
    s
}

pub fn is_letter(c: char) -> (r: bool)
    ensures
        r == spec_is_letter(c),
{
    ('a' <= c && c <= 'z') || ('A' <= c && c <= 'Z')
}

pub fn to_upper(c: char) -> (r: char)
    ensures
        r == spec_to_upper(c),
{
    if 'a' <= c && c <= 'z' {
        ((c as u8) - 0x20) as char
    } else {
        c
    }
}

pub fn to_lower(c: char) -> (r: char)
    ensures
        r == spec_to_lower(c),
{
    if 'A' <= c && c <= 'Z' {
        ((c as u8) + 0x20) as char
    } else {
        c
    }
}

} // verus!
