//! Utilities for handling SHA-256 hashes.

use vstd::prelude::*;
use vstd::string::StringSliceAdditionalSpecFns;

verus! {

broadcast use vstd::array::group_array_axioms;

/// Why a hex string was rejected.
#[derive(Debug)]
#[non_exhaustive]
pub enum HexDecodeError {
    /// The provided hex string does not have the correct length.
    InvalidLength,
    /// The provided hex string contains invalid characters.
    InvalidHexCharacter,
}

/// The value of a hexadecimal digit byte, if it is one: decimal digits,
/// then `a`-`f` and `A`-`F` as 10 to 15.
pub open spec fn spec_hex_value(b: u8) -> Option<u8> {
    if '0' as u8 <= b && b <= '9' as u8 {
        Some((b - '0' as u8) as u8)
    } else if 'a' as u8 <= b && b <= 'f' as u8 {
        Some((b - 'a' as u8 + 10) as u8)
    } else if 'A' as u8 <= b && b <= 'F' as u8 {
        Some((b - 'A' as u8 + 10) as u8)
    } else {
        None
    }
}

/// The decoded byte at position `k` of a hex buffer: the high digit at
/// `2k` and the low digit at `2k + 1`.
pub open spec fn spec_hex_byte(b: Seq<u8>, k: int) -> u8
    recommends
        spec_hex_value(b[2 * k]) is Some,
        spec_hex_value(b[2 * k + 1]) is Some,
{
    (spec_hex_value(b[2 * k])->Some_0 * 16 + spec_hex_value(b[2 * k + 1])->Some_0) as u8
}

/// Decodes one hexadecimal digit.
pub fn from_hex(b: u8) -> (r: Result<u8, HexDecodeError>)
    ensures
        spec_hex_value(b) is Some ==> r == Ok::<u8, HexDecodeError>(spec_hex_value(b)->Some_0),
        spec_hex_value(b) is None ==> r == Err::<u8, HexDecodeError>(
            HexDecodeError::InvalidHexCharacter,
        ),
{
    if 48 <= b && b <= 57 {
        Ok(b - 48)
    } else if 97 <= b && b <= 102 {
        Ok(b - 97 + 10)
    } else if 65 <= b && b <= 70 {
        Ok(b - 65 + 10)
    } else {
        Err(HexDecodeError::InvalidHexCharacter)
    }
}

/// Converts a SHA-256 hash in hexadecimal string format to a byte array.
///
/// Succeeds exactly on strings of 64 hexadecimal digits; each output byte
/// combines two consecutive digits, high digit first.
pub fn sha256_hex_to_bytes(hex: &str) -> (r: Result<[u8; 32], HexDecodeError>)
    ensures
        hex.spec_bytes().len() != 64 ==> r == Err::<[u8; 32], HexDecodeError>(
            HexDecodeError::InvalidLength,
        ),
        hex.spec_bytes().len() == 64 && (exists|k: int|
            0 <= k < 64 && spec_hex_value(#[trigger] hex.spec_bytes()[k]) is None) ==> r == Err::<
            [u8; 32],
            HexDecodeError,
        >(HexDecodeError::InvalidHexCharacter),
        hex.spec_bytes().len() == 64 && (forall|k: int|
            0 <= k < 64 ==> spec_hex_value(#[trigger] hex.spec_bytes()[k]) is Some) ==> r is Ok,
        r matches Ok(out) ==> hex.spec_bytes().len() == 64 && (forall|k: int|
            0 <= k < 64 ==> spec_hex_value(#[trigger] hex.spec_bytes()[k]) is Some) && (forall|
            k: int,
        |
            0 <= k < 32 ==> out@[k] == spec_hex_byte(hex.spec_bytes(), k)),
{
    let bytes = hex.as_bytes_vec();
    if bytes.len() != 64 {
        return Err(HexDecodeError::InvalidLength);
    }
    let mut out: [u8; 32] = [0; 32];
    let mut i: usize = 0;
    while i < 32
        invariant
            bytes@ == hex.spec_bytes(),
            bytes@.len() == 64,
            0 <= i <= 32,
            forall|k: int| 0 <= k < 2 * i ==> spec_hex_value(#[trigger] bytes@[k]) is Some,
            forall|k: int| 0 <= k < i ==> out@[k] == spec_hex_byte(bytes@, k),
        decreases 32 - i,
    {
        let hi = match from_hex(bytes[2 * i]) {
            Ok(v) => v,
            Err(err) => {
                proof {
                    assert(spec_hex_value(bytes@[2 * i as int]) is None);
                }
                return Err(err);
            },
        };
        let lo = match from_hex(bytes[2 * i + 1]) {
            Ok(v) => v,
            Err(err) => {
                proof {
                    assert(spec_hex_value(bytes@[2 * i as int + 1]) is None);
                }
                return Err(err);
            },
        };
        out[i] = hi * 16 + lo;
        i += 1;
    }
    Ok(out)
}

} // verus!
