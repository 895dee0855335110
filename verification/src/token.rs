//! Player tokens and the identifiers that are drawn at random.

use hex::FromHex;
use vstd::prelude::*;

use crate::table::{Duplicate, MapKey};

verus! {

/// The secret by which a player, or a lobby, is known.
pub type Token = [u8; 16];

impl MapKey for [u8; 16] {
    fn same_key(&self, other: &Self) -> (b: bool) {
        let mut i: usize = 0;
        while i < 16
            invariant
                i <= 16,
                forall|j: int| 0 <= j < i ==> self@[j] == other@[j],
            decreases 16 - i,
        {
            if self[i] != other[i] {
                return false;
            }
            i += 1;
        }
        assert(self@ =~= other@);
        true
    }
}

impl Duplicate for [u8; 16] {
    fn duplicate(&self) -> (copy: Self) {
        *self
    }
}

/// The lower-case hexadecimal digit for `n`.
pub open spec fn hex_digit(n: int) -> char {
    if n < 10 {
        ('0' as int + n) as char
    } else {
        ('a' as int + n - 10) as char
    }
}

/// Whether `c` is one of `0123456789abcdef`.
pub open spec fn is_lower_hex(c: char) -> bool {
    '0' <= c <= '9' || 'a' <= c <= 'f'
}

/// The number that a hexadecimal digit of either case stands for.
pub open spec fn hex_value(c: char) -> Option<int> {
    if '0' <= c <= '9' {
        Some(c as int - '0' as int)
    } else if 'a' <= c <= 'f' {
        Some(c as int - 'a' as int + 10)
    } else if 'A' <= c <= 'F' {
        Some(c as int - 'A' as int + 10)
    } else {
        None
    }
}

/// Two lower-case digits for each byte, the high half first.
pub open spec fn hex_text(bytes: Seq<u8>) -> Seq<char> {
    Seq::new(
        2 * bytes.len(),
        |i: int|
            hex_digit(
                if i % 2 == 0 {
                    bytes[i / 2] as int / 16
                } else {
                    bytes[i / 2] as int % 16
                },
            ),
    )
}

/// The bytes that a text of hexadecimal digits stands for; none for any other text.
pub open spec fn hex_bytes(text: Seq<char>) -> Option<Seq<u8>> {
    if text.len() % 2 == 0 && (forall|i: int| 0 <= i < text.len() ==> hex_value(text[i]) is Some) {
        Some(
            Seq::new(
                text.len() / 2,
                |i: int| (16 * hex_value(text[2 * i])->0 + hex_value(text[2 * i + 1])->0) as u8,
            ),
        )
    } else {
        None
    }
}

/// Reading back the hexadecimal text of some bytes gives those bytes.
pub proof fn law_hex_round_trip(bytes: Seq<u8>)
    ensures
        hex_text(bytes).len() == 2 * bytes.len(),
        forall|i: int| 0 <= i < hex_text(bytes).len() ==> is_lower_hex(#[trigger] hex_text(bytes)[i]),
        hex_bytes(hex_text(bytes)) == Some(bytes),
{
    let text = hex_text(bytes);
    assert forall|i: int| 0 <= i < text.len() implies is_lower_hex(#[trigger] text[i]) && hex_value(
        text[i],
    ) == Some(
        if i % 2 == 0 {
            bytes[i / 2] as int / 16
        } else {
            bytes[i / 2] as int % 16
        },
    ) by {}
    let back = hex_bytes(text)->0;
    assert forall|i: int| 0 <= i < bytes.len() implies #[trigger] back[i] == bytes[i] by {
        assert(hex_value(text[2 * i]) == Some(bytes[i] as int / 16));
        assert(hex_value(text[2 * i + 1]) == Some(bytes[i] as int % 16));
    }
    assert(back =~= bytes);
}

/// `hex::encode`, on sixteen bytes: the text has two lower-case digits for each byte, high half
/// first.
#[verifier::external_body]
fn hex_encode(bytes: &[u8; 16]) -> (text: String)
    ensures
        text@ == hex_text(bytes@),
{
    hex::encode(bytes)
}

/// `hex::FromHex::from_hex` for sixteen bytes: it succeeds exactly on thirty-two hexadecimal digits
/// of either case, and gives the bytes that they stand for.
#[verifier::external_body]
fn token_from_hex(text: &str) -> (token: Option<Token>)
    ensures
        match token {
            Some(t) => text@.len() == 32 && hex_bytes(text@) == Some(t@),
            None => text@.len() != 32 || hex_bytes(text@) is None,
        },
{
    match Token::from_hex(text) {
        Ok(token) => Some(token),
        Err(_) => None,
    }
}

/// `rand::random`, for sixteen bytes: any bytes may come.
#[verifier::external_body]
pub(crate) fn random_bytes() -> [u8; 16] {
    rand::random()
}

/// Whether `text` is written as a hyphenated identifier that was drawn at random: groups of eight, four,
/// four, four and twelve lower-case hexadecimal digits with a hyphen between them. The third group begins
/// with the version, which is four, and the fourth with a digit whose two high bits are the variant.
pub open spec fn is_uuid_text(text: Seq<char>) -> bool {
    &&& text.len() == 36
    &&& forall|i: int|
        0 <= i < 36 ==> if i == 8 || i == 13 || i == 18 || i == 23 {
            #[trigger] text[i] == '-'
        } else {
            is_lower_hex(text[i])
        }
    &&& text[14] == '4'
    &&& text[19] == '8' || text[19] == '9' || text[19] == 'a' || text[19] == 'b'
}

/// `uuid::Uuid::new_v4`, written with `to_hyphenated`: which identifier comes is left to chance, its
/// written form is not.
#[verifier::external_body]
pub(crate) fn random_uuid() -> (text: String)
    ensures
        is_uuid_text(text@),
{
    uuid::Uuid::new_v4().to_hyphenated().to_string()
}

/// The text form of an identifier of sixteen bytes.
pub fn id_text(bytes: &[u8; 16]) -> (text: String)
    ensures
        text@ == hex_text(bytes@),
        text@.len() == 32,
        forall|i: int| 0 <= i < 32 ==> is_lower_hex(#[trigger] text@[i]),
{
    proof {
        law_hex_round_trip(bytes@);
    }
    hex_encode(bytes)
}

/// The token that `text` spells.
pub open spec fn token_of(text: Seq<char>) -> Option<Seq<u8>> {
    if text.len() == 32 {
        hex_bytes(text)
    } else {
        None
    }
}

/// Reads a token from its hexadecimal form.
pub fn parse_auth(hex_token: &str) -> (token: Option<Token>)
    ensures
        match token {
            Some(t) => token_of(hex_token@) == Some(t@),
            None => token_of(hex_token@) is None,
        },
{
    token_from_hex(hex_token)
}

/// A token is read back from its own text.
pub proof fn law_token_text(token: Token)
    ensures
        token_of(hex_text(token@)) == Some(token@),
{
    law_hex_round_trip(token@);
}

/// The digits of hexadecimal text, as they are written.
pub proof fn law_hex_digits(n: int)
    requires
        0 <= n < 16,
    ensures
        hex_digit(n) == "0123456789abcdef"@[n],
        hex_value("0123456789abcdef"@[n]) == Some(n),
        hex_value("0123456789ABCDEF"@[n]) == Some(n),
{
    reveal_strlit("0123456789abcdef");
    reveal_strlit("0123456789ABCDEF");
}

/// Nothing but those digits is read as one.
pub proof fn law_no_other_digits(c: char)
    ensures
        hex_value(c) matches Some(n) ==> 0 <= n < 16 && (c == "0123456789abcdef"@[n] || c
            == "0123456789ABCDEF"@[n]),
        is_lower_hex(c) <==> hex_value(c) is Some && !('A' <= c <= 'F'),
{
    reveal_strlit("0123456789abcdef");
    reveal_strlit("0123456789ABCDEF");
}

/// An identifier is written with two digits for each byte, in the order of the bytes: first the one for its
/// high half, then the one for its low half.
pub proof fn law_hex_written(bytes: Seq<u8>, i: int)
    requires
        0 <= i < bytes.len(),
    ensures
        hex_text(bytes).len() == 2 * bytes.len(),
        hex_text(bytes)[2 * i] == "0123456789abcdef"@[bytes[i] as int / 16],
        hex_text(bytes)[2 * i + 1] == "0123456789abcdef"@[bytes[i] as int % 16],
{
    law_hex_digits(bytes[i] as int / 16);
    law_hex_digits(bytes[i] as int % 16);
}

/// A text is a token exactly if it has thirty-two characters and all of them are digits. Each byte is then
/// what its two digits stand for.
pub proof fn law_token_read(text: Seq<char>)
    ensures
        token_of(text) is Some <==> text.len() == 32 && forall|i: int|
            0 <= i < 32 ==> hex_value(#[trigger] text[i]) is Some,
        token_of(text) matches Some(token) ==> token.len() == 16 && forall|i: int|
            0 <= i < 16 ==> #[trigger] token[i] == 16 * hex_value(text[2 * i])->0 + hex_value(
                text[2 * i + 1],
            )->0,
{
    if token_of(text) is Some {
        let token = token_of(text)->0;
        assert forall|i: int| 0 <= i < 16 implies #[trigger] token[i] == 16 * hex_value(
            text[2 * i],
        )->0 + hex_value(text[2 * i + 1])->0 by {
            assert(hex_value(text[2 * i]) is Some);
            assert(hex_value(text[2 * i + 1]) is Some);
        }
    }
    if text.len() == 32 && forall|i: int| 0 <= i < 32 ==> hex_value(#[trigger] text[i]) is Some {
        assert forall|i: int| 0 <= i < text.len() implies hex_value(text[i]) is Some by {}
    }
}

/// An identifier that is drawn for a proposal has thirty-six characters: hyphens at their places, the version,
/// the variant, and otherwise small hexadecimal digits.
pub proof fn law_uuid_text(text: Seq<char>, i: int)
    requires
        is_uuid_text(text),
    ensures
        text.len() == 36,
        text[8] == '-' && text[13] == '-' && text[18] == '-' && text[23] == '-',
        text[14] == '4',
        text[19] == '8' || text[19] == '9' || text[19] == 'a' || text[19] == 'b',
        0 <= i < 36 && i != 8 && i != 13 && i != 18 && i != 23 ==> is_lower_hex(text[i]),
{
    let at = text[i];
    assert(text[8] == '-');
    assert(text[13] == '-');
    assert(text[18] == '-');
    assert(text[23] == '-');
}

} // verus!
