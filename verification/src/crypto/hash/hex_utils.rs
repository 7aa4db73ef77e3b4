//! Hexadecimal text for digests and addresses.
//!
//! The text itself is produced and read by the `hex` crate; what it produces
//! and accepts is written out here as specification functions over characters.

use crate::crypto::hash::{blake3_digest, blake3_hash};
use vstd::prelude::*;
use vstd::string::StrSliceExecFns;
use vstd::string::StringExecFns;
use vstd::string::StringSliceAdditionalSpecFns;

verus! {

/// Why a piece of hexadecimal text was not accepted.
#[derive(Debug, Clone, Copy, PartialEq, Eq, Structural)]
pub enum HexError {
    /// The text has an odd number of characters, or one that is no digit.
    InvalidHex,
    /// The text decodes to a number of bytes other than the one asked for.
    WrongLength { expected: usize, actual: usize },
    /// Text with a checksum must hold exactly one `:`.
    InvalidChecksumFormat,
    /// The checksum after the `:` is not that of the text before it.
    ChecksumMismatch,
}

/// The sixteen digits, lower case.
pub open spec fn lower_digits() -> Seq<char> {
    seq!['0', '1', '2', '3', '4', '5', '6', '7', '8', '9', 'a', 'b', 'c', 'd', 'e', 'f']
}

/// The sixteen digits, upper case.
pub open spec fn upper_digits() -> Seq<char> {
    seq!['0', '1', '2', '3', '4', '5', '6', '7', '8', '9', 'A', 'B', 'C', 'D', 'E', 'F']
}

/// Two digits from `digits` for each byte, the high half first.
pub open spec fn hex_text(bytes: Seq<u8>, digits: Seq<char>) -> Seq<char> {
    Seq::new(
        2 * bytes.len(),
        |i: int|
            if i % 2 == 0 {
                digits[bytes[i / 2] as int / 16]
            } else {
                digits[bytes[i / 2] as int % 16]
            },
    )
}

/// The lower-case hexadecimal text of `bytes`.
pub open spec fn hex_lower(bytes: Seq<u8>) -> Seq<char> {
    hex_text(bytes, lower_digits())
}

/// The upper-case hexadecimal text of `bytes`.
pub open spec fn hex_upper(bytes: Seq<u8>) -> Seq<char> {
    hex_text(bytes, upper_digits())
}

/// The value of a hexadecimal digit of either case, if `c` is one.
pub open spec fn hex_digit_value(c: char) -> Option<int> {
    if '0' <= c <= '9' {
        Some(c as int - '0' as int)
    } else if 'a' <= c <= 'f' {
        Some(c as int - 'a' as int + 10)
    } else if 'A' <= c <= 'F' {
        Some(c as int - 'A' as int + 10)
    } else {
        None
    }
}

/// Whether `s` is hexadecimal text: digits only, an even number of them.
pub open spec fn is_hex_text(s: Seq<char>) -> bool {
    s.len() % 2 == 0 && forall|i: int| 0 <= i < s.len() ==> hex_digit_value(#[trigger] s[i]) is Some
}

/// The bytes that hexadecimal text stands for.
pub open spec fn hex_decoded(s: Seq<char>) -> Seq<u8> {
    Seq::new(
        s.len() / 2,
        |i: int| (hex_digit_value(s[2 * i])->0 * 16 + hex_digit_value(s[2 * i + 1])->0) as u8,
    )
}

#[verifier::external_type_specification]
#[verifier::external_body]
pub struct ExFromHexError(hex::FromHexError);

/// `hex::encode`: two lower-case digits for each byte of the input.
#[verifier::external_body]
pub fn hash_to_hex(hash: &[u8]) -> (text: String)
    ensures
        text@ == hex_lower(hash@),
{
    hex::encode(hash)
}

/// `hex::encode_upper`: two upper-case digits for each byte of the input.
#[verifier::external_body]
pub fn hash_to_hex_upper(hash: &[u8]) -> (text: String)
    ensures
        text@ == hex_upper(hash@),
{
    hex::encode_upper(hash)
}

/// `hex::decode`: succeeds exactly on an even number of hexadecimal digits of
/// either case, and then gives one byte for each pair, the first digit being
/// the high half.
#[verifier::external_body]
fn hex_decode(text: &str) -> (r: Result<Vec<u8>, hex::FromHexError>)
    ensures
        r is Ok <==> is_hex_text(text@),
        r matches Ok(bytes) ==> bytes@ == hex_decoded(text@),
{
    hex::decode(text)
}

/// What decoding hexadecimal text gives.
pub open spec fn hex_to_hash_spec(s: Seq<char>) -> Result<Seq<u8>, HexError> {
    if is_hex_text(s) {
        Ok(hex_decoded(s))
    } else {
        Err(HexError::InvalidHex)
    }
}

/// The view of a decoding result.
pub open spec fn bytes_result_view(r: Result<Vec<u8>, HexError>) -> Result<Seq<u8>, HexError> {
    match r {
        Ok(v) => Ok(v@),
        Err(e) => Err(e),
    }
}

/// The bytes that hexadecimal text stands for.
pub fn hex_to_hash(hex_str: &str) -> (r: Result<Vec<u8>, HexError>)
    ensures
        bytes_result_view(r) == hex_to_hash_spec(hex_str@),
{
    match hex_decode(hex_str) {
        Ok(bytes) => Ok(bytes),
        Err(_) => Err(HexError::InvalidHex),
    }
}

/// The 32-byte digest that hexadecimal text stands for.
pub fn hex_to_hash_32(hex_str: &str) -> (r: Result<[u8; 32], HexError>)
    ensures
        match r {
            Ok(hash) => is_hex_text(hex_str@) && hex_str@.len() == 64 && hash@ == hex_decoded(
                hex_str@,
            ),
            Err(HexError::InvalidHex) => !is_hex_text(hex_str@),
            Err(HexError::WrongLength { expected, actual }) => is_hex_text(hex_str@) && expected
                == 32 && actual == hex_str@.len() / 2 && actual != 32,
            Err(_) => false,
        },
{
    let bytes = hex_to_hash(hex_str)?;
    if bytes.len() != 32 {
        return Err(HexError::WrongLength { expected: 32, actual: bytes.len() });
    }
    let mut hash = [0u8; 32];
    let mut i: usize = 0;
    while i < 32
        invariant
            i <= 32,
            bytes@.len() == 32,
            forall|j: int| 0 <= j < i ==> hash@[j] == bytes@[j],
        decreases 32 - i,
    {
        hash[i] = bytes[i];
        i += 1;
    }
    assert(hash@ =~= bytes@);
    Ok(hash)
}

/// The 20-byte address that hexadecimal text stands for.
pub fn hex_to_address(hex_str: &str) -> (r: Result<[u8; 20], HexError>)
    ensures
        match r {
            Ok(address) => is_hex_text(hex_str@) && hex_str@.len() == 40 && address@
                == hex_decoded(hex_str@),
            Err(HexError::InvalidHex) => !is_hex_text(hex_str@),
            Err(HexError::WrongLength { expected, actual }) => is_hex_text(hex_str@) && expected
                == 20 && actual == hex_str@.len() / 2 && actual != 20,
            Err(_) => false,
        },
{
    let bytes = hex_to_hash(hex_str)?;
    if bytes.len() != 20 {
        return Err(HexError::WrongLength { expected: 20, actual: bytes.len() });
    }
    let mut address = [0u8; 20];
    let mut i: usize = 0;
    while i < 20
        invariant
            i <= 20,
            bytes@.len() == 20,
            forall|j: int| 0 <= j < i ==> address@[j] == bytes@[j],
        decreases 20 - i,
    {
        address[i] = bytes[i];
        i += 1;
    }
    assert(address@ =~= bytes@);
    Ok(address)
}

/// The lower-case hexadecimal text of `hash` behind the prefix `0x`.
pub fn hash_to_hex_prefixed(hash: &[u8]) -> (text: String)
    ensures
        text@ == seq!['0', 'x'] + hex_lower(hash@),
{
    let digits = hash_to_hex(hash);
    proof {
        reveal_strlit("0x");
    }
    let text = String::from_str("0x").concat(digits.as_str());
    assert(text@ =~= seq!['0', 'x'] + hex_lower(hash@));
    text
}

/// `s` without a leading `0x` or `0X`.
pub open spec fn without_hex_prefix(s: Seq<char>) -> Seq<char> {
    if s.len() >= 2 && s[0] == '0' && (s[1] == 'x' || s[1] == 'X') {
        s.subrange(2, s.len() as int)
    } else {
        s
    }
}

/// The bytes that hexadecimal text stands for, with or without the prefix `0x`.
pub fn parse_evm_hex(hex_str: &str) -> (r: Result<Vec<u8>, HexError>)
    ensures
        bytes_result_view(r) == hex_to_hash_spec(without_hex_prefix(hex_str@)),
{
    let n = hex_str.unicode_len();
    if n >= 2 && hex_str.get_char(0) == '0' && (hex_str.get_char(1) == 'x' || hex_str.get_char(1)
        == 'X') {
        hex_to_hash(hex_str.substring_char(2, n))
    } else {
        hex_to_hash(hex_str)
    }
}

/// The lower-case hexadecimal text of each digest, in order.
pub fn hashes_to_hex_array(hashes: &[[u8; 32]]) -> (texts: Vec<String>)
    ensures
        texts@.len() == hashes@.len(),
        forall|i: int| 0 <= i < hashes@.len() ==> (#[trigger] texts@[i])@ == hex_lower(hashes@[i]@),
{
    let mut texts: Vec<String> = Vec::new();
    let mut i: usize = 0;
    while i < hashes.len()
        invariant
            i <= hashes@.len(),
            texts@.len() == i,
            forall|j: int| 0 <= j < i ==> (#[trigger] texts@[j])@ == hex_lower(hashes@[j]@),
        decreases hashes@.len() - i,
    {
        texts.push(hash_to_hex(hashes[i].as_slice()));
        i += 1;
    }
    texts
}

/// The checksum of a piece of text: the first four bytes of the BLAKE3 digest
/// of its UTF-8 bytes.
pub open spec fn text_checksum(text: Seq<char>) -> Seq<u8> {
    blake3_digest(vstd::utf8::encode_utf8(text)).subrange(0, 4)
}

/// The text of `hash` with its checksum: the digits, a `:`, the checksum's digits.
pub open spec fn hex_with_checksum_spec(hash: Seq<u8>) -> Seq<char> {
    hex_lower(hash) + seq![':'] + hex_lower(text_checksum(hex_lower(hash)))
}

/// The first four bytes of the BLAKE3 digest of the text's bytes.
fn checksum_of(text: &str) -> (sum: Vec<u8>)
    ensures
        sum@ == text_checksum(text@),
{
    let digest = blake3_hash(text.as_bytes());
    let mut sum: Vec<u8> = Vec::new();
    let mut i: usize = 0;
    while i < 4
        invariant
            i <= 4,
            sum@.len() == i,
            forall|j: int| 0 <= j < i ==> sum@[j] == digest@[j],
        decreases 4 - i,
    {
        sum.push(digest[i]);
        i += 1;
    }
    assert(sum@ =~= digest@.subrange(0, 4));
    sum
}

/// The lower-case hexadecimal text of `hash`, followed by `:` and a checksum
/// over the text.
pub fn hash_to_hex_with_checksum(hash: &[u8]) -> (text: String)
    ensures
        text@ == hex_with_checksum_spec(hash@),
{
    let digits = hash_to_hex(hash);
    let sum = checksum_of(digits.as_str());
    let sum_digits = hash_to_hex(sum.as_slice());
    proof {
        reveal_strlit(":");
    }
    let text = digits.concat(":").concat(sum_digits.as_str());
    assert(":"@ =~= seq![':']);
    text
}

/// How often `c` occurs in `s`.
pub open spec fn count_char(s: Seq<char>, c: char) -> nat
    decreases s.len(),
{
    if s.len() == 0 {
        0
    } else {
        count_char(s.drop_last(), c) + if s.last() == c {
            1nat
        } else {
            0nat
        }
    }
}

/// Whether `i` is where `c` first occurs in `s`.
pub open spec fn is_first_occurrence(s: Seq<char>, c: char, i: int) -> bool {
    &&& 0 <= i < s.len()
    &&& s[i] == c
    &&& forall|j: int| 0 <= j < i ==> s[j] != c
}

/// Where `c` first occurs in `s`, if it does.
pub open spec fn first_occurrence(s: Seq<char>, c: char) -> int {
    choose|i: int| is_first_occurrence(s, c, i)
}

/// What reading text with a checksum gives: the text must hold exactly one
/// `:`, both sides must be hexadecimal, and the right side must be the
/// checksum of the left side's text.
pub open spec fn hex_with_checksum_to_hash_spec(s: Seq<char>) -> Result<Seq<u8>, HexError> {
    if count_char(s, ':') != 1 {
        Err(HexError::InvalidChecksumFormat)
    } else {
        let p = first_occurrence(s, ':');
        let left = s.subrange(0, p);
        let right = s.subrange(p + 1, s.len() as int);
        if !is_hex_text(left) || !is_hex_text(right) {
            Err(HexError::InvalidHex)
        } else if hex_decoded(right) != text_checksum(left) {
            Err(HexError::ChecksumMismatch)
        } else {
            Ok(hex_decoded(left))
        }
    }
}

/// How often `c` occurs in `s`, and where it first does (the length of `s`
/// where it does not).
fn scan_for(s: &str, c: char) -> (r: (usize, usize))
    ensures
        r.0 == count_char(s@, c),
        r.0 == 0 ==> r.1 == s@.len(),
        r.0 > 0 ==> is_first_occurrence(s@, c, r.1 as int),
{
    let n = s.unicode_len();
    let mut count: usize = 0;
    let mut first: usize = 0;
    let mut idx: usize = 0;
    assert(s@.subrange(0, 0) =~= Seq::<char>::empty());
    for ch in it: s.chars()
        invariant
            idx == it.index(),
            it.seq() == s@,
            n == s@.len(),
            idx <= n,
            count <= idx,
            count == count_char(s@.subrange(0, idx as int), c),
            count == 0 ==> first == idx,
            count > 0 ==> is_first_occurrence(s@, c, first as int) && first < idx,
            forall|j: int| 0 <= j < first ==> s@[j] != c,
    {
        proof {
            let next = s@.subrange(0, idx + 1);
            assert(next.drop_last() =~= s@.subrange(0, idx as int));
            assert(next.last() == s@[idx as int]);
        }
        if ch == c {
            if count == 0 {
                first = idx;
            }
            count += 1;
        } else if count == 0 {
            first = idx + 1;
        }
        idx = idx + 1;
    }
    assert(s@.subrange(0, n as int) =~= s@);
    (count, first)
}

/// Whether two byte vectors hold the same bytes.
pub fn bytes_equal(a: &[u8], b: &[u8]) -> (equal: bool)
    ensures
        equal == (a@ == b@),
{
    if a.len() != b.len() {
        return false;
    }
    let mut i: usize = 0;
    while i < a.len()
        invariant
            i <= a@.len(),
            a@.len() == b@.len(),
            forall|j: int| 0 <= j < i ==> a@[j] == b@[j],
        decreases a@.len() - i,
    {
        if a[i] != b[i] {
            return false;
        }
        i += 1;
    }
    assert(a@ =~= b@);
    true
}

/// The bytes that text with a checksum stands for, once the checksum has
/// been found to match.
pub fn hex_with_checksum_to_hash(hex_str: &str) -> (r: Result<Vec<u8>, HexError>)
    ensures
        bytes_result_view(r) == hex_with_checksum_to_hash_spec(hex_str@),
{
    let (count, first) = scan_for(hex_str, ':');
    if count != 1 {
        return Err(HexError::InvalidChecksumFormat);
    }
    let n = hex_str.unicode_len();
    assert(first_occurrence(hex_str@, ':') == first) by {
        let p = first_occurrence(hex_str@, ':');
        assert(is_first_occurrence(hex_str@, ':', first as int));
        assert(is_first_occurrence(hex_str@, ':', p));
    }
    let left = hex_str.substring_char(0, first);
    let right = hex_str.substring_char(first + 1, n);
    let hash = match hex_to_hash(left) {
        Ok(hash) => hash,
        Err(e) => {
            return Err(e);
        },
    };
    let provided = match hex_to_hash(right) {
        Ok(provided) => provided,
        Err(e) => {
            return Err(e);
        },
    };
    let expected = checksum_of(left);
    if !bytes_equal(provided.as_slice(), expected.as_slice()) {
        return Err(HexError::ChecksumMismatch);
    }
    Ok(hash)
}

/// Text that `hash_to_hex` writes is read back by `hex_to_hash` as the bytes
/// it was written from.
pub proof fn lemma_hex_round_trip(bytes: Seq<u8>)
    ensures
        is_hex_text(hex_lower(bytes)),
        hex_decoded(hex_lower(bytes)) == bytes,
        is_hex_text(hex_upper(bytes)),
        hex_decoded(hex_upper(bytes)) == bytes,
{
    let lower = hex_lower(bytes);
    let upper = hex_upper(bytes);
    assert forall|n: int| 0 <= n < 16 implies hex_digit_value(#[trigger] lower_digits()[n]) == Some(
        n,
    ) && hex_digit_value(#[trigger] upper_digits()[n]) == Some(n) by {}
    assert forall|i: int| 0 <= i < lower.len() implies hex_digit_value(#[trigger] lower[i])
        is Some by {
        let b = bytes[i / 2] as int;
        assert(0 <= b / 16 < 16 && 0 <= b % 16 < 16);
    }
    assert forall|i: int| 0 <= i < upper.len() implies hex_digit_value(#[trigger] upper[i])
        is Some by {
        let b = bytes[i / 2] as int;
        assert(0 <= b / 16 < 16 && 0 <= b % 16 < 16);
    }
    assert forall|i: int| 0 <= i < bytes.len() implies #[trigger] hex_decoded(lower)[i]
        == bytes[i] && #[trigger] hex_decoded(upper)[i] == bytes[i] by {
        let b = bytes[i] as int;
        assert(0 <= b / 16 < 16 && 0 <= b % 16 < 16);
        assert((2 * i) / 2 == i && (2 * i + 1) / 2 == i);
        assert(lower[2 * i] == lower_digits()[b / 16]);
        assert(lower[2 * i + 1] == lower_digits()[b % 16]);
        assert(upper[2 * i] == upper_digits()[b / 16]);
        assert(upper[2 * i + 1] == upper_digits()[b % 16]);
    }
    assert(hex_decoded(lower) =~= bytes);
    assert(hex_decoded(upper) =~= bytes);
}

} // verus!
