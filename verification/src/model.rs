//! Torrent identities and search results.

use crate::text;
use crate::text::{
    chars_of, copy_opt, is_unsafe_for_display, same_ignoring_case, slice_chars, strip_prefix,
    text_of, trim, CharClass,
};
use crate::weburl;
use crate::weburl::Url;
use vstd::prelude::*;

verus! {

// ------------------------------------------------------------------ info hash

/// The number that bytes denote, the first the most significant.
pub open spec fn bytes_number(bytes: Seq<u8>) -> nat
    decreases bytes.len(),
{
    if bytes.len() == 0 {
        0
    } else {
        256 * bytes_number(bytes.drop_last()) + bytes.last() as nat
    }
}

/// The value of a hexadecimal digit, in either case.
pub open spec fn hex_digit(b: u8) -> Option<u8> {
    if 0x30 <= b <= 0x39 {
        Some((b - 0x30) as u8)
    } else if 0x61 <= b <= 0x66 {
        Some((b - 0x61 + 10) as u8)
    } else if 0x41 <= b <= 0x46 {
        Some((b - 0x41 + 10) as u8)
    } else {
        None
    }
}

/// The number that hexadecimal digits denote, if they are ones.
pub open spec fn hex_number(digits: Seq<u8>) -> Option<nat>
    decreases digits.len(),
{
    if digits.len() == 0 {
        Some(0)
    } else {
        match (hex_number(digits.drop_last()), hex_digit(digits.last())) {
            (Some(front), Some(digit)) => Some(16 * front + digit as nat),
            _ => None,
        }
    }
}

/// The value of an upper-case base32 symbol: `A` to `Z`, then `2` to `7`.
pub open spec fn base32_digit(b: u8) -> Option<u8> {
    if 0x41 <= b <= 0x5a {
        Some((b - 0x41) as u8)
    } else if 0x32 <= b <= 0x37 {
        Some((b - 0x32 + 26) as u8)
    } else {
        None
    }
}

/// The number that base32 symbols denote, if they are ones.
pub open spec fn base32_number(symbols: Seq<u8>) -> Option<nat>
    decreases symbols.len(),
{
    if symbols.len() == 0 {
        Some(0)
    } else {
        match (base32_number(symbols.drop_last()), base32_digit(symbols.last())) {
            (Some(front), Some(digit)) => Some(32 * front + digit as nat),
            _ => None,
        }
    }
}

/// ASCII letters raised, every other byte kept.
pub open spec fn upper_bytes(bytes: Seq<u8>) -> Seq<u8> {
    Seq::new(
        bytes.len(),
        |i: int|
            if 0x61 <= bytes[i] <= 0x7a {
                (bytes[i] - 32) as u8
            } else {
                bytes[i]
            },
    )
}

/// The 160-bit number that a text of an info hash denotes: 40 hexadecimal
/// digits or 32 base32 symbols, in either case. Lengths count UTF-8 bytes.
pub open spec fn hash_number(value: Seq<char>) -> Option<nat> {
    let bytes = vstd::utf8::encode_utf8(value);
    if bytes.len() == 40 {
        hex_number(bytes)
    } else if bytes.len() == 32 {
        base32_number(upper_bytes(bytes))
    } else {
        None
    }
}

/// The lower-case hexadecimal digit of a value below sixteen.
pub open spec fn hex_char(n: nat) -> char {
    if n < 10 {
        (n + 48) as char
    } else {
        (n + 87) as char
    }
}

/// The last `size` hexadecimal digits of a number, in lower case.
pub open spec fn hex_text(n: nat, size: nat) -> Seq<char>
    decreases size,
{
    if size == 0 {
        Seq::empty()
    } else {
        hex_text(n / 16, (size - 1) as nat).push(hex_char(n % 16))
    }
}

/// The canonical text of the hash with a given number.
pub open spec fn hash_text(n: nat) -> Seq<char> {
    hex_text(n, 40)
}

/// A text of 40 lower-case hexadecimal digits.
pub open spec fn is_canonical_hash(value: Seq<char>) -> bool {
    &&& value.len() == 40
    &&& forall|i: int|
        0 <= i < value.len() ==> {
            ||| '0' <= #[trigger] value[i] && value[i] <= '9'
            ||| 'a' <= value[i] && value[i] <= 'f'
        }
}

proof fn hex_text_is_hex(n: nat, size: nat)
    ensures
        hex_text(n, size).len() == size,
        forall|i: int|
            0 <= i < size ==> {
                ||| '0' <= #[trigger] hex_text(n, size)[i] && hex_text(n, size)[i] <= '9'
                ||| 'a' <= hex_text(n, size)[i] && hex_text(n, size)[i] <= 'f'
            },
    decreases size,
{
    if size > 0 {
        hex_text_is_hex(n / 16, (size - 1) as nat);
    }
}

/// Sixteen to the power of `k`.
pub open spec fn sixteen_to(k: nat) -> nat
    decreases k,
{
    if k == 0 {
        1
    } else {
        16 * sixteen_to((k - 1) as nat)
    }
}

proof fn hex_text_reads_back(n: nat, size: nat, bytes: Seq<u8>)
    requires
        n < sixteen_to(size),
        bytes.len() == size,
        forall|i: int| 0 <= i < size ==> bytes[i] == #[trigger] hex_text(n, size)[i] as u8,
    ensures
        hex_number(bytes) == Some(n),
    decreases size,
{
    if size > 0 {
        hex_text_is_hex(n, size);
        hex_text_is_hex(n / 16, (size - 1) as nat);
        let front = bytes.drop_last();
        assert forall|i: int| 0 <= i < size - 1 implies front[i] == #[trigger] hex_text(
            n / 16,
            (size - 1) as nat,
        )[i] as u8 by {
            assert(hex_text(n, size)[i] == hex_text(n / 16, (size - 1) as nat)[i]);
        }
        hex_text_reads_back(n / 16, (size - 1) as nat, front);
        assert(hex_text(n, size)[size - 1] == hex_char(n % 16));
    }
}

/// Reading the canonical text of a hash gives the same hash back: it is its own
/// canonical form.
pub proof fn canonical_hash_round_trips(n: nat)
    requires
        n < sixteen_to(40),
    ensures
        hash_number(hash_text(n)) == Some(n),
        is_canonical_hash(hash_text(n)),
{
    let value = hash_text(n);
    hex_text_is_hex(n, 40);
    assert(vstd::utf8::is_ascii_chars(value)) by {
        assert forall|i| 0 <= i < value.len() implies '\0' <= #[trigger] value[i] <= '\u{7f}' by {}
    }
    vstd::utf8::is_ascii_chars_encode_utf8(value);
    let bytes = vstd::utf8::encode_utf8(value);
    assert forall|i: int| 0 <= i < 40 implies bytes[i] == #[trigger] hex_text(n, 40)[i] as u8 by {
        assert(value[i] as u8 == bytes[i]);
    }
    hex_text_reads_back(n, 40, bytes);
}

/// Bytes of the same length that denote the same number are the same.
pub proof fn numbers_tell_bytes_apart(left: Seq<u8>, right: Seq<u8>)
    requires
        left.len() == right.len(),
        bytes_number(left) == bytes_number(right),
    ensures
        left == right,
    decreases left.len(),
{
    if left.len() > 0 {
        let a = bytes_number(left.drop_last());
        let b = bytes_number(right.drop_last());
        assert(256 * a + left.last() == 256 * b + right.last());
        assert(a == b && left.last() == right.last());
        numbers_tell_bytes_apart(left.drop_last(), right.drop_last());
        assert(left =~= left.drop_last().push(left.last()));
        assert(right =~= right.drop_last().push(right.last()));
    } else {
        assert(left =~= right);
    }
}

proof fn bytes_fit(bytes: Seq<u8>)
    ensures
        bytes_number(bytes) < sixteen_to(2 * bytes.len()),
    decreases bytes.len(),
{
    if bytes.len() > 0 {
        bytes_fit(bytes.drop_last());
        let size = (2 * bytes.len()) as nat;
        assert(sixteen_to(size) == 16 * sixteen_to((size - 1) as nat));
        assert(sixteen_to((size - 1) as nat) == 16 * sixteen_to((size - 2) as nat));
    }
}

/// Digits are read as a number exactly when each of them is a hexadecimal digit.
pub proof fn hex_numbers_are_digits(digits: Seq<u8>)
    ensures
        hex_number(digits) is Some <==> forall|i: int|
            0 <= i < digits.len() ==> hex_digit(#[trigger] digits[i]) is Some,
    decreases digits.len(),
{
    if digits.len() > 0 {
        let front = digits.drop_last();
        hex_numbers_are_digits(front);
        if hex_number(digits) is Some {
            assert forall|i: int| 0 <= i < digits.len() implies hex_digit(
                #[trigger] digits[i],
            ) is Some by {
                if i < front.len() {
                    assert(front[i] == digits[i]);
                }
            }
        } else if hex_digit(digits.last()) is Some {
            let i = choose|i: int| 0 <= i < front.len() && hex_digit(#[trigger] front[i]) is None;
            assert(digits[i] == front[i]);
        } else {
            assert(hex_digit(digits[digits.len() - 1]) is None);
        }
    }
}

/// The hexadecimal digits of bytes are twice as many and denote the bytes they
/// were written from, in either case of their letters: whatever bytes are read
/// from them are the same ones.
pub proof fn hex_round_trips(bytes: Seq<u8>, read: Seq<u8>)
    requires
        read.len() == bytes.len(),
    ensures
        ({
            let written = vstd::utf8::encode_utf8(
                hex_text(bytes_number(bytes), 2 * bytes.len()),
            );
            &&& written.len() == 2 * bytes.len()
            &&& in_pairs(written) == written
            &&& hex_number(written) == Some(bytes_number(bytes))
            &&& hex_number(upper_bytes(written)) == Some(bytes_number(bytes))
            &&& hex_number(written) == Some(bytes_number(read)) ==> read == bytes
            &&& hex_number(upper_bytes(written)) == Some(bytes_number(read)) ==> read == bytes
        }),
{
    let size = (2 * bytes.len()) as nat;
    let n = bytes_number(bytes);
    let value = hex_text(n, size);
    bytes_fit(bytes);
    hex_text_is_hex(n, size);
    assert(vstd::utf8::is_ascii_chars(value)) by {
        assert forall|i| 0 <= i < value.len() implies '\0' <= #[trigger] value[i] <= '\u{7f}' by {}
    }
    vstd::utf8::is_ascii_chars_encode_utf8(value);
    let written = vstd::utf8::encode_utf8(value);
    assert forall|i: int| 0 <= i < size implies written[i] == #[trigger] hex_text(
        n,
        size,
    )[i] as u8 by {
        assert(value[i] as u8 == written[i]);
    }
    hex_text_reads_back(n, size, written);
    assert(in_pairs(written) =~= written);
    assert(upper_bytes(upper_bytes(written)) =~= upper_bytes(written));
    hex_case_does_not_matter(upper_bytes(written), written);
    if n == bytes_number(read) {
        numbers_tell_bytes_apart(read, bytes);
    }
}

proof fn hex_numbers_fit(digits: Seq<u8>)
    ensures
        hex_number(digits) matches Some(n) ==> n < sixteen_to(digits.len()),
    decreases digits.len(),
{
    if digits.len() > 0 {
        hex_numbers_fit(digits.drop_last());
    }
}

/// Thirty-two to the power of `k`.
pub open spec fn thirty_two_to(k: nat) -> nat
    decreases k,
{
    if k == 0 {
        1
    } else {
        32 * thirty_two_to((k - 1) as nat)
    }
}

proof fn base32_numbers_fit(symbols: Seq<u8>)
    ensures
        base32_number(symbols) matches Some(n) ==> n < thirty_two_to(symbols.len()),
    decreases symbols.len(),
{
    if symbols.len() > 0 {
        base32_numbers_fit(symbols.drop_last());
    }
}

/// Every info hash that is accepted is a 160-bit number.
pub proof fn hash_numbers_fit(value: Seq<char>)
    ensures
        hash_number(value) matches Some(n) ==> n < sixteen_to(40),
{
    let bytes = vstd::utf8::encode_utf8(value);
    hex_numbers_fit(bytes);
    base32_numbers_fit(upper_bytes(bytes));
    assert(thirty_two_to(32) == sixteen_to(40)) by {
        reveal_with_fuel(thirty_two_to, 33);
        reveal_with_fuel(sixteen_to, 41);
    }
}

/// Bytes in which only the case of ASCII letters may differ.
pub open spec fn same_letters(left: Seq<u8>, right: Seq<u8>) -> bool {
    upper_bytes(left) == upper_bytes(right)
}

proof fn hex_case_does_not_matter(left: Seq<u8>, right: Seq<u8>)
    requires
        same_letters(left, right),
    ensures
        left.len() == right.len(),
        hex_number(left) == hex_number(right),
    decreases left.len(),
{
    assert(upper_bytes(left).len() == upper_bytes(right).len());
    if left.len() > 0 {
        let last = left.len() - 1;
        assert(upper_bytes(left)[last] == upper_bytes(right)[last]);
        assert(upper_bytes(left.drop_last()) =~= upper_bytes(left).drop_last());
        assert(upper_bytes(right.drop_last()) =~= upper_bytes(right).drop_last());
        hex_case_does_not_matter(left.drop_last(), right.drop_last());
    }
}

/// The case of the letters of an info hash does not matter: two spellings that
/// differ in nothing else are the same hash, or both are none.
pub proof fn hash_case_does_not_matter(left: Seq<char>, right: Seq<char>)
    requires
        same_letters(vstd::utf8::encode_utf8(left), vstd::utf8::encode_utf8(right)),
    ensures
        hash_number(left) == hash_number(right),
{
    hex_case_does_not_matter(vstd::utf8::encode_utf8(left), vstd::utf8::encode_utf8(right));
}

/// `data_encoding::BASE32_NOPAD` and its `decode`, on 32 symbols. They are
/// accepted exactly when each is one of `A` to `Z` and `2` to `7`, and then give
/// the 20 bytes of the same number.
#[verifier::external_body]
fn decode_base32(symbols: &[u8]) -> (r: Option<Vec<u8>>)
    requires
        symbols@.len() == 32,
    ensures
        match r {
            Some(bytes) => bytes@.len() == 20 && base32_number(symbols@) == Some(
                bytes_number(bytes@),
            ),
            None => base32_number(symbols@) is None,
        },
{
    ::data_encoding::BASE32_NOPAD.decode(symbols).ok()
}

fn hex_value(b: u8) -> (r: Option<u8>)
    ensures
        r == hex_digit(b),
        r matches Some(digit) ==> digit < 16,
{
    if 0x30 <= b && b <= 0x39 {
        Some(b - 0x30)
    } else if 0x61 <= b && b <= 0x66 {
        Some(b - 0x61 + 10)
    } else if 0x41 <= b && b <= 0x46 {
        Some(b - 0x41 + 10)
    } else {
        None
    }
}

proof fn hex_fails_onward(digits: Seq<u8>, size: int)
    requires
        0 <= size <= digits.len(),
        hex_number(digits.take(size)) is None,
    ensures
        hex_number(digits) is None,
    decreases digits.len() - size,
{
    if size == digits.len() {
        assert(digits.take(size) =~= digits);
    } else {
        assert(digits.take(size + 1).drop_last() =~= digits.take(size));
        hex_fails_onward(digits, size + 1);
    }
}

/// The digits that come in pairs: one that is left over at the end is dropped.
pub open spec fn in_pairs(digits: Seq<u8>) -> Seq<u8> {
    digits.take(digits.len() - digits.len() % 2)
}

/// The bytes that pairs of hexadecimal digits denote. A digit without a partner at
/// the end does not count.
pub fn decode_hex(value: &str) -> (r: Result<Vec<u8>, MagnetError>)
    ensures
        match r {
            Ok(bytes) => {
                let digits = in_pairs(vstd::utf8::encode_utf8(value@));
                2 * bytes@.len() == digits.len() && hex_number(digits) == Some(bytes_number(bytes@))
            },
            Err(error) => hex_number(in_pairs(vstd::utf8::encode_utf8(value@))) is None && error
                == MagnetError::InvalidInfoHash,
        },
{
    let digits = value.as_bytes();
    let end = digits.len() - digits.len() % 2;
    let ghost all = in_pairs(digits@);
    let mut out: Vec<u8> = Vec::new();
    let mut i: usize = 0;
    proof {
        assert(all.take(0) =~= Seq::empty());
    }
    while i < end
        invariant
            i <= end <= digits@.len(),
            i % 2 == 0,
            end % 2 == 0,
            all == digits@.take(end as int),
            all == in_pairs(vstd::utf8::encode_utf8(value@)),
            2 * out@.len() == i,
            hex_number(all.take(i as int)) == Some(bytes_number(out@)),
        decreases end - i,
    {
        proof {
            assert(all.take(i as int + 1).drop_last() =~= all.take(i as int));
            assert(all.take(i as int + 2).drop_last() =~= all.take(i as int + 1));
        }
        let high = match hex_value(digits[i]) {
            Some(high) => high,
            None => {
                proof {
                    hex_fails_onward(all, i as int + 1);
                }
                return Err(MagnetError::InvalidInfoHash);
            },
        };
        let low = match hex_value(digits[i + 1]) {
            Some(low) => low,
            None => {
                proof {
                    hex_fails_onward(all, i as int + 2);
                }
                return Err(MagnetError::InvalidInfoHash);
            },
        };
        let ghost before = out@;
        out.push(high * 16 + low);
        proof {
            assert(out@.drop_last() =~= before);
        }
        i = i + 2;
    }
    proof {
        assert(all.take(all.len() as int) =~= all);
    }
    Ok(out)
}

fn hex_letter(n: u8) -> (r: char)
    requires
        n < 16,
    ensures
        r == hex_char(n as nat),
{
    if n < 10 {
        (n + 48) as char
    } else {
        (n + 87) as char
    }
}

/// Bytes as lower-case hexadecimal digits.
pub fn encode_hex(bytes: &[u8]) -> (r: String)
    ensures
        r@ == hex_text(bytes_number(bytes@), 2 * bytes@.len()),
{
    let mut out = String::new();
    let mut i: usize = 0;
    proof {
        assert(bytes@.take(0) =~= Seq::empty());
    }
    while i < bytes.len()
        invariant
            i <= bytes@.len(),
            out@ == hex_text(bytes_number(bytes@.take(i as int)), 2 * i as nat),
        decreases bytes@.len() - i,
    {
        let b = bytes[i];
        let ghost front = bytes_number(bytes@.take(i as int));
        let ghost before = out@;
        out.push(hex_letter(b / 16));
        out.push(hex_letter(b % 16));
        proof {
            assert(bytes@.take(i as int + 1).drop_last() =~= bytes@.take(i as int));
            let n = 256 * front + b as nat;
            assert(n / 16 == 16 * front + (b / 16) as nat);
            assert(n % 16 == (b % 16) as nat);
            assert((n / 16) / 16 == front);
            assert((n / 16) % 16 == (b / 16) as nat);
            reveal_with_fuel(hex_text, 3);
            assert(out@ =~= hex_text(n, (2 * i + 2) as nat));
        }
        i = i + 1;
    }
    proof {
        assert(bytes@.take(bytes@.len() as int) =~= bytes@);
    }
    out
}

fn raise_case(bytes: &[u8]) -> (r: Vec<u8>)
    ensures
        r@ == upper_bytes(bytes@),
{
    let mut out: Vec<u8> = Vec::new();
    let mut i: usize = 0;
    while i < bytes.len()
        invariant
            i <= bytes@.len(),
            out@ == upper_bytes(bytes@).take(i as int),
        decreases bytes@.len() - i,
    {
        let b = bytes[i];
        if 0x61 <= b && b <= 0x7a {
            out.push(b - 32);
        } else {
            out.push(b);
        }
        proof {
            assert(out@ =~= upper_bytes(bytes@).take(i as int + 1));
        }
        i = i + 1;
    }
    proof {
        assert(upper_bytes(bytes@).take(bytes@.len() as int) =~= upper_bytes(bytes@));
    }
    out
}

/// A BitTorrent v1 info hash in its canonical form: 40 lower-case hexadecimal
/// digits.
#[derive(Debug, PartialEq, Eq, Hash, PartialOrd, Ord)]
pub struct InfoHash(String);

impl View for InfoHash {
    type V = Seq<char>;

    closed spec fn view(&self) -> Seq<char> {
        self.0@
    }
}

impl Clone for InfoHash {
    fn clone(&self) -> (r: InfoHash)
        ensures
            r@ == self@,
    {
        proof {
            use_type_invariant(self);
        }
        let copy = self.0.clone();
        proof {
            assert(copy@ == self.0@);
        }
        InfoHash(copy)
    }
}

impl InfoHash {
    #[verifier::type_invariant]
    spec fn canonical(self) -> bool {
        is_canonical_hash(self.0@)
    }

    /// The canonical text.
    pub fn as_str(&self) -> (r: &str)
        ensures
            r@ == self@,
            is_canonical_hash(r@),
    {
        proof {
            use_type_invariant(self);
        }
        self.0.as_str()
    }

    /// Reads a hash in hexadecimal or base32.
    pub fn from_str(value: &str) -> (r: Result<InfoHash, MagnetError>)
        ensures
            match r {
                Ok(hash) => hash_number(value@) matches Some(n) && hash@ == hash_text(n),
                Err(error) => hash_number(value@) is None && error == MagnetError::InvalidInfoHash,
            },
    {
        let bytes = value.as_bytes();
        let decoded = if bytes.len() == 40 {
            proof {
                assert(in_pairs(bytes@) =~= bytes@);
            }
            decode_hex(value).ok()
        } else if bytes.len() == 32 {
            let symbols = raise_case(bytes);
            decode_base32(&symbols)
        } else {
            None
        };
        match decoded {
            Some(decoded) => {
                let digits = encode_hex(&decoded);
                proof {
                    hex_text_is_hex(bytes_number(decoded@), 40);
                }
                Ok(InfoHash(digits))
            },
            None => Err(MagnetError::InvalidInfoHash),
        }
    }
}

/// Why a text is no usable magnet link.
#[derive(Debug, Clone, Copy, PartialEq, Eq, Structural)]
pub enum MagnetError {
    InvalidUri,
    UnsupportedScheme,
    MissingInfoHash,
    InvalidInfoHash,
}

/// What each error says.
pub open spec fn magnet_error_text(error: MagnetError) -> Seq<char> {
    match error {
        MagnetError::InvalidUri => "magnet URI is malformed"@,
        MagnetError::UnsupportedScheme => "URI scheme must be magnet"@,
        MagnetError::MissingInfoHash => "magnet URI has no supported urn:btih identity"@,
        MagnetError::InvalidInfoHash =>
            "BitTorrent info hash must be 40 hexadecimal or 32 base32 characters"@,
    }
}

impl MagnetError {
    /// The error in words.
    pub fn message(&self) -> (r: String)
        ensures
            r@ == magnet_error_text(*self),
    {
        let words = match self {
            MagnetError::InvalidUri => "magnet URI is malformed",
            MagnetError::UnsupportedScheme => "URI scheme must be magnet",
            MagnetError::MissingInfoHash => "magnet URI has no supported urn:btih identity",
            MagnetError::InvalidInfoHash =>
                "BitTorrent info hash must be 40 hexadecimal or 32 base32 characters",
        };
        words.to_string()
    }
}

// --------------------------------------------------------------------- magnet

/// What follows the `urn:btih:` of a topic, written all lower or all upper.
pub open spec fn topic_hash(value: Seq<char>) -> Option<Seq<char>> {
    match text::after_prefix(value, "urn:btih:"@) {
        Some(rest) => Some(rest),
        None => text::after_prefix(value, "URN:BTIH:"@),
    }
}

/// The hash text of the first exact topic that names a BitTorrent v1 identity.
pub open spec fn first_identity(pairs: Seq<(Seq<char>, Seq<char>)>) -> Option<Seq<char>>
    decreases pairs.len(),
{
    if pairs.len() == 0 {
        None
    } else if text::lower(pairs[0].0) == text::lower("xt"@) && topic_hash(pairs[0].1) is Some {
        topic_hash(pairs[0].1)
    } else {
        first_identity(pairs.drop_first())
    }
}

/// What the query of a magnet link says of its identity.
pub open spec fn identity_outcome(pairs: Seq<(Seq<char>, Seq<char>)>) -> Result<nat, MagnetError> {
    match first_identity(pairs) {
        Some(value) => match hash_number(value) {
            Some(n) => Ok(n),
            None => Err(MagnetError::InvalidInfoHash),
        },
        None => Err(MagnetError::MissingInfoHash),
    }
}

/// The info hash that the decoded query pairs of a magnet link name.
pub fn identity_in(pairs: &Vec<(String, String)>) -> (r: Result<InfoHash, MagnetError>)
    ensures
        match r {
            Ok(hash) => identity_outcome(weburl::pair_views(pairs@)) matches Ok(n) && hash@
                == hash_text(n),
            Err(error) => identity_outcome(weburl::pair_views(pairs@)) == Err::<nat, MagnetError>(
                error,
            ),
        },
{
    let ghost all = weburl::pair_views(pairs@);
    let mut i: usize = 0;
    proof {
        assert(all.skip(0) =~= all);
    }
    while i < pairs.len()
        invariant
            i <= pairs@.len(),
            all == weburl::pair_views(pairs@),
            first_identity(all.skip(i as int)) == first_identity(all),
        decreases pairs@.len() - i,
    {
        proof {
            assert(all.skip(i as int)[0] == all[i as int]);
            assert(all.skip(i as int).drop_first() =~= all.skip(i as int + 1));
        }
        if same_ignoring_case(pairs[i].0.as_str(), "xt") {
            let value = chars_of(pairs[i].1.as_str());
            let rest = match strip_prefix(&value, "urn:btih:") {
                Some(rest) => Some(rest),
                None => strip_prefix(&value, "URN:BTIH:"),
            };
            if let Some(rest) = rest {
                let hash = text_of(&rest);
                return InfoHash::from_str(hash.as_str());
            }
        }
        i = i + 1;
    }
    Err(MagnetError::MissingInfoHash)
}

/// A magnet link by its text and the canonical text of its hash.
#[verifier::ext_equal]
pub struct MagnetModel {
    pub href: Seq<char>,
    pub hash: Seq<char>,
}

/// A magnet link with a BitTorrent v1 identity.
#[derive(Debug, PartialEq, Eq)]
pub struct MagnetUri {
    href: String,
    info_hash: InfoHash,
}

impl View for MagnetUri {
    type V = MagnetModel;

    closed spec fn view(&self) -> MagnetModel {
        MagnetModel { href: self.href@, hash: self.info_hash@ }
    }
}

impl Clone for MagnetUri {
    fn clone(&self) -> (r: MagnetUri)
        ensures
            r@ == self@,
    {
        MagnetUri { href: self.href.clone(), info_hash: self.info_hash.clone() }
    }
}

/// The query pairs of a parsed link.
pub open spec fn link_pairs(url: weburl::UrlModel) -> Seq<(Seq<char>, Seq<char>)> {
    match weburl::url_query_pairs(url.href) {
        Some(pairs) => pairs,
        None => Seq::empty(),
    }
}

/// What a text is as a magnet link.
pub open spec fn magnet_outcome(value: Seq<char>) -> Result<MagnetModel, MagnetError> {
    match weburl::url_parse(value) {
        None => Err(MagnetError::InvalidUri),
        Some(url) => if url.scheme != "magnet"@ {
            Err(MagnetError::UnsupportedScheme)
        } else {
            match identity_outcome(link_pairs(url)) {
                Ok(n) => Ok(MagnetModel { href: url.href, hash: hash_text(n) }),
                Err(error) => Err(error),
            }
        },
    }
}

impl MagnetUri {
    /// The link as the `url` crate writes it.
    pub fn as_str(&self) -> (r: &str)
        ensures
            r@ == self@.href,
    {
        self.href.as_str()
    }

    /// The identity of the torrent.
    pub fn info_hash(&self) -> (r: &InfoHash)
        ensures
            r@ == self@.hash,
    {
        &self.info_hash
    }

    /// Reads a magnet link.
    pub fn from_str(value: &str) -> (r: Result<MagnetUri, MagnetError>)
        ensures
            match r {
                Ok(magnet) => magnet_outcome(value@) == Ok::<MagnetModel, MagnetError>(magnet@),
                Err(error) => magnet_outcome(value@) == Err::<MagnetModel, MagnetError>(error),
            },
    {
        let url = match Url::parse(value) {
            Some(url) => url,
            None => {
                return Err(MagnetError::InvalidUri);
            },
        };
        if !url.has_scheme("magnet") {
            return Err(MagnetError::UnsupportedScheme);
        }
        let pairs = match url.query_pairs() {
            Some(pairs) => pairs,
            None => {
                let none: Vec<(String, String)> = Vec::new();
                proof {
                    assert(weburl::pair_views(none@) =~= Seq::empty());
                }
                none
            },
        };
        match identity_in(&pairs) {
            Ok(info_hash) => Ok(MagnetUri { href: url.as_str().to_string(), info_hash }),
            Err(error) => Err(error),
        }
    }
}

// -------------------------------------------------------------------- results

/// A search result by its values.
#[verifier::ext_equal]
pub struct TorrentModel {
    pub name: Seq<char>,
    pub magnet: MagnetModel,
    pub seeders: Option<u64>,
    pub leechers: Option<u64>,
    pub size_bytes: Option<u64>,
    pub category: Option<Seq<char>>,
    pub source_host: Seq<char>,
}

/// A search result. What a page did not tell stays absent.
#[derive(Debug, PartialEq, Eq)]
pub struct TorrentResult {
    pub name: String,
    pub magnet: MagnetUri,
    pub seeders: Option<u64>,
    pub leechers: Option<u64>,
    pub size_bytes: Option<u64>,
    pub category: Option<String>,
    pub source_host: String,
}

impl View for TorrentResult {
    type V = TorrentModel;

    open spec fn view(&self) -> TorrentModel {
        TorrentModel {
            name: self.name@,
            magnet: self.magnet@,
            seeders: self.seeders,
            leechers: self.leechers,
            size_bytes: self.size_bytes,
            category: text::opt_view(self.category),
            source_host: self.source_host@,
        }
    }
}

/// Results by their models.
pub open spec fn result_views(results: Seq<TorrentResult>) -> Seq<TorrentModel> {
    Seq::new(results.len(), |i: int| results[i]@)
}

impl Clone for TorrentResult {
    fn clone(&self) -> (r: TorrentResult)
        ensures
            r@ == self@,
    {
        TorrentResult {
            name: self.name.clone(),
            magnet: self.magnet.clone(),
            seeders: self.seeders,
            leechers: self.leechers,
            size_bytes: self.size_bytes,
            category: copy_opt(&self.category),
            source_host: self.source_host.clone(),
        }
    }
}

impl TorrentResult {
    /// The identity of the torrent.
    pub fn info_hash(&self) -> (r: &InfoHash)
        ensures
            r@ == self@.magnet.hash,
    {
        self.magnet.info_hash()
    }
}

// -------------------------------------------------------------------- display

/// The first `limit` characters.
pub open spec fn first_chars(value: Seq<char>, limit: nat) -> Seq<char> {
    if limit < value.len() {
        value.take(limit as int)
    } else {
        value
    }
}

/// Cuts a text after `max_chars` Unicode scalar values.
pub fn truncate_display(value: &str, max_chars: usize) -> (r: String)
    ensures
        r@ == first_chars(value@, max_chars as nat),
{
    let chars = chars_of(value);
    cut(&chars, max_chars)
}

fn cut(chars: &Vec<char>, limit: usize) -> (r: String)
    ensures
        r@ == first_chars(chars@, limit as nat),
{
    if limit < chars.len() {
        let front = slice_chars(chars, 0, limit);
        proof {
            assert(front@ =~= chars@.take(limit as int));
        }
        text_of(&front)
    } else {
        text_of(chars)
    }
}

/// A text without terminal controls and bidirectional marks.
pub open spec fn inert(value: Seq<char>) -> Seq<char>
    decreases value.len(),
{
    if value.len() == 0 {
        Seq::empty()
    } else if text::is_control(value.last()) || text::is_bidi_mark(value.last()) {
        inert(value.drop_last())
    } else {
        inert(value.drop_last()).push(value.last())
    }
}

/// What is shown of an untrusted text: without controls and bidirectional
/// marks, without white space at either end, and at most `limit` characters.
pub open spec fn sanitized(value: Seq<char>, limit: nat) -> Seq<char> {
    first_chars(text::trimmed(inert(value), CharClass::White), limit)
}

fn keep_inert(chars: &Vec<char>) -> (r: Vec<char>)
    ensures
        r@ == inert(chars@),
{
    let mut kept: Vec<char> = Vec::new();
    let mut i: usize = 0;
    proof {
        assert(chars@.take(0) =~= Seq::empty());
    }
    while i < chars.len()
        invariant
            i <= chars@.len(),
            kept@ == inert(chars@.take(i as int)),
        decreases chars@.len() - i,
    {
        proof {
            assert(chars@.take(i as int + 1).drop_last() =~= chars@.take(i as int));
        }
        if !is_unsafe_for_display(chars[i]) {
            kept.push(chars[i]);
        }
        i = i + 1;
    }
    proof {
        assert(chars@.take(chars@.len() as int) =~= chars@);
    }
    kept
}

/// Takes terminal controls and bidirectional marks out of an untrusted text.
pub fn without_marks(value: &str) -> (r: String)
    ensures
        r@ == inert(value@),
{
    text_of(&keep_inert(&chars_of(value)))
}

/// Makes an untrusted text safe to show.
pub fn sanitize_display_text(value: &str, max_chars: usize) -> (r: String)
    ensures
        r@ == sanitized(value@, max_chars as nat),
        r@.len() <= max_chars,
        forall|i: int|
            0 <= i < r@.len() ==> !text::is_control(#[trigger] r@[i]) && !text::is_bidi_mark(
                r@[i],
            ),
{
    proof {
        sanitized_is_inert(value@, max_chars as nat);
    }
    let kept = keep_inert(&chars_of(value));
    let shown = trim(&kept, CharClass::White);
    cut(&shown, max_chars)
}

/// What is left of a text without controls and marks holds none.
pub proof fn inert_holds_no_mark(value: Seq<char>)
    ensures
        forall|i: int|
            0 <= i < inert(value).len() ==> !text::is_control(#[trigger] inert(value)[i])
                && !text::is_bidi_mark(inert(value)[i]),
    decreases value.len(),
{
    if value.len() > 0 {
        let front = inert(value.drop_last());
        inert_holds_no_mark(value.drop_last());
        assert forall|i: int| 0 <= i < inert(value).len() implies !text::is_control(
            #[trigger] inert(value)[i],
        ) && !text::is_bidi_mark(inert(value)[i]) by {
            if i < front.len() {
                assert(inert(value)[i] == front[i]);
            }
        }
    }
}

proof fn strip_end_is_prefix(value: Seq<char>, class: CharClass)
    ensures
        text::strip_end(value, class).len() <= value.len(),
        text::strip_end(value, class) == value.take(text::strip_end(value, class).len() as int),
    decreases value.len(),
{
    if value.len() > 0 && class.has(value.last()) {
        strip_end_is_prefix(value.drop_last(), class);
        let rest = text::strip_end(value, class);
        assert(value.take(rest.len() as int) =~= value.drop_last().take(rest.len() as int));
    } else {
        assert(value.take(value.len() as int) =~= value);
    }
}

/// What is shown never holds a terminal control or a bidirectional mark, nor
/// more than `limit` characters.
pub proof fn sanitized_is_inert(value: Seq<char>, limit: nat)
    ensures
        sanitized(value, limit).len() <= limit,
        forall|i: int|
            0 <= i < sanitized(value, limit).len() ==> !text::is_control(
                #[trigger] sanitized(value, limit)[i],
            ) && !text::is_bidi_mark(sanitized(value, limit)[i]),
{
    let clean = inert(value);
    inert_holds_no_mark(value);
    text::run_is_maximal(clean, CharClass::White);
    let start = text::strip_start(clean, CharClass::White);
    strip_end_is_prefix(start, CharClass::White);
    let shown = sanitized(value, limit);
    assert forall|i: int| 0 <= i < shown.len() implies !text::is_control(#[trigger] shown[i])
        && !text::is_bidi_mark(shown[i]) by {
        let skipped = text::run(clean, CharClass::White) as int;
        assert(shown[i] == start[i]);
        assert(start[i] == clean[skipped + i]);
    }
}

} // verus!
