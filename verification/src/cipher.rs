//! The repeating-key cipher of the radio link and its hexadecimal encoding.

use crate::text;
use vstd::prelude::*;
use vstd::utf8::*;

verus! {

/// `data` combined with the repeated `key`, byte by byte.
pub open spec fn xored(data: Seq<u8>, key: Seq<u8>) -> Seq<u8> {
    Seq::new(data.len(), |i: int| data[i] ^ key[i % key.len() as int])
}

/// Two upper-case hexadecimal digits for each byte.
pub open spec fn hex_text(bytes: Seq<u8>) -> Seq<char> {
    Seq::new(
        2 * bytes.len(),
        |i: int|
            text::digit_char(
                if i % 2 == 0 {
                    (bytes[i / 2] / 16) as nat
                } else {
                    (bytes[i / 2] % 16) as nat
                },
            ),
    )
}

/// What the link carries for `plain`; nothing when there is no key.
pub open spec fn encrypted(plain: Seq<char>, key: Seq<u8>) -> Seq<char> {
    if key.len() == 0 {
        Seq::empty()
    } else {
        hex_text(xored(encode_utf8(plain), key))
    }
}

/// The value of a hexadecimal digit of either case.
pub open spec fn hex_value(b: u8) -> Option<u8> {
    if 0x30 <= b <= 0x39 {
        Some((b - 0x30) as u8)
    } else if 0x41 <= b <= 0x46 {
        Some((b - 0x41 + 10) as u8)
    } else if 0x61 <= b <= 0x66 {
        Some((b - 0x61 + 10) as u8)
    } else {
        None
    }
}

/// The byte that two characters stand for: two digits, or a plus sign and a digit.
pub open spec fn pair_value(high: u8, low: u8) -> Option<u8> {
    match (hex_value(high), hex_value(low)) {
        (Some(h), Some(l)) => Some((16 * h + l) as u8),
        (None, Some(l)) if high == 0x2B => Some(l),
        _ => None,
    }
}

/// The byte that the `k`-th pair of `bytes` stands for.
pub open spec fn pair_at(bytes: Seq<u8>, k: int) -> Option<u8> {
    pair_value(bytes[2 * k], bytes[2 * k + 1])
}

/// Whether the first `k` pairs of `bytes` all stand for a byte.
pub open spec fn pairs_decode(bytes: Seq<u8>, k: int) -> bool {
    forall|j: int| 0 <= j < k ==> (#[trigger] pair_at(bytes, j)) is Some
}

/// Whether `bytes` is hexadecimal throughout.
pub open spec fn all_hex(bytes: Seq<u8>) -> bool {
    bytes.len() % 2 == 0 && pairs_decode(bytes, bytes.len() as int / 2)
}

/// Whether `bytes`, taken two at a time up to the first pair that is not hexadecimal,
/// always has a whole pair left that ends between two characters.
pub open spec fn pairs_whole(bytes: Seq<u8>) -> bool {
    forall|k: int|
        0 <= 2 * k < bytes.len() && #[trigger] pairs_decode(bytes, k) ==> 2 * k + 2 <= bytes.len()
            && (2 * k + 2 == bytes.len() || !is_continuation_byte(bytes[2 * k + 2]))
}

/// The bytes that a hexadecimal text stands for.
pub open spec fn unhexed(bytes: Seq<u8>) -> Seq<u8> {
    Seq::new(bytes.len() / 2, |k: int| pair_at(bytes, k)->0)
}

/// The words that std gives for bytes that are not UTF-8.
pub uninterp spec fn utf8_error_text(bytes: Seq<u8>) -> Seq<char>;

/// `String::from_utf8`, the error as text. Trusted: it succeeds exactly on valid UTF-8
/// and then holds the decoded characters; the words of the error depend on the bytes alone.
#[verifier::external_body]
fn text_from_utf8(bytes: Vec<u8>) -> (r: Result<String, String>)
    ensures
        match r {
            Ok(s) => valid_utf8(bytes@) && s@ == decode_utf8(bytes@),
            Err(words) => !valid_utf8(bytes@) && words@ == utf8_error_text(bytes@),
        },
{
    match String::from_utf8(bytes) {
        Ok(s) => Ok(s),
        Err(e) => Err(e.to_string()),
    }
}

/// Why a received text cannot be decrypted.
#[derive(Debug)]
pub enum CipherFault {
    /// The pair that starts at this byte is not hexadecimal.
    NotHex(usize),
    /// The decrypted bytes are not UTF-8; std's words for it.
    NotUtf8(String),
}

/// Encrypts `plain` with the repeated `key`, as upper-case hexadecimal.
pub fn encrypt(plain: &str, key: &[u8]) -> (r: String)
    ensures
        r@ == encrypted(plain@, key@),
        forall|i: int|
            key@.len() > 0 && 0 <= i < encode_utf8(plain@).len() ==> 16 * worth(
                #[trigger] r@[2 * i] as int,
            ) + worth(r@[2 * i + 1] as int) == encode_utf8(plain@)[i] ^ key@[i
                % key@.len() as int],
{
    proof {
        assert forall|i: int|
            key@.len() > 0 && 0 <= i < encode_utf8(plain@).len() implies 16 * worth(
            #[trigger] encrypted(plain@, key@)[2 * i] as int,
        ) + worth(encrypted(plain@, key@)[2 * i + 1] as int) == encode_utf8(plain@)[i] ^ key@[i
            % key@.len() as int] by {
            law_every_byte_is_encrypted(plain@, key@, i);
        }
    }
    let mut out: String = String::new();
    if key.len() == 0 {
        assert(out@ =~= encrypted(plain@, key@));
        return out;
    }
    let data: &[u8] = plain.as_bytes();
    let n: usize = data.len();
    let mut i: usize = 0;
    let ghost coded = xored(encode_utf8(plain@), key@);
    assert(out@ =~= hex_text(coded.take(0)));
    while i < n
        invariant
            i <= n,
            n == data@.len(),
            data@ == encode_utf8(plain@),
            key@.len() > 0,
            coded == xored(data@, key@),
            out@ == hex_text(coded.take(i as int)),
        decreases n - i,
    {
        let b: u8 = data[i] ^ key[i % key.len()];
        text::push_digit(&mut out, (b / 16) as usize);
        text::push_digit(&mut out, (b % 16) as usize);
        assert(coded[i as int] == b);
        assert(out@ =~= hex_text(coded.take(i + 1)));
        i += 1;
    }
    assert(coded.take(n as int) =~= coded);
    out
}

fn hex_digit(b: u8) -> (r: Option<u8>)
    ensures
        r == hex_value(b),
{
    if 0x30 <= b && b <= 0x39 {
        Some(b - 0x30)
    } else if 0x41 <= b && b <= 0x46 {
        Some(b - 0x41 + 10)
    } else if 0x61 <= b && b <= 0x66 {
        Some(b - 0x61 + 10)
    } else {
        None
    }
}

fn hex_pair(high: u8, low: u8) -> (r: Option<u8>)
    ensures
        r == pair_value(high, low),
{
    match hex_digit(low) {
        Some(l) => match hex_digit(high) {
            Some(h) => Some(16 * h + l),
            None => if high == 0x2B {
                Some(l)
            } else {
                None
            },
        },
        None => None,
    }
}

/// Whether `received` can be taken two bytes at a time, up to its first pair that is not
/// hexadecimal, without cutting a character or running past the end.
pub fn is_pairwise(received: &str) -> (r: bool)
    ensures
        r == pairs_whole(encode_utf8(received@)),
{
    let bytes: &[u8] = received.as_bytes();
    let n: usize = bytes.len();
    let mut i: usize = 0;
    let ghost mut k: int = 0;
    while i < n
        invariant
            i == 2 * k,
            i <= n,
            n == bytes@.len(),
            bytes@ == encode_utf8(received@),
            pairs_decode(bytes@, k),
            forall|j: int|
                0 <= j < k ==> 2 * j + 2 <= bytes@.len() && (2 * j + 2 == bytes@.len()
                    || !is_continuation_byte(#[trigger] bytes@[2 * j + 2])),
        decreases n - i,
    {
        if n - i < 2 || (n - i > 2 && 0x80 <= bytes[i + 2] && bytes[i + 2] <= 0xBF) {
            assert(0 <= 2 * k < bytes@.len() && pairs_decode(bytes@, k));
            return false;
        }
        if hex_pair(bytes[i], bytes[i + 1]).is_none() {
            proof {
                assert(pair_at(bytes@, k) is None);
                assert forall|j: int|
                    0 <= 2 * j < bytes@.len() && #[trigger] pairs_decode(bytes@, j) implies 2 * j
                    + 2 <= bytes@.len() && (2 * j + 2 == bytes@.len() || !is_continuation_byte(
                    bytes@[2 * j + 2],
                )) by {
                    if j > k {
                        assert(pair_at(bytes@, k) is Some);
                    }
                }
            }
            return true;
        }
        assert(pair_at(bytes@, k) is Some);
        i += 2;
        proof {
            k = k + 1;
        }
    }
    true
}

/// Decrypts `received`, hexadecimal in either case, with the repeated `key`.
pub fn decrypt(received: &str, key: &[u8]) -> (r: Result<String, CipherFault>)
    requires
        key@.len() > 0,
        pairs_whole(encode_utf8(received@)),
    ensures
        ({
            let bytes = encode_utf8(received@);
            let plain = xored(unhexed(bytes), key@);
            match r {
                Ok(s) => all_hex(bytes) && valid_utf8(plain) && s@ == decode_utf8(plain),
                Err(CipherFault::NotHex(at)) => at % 2 == 0 && at < bytes.len() && pairs_decode(
                    bytes,
                    at as int / 2,
                ) && pair_at(bytes, at as int / 2) is None,
                Err(CipherFault::NotUtf8(words)) => all_hex(bytes) && !valid_utf8(plain) && words@
                    == utf8_error_text(plain),
            }
        }),
{
    let bytes: &[u8] = received.as_bytes();
    let n: usize = bytes.len();
    let mut out: Vec<u8> = Vec::new();
    let mut i: usize = 0;
    let mut k: usize = 0;
    let ghost plain = xored(unhexed(bytes@), key@);
    while i < n
        invariant
            i == 2 * k,
            i <= n,
            n == bytes@.len(),
            bytes@ == encode_utf8(received@),
            key@.len() > 0,
            pairs_whole(bytes@),
            pairs_decode(bytes@, k as int),
            plain == xored(unhexed(bytes@), key@),
            k <= plain.len(),
            out@ == plain.take(k as int),
        decreases n - i,
    {
        assert(0 <= 2 * k < bytes@.len() && pairs_decode(bytes@, k as int));
        match hex_pair(bytes[i], bytes[i + 1]) {
            Some(b) => {
                assert(pair_at(bytes@, k as int) == Some(b));
                let c: u8 = b ^ key[k % key.len()];
                assert(plain[k as int] == c);
                out.push(c);
                assert(out@ =~= plain.take(k + 1));
            },
            None => {
                return Err(CipherFault::NotHex(i));
            },
        }
        i += 2;
        k += 1;
    }
    assert(plain.take(k as int) =~= plain);
    match text_from_utf8(out) {
        Ok(s) => Ok(s),
        Err(words) => Err(CipherFault::NotUtf8(words)),
    }
}

/// What the link carries is hexadecimal: ASCII, two digits to the byte, and it stands
/// for the combined bytes.
proof fn lemma_hex_text(bytes: Seq<u8>)
    ensures
        is_ascii_chars(hex_text(bytes)),
        encode_utf8(hex_text(bytes)).len() == 2 * bytes.len(),
        all_hex(encode_utf8(hex_text(bytes))),
        pairs_whole(encode_utf8(hex_text(bytes))),
        unhexed(encode_utf8(hex_text(bytes))) == bytes,
        text::trimmed(hex_text(bytes)) == hex_text(bytes),
{
    let chars = hex_text(bytes);
    let coded = encode_utf8(chars);
    assert(is_ascii_chars(chars));
    is_ascii_chars_encode_utf8(chars);
    assert(coded.len() == 2 * bytes.len());
    assert forall|k: int| 0 <= k < bytes.len() implies #[trigger] pair_at(coded, k) == Some(
        bytes[k],
    ) by {
        let b = bytes[k];
        assert(coded[2 * k] == chars[2 * k] as u8);
        assert(coded[2 * k + 1] == chars[2 * k + 1] as u8);
        assert((2 * k) / 2 == k && (2 * k + 1) / 2 == k && (2 * k) % 2 == 0 && (2 * k + 1) % 2
            == 1);
        assert(chars[2 * k] == text::digit_char((b / 16) as nat));
        assert(chars[2 * k + 1] == text::digit_char((b % 16) as nat));
        assert(hex_value(coded[2 * k]) == Some((b / 16) as u8));
        assert(hex_value(coded[2 * k + 1]) == Some((b % 16) as u8));
    }
    assert forall|k: int| 0 <= 2 * k + 2 < coded.len() implies !is_continuation_byte(
        #[trigger] coded[2 * k + 2],
    ) by {
        assert(coded[2 * k + 2] == chars[2 * k + 2] as u8);
    }
    assert(unhexed(coded) =~= bytes);
    if chars.len() > 0 {
        let first = chars[0];
        let last = chars.last();
        assert(!text::is_white_space(first));
        assert(!text::is_white_space(last));
        assert(text::trimmed_start(chars) == chars);
        assert(text::trimmed_end(chars) == chars);
    }
}

/// Combining with the same key twice gives the data back.
proof fn lemma_xored_twice(data: Seq<u8>, key: Seq<u8>)
    ensures
        xored(xored(data, key), key) == data,
{
    assert forall|i: int| 0 <= i < data.len() implies xored(xored(data, key), key)[i]
        == data[i] by {
        let a = data[i];
        let b = key[i % key.len() as int];
        assert((a ^ b) ^ b == a) by (bit_vector);
    }
    assert(xored(xored(data, key), key) =~= data);
}

/// Decrypting what was encrypted with the same key gives the plain text back: the
/// encrypted text is hexadecimal, has no white space to trim, and its decryption is the
/// UTF-8 of `plain`.
pub proof fn law_decryption_inverts_encryption(plain: Seq<char>, key: Seq<u8>)
    requires
        key.len() > 0,
    ensures
        ({
            let bytes = encode_utf8(encrypted(plain, key));
            let out = xored(unhexed(bytes), key);
            &&& pairs_whole(bytes)
            &&& all_hex(bytes)
            &&& valid_utf8(out)
            &&& decode_utf8(out) == plain
            &&& text::trimmed(encrypted(plain, key)) == encrypted(plain, key)
        }),
{
    let data = encode_utf8(plain);
    lemma_hex_text(xored(data, key));
    lemma_xored_twice(data, key);
    encode_utf8_valid_utf8(plain);
    encode_utf8_decode_utf8(plain);
}

/// What a hexadecimal figure of either case is worth, by its place in the alphabet; sixteen
/// for everything else.
pub open spec fn worth(code: int) -> int {
    if '0' as int <= code <= '9' as int {
        code - '0' as int
    } else if 'A' as int <= code <= 'F' as int {
        10 + (code - 'A' as int)
    } else if 'a' as int <= code <= 'f' as int {
        10 + (code - 'a' as int)
    } else {
        16
    }
}

/// What a pair of figures is worth: a plus sign may stand in place of the first.
pub open spec fn pair_worth(high: int, low: int) -> int {
    if high == '+' as int {
        worth(low)
    } else {
        16 * worth(high) + worth(low)
    }
}

/// Whether a pair stands for a byte.
pub open spec fn is_pair(high: int, low: int) -> bool {
    worth(low) < 16 && (worth(high) < 16 || high == '+' as int)
}

/// Whether the first `k` pairs are pairs of figures.
pub open spec fn figures_up_to(bytes: Seq<u8>, k: int) -> bool {
    forall|j: int| 0 <= j < k ==> is_pair(#[trigger] bytes[2 * j] as int, bytes[2 * j + 1] as int)
}

/// Every byte of the plain text is sent, as two upper-case figures that are worth the byte
/// combined with the byte of the key whose turn it is. Without a key nothing is sent.
pub proof fn law_every_byte_is_encrypted(plain: Seq<char>, key: Seq<u8>, i: int)
    ensures
        key.len() == 0 ==> encrypted(plain, key).len() == 0,
        key.len() > 0 ==> encrypted(plain, key).len() == 2 * encode_utf8(plain).len(),
        key.len() > 0 && 0 <= i < encode_utf8(plain).len() ==> {
            let high = encrypted(plain, key)[2 * i];
            let low = encrypted(plain, key)[2 * i + 1];
            &&& '0' <= high <= '9' || 'A' <= high <= 'F'
            &&& '0' <= low <= '9' || 'A' <= low <= 'F'
            &&& 16 * worth(high as int) + worth(low as int) == encode_utf8(plain)[i]
                ^ key[i % key.len() as int]
        },
{
    let bytes = encode_utf8(plain);
    if key.len() > 0 && 0 <= i < bytes.len() {
        assert((2 * i) / 2 == i && (2 * i + 1) / 2 == i && (2 * i) % 2 == 0 && (2 * i + 1) % 2
            == 1);
        let b = bytes[i] ^ key[i % key.len() as int];
        assert(xored(bytes, key)[i] == b);
        assert(encrypted(plain, key)[2 * i] == text::digit_char((b / 16) as nat));
        assert(encrypted(plain, key)[2 * i + 1] == text::digit_char((b % 16) as nat));
    }
}

/// A received text is hexadecimal exactly when it consists of whole pairs of figures.
pub proof fn law_hexadecimal_means_pairs_of_figures(bytes: Seq<u8>)
    ensures
        all_hex(bytes) <==> bytes.len() % 2 == 0 && forall|k: int|
            0 <= k < bytes.len() / 2 ==> is_pair(
                #[trigger] bytes[2 * k] as int,
                bytes[2 * k + 1] as int,
            ),
        pairs_whole(bytes) <==> forall|k: int|
            0 <= 2 * k < bytes.len() && #[trigger] figures_up_to(bytes, k) ==> 2 * k + 2
                <= bytes.len() && (2 * k + 2 == bytes.len() || !(0x80 <= bytes[2 * k + 2]
                <= 0xBF)),
{
    assert forall|k: int| is_pair(#[trigger] bytes[2 * k] as int, bytes[2 * k + 1] as int) <==> (
    pair_at(bytes, k) is Some) by {
        lemma_pair_worth(bytes[2 * k], bytes[2 * k + 1]);
    }
    assert forall|k: int| #[trigger] figures_up_to(bytes, k) <==> pairs_decode(bytes, k) by {
        if pairs_decode(bytes, k) {
            assert forall|j: int| 0 <= j < k implies is_pair(
                #[trigger] bytes[2 * j] as int,
                bytes[2 * j + 1] as int,
            ) by {
                assert(pair_at(bytes, j) is Some);
            }
        }
        if figures_up_to(bytes, k) {
            assert forall|j: int| 0 <= j < k implies (#[trigger] pair_at(bytes, j)) is Some by {
                assert(is_pair(bytes[2 * j] as int, bytes[2 * j + 1] as int));
            }
        }
    }
    if pairs_whole(bytes) {
        assert forall|k: int|
            0 <= 2 * k < bytes.len() && #[trigger] figures_up_to(bytes, k) implies 2 * k + 2
            <= bytes.len() && (2 * k + 2 == bytes.len() || !(0x80 <= bytes[2 * k + 2] <= 0xBF)) by {
            assert(pairs_decode(bytes, k));
        }
    }
    if forall|k: int|
        0 <= 2 * k < bytes.len() && #[trigger] figures_up_to(bytes, k) ==> 2 * k + 2 <= bytes.len()
            && (2 * k + 2 == bytes.len() || !(0x80 <= bytes[2 * k + 2] <= 0xBF)) {
        assert forall|k: int|
            0 <= 2 * k < bytes.len() && #[trigger] pairs_decode(bytes, k) implies 2 * k + 2
            <= bytes.len() && (2 * k + 2 == bytes.len() || !is_continuation_byte(
            bytes[2 * k + 2],
        )) by {
            assert(figures_up_to(bytes, k));
        }
    }
}

proof fn lemma_pair_worth(high: u8, low: u8)
    ensures
        is_pair(high as int, low as int) <==> pair_value(high, low) is Some,
        is_pair(high as int, low as int) ==> pair_value(high, low) == Some(
            pair_worth(high as int, low as int) as u8,
        ) && 0 <= pair_worth(high as int, low as int) < 256,
{
}

/// Decryption gives one byte for each pair of figures: what the pair is worth, combined with
/// the byte of the key whose turn it is.
pub proof fn law_every_pair_is_decrypted(bytes: Seq<u8>, key: Seq<u8>, k: int)
    requires
        key.len() > 0,
        all_hex(bytes),
    ensures
        xored(unhexed(bytes), key).len() == bytes.len() / 2,
        0 <= k < bytes.len() / 2 ==> 0 <= pair_worth(bytes[2 * k] as int, bytes[2 * k + 1] as int)
            < 256 && xored(unhexed(bytes), key)[k] == (pair_worth(
            bytes[2 * k] as int,
            bytes[2 * k + 1] as int,
        ) as u8) ^ key[k % key.len() as int],
{
    if 0 <= k < bytes.len() / 2 {
        assert(pair_at(bytes, k) is Some);
        lemma_pair_worth(bytes[2 * k], bytes[2 * k + 1]);
    }
}

/// A text of even length that is not hexadecimal has a first pair that is none.
pub proof fn lemma_first_bad_pair(bytes: Seq<u8>) -> (k: int)
    requires
        bytes.len() % 2 == 0,
        !all_hex(bytes),
    ensures
        0 <= k < bytes.len() / 2,
        pairs_decode(bytes, k),
        pair_at(bytes, k) is None,
        !is_pair(bytes[2 * k] as int, bytes[2 * k + 1] as int),
        forall|j: int|
            0 <= j < k ==> is_pair(#[trigger] bytes[2 * j] as int, bytes[2 * j + 1] as int),
{
    let k = lemma_bad_pair_before(bytes, bytes.len() as int / 2);
    lemma_pair_worth(bytes[2 * k], bytes[2 * k + 1]);
    assert forall|j: int| 0 <= j < k implies is_pair(
        #[trigger] bytes[2 * j] as int,
        bytes[2 * j + 1] as int,
    ) by {
        assert(pair_at(bytes, j) is Some);
        lemma_pair_worth(bytes[2 * j], bytes[2 * j + 1]);
    }
    k
}

proof fn lemma_bad_pair_before(bytes: Seq<u8>, n: int) -> (k: int)
    requires
        0 <= n,
        !pairs_decode(bytes, n),
    ensures
        0 <= k < n,
        pairs_decode(bytes, k),
        pair_at(bytes, k) is None,
    decreases n,
{
    if pairs_decode(bytes, n - 1) {
        n - 1
    } else {
        lemma_bad_pair_before(bytes, n - 1)
    }
}

} // verus!
