//! Obfuscated text: a string enciphered block by block with AES-256 and
//! written as `f` followed by the cipher text in lowercase hexadecimal.
//! Command names and replies are kept in this form and deciphered on use.
use aes::cipher::generic_array::GenericArray;
use aes::{Aes256, BlockDecrypt, BlockEncrypt, NewBlockCipher};
use vstd::prelude::*;
use vstd::utf8::{decode_utf8, encode_utf8, valid_utf8};
use crate::forvo::string_from_utf8;
use crate::image_checker::{hex_digit, hex_encode, hex_text};
use crate::logger::is_utf8;
use crate::text::{push_char, push_str};

verus! {

/// The size of a cipher block in bytes.
pub const BLOCK_LEN: usize = 16;

/// The size of an AES-256 key in bytes.
pub const KEY_LEN: usize = 32;

/// Whether a byte is a hexadecimal digit of either case.
pub open spec fn is_hex_byte(b: u8) -> bool {
    (48 <= b <= 57) || (65 <= b <= 70) || (97 <= b <= 102)
}

/// The value of a hexadecimal digit.
pub open spec fn hex_value(b: u8) -> int {
    if 48 <= b <= 57 {
        b - 48
    } else if 65 <= b <= 70 {
        b - 55
    } else {
        b - 87
    }
}

/// Whether text reads as hexadecimal bytes: an even number of digits.
pub open spec fn hex_decodable(text: Seq<u8>) -> bool {
    &&& text.len() % 2 == 0
    &&& forall|i: int| 0 <= i < text.len() ==> is_hex_byte(#[trigger] text[i])
}

/// The bytes that hexadecimal text stands for, two digits each.
pub open spec fn hex_decoded(text: Seq<u8>) -> Seq<u8> {
    Seq::new(
        text.len() / 2,
        |i: int| (hex_value(text[2 * i]) * 16 + hex_value(text[2 * i + 1])) as u8,
    )
}

#[verifier::external_type_specification]
#[verifier::external_body]
pub struct ExFromHexError(hex::FromHexError);

/// Reads hexadecimal text (`hex::decode`): an error exactly where the length
/// is odd or a byte is no hexadecimal digit, else the bytes it stands for.
#[verifier::external_body]
fn hex_decode(text: &[u8]) -> (r: Result<Vec<u8>, hex::FromHexError>)
    ensures
        r is Ok <==> hex_decodable(text@),
        r matches Ok(bytes) ==> bytes@ == hex_decoded(text@),
{
    hex::decode(text)
}

/// The key that key text in hexadecimal stands for.
pub open spec fn key_of(key_hex: Seq<char>) -> Seq<u8> {
    hex_decoded(encode_utf8(key_hex))
}

/// Whether key text in hexadecimal gives an AES-256 key.
pub open spec fn valid_key_text(key_hex: Seq<char>) -> bool {
    &&& hex_decodable(encode_utf8(key_hex))
    &&& key_of(key_hex).len() == KEY_LEN
}

fn key_from_hex(key_hex: &str) -> (key: Vec<u8>)
    requires
        valid_key_text(key_hex@),
    ensures
        key@ == key_of(key_hex@),
        key@.len() == KEY_LEN,
{
    match hex_decode(key_hex.as_bytes()) {
        Ok(key) => key,
        Err(_) => Vec::new(),
    }
}

/// A block enciphered by AES-256 under a key.
pub uninterp spec fn aes256_enciphered(key: Seq<u8>, block: Seq<u8>) -> Seq<u8>;

/// A block deciphered by AES-256 under a key.
pub uninterp spec fn aes256_deciphered(key: Seq<u8>, block: Seq<u8>) -> Seq<u8>;

/// Enciphers one block: `aes::Aes256::new` on the key, then
/// `BlockEncrypt::encrypt_block`. The result is named; it is a block again,
/// and deciphering it under the same key gives the block back, as the
/// crate's documentation shows.
#[verifier::external_body]
fn encipher_block(key: &[u8], block: &[u8]) -> (r: Vec<u8>)
    requires
        key@.len() == KEY_LEN,
        block@.len() == BLOCK_LEN,
    ensures
        r@ == aes256_enciphered(key@, block@),
        r@.len() == BLOCK_LEN,
        aes256_deciphered(key@, r@) == block@,
{
    let cipher = Aes256::new(GenericArray::from_slice(key));
    let mut b = *GenericArray::from_slice(block);
    cipher.encrypt_block(&mut b);
    b.to_vec()
}

/// Deciphers one block: `aes::Aes256::new` on the key, then
/// `BlockDecrypt::decrypt_block`. The result is named and is a block again.
#[verifier::external_body]
fn decipher_block(key: &[u8], block: &[u8]) -> (r: Vec<u8>)
    requires
        key@.len() == KEY_LEN,
        block@.len() == BLOCK_LEN,
    ensures
        r@ == aes256_deciphered(key@, block@),
        r@.len() == BLOCK_LEN,
{
    let cipher = Aes256::new(GenericArray::from_slice(key));
    let mut b = *GenericArray::from_slice(block);
    cipher.decrypt_block(&mut b);
    b.to_vec()
}

/// `n` digits `'0'`, as bytes.
pub open spec fn zero_digits(n: nat) -> Seq<u8> {
    Seq::new(n, |i: int| 48u8)
}

/// Text bytes preceded by `'0'` digits up to the next multiple of the block
/// size: one to sixteen of them, a whole block where the text fills its last.
pub open spec fn zero_padded(bytes: Seq<u8>) -> Seq<u8> {
    zero_digits((16 - bytes.len() % 16) as nat) + bytes
}

/// Each block of `data` enciphered, in order.
pub open spec fn enciphered_blocks(key: Seq<u8>, data: Seq<u8>) -> Seq<u8>
    decreases data.len(),
{
    if data.len() < 16 {
        seq![]
    } else {
        enciphered_blocks(key, data.take(data.len() - 16)) + aes256_enciphered(
            key,
            data.skip(data.len() - 16),
        )
    }
}

/// Each block of `data` deciphered, in order.
pub open spec fn deciphered_blocks(key: Seq<u8>, data: Seq<u8>) -> Seq<u8>
    decreases data.len(),
{
    if data.len() < 16 {
        seq![]
    } else {
        deciphered_blocks(key, data.take(data.len() - 16)) + aes256_deciphered(
            key,
            data.skip(data.len() - 16),
        )
    }
}

/// Bytes without their leading `'0'` digits.
pub open spec fn without_leading_zeros(bytes: Seq<u8>) -> Seq<u8>
    decreases bytes.len(),
{
    if bytes.len() > 0 && bytes[0] == 48 {
        without_leading_zeros(bytes.skip(1))
    } else {
        bytes
    }
}

/// The plain bytes of cipher text: each block deciphered, the first without
/// its leading `'0'` digits.
pub open spec fn plain_bytes(key: Seq<u8>, data: Seq<u8>) -> Seq<u8> {
    if data.len() < 16 {
        seq![]
    } else {
        without_leading_zeros(aes256_deciphered(key, data.take(16))) + deciphered_blocks(
            key,
            data.skip(16),
        )
    }
}

/// The obfuscated form of text under a key: `f`, then its bytes, padded,
/// enciphered and written in hexadecimal.
pub open spec fn obfuscated(key: Seq<u8>, text: Seq<char>) -> Seq<char> {
    seq!['f'] + hex_text(enciphered_blocks(key, zero_padded(encode_utf8(text))))
}

/// The cipher bytes written after the first character of obfuscated text.
pub open spec fn cipher_bytes(text: Seq<char>) -> Seq<u8> {
    hex_decoded(encode_utf8(text).skip(1))
}

/// Whether text can be deciphered under a key: a first character, then
/// hexadecimal for whole blocks whose plain bytes are UTF-8.
pub open spec fn decipherable(key: Seq<u8>, text: Seq<char>) -> bool {
    &&& encode_utf8(text).len() >= 1
    &&& hex_decodable(encode_utf8(text).skip(1))
    &&& cipher_bytes(text).len() % 16 == 0
    &&& valid_utf8(plain_bytes(key, cipher_bytes(text)))
}

/// The text that obfuscated text stands for under a key.
pub open spec fn deobfuscated(key: Seq<u8>, text: Seq<char>) -> Seq<char> {
    decode_utf8(plain_bytes(key, cipher_bytes(text)))
}

proof fn lemma_without_leading_zeros_at(bytes: Seq<u8>, k: int)
    requires
        0 <= k <= bytes.len(),
        forall|j: int| 0 <= j < k ==> bytes[j] == 48,
        k == bytes.len() || bytes[k] != 48,
    ensures
        without_leading_zeros(bytes) == bytes.skip(k),
    decreases k,
{
    if k == 0 {
        assert(bytes.skip(0) =~= bytes);
    } else {
        lemma_without_leading_zeros_at(bytes.skip(1), k - 1);
        assert(bytes.skip(1).skip(k - 1) =~= bytes.skip(k));
    }
}

/// Deciphers whole blocks, dropping the leading `'0'` digits of the first.
fn plain_bytes_of(key: &Vec<u8>, data: &[u8]) -> (r: Vec<u8>)
    requires
        key@.len() == KEY_LEN,
        data@.len() % 16 == 0,
    ensures
        r@ == plain_bytes(key@, data@),
{
    let mut full: Vec<u8> = Vec::new();
    let mut start: usize = 0;
    while start < data.len()
        invariant
            key@.len() == KEY_LEN,
            data@.len() % 16 == 0,
            start % 16 == 0,
            start <= data@.len(),
            start == 0 ==> full@.len() == 0,
            start >= 16 ==> full@ == without_leading_zeros(aes256_deciphered(key@, data@.take(16)))
                + deciphered_blocks(key@, data@.subrange(16, start as int)),
        decreases data@.len() - start,
    {
        let block = decipher_block(key.as_slice(), vstd::slice::slice_subrange(data, start, start + 16));
        let mut idx: usize = 0;
        if start == 0 {
            while idx < block.len() && block[idx] == 48
                invariant
                    idx <= block@.len(),
                    forall|j: int| 0 <= j < idx ==> block@[j] == 48,
                decreases block@.len() - idx,
            {
                idx = idx + 1;
            }
        }
        let ghost before = full@;
        let mut k: usize = idx;
        while k < block.len()
            invariant
                idx <= k <= block@.len(),
                full@ == before + block@.subrange(idx as int, k as int),
            decreases block@.len() - k,
        {
            full.push(block[k]);
            k = k + 1;
        }
        proof {
            if start == 0 {
                assert(data@.subrange(0, 16) =~= data@.take(16));
                lemma_without_leading_zeros_at(block@, idx as int);
                assert(full@ =~= without_leading_zeros(aes256_deciphered(key@, data@.take(16)))
                    + deciphered_blocks(key@, data@.subrange(16, 16)));
            } else {
                let s = data@.subrange(16, start + 16);
                assert(s.take(s.len() - 16) =~= data@.subrange(16, start as int));
                assert(s.skip(s.len() - 16) =~= data@.subrange(start as int, start + 16));
                assert(full@ =~= without_leading_zeros(aes256_deciphered(key@, data@.take(16)))
                    + deciphered_blocks(key@, s));
            }
        }
        start = start + 16;
    }
    proof {
        if data@.len() >= 16 {
            assert(data@.subrange(16, data@.len() as int) =~= data@.skip(16));
        }
    }
    full
}

/// Deciphers cipher bytes under the key written in hexadecimal: the plain
/// bytes as UTF-8.
pub fn decode_aes_bytes(key_hex: &str, encoded_input: &[u8]) -> (r: String)
    requires
        encoded_input@.len() % 16 == 0,
        valid_key_text(key_hex@),
        valid_utf8(plain_bytes(key_of(key_hex@), encoded_input@)),
    ensures
        r@ == decode_utf8(plain_bytes(key_of(key_hex@), encoded_input@)),
{
    let key = key_from_hex(key_hex);
    let full = plain_bytes_of(&key, encoded_input);
    match string_from_utf8(full) {
        Some(s) => s,
        None => String::new(),
    }
}

/// Deciphers obfuscated text under the key written in hexadecimal: the
/// hexadecimal after the first character, read as cipher bytes.
pub fn decode_aes(key_hex: &str, text: &str) -> (r: String)
    requires
        valid_key_text(key_hex@),
        decipherable(key_of(key_hex@), text@),
    ensures
        r@ == deobfuscated(key_of(key_hex@), text@),
{
    let bytes = text.as_bytes();
    let rest = vstd::slice::slice_subrange(bytes, 1, bytes.len());
    proof {
        assert(rest@ =~= encode_utf8(text@).skip(1));
    }
    match hex_decode(rest) {
        Ok(cipher) => decode_aes_bytes(key_hex, cipher.as_slice()),
        Err(_) => String::new(),
    }
}

/// The `j`-th block of `data`.
pub open spec fn block_at(data: Seq<u8>, j: int) -> Seq<u8> {
    data.subrange(16 * j, 16 * j + 16)
}

/// Whether a block was enciphered into a block that deciphers back to it.
pub open spec fn block_round_trips(key: Seq<u8>, block: Seq<u8>) -> bool {
    &&& aes256_enciphered(key, block).len() == 16
    &&& aes256_deciphered(key, aes256_enciphered(key, block)) == block
}

proof fn lemma_hex_text_concat(a: Seq<u8>, b: Seq<u8>)
    ensures
        hex_text(a + b) == hex_text(a) + hex_text(b),
    decreases b.len(),
{
    if b.len() == 0 {
        assert(a + b =~= a);
        assert(hex_text(a) + hex_text(b) =~= hex_text(a));
    } else {
        assert((a + b).drop_last() =~= a + b.drop_last());
        lemma_hex_text_concat(a, b.drop_last());
        assert(hex_text(a + b) =~= hex_text(a) + hex_text(b));
    }
}

proof fn lemma_hex_text_shape(e: Seq<u8>)
    ensures
        hex_text(e).len() == 2 * e.len(),
        forall|i: int|
            0 <= i < e.len() ==> hex_text(e)[2 * i] == hex_digit(#[trigger] e[i] as nat / 16)
                && hex_text(e)[2 * i + 1] == hex_digit(e[i] as nat % 16),
    decreases e.len(),
{
    if e.len() > 0 {
        lemma_hex_text_shape(e.drop_last());
        assert forall|i: int| 0 <= i < e.len() implies hex_text(e)[2 * i] == hex_digit(
            #[trigger] e[i] as nat / 16,
        ) && hex_text(e)[2 * i + 1] == hex_digit(e[i] as nat % 16) by {
            if i < e.len() - 1 {
                assert(e.drop_last()[i] == e[i]);
            }
        }
    }
}

proof fn lemma_hex_digit(n: nat)
    requires
        n < 16,
    ensures
        (hex_digit(n) as u32) < 128,
        is_hex_byte(hex_digit(n) as u8),
        hex_value(hex_digit(n) as u8) == n,
        '\0' <= hex_digit(n) <= '\u{7f}',
{
}

/// Hexadecimal written by `hex_text` reads back as the same bytes.
proof fn lemma_hex_round_trip(e: Seq<u8>)
    ensures
        vstd::utf8::is_ascii_chars(hex_text(e)),
        hex_decodable(Seq::new(hex_text(e).len(), |i: int| hex_text(e)[i] as u8)),
        hex_decoded(Seq::new(hex_text(e).len(), |i: int| hex_text(e)[i] as u8)) == e,
{
    lemma_hex_text_shape(e);
    let h = hex_text(e);
    let hb = Seq::new(h.len(), |i: int| h[i] as u8);
    assert forall|i: int| 0 <= i < h.len() implies '\0' <= #[trigger] h[i] <= '\u{7f}'
        && is_hex_byte(h[i] as u8) by {
        let j = i / 2;
        assert(i == 2 * j || i == 2 * j + 1);
        lemma_hex_digit(e[j] as nat / 16);
        lemma_hex_digit(e[j] as nat % 16);
    }
    assert forall|i: int| 0 <= i < hb.len() implies is_hex_byte(#[trigger] hb[i]) by {
        assert(is_hex_byte(h[i] as u8));
    }
    assert forall|j: int| 0 <= j < e.len() implies #[trigger] hex_decoded(hb)[j] == e[j] by {
        lemma_hex_digit(e[j] as nat / 16);
        lemma_hex_digit(e[j] as nat % 16);
        assert(hb[2 * j] == h[2 * j] as u8);
        assert(hb[2 * j + 1] == h[2 * j + 1] as u8);
    }
    assert(hex_decoded(hb) =~= e);
}

proof fn lemma_enciphered_concat(key: Seq<u8>, a: Seq<u8>, b: Seq<u8>)
    requires
        a.len() % 16 == 0,
        b.len() % 16 == 0,
    ensures
        enciphered_blocks(key, a + b) == enciphered_blocks(key, a) + enciphered_blocks(key, b),
    decreases b.len(),
{
    if b.len() == 0 {
        assert(a + b =~= a);
        assert(enciphered_blocks(key, a) + enciphered_blocks(key, b) =~= enciphered_blocks(key, a));
    } else {
        let ab = a + b;
        assert(ab.take(ab.len() - 16) =~= a + b.take(b.len() - 16));
        assert(ab.skip(ab.len() - 16) =~= b.skip(b.len() - 16));
        lemma_enciphered_concat(key, a, b.take(b.len() - 16));
        assert(enciphered_blocks(key, a + b) =~= enciphered_blocks(key, a) + enciphered_blocks(
            key,
            b,
        ));
    }
}

proof fn lemma_deciphered_enciphered(key: Seq<u8>, q: Seq<u8>)
    requires
        q.len() % 16 == 0,
        forall|j: int| 0 <= j < q.len() / 16 ==> block_round_trips(key, #[trigger] block_at(q, j)),
    ensures
        enciphered_blocks(key, q).len() == q.len(),
        deciphered_blocks(key, enciphered_blocks(key, q)) == q,
    decreases q.len(),
{
    if q.len() >= 16 {
        let n = q.len();
        let front = q.take(n - 16);
        let last = q.skip(n - 16);
        assert forall|j: int| 0 <= j < front.len() / 16 implies block_round_trips(
            key,
            #[trigger] block_at(front, j),
        ) by {
            assert(block_at(front, j) =~= block_at(q, j));
        }
        lemma_deciphered_enciphered(key, front);
        assert(block_at(q, (n / 16 - 1) as int) =~= last);
        let e = enciphered_blocks(key, q);
        assert(e.take(e.len() - 16) =~= enciphered_blocks(key, front));
        assert(e.skip(e.len() - 16) =~= aes256_enciphered(key, last));
        assert(deciphered_blocks(key, e) =~= q);
    } else {
        assert(q.len() == 0);
        assert(deciphered_blocks(key, seq![]) =~= q);
    }
}

proof fn lemma_without_leading_zeros_after_digits(n: nat, x: Seq<u8>)
    ensures
        without_leading_zeros(zero_digits(n) + x) == without_leading_zeros(x),
    decreases n,
{
    if n > 0 {
        assert((zero_digits(n) + x).skip(1) =~= zero_digits((n - 1) as nat) + x);
        lemma_without_leading_zeros_after_digits((n - 1) as nat, x);
    } else {
        assert(zero_digits(n) + x =~= x);
    }
}

proof fn lemma_first_byte(s: Seq<char>)
    requires
        s.len() > 0,
        s[0] != '0',
    ensures
        encode_utf8(s).len() > 0,
        encode_utf8(s)[0] != 48,
{
    let c = s[0] as u32;
    vstd::utf8::char_is_scalar(s[0]);
    assert(encode_utf8(s) == vstd::utf8::encode_scalar(c) + encode_utf8(s.drop_first()));
    if vstd::utf8::has_width_1_encoding(c) {
        if c == 48 {
            vstd::utf8::char_u32_cast(s[0], c);
            vstd::utf8::char_u32_cast('0', 48);
        }
        assert(c != 48);
        assert((c & 0x7F) as u8 != 48u8) by (bit_vector)
            requires
                c != 48,
                c <= 0x7F,
        ;
    } else if vstd::utf8::has_width_2_encoding(c) {
        assert((0xC0u8 | ((c >> 6) & 0x1F) as u8) != 48u8) by (bit_vector);
    } else if vstd::utf8::has_width_3_encoding(c) {
        assert((0xE0u8 | ((c >> 12) & 0x0F) as u8) != 48u8) by (bit_vector);
    } else {
        assert((0xF0u8 | ((c >> 18) & 0x7) as u8) != 48u8) by (bit_vector);
    }
}

/// Deciphering obfuscated text gives the text back, unless a partial
/// padding runs into a leading `'0'` of the text itself: wherever each
/// padded block is given back by deciphering what enciphering made of it,
/// as [`encode_aes`] finds for every block it enciphers.
pub proof fn lemma_obfuscated_round_trip(key: Seq<u8>, text: Seq<char>)
    requires
        forall|j: int|
            0 <= j < zero_padded(encode_utf8(text)).len() / 16 ==> block_round_trips(
                key,
                #[trigger] block_at(zero_padded(encode_utf8(text)), j),
            ),
        encode_utf8(text).len() % 16 == 0 || text[0] != '0',
    ensures
        decipherable(key, obfuscated(key, text)),
        deobfuscated(key, obfuscated(key, text)) == text,
{
    let b = encode_utf8(text);
    let pad = (16 - b.len() % 16) as nat;
    let p = zero_padded(b);
    assert(p.len() % 16 == 0) by {
        assert(p.len() == pad + b.len());
    }
    let e = enciphered_blocks(key, p);
    let head = p.take(16);
    let tail = p.skip(16);
    assert(head + tail =~= p);
    assert forall|j: int| 0 <= j < tail.len() / 16 implies block_round_trips(
        key,
        #[trigger] block_at(tail, j),
    ) by {
        assert(block_at(tail, j) =~= block_at(p, j + 1));
    }
    lemma_deciphered_enciphered(key, tail);
    lemma_enciphered_concat(key, head, tail);
    assert(block_at(p, 0) =~= head);
    assert(head.take(0) =~= seq![]);
    assert(head.skip(0) =~= head);
    assert(head.len() == 16);
    assert(enciphered_blocks(key, head.take(0)) =~= seq![]);
    assert(enciphered_blocks(key, head) =~= aes256_enciphered(key, head));
    assert(e.take(16) =~= aes256_enciphered(key, head));
    assert(e.skip(16) =~= enciphered_blocks(key, tail));
    // the plain bytes are the text's bytes again
    if pad == 16 {
        assert(head =~= zero_digits(16) + seq![]);
        lemma_without_leading_zeros_after_digits(16, seq![]);
        assert(tail =~= b);
    } else {
        let k = 16 - pad;
        assert(head =~= zero_digits(pad) + b.take(k));
        lemma_without_leading_zeros_after_digits(pad, b.take(k));
        lemma_first_byte(text);
        assert(without_leading_zeros(b.take(k)) == b.take(k));
        assert(tail =~= b.skip(k));
        assert(b.take(k) + b.skip(k) =~= b);
    }
    assert(plain_bytes(key, e) == b);
    // the hexadecimal reads back as the cipher bytes
    let r = obfuscated(key, text);
    lemma_hex_round_trip(e);
    let h = hex_text(e);
    assert(vstd::utf8::is_ascii_chars(r)) by {
        assert forall|i: int| 0 <= i < r.len() implies '\0' <= #[trigger] r[i] <= '\u{7f}' by {
            if i > 0 {
                assert(r[i] == h[i - 1]);
            }
        }
    }
    vstd::utf8::is_ascii_chars_encode_utf8(r);
    assert(encode_utf8(r).skip(1) =~= Seq::new(h.len(), |i: int| h[i] as u8)) by {
        assert forall|i: int| 0 <= i < h.len() implies encode_utf8(r).skip(1)[i] == h[i] as u8 by {
            assert(r[i + 1] == h[i]);
        }
    }
    assert(cipher_bytes(r) == e);
    lemma_deciphered_enciphered(key, p);
    vstd::utf8::encode_utf8_valid_utf8(text);
    vstd::utf8::encode_utf8_decode_utf8(text);
}

/// Obfuscates text under the key written in hexadecimal: `'0'` digits pad
/// its bytes to whole blocks (a whole block of them where the bytes already
/// end a block), each block is enciphered, and the cipher bytes are written
/// in hexadecimal after `f`. Deciphering gives the text back, unless a
/// partial padding runs into a leading `'0'` of the text itself.
pub fn encode_aes(key_hex: &str, text: &str) -> (r: String)
    requires
        valid_key_text(key_hex@),
    ensures
        r@ == obfuscated(key_of(key_hex@), text@),
        encode_utf8(text@).len() % 16 == 0 || text@[0] != '0' ==> decipherable(
            key_of(key_hex@),
            r@,
        ) && deobfuscated(key_of(key_hex@), r@) == text@,
{
    let str_bytes = text.as_bytes();
    let pad_count: usize = 16 - str_bytes.len() % 16;
    let mut padded: Vec<u8> = Vec::new();
    let mut i: usize = 0;
    while i < pad_count
        invariant
            i <= pad_count,
            padded@ == zero_digits(i as nat),
        decreases pad_count - i,
    {
        padded.push(48);
        i = i + 1;
        assert(padded@ =~= zero_digits(i as nat));
    }
    let mut j: usize = 0;
    while j < str_bytes.len()
        invariant
            j <= str_bytes@.len(),
            padded@ == zero_digits(pad_count as nat) + str_bytes@.take(j as int),
        decreases str_bytes@.len() - j,
    {
        padded.push(str_bytes[j]);
        j = j + 1;
        assert(padded@ =~= zero_digits(pad_count as nat) + str_bytes@.take(j as int));
    }
    assert(str_bytes@.take(str_bytes@.len() as int) =~= str_bytes@);
    let ghost p = padded@;
    assert(p == zero_padded(encode_utf8(text@)));
    assert(p.len() % 16 == 0);
    let key = key_from_hex(key_hex);
    let mut encoded = String::new();
    push_char(&mut encoded, 'f');
    let mut start: usize = 0;
    assert(p.take(0) =~= seq![]);
    while start < padded.len()
        invariant
            padded@ == p,
            p.len() % 16 == 0,
            key@.len() == KEY_LEN,
            start % 16 == 0,
            start <= p.len(),
            encoded@ == seq!['f'] + hex_text(enciphered_blocks(key@, p.take(start as int))),
            forall|k: int| 0 <= k < start / 16 ==> block_round_trips(key@, #[trigger] block_at(p, k)),
        decreases p.len() - start,
    {
        let block = vstd::slice::slice_subrange(padded.as_slice(), start, start + 16);
        let enc = encipher_block(key.as_slice(), block);
        let h = hex_encode(&enc);
        push_str(&mut encoded, h.as_str());
        proof {
            let q = p.take(start + 16);
            assert(q.take(q.len() - 16) =~= p.take(start as int));
            assert(q.skip(q.len() - 16) =~= block@);
            lemma_hex_text_concat(enciphered_blocks(key@, p.take(start as int)), enc@);
            assert(block_at(p, (start / 16) as int) =~= block@);
            assert(encoded@ =~= seq!['f'] + hex_text(enciphered_blocks(key@, q)));
        }
        start = start + 16;
    }
    proof {
        assert(p.take(p.len() as int) =~= p);
        if encode_utf8(text@).len() % 16 == 0 || text@[0] != '0' {
            lemma_obfuscated_round_trip(key@, text@);
        }
    }
    encoded
}

/// Deciphers obfuscated text where it can be deciphered: `None` where the
/// text has no hexadecimal for whole blocks after its first character, or
/// the plain bytes are not UTF-8.
pub fn try_decode_aes(key_hex: &str, text: &str) -> (r: Option<String>)
    requires
        valid_key_text(key_hex@),
    ensures
        r is Some <==> decipherable(key_of(key_hex@), text@),
        r matches Some(s) ==> s@ == deobfuscated(key_of(key_hex@), text@),
{
    let bytes = text.as_bytes();
    if bytes.len() == 0 {
        return None;
    }
    let rest = vstd::slice::slice_subrange(bytes, 1, bytes.len());
    proof {
        assert(rest@ =~= encode_utf8(text@).skip(1));
    }
    let cipher = match hex_decode(rest) {
        Ok(cipher) => cipher,
        Err(_) => return None,
    };
    if cipher.len() % 16 != 0 {
        return None;
    }
    let key = key_from_hex(key_hex);
    let plain = plain_bytes_of(&key, cipher.as_slice());
    if !is_utf8(plain.as_slice()) {
        return None;
    }
    Some(decode_aes(key_hex, text))
}

} // verus!
