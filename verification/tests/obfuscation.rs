use burdbot::obfuscation::{decode_aes, decode_aes_bytes, encode_aes, try_decode_aes};

const KEY: &str = "000102030405060708090a0b0c0d0e0f101112131415161718191a1b1c1d1e1f";

#[test]
fn encoding_pads_enciphers_and_writes_hexadecimal() {
    assert_eq!(encode_aes(KEY, "hello"), "f0cae5c26d3ae20bbe1118bc889829d70");
    assert_eq!(encode_aes(KEY, ""), "f5e96d71094d352682b2d69e8e8779724");
    assert_eq!(encode_aes(KEY, "burd"), "f7f349ff5706680841390e38d19b0ab85");
}

#[test]
fn text_filling_a_block_gets_a_whole_block_of_padding() {
    let encoded = encode_aes(KEY, "0123456789abcdef");
    assert_eq!(
        encoded,
        "f5e96d71094d352682b2d69e8e8779724d8c95758e3353e530fa52bd10e73b986"
    );
    assert_eq!(encoded.len(), 1 + 2 * 32);
}

#[test]
fn decoding_gives_the_text_back() {
    for text in ["hello", "", "burd", "0123456789abcdef", "a longer text that spans blocks", "ñandú"] {
        let encoded = encode_aes(KEY, text);
        assert_eq!(decode_aes(KEY, &encoded), text);
        assert_eq!(try_decode_aes(KEY, &encoded), Some(text.to_string()));
    }
}

#[test]
fn a_leading_zero_after_partial_padding_is_lost() {
    let encoded = encode_aes(KEY, "0abc");
    assert_eq!(encoded, "f9d8731e29317e6424adaa6b9291421a0");
    assert_eq!(decode_aes(KEY, &encoded), "abc");
}

#[test]
fn decoding_bytes_deciphers_each_block() {
    let cipher: Vec<u8> = vec![
        0x0c, 0xae, 0x5c, 0x26, 0xd3, 0xae, 0x20, 0xbb, 0xe1, 0x11, 0x8b, 0xc8, 0x89, 0x82, 0x9d, 0x70,
    ];
    assert_eq!(decode_aes_bytes(KEY, &cipher), "hello");
}

#[test]
fn text_that_cannot_be_deciphered_gives_none() {
    assert_eq!(try_decode_aes(KEY, ""), None);
    assert_eq!(try_decode_aes(KEY, "fzz"), None);
    assert_eq!(try_decode_aes(KEY, "f0cae5c26d3ae20bbe1118bc889829d7"), None);
    // the standard AES-256 vector: its plain bytes are not UTF-8
    assert_eq!(try_decode_aes(KEY, "f8ea2b7ca516745bfeafc49904b496089"), None);
}
