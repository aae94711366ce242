use cpandas::error::Error;
use cpandas::hexcode::{hex_decode, hex_encode};
use cpandas::utils::{
    aes256_decode, aes256_encode, aes256_encode_with_nonce, from_hex, gen_rand_key,
    get_valid_aes_key, sha256, to_hex,
};
use rand::Rng;

#[test]
fn test_valid_aes_key() {
    let new_key = get_valid_aes_key("abcd1234".to_string()).unwrap();
    println!("{}", String::from_utf8_lossy(&new_key));
    assert_eq!(new_key, b"abcd1234abcd1234abcd1234abcd1234".to_vec());
}

#[test]
fn utils_test() {
    let msg = b"wohenisdfsdfsfslsdfks";
    let key = gen_rand_key(32).unwrap();
    println!("key:{}", to_hex(&key));
    let (chipper_text, nonce) = aes256_encode(msg, key.as_slice()).unwrap();
    let plain_text =
        aes256_decode(chipper_text.as_slice(), key.as_slice(), nonce.as_slice()).unwrap();
    println!("decode: {:?}", String::from_utf8(plain_text.clone()));
    assert_eq!(plain_text, msg.to_vec());
}

#[test]
fn widening_repeats_then_takes_a_prefix() {
    let key = get_valid_aes_key("hunter2".to_string()).unwrap();
    assert_eq!(key, b"hunter2hunter2hunter2hunter2hunt".to_vec());
}

#[test]
fn widening_rejects_empty_and_long_passwords() {
    assert_eq!(get_valid_aes_key(String::new()), Err(Error::InvalidPassword));
    assert_eq!(get_valid_aes_key("x".repeat(40)), Err(Error::PasswordTooLong));
    assert_eq!(get_valid_aes_key("x".repeat(33)), Err(Error::PasswordTooLong));
    assert_eq!(get_valid_aes_key("x".repeat(32)).unwrap(), vec![b'x'; 32]);
}

#[test]
fn sha256_of_abc_is_the_known_digest() {
    assert_eq!(
        sha256(b"abc").unwrap(),
        "ba7816bf8f01cfea414140de5dae2223b00361a396177a9cb410ff61f20015ad"
    );
}

#[test]
fn sealing_with_a_given_nonce_is_repeatable() {
    let key = [7u8; 32];
    let nonce = [9u8; 12];
    let a = aes256_encode_with_nonce(b"s3cret!", &key, &nonce).unwrap();
    let b = aes256_encode_with_nonce(b"s3cret!", &key, &nonce).unwrap();
    assert_eq!(a, b);
    assert_eq!(a.len(), 7 + 16);
    assert_ne!(&a[..7], b"s3cret!");
    assert_eq!(aes256_decode(&a, &key, &nonce).unwrap(), b"s3cret!".to_vec());
}

#[test]
fn hex_text_is_what_the_hex_crate_writes_and_reads() {
    let mut rng = rand::thread_rng();
    for _ in 0..500 {
        let len = rng.gen_range(0..40);
        let bytes: Vec<u8> = (0..len).map(|_| rng.gen::<u8>()).collect();
        let text = to_hex(&bytes);
        assert_eq!(text, hex::encode(&bytes));
        assert_eq!(from_hex(&text), Some(bytes.clone()));
        assert_eq!(from_hex(&text.to_uppercase()), Some(bytes));
        let noise: String = (0..rng.gen_range(0..6))
            .map(|_| char::from(b"0123456789abcdefABCDEFgGxX -\n"[rng.gen_range(0..29)]))
            .collect();
        assert_eq!(from_hex(&noise), hex::decode(&noise).ok());
    }
    for byte in 0..=255u8 {
        let one = [byte];
        assert_eq!(hex_decode(&one), None);
        let pair = [byte, b'0'];
        assert_eq!(hex_decode(&pair), hex::decode(pair).ok());
        assert_eq!(hex_encode(&one), hex::encode(one));
    }
}
