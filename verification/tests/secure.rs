use rustream::display::colors;
use rustream::secure::{
    base64_decode, base64_encode, calculate_hash, constant_time_eq, hex_decode, hex_encode, key_of,
    keygen,
};

#[test]
fn hex_encode_pads_to_four_digits() {
    assert_eq!(hex_encode("a"), "\\u0061");
    assert_eq!(hex_encode("ab"), "\\u0061\\u0062");
    assert_eq!(hex_encode("alice"), "\\u0061\\u006c\\u0069\\u0063\\u0065");
}

#[test]
fn hex_encode_of_empty_text_is_bare_marker() {
    assert_eq!(hex_encode(""), "\\u");
    assert_eq!(hex_decode("\\u"), "");
}

#[test]
fn hex_encode_wide_scalars() {
    assert_eq!(hex_encode("\u{1f600}"), "\\u1f600");
    assert_eq!(hex_encode("é"), "\\u00e9");
    assert_eq!(hex_encode("\u{10ffff}"), "\\u10ffff");
}

#[test]
fn hex_round_trip_on_unicode() {
    for s in ["", "alice", "pw12345678", "naïve café", "日本語", "\u{1f600}x\u{0}", "\\u0041", "a,b"] {
        assert_eq!(hex_decode(&hex_encode(s)), s);
    }
}

#[test]
fn hex_decode_skips_what_is_no_scalar() {
    assert_eq!(hex_decode("junk\\u0041"), "A");
    assert_eq!(hex_decode("\\u0041\\uzz\\u0042"), "AB");
    assert_eq!(hex_decode("\\ud800\\u0043"), "C");
    assert_eq!(hex_decode("\\u110000"), "");
    assert_eq!(hex_decode("\\u+41\\u-41"), "A");
    assert_eq!(hex_decode("\\u004A\\u004a"), "JJ");
    assert_eq!(hex_decode("\\u100000000"), "");
    assert_eq!(hex_decode("no marker"), "");
}

#[test]
fn sha512_of_known_messages() {
    assert_eq!(
        calculate_hash(String::from("abc")),
        "ddaf35a193617abacc417349ae20413112e6fa4e89a97ea20a9eeee64b55d39a\
         2192992a274fc1a836ba3c23a3feebbd454d4423643ce80e2a9ac94fa54ca49f"
    );
    assert_eq!(
        calculate_hash(String::new()),
        "cf83e1357eefb8bdf1542850d66d8007d620e4050b5715dc83f4a921d36ce9ce\
         47d0d13c5d85f2b0ff8318d2877eec2f63b931bd47417a81a538327af927da3e"
    );
}

#[test]
fn base64_round_trip() {
    for s in ["a", "alice", "a,b,c", "日本語", "??>>", "xx"] {
        assert_eq!(base64_decode(&base64_encode(s)), Ok(String::from(s)));
    }
}

#[test]
fn base64_uses_the_url_safe_alphabet_with_padding() {
    assert_eq!(base64_encode("??>>"), "Pz8-Pg==");
    assert_eq!(base64_encode("a"), "YQ==");
    assert_eq!(base64_decode("Pz8-Pg=="), Ok(String::from("??>>")));
}

#[test]
fn base64_of_nothing_carries_no_credentials() {
    assert_eq!(base64_encode(""), "");
    assert_eq!(base64_decode(""), Err("No credentials received"));
}

#[test]
fn base64_rejects_what_is_not_base64_or_not_text() {
    assert_eq!(base64_decode("!!!"), Err("Server was unable to decrypt the credentials"));
    assert_eq!(base64_decode("Pz8+Pg=="), Err("Server was unable to decrypt the credentials"));
    assert_eq!(base64_decode("_w=="), Err("Server was unable to decrypt the credentials"));
}

#[test]
fn keygen_yields_sixty_four_url_safe_characters() {
    let first = keygen();
    let second = keygen();
    for key in [&first, &second] {
        assert_eq!(key.chars().count(), 64);
        assert!(key.chars().all(|c| c.is_ascii_alphanumeric() || c == '-' || c == '_'));
    }
    assert_ne!(first, second);
}

#[test]
fn constant_time_eq_compares_whole_texts() {
    let a: Vec<char> = "abc".chars().collect();
    let b: Vec<char> = "abd".chars().collect();
    let c: Vec<char> = "ab".chars().collect();
    assert!(constant_time_eq(&a, &a.clone()));
    assert!(!constant_time_eq(&a, &b));
    assert!(!constant_time_eq(&a, &c));
}

#[test]
fn key_of_reads_the_alphabet_at_every_draw() {
    let in_order: Vec<usize> = (0..64).collect();
    assert_eq!(
        key_of(&in_order),
        "ABCDEFGHIJKLMNOPQRSTUVWXYZabcdefghijklmnopqrstuvwxyz0123456789-_"
    );
    let mut draws = vec![0usize; 64];
    draws[1] = 25;
    draws[2] = 26;
    draws[3] = 51;
    draws[4] = 52;
    draws[5] = 61;
    draws[6] = 62;
    draws[63] = 63;
    let key = key_of(&draws);
    assert_eq!(key, format!("AZaz09-{}_", "A".repeat(56)));
    assert_eq!(key.chars().count(), 64);
}

#[test]
fn terminal_styles_are_escape_sequences() {
    let f = rustream::display::format();
    assert_eq!(f.bold, "\u{1b}[1m");
    assert_eq!(f.underline, "\u{1b}[4m");
    assert_eq!(f.italic, "\u{1b}[3m");
    let c = colors();
    assert_eq!(c.green, "\u{1b}[92m");
    assert_eq!(c.yellow, "\u{1b}[93m");
    assert_eq!(c.red, "\u{1b}[91m");
    assert_eq!(c.end, "\u{1b}[0m");
    assert_eq!(c.light_green, "\u{1b}[32m");
}
