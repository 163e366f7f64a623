use cowcat::crypto::{compute_ip_hash, compute_ua_hash, generate_random_id, generate_random_seed, pad_secret, build_server_secret};
use cowcat::page::image_data;
use cowcat::token::{open_token, seal_token, sign};
use cowcat::pow::{count_leading_zero_bits, meets_difficulty, pow_preimage, push_decimal, verify_pow};
use cowcat::task_store::{IpHash, Scope, Seed, Task, TaskId, UaHash};

fn task(bits: u32) -> Task {
    Task {
        task_id: TaskId("t".to_string()),
        seed: Seed("s".to_string()),
        bits,
        exp: 5,
        scope: Scope("h".to_string()),
        ua_hash: UaHash("u".to_string()),
        ip_hash: IpHash(String::new()),
    }
}

#[test]
fn server_secret_padding() {
    assert_eq!(pad_secret("abc", 6), "abc000");
    assert_eq!(pad_secret("abcdefg", 6), "abcdefg");
    assert_eq!(build_server_secret("  salt ").unwrap(), "salt0000000000000000000000000000");
    let generated = build_server_secret("").unwrap();
    assert_eq!(generated.len(), 32);
    assert!(generated.chars().all(|c| c.is_ascii_hexdigit()));
}

#[test]
fn ua_hash_is_short_padded_b64() {
    assert_eq!(compute_ua_hash(""), "47DEQpj8HBQ=");
    assert_eq!(compute_ua_hash("A"), "VZrq0IJk1Xk=");
}

#[test]
fn ip_hash_empty_and_value() {
    assert_eq!(compute_ip_hash(""), "");
    assert_eq!(compute_ip_hash("10.0.0.1"), "9QRzRBIvDe4=");
}

#[test]
fn random_id_and_seed_shapes() {
    let id = generate_random_id().unwrap();
    assert_eq!(id.len(), 32);
    assert!(id.chars().all(|c| c.is_ascii_hexdigit() && !c.is_ascii_uppercase()));
    let seed = generate_random_seed().unwrap();
    assert_eq!(seed.len(), 44);
    assert_ne!(generate_random_id().unwrap(), id);
}

#[test]
fn base64_variants() {
    assert_eq!(image_data(&[0xfb, 0xff]), "+/8=");
    assert_eq!(image_data(&[]), "");
    let token = seal_token("k", &[0xfb, 0xff]);
    assert!(token.starts_with("-_8."));
    assert_eq!(open_token("k", &token), Some(vec![0xfb, 0xff]));
    let sig = sign("k", b"-_9");
    assert_eq!(open_token("k", &format!("-_9.{}", sig)), None);
    let sig = sign("k", b"-_8");
    assert_eq!(open_token("k", &format!("-_8==.{}", sig)), Some(vec![0xfb, 0xff]));
}

#[test]
fn leading_zero_bits_across_bytes() {
    assert_eq!(count_leading_zero_bits(&[0x00, 0x0f, 0xff]), 12);
    assert_eq!(count_leading_zero_bits(&[0x80]), 0);
    assert_eq!(count_leading_zero_bits(&[0x01]), 7);
    assert_eq!(count_leading_zero_bits(&[0, 0]), 16);
    assert_eq!(count_leading_zero_bits(&[]), 0);
    assert!(meets_difficulty(&[0x00, 0x0f], 12));
    assert!(!meets_difficulty(&[0x00, 0x0f], 13));
}

#[test]
fn decimal_rendering() {
    let mut b = Vec::new();
    push_decimal(&mut b, -120);
    push_decimal(&mut b, 0);
    push_decimal(&mut b, i64::MIN);
    assert_eq!(String::from_utf8(b).unwrap(), format!("-1200{}", i64::MIN));
}

#[test]
fn preimage_layout() {
    let p = pow_preimage(&task(0), "n");
    assert_eq!(p, b"v1|s|5|0|h|u|n".to_vec());
}

#[test]
fn pow_zero_bits_always_passes() {
    assert!(verify_pow(&task(0), "anything"));
}

#[test]
fn pow_matches_digest_of_preimage() {
    let t = task(4);
    let solutions = [18, 39, 50, 53, 76, 79, 92, 95, 129, 147, 149, 166, 174, 186];
    for i in 0..200 {
        assert_eq!(verify_pow(&t, &i.to_string()), solutions.contains(&i), "nonce {}", i);
    }
}
