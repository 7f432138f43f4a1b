//! The stable-identifier scheme and the IEEE fixed-point reader.

use base64::Engine;
use taimi_markers::geom::ieee_milli_exec;
use taimi_markers::guid::{contains_guid, fresh_guid, taco_token_to_guid};

fn u128_le(bytes: &[u8; 16]) -> u128 {
    let mut acc: u128 = 0;
    for i in (0..16).rev() {
        acc = acc * 256 + bytes[i] as u128;
    }
    acc
}

#[test]
fn sixteen_byte_tokens_decode_directly() {
    let raw: [u8; 16] = [1, 2, 3, 4, 5, 6, 7, 8, 9, 10, 11, 12, 13, 14, 15, 16];
    let token = base64::engine::general_purpose::STANDARD.encode(raw);
    assert_eq!(taco_token_to_guid(&token), u128_le(&raw));
}

#[test]
fn other_tokens_hash_deterministically() {
    let digest = md5::compute("hello world").0;
    assert_eq!(taco_token_to_guid("hello world"), u128_le(&digest));
    // the scheme is a function of the token alone
    assert_eq!(taco_token_to_guid("abc"), taco_token_to_guid("abc"));
    assert_ne!(taco_token_to_guid("abc"), taco_token_to_guid("abd"));
}

#[test]
fn fresh_identifiers_avoid_the_used_set() {
    let used: Vec<u128> = vec![0, 1, 2, 3];
    let id = fresh_guid(&used);
    assert!(!used.contains(&id));
    assert!(contains_guid(&used, 2));
    assert!(!contains_guid(&used, 9));
}

#[test]
fn ieee_values_read_in_thousandths() {
    assert_eq!(ieee_milli_exec(1.0f32.to_bits()), Some(1000));
    assert_eq!(ieee_milli_exec(0.5f32.to_bits()), Some(500));
    assert_eq!(ieee_milli_exec((-2.25f32).to_bits()), Some(-2250));
    assert_eq!(ieee_milli_exec(0.0f32.to_bits()), Some(0));
    assert_eq!(ieee_milli_exec(f32::NAN.to_bits()), None);
    assert_eq!(ieee_milli_exec(f32::INFINITY.to_bits()), None);
    assert_eq!(ieee_milli_exec(123.125f32.to_bits()), Some(123125));
}
