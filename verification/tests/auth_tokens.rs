use quicssh_rs::auth::{
    any_offered, any_token_valid, any_token_valid_at, current_window, message_for_window,
    secret_from_bytes, secret_from_value, token_for_window, tokens_at, valid_tokens, window_at, ENV_VAR, TOKEN_LEN,
    WINDOW_SECS,
};
use quicssh_rs::clock::whole_seconds;
use std::time::{SystemTime, UNIX_EPOCH};

const SECRET: &[u8] = b"your-shared-secret";

fn hex(bytes: &[u8]) -> String {
    bytes.iter().map(|b| format!("{:02x}", b)).collect()
}

#[test]
fn constants() {
    assert_eq!(ENV_VAR, "QUICSSH_AUTH_SECRET");
    assert_eq!(WINDOW_SECS, 30);
    assert_eq!(TOKEN_LEN, 32);
}

#[test]
fn secret_needs_a_value() {
    assert_eq!(secret_from_value(None), None);
    assert_eq!(secret_from_value(Some(String::new())), None);
    assert_eq!(secret_from_value(Some("ab".to_string())), Some(vec![0x61, 0x62]));
    assert_eq!(secret_from_value(Some("\u{e9}".to_string())), Some(vec![0xc3, 0xa9]));
}

#[test]
fn secret_need_not_be_text() {
    assert_eq!(secret_from_bytes(None), None);
    assert_eq!(secret_from_bytes(Some(vec![])), None);
    assert_eq!(secret_from_bytes(Some(vec![0xff, 0])), Some(vec![0xff, 0]));
    let text = "\u{e9}t\u{e9}";
    assert_eq!(
        secret_from_bytes(Some(text.as_bytes().to_vec())),
        secret_from_value(Some(text.to_string()))
    );
}

#[test]
fn windows_of_times() {
    assert_eq!(window_at(None), 0);
    assert_eq!(window_at(Some(0)), 0);
    assert_eq!(window_at(Some(29)), 0);
    assert_eq!(window_at(Some(30)), 1);
    assert_eq!(window_at(Some(1_710_000_000)), 57_000_000);
    assert_eq!(window_at(Some(u64::MAX)), u64::MAX / 30);
}

#[test]
fn current_window_follows_the_clock() {
    let secs = || SystemTime::now().duration_since(UNIX_EPOCH).unwrap().as_secs();
    let before = secs() / 30;
    let window = current_window();
    let after = secs() / 30;
    assert!(before <= window && window <= after);
}

#[test]
fn message_is_label_and_number() {
    let message = message_for_window(0x0102_0304_0506_0708);
    assert_eq!(message, b"quicssh-rs/v1\x01\x02\x03\x04\x05\x06\x07\x08".to_vec());
    assert_ne!(message_for_window(1), message_for_window(256));
}

#[test]
fn tokens_are_hmac_tags() {
    assert_eq!(
        hex(&token_for_window(SECRET, 0)),
        "b225e9853146ce37d353fccaa7e6b2659145660a56c0775f399e50c8250f9875"
    );
    assert_eq!(
        hex(&token_for_window(SECRET, 57_000_000)),
        "8c5e3be43610b82e70f34a3d743e7e721d27f50b95d86615b8b970afdd682ae1"
    );
    assert_eq!(
        hex(&token_for_window(b"", 1)),
        "b48fa632814281b55e2da92342a39c98996d7ae5558c972a1c20d247b95fe6d0"
    );
    assert_eq!(
        hex(&token_for_window(&[b'k'; 100], 0x0102_0304_0506_0708)),
        "e5cc541c4d29d38829754c7abe5a0bf2fbf2e696fc245e8a09adb68a26fded30"
    );
}

#[test]
fn accepted_tokens_are_of_three_windows() {
    let expected: Vec<Vec<u8>> =
        [6u64, 7, 8].iter().map(|w| token_for_window(SECRET, *w).to_vec()).collect();
    assert_eq!(tokens_at(SECRET, 7), expected);
}

#[test]
fn accepted_windows_wrap_around() {
    let first = tokens_at(SECRET, 0);
    assert_eq!(first[0], token_for_window(SECRET, u64::MAX).to_vec());
    let last = tokens_at(SECRET, u64::MAX);
    assert_eq!(last[2], token_for_window(SECRET, 0).to_vec());
}

#[test]
fn valid_tokens_are_those_of_now() {
    let before = current_window();
    let tokens = valid_tokens(SECRET);
    let after = current_window();
    assert!((before..=after).any(|now| tokens == tokens_at(SECRET, now)));
}

#[test]
fn offers_are_compared_as_bytes() {
    let valid = vec![vec![1u8, 2, 3], vec![4, 5]];
    assert!(any_offered(&valid, &[&[9], &[4, 5]]));
    assert!(any_offered(&valid, &[&[1, 2, 3]]));
    assert!(any_offered(&valid, &[&[1, 2, 3], &[9], &[8, 7]]));
    assert!(!any_offered(&valid, &[&[1, 2], &[4, 5, 6], &[1, 2, 4], &[]]));
    assert!(!any_offered(&valid, &[]));
    assert!(!any_offered(&[], &[&[1]]));
}

#[test]
fn token_of_now_is_valid() {
    let token = token_for_window(SECRET, current_window());
    assert!(any_token_valid(SECRET, &[b"h3", &token]));
    assert!(!any_token_valid(b"another secret", &[&token]));
    assert!(!any_token_valid(SECRET, &[&token[..31]]));
    assert!(!any_token_valid(SECRET, &[]));
}

#[test]
fn skewed_clock_is_tolerated() {
    let server = 1_710_000_015;
    for client in [server - 30, server - 16, server, server + 15, server + 30] {
        let token = token_for_window(SECRET, window_at(Some(client)));
        assert!(any_token_valid_at(SECRET, &[&token], window_at(Some(server))));
    }
}

#[test]
fn old_token_expires() {
    let made = 1_710_000_015;
    let token = token_for_window(SECRET, window_at(Some(made)));
    for server in [made - 60, made + 60, made + 86_400] {
        assert!(!any_token_valid_at(SECRET, &[&token], window_at(Some(server))));
    }
}

#[test]
fn seconds_are_cut_off() {
    assert_eq!(whole_seconds(None), None);
    assert_eq!(whole_seconds(Some((0, 999_999_999))), Some(0));
    assert_eq!(whole_seconds(Some((1_710_000_015, 500_000_000))), Some(1_710_000_015));
}
