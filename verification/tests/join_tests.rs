use uchat::text::{push_decimal, to_lower_hex};
use uchat::join::{shifted_secs, TimeSpan};
use uchat::{JoinConfig, Message, UChatAuthLevel};

fn text(s: &str) -> Message {
    Message::Text(s.to_string())
}

fn full_config() -> JoinConfig {
    JoinConfig::new("room".to_string())
        .token(Some("TK".to_string()))
        .nick(Some("nick".to_string()))
        .id(Some("id".to_string()))
        .level(Some("lv".to_string()))
        .auth(UChatAuthLevel::Member)
        .icon(Some("ic".to_string()))
        .nickcon(Some("nc".to_string()))
        .other(Some("ot".to_string()))
        .password(Some("pw".to_string()))
        .client_token(Some("ct".to_string()))
        .profile_image(Some("pi".to_string()))
}

#[test]
fn new_config_is_bare() {
    let jc = JoinConfig::new("r".to_string());
    assert_eq!(jc.room, "r");
    assert_eq!(jc.token, None);
    assert_eq!(jc.auth, UChatAuthLevel::NoLevel);
    assert_eq!(jc.profile_image, None);
}

#[test]
fn implode_orders_values() {
    let jc = full_config();
    assert_eq!(
        jc.implode("|", &"100".to_string()),
        "member|ic|id|lv|nick|nc|ot|room|100||"
    );
    let bare = JoinConfig::new("room".to_string());
    assert_eq!(bare.implode("#", &"7".to_string()), "room#7##");
}

#[test]
fn join_hash_is_md5_of_implode() {
    let jc = full_config();
    let time = "100".to_string();
    let expected = format!("{:x}", md5::compute(jc.implode("TK", &time).as_bytes()));
    assert_eq!(jc.join_hash("TK", &time), expected);
    assert_eq!(expected.len(), 32);
}

#[test]
fn lower_hex_and_decimal() {
    assert_eq!(to_lower_hex(&[0x00, 0x0f, 0xab, 0xff]), "000fabff");
    let mut s = String::from("t=");
    push_decimal(&mut s, 0);
    assert_eq!(s, "t=0");
    let mut s = String::new();
    push_decimal(&mut s, 18446744073709551615);
    assert_eq!(s, "18446744073709551615");
}

#[test]
fn join_message_fields() {
    let jc = JoinConfig::new("room".to_string()).nick(Some("n".to_string()));
    let m = jc.join_message("S".to_string(), None, String::new()).unwrap();
    assert_eq!(
        m,
        vec![
            text("j"),
            text("room"),
            text("n"),
            text(""),
            text(""),
            text(""),
            text(""),
            text(""),
            Message::Null,
            text(""),
            text("S"),
            text("utf-8"),
            text(""),
            Message::Null,
            Message::Null,
            Message::Null,
        ]
    );
}

#[test]
fn build_from_without_token_leaves_hash_and_time_empty() {
    let jc = JoinConfig::new("room".to_string());
    let m = jc.build_from("S".to_string(), 1234).unwrap();
    assert_eq!(m[9], text(""));
    assert_eq!(m[12], text(""));
}

#[test]
fn build_from_with_token_hashes_at_the_time() {
    let jc = full_config();
    let m = jc.build_from("S".to_string(), 1234).unwrap();
    let expected = format!("{:x}", md5::compute(jc.implode("TK", &"1234".to_string()).as_bytes()));
    assert_eq!(m.len(), 16);
    assert_eq!(m[8], text("ot"));
    assert_eq!(m[9], Message::Text(expected));
    assert_eq!(m[10], text("S"));
    assert_eq!(m[12], text("1234"));
    assert_eq!(m[13], text("pw"));
    assert_eq!(m[14], text("ct"));
    assert_eq!(m[15], text("pi"));
}

#[test]
fn build_makes_a_session_id() {
    let jc = full_config();
    let m = jc.build().unwrap();
    assert_eq!(m.len(), 16);
    match &m[10] {
        Message::Text(s) => {
            assert_eq!(s.len(), 32);
            assert!(s.chars().all(|c| c.is_ascii_alphanumeric()));
        }
        _ => panic!("session id is not a text"),
    }
    match &m[12] {
        Message::Text(t) => assert!(!t.is_empty() && t.chars().all(|c| c.is_ascii_digit())),
        _ => panic!("time is not a text"),
    }
}

#[test]
fn build_with_time_shifts_the_clock() {
    let jc = full_config();
    let m = jc.build_with_time(TimeSpan::new(1_000_000, 0)).unwrap();
    let now = std::time::SystemTime::now()
        .duration_since(std::time::UNIX_EPOCH)
        .unwrap()
        .as_secs();
    match &m[12] {
        Message::Text(t) => {
            let secs: u64 = t.parse().unwrap();
            assert!(secs >= now + 1_000_000 - 5 && secs <= now + 1_000_000 + 5);
        }
        _ => panic!("time is not a text"),
    }
}

#[test]
fn rank_goes_in_the_sixth_field() {
    let c = JoinConfig::new("room".to_string())
        .nick(Some("nick".to_string()))
        .auth(UChatAuthLevel::Admin);
    let r = c.build_with_time(TimeSpan::new(0, 0)).unwrap();
    assert_eq!(r.len(), 16);
    assert_eq!(
        r[0..10].to_vec(),
        vec![
            text("j"),
            text("room"),
            text("nick"),
            text(""),
            text(""),
            text("admin"),
            text(""),
            text(""),
            Message::Null,
            text(""),
        ]
    );
    assert_eq!(
        r[11..16].to_vec(),
        vec![text("utf-8"), text(""), Message::Null, Message::Null, Message::Null]
    );
}

#[test]
fn shifted_seconds() {
    assert_eq!(shifted_secs(None, TimeSpan::new(5, 0)), 5);
    assert_eq!(shifted_secs(Some(TimeSpan::new(10, 600_000_000)), TimeSpan::new(5, 500_000_000)), 16);
    assert_eq!(shifted_secs(Some(TimeSpan::new(10, 400_000_000)), TimeSpan::new(5, 500_000_000)), 15);
    assert_eq!(shifted_secs(Some(TimeSpan::new(u64::MAX, 0)), TimeSpan::new(1, 0)), u64::MAX);
}

#[test]
fn build_at_uses_the_shifted_clock() {
    let jc = full_config();
    let m = jc
        .build_at("S".to_string(), Some(TimeSpan::new(1000, 700_000_000)), TimeSpan::new(200, 300_000_000))
        .unwrap();
    assert_eq!(m[12], text("1201"));
    let expected = format!("{:x}", md5::compute(jc.implode("TK", &"1201".to_string()).as_bytes()));
    assert_eq!(m[9], Message::Text(expected));
    let before_epoch = jc.build_at("S".to_string(), None, TimeSpan::new(7, 0)).unwrap();
    assert_eq!(before_epoch[12], text("7"));
}

#[test]
fn join_hash_is_32_hex_digits() {
    let h = full_config().join_hash("TK", &"1".to_string());
    assert_eq!(h.len(), 32);
    assert!(h.chars().all(|c| c.is_ascii_digit() || ('a'..='f').contains(&c)));
}

#[test]
fn build_with_token_sends_a_32_digit_hash() {
    let m = full_config().build().unwrap();
    match &m[9] {
        Message::Text(h) => {
            assert_eq!(h.len(), 32);
            assert!(h.chars().all(|c| c.is_ascii_digit() || ('a'..='f').contains(&c)));
        }
        _ => panic!("hash is not a text"),
    }
}

#[test]
fn zero_shift_keeps_the_clock_seconds() {
    assert_eq!(shifted_secs(Some(TimeSpan::new(1234, 999_999_999)), TimeSpan::new(0, 0)), 1234);
    assert_eq!(shifted_secs(None, TimeSpan::new(0, 0)), 0);
    let jc = full_config();
    let clock = Some(TimeSpan::new(1234, 5));
    assert_eq!(
        jc.build_at("S".to_string(), clock, TimeSpan::new(0, 0)).unwrap(),
        jc.build_from("S".to_string(), 1234).unwrap()
    );
}
