use bms_utils::new_bms::Channel as StrictChannel;
use bms_utils::Channel;

#[test]
fn token_channel_to_number() {
    let zero1 = Channel::from("0");
    let zero2 = Channel::from("00");
    let one = Channel::from("1");
    let ua = Channel::from("A");
    let uz = Channel::from("Z");
    let la = Channel::from("a");
    let lz = Channel::from("z");
    let ten = Channel::from("10");
    let invalid = Channel::from("テスト");

    assert_eq!(zero1.to_base_36(), 0);
    assert_eq!(zero1.to_base_62(), 0);

    assert_eq!(zero2.to_base_36(), 0);
    assert_eq!(zero2.to_base_62(), 0);

    assert_eq!(one.to_base_36(), 1);
    assert_eq!(one.to_base_62(), 1);

    assert_eq!(ua.to_base_36(), 10);
    assert_eq!(ua.to_base_62(), 10);

    assert_eq!(uz.to_base_36(), 35);
    assert_eq!(uz.to_base_62(), 35);

    assert_eq!(la.to_base_36(), 10);
    assert_eq!(la.to_base_62(), 36);

    assert_eq!(lz.to_base_36(), 35);
    assert_eq!(lz.to_base_62(), 61);

    assert_eq!(ten.to_base_36(), 36);
    assert_eq!(ten.to_base_62(), 62);

    assert_eq!(invalid.to_base_36(), 0);
    assert_eq!(invalid.to_base_62(), 0);
}

#[test]
fn channel_to_number() {
    let zero1 = StrictChannel::new("0").unwrap();
    let zero2 = StrictChannel::new("00").unwrap();
    let one = StrictChannel::new("1").unwrap();
    let ua = StrictChannel::new("A").unwrap();
    let uz = StrictChannel::new("Z").unwrap();
    let la = StrictChannel::new("a").unwrap();
    let lz = StrictChannel::new("z").unwrap();
    let ten = StrictChannel::new("10").unwrap();
    assert!(StrictChannel::new("テスト").is_none());

    assert_eq!(zero1.to_base_36(), 0);
    assert_eq!(zero1.to_base_62(), 0);
    assert_eq!(zero2.to_base_36(), 0);
    assert_eq!(zero2.to_base_62(), 0);
    assert_eq!(one.to_base_36(), 1);
    assert_eq!(one.to_base_62(), 1);
    assert_eq!(ua.to_base_36(), 10);
    assert_eq!(ua.to_base_62(), 10);
    assert_eq!(uz.to_base_36(), 35);
    assert_eq!(uz.to_base_62(), 35);
    assert_eq!(la.to_base_36(), 10);
    assert_eq!(la.to_base_62(), 36);
    assert_eq!(lz.to_base_36(), 35);
    assert_eq!(lz.to_base_62(), 61);
    assert_eq!(ten.to_base_36(), 36);
    assert_eq!(ten.to_base_62(), 62);
}

#[test]
fn base36_ignores_letter_case() {
    for (a, b) in [("ab", "AB"), ("zz", "ZZ"), ("a0", "A0"), ("0z", "0Z"), ("mQ", "Mq")] {
        assert_eq!(Channel::from(a).to_base_36(), Channel::from(b).to_base_36());
    }
    assert_eq!(Channel::from("zz").to_base_36(), 1295);
}

#[test]
fn base62_tells_letter_case() {
    assert_ne!(Channel::from("a0").to_base_62(), Channel::from("A0").to_base_62());
    assert_eq!(Channel::from("a0").to_base_62(), 36 * 62);
    assert_eq!(Channel::from("A0").to_base_62(), 10 * 62);
    assert_eq!(Channel::from("zz").to_base_62(), 3843);
}

#[test]
fn single_character_is_padded_with_zero() {
    for c in ["0", "7", "A", "q", "z"] {
        let padded = format!("0{}", c);
        assert_eq!(Channel::from(c).to_base_36(), Channel::from(padded.as_str()).to_base_36());
        assert_eq!(Channel::from(c).to_base_62(), Channel::from(padded.as_str()).to_base_62());
    }
}

#[test]
fn base_choice_follows_flag() {
    let ch = Channel::from("zZ");
    assert_eq!(ch.to_base_36_or_62(false), ch.to_base_36());
    assert_eq!(ch.to_base_36_or_62(true), ch.to_base_62());
    assert_eq!(ch.to_base_36_or_62(true), 61 * 62 + 35);
    assert_eq!(ch.to_base_36_or_62(false), 35 * 36 + 35);
}

#[test]
fn only_first_two_bytes_count() {
    assert_eq!(Channel::from("10ZZ").to_base_36(), 36);
    assert_eq!(Channel::from("").to_base_62(), 0);
}
