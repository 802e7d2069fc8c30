use bms_utils::chart::{build, convert_channels};
use bms_utils::lex::{chars_of, escaped_string, lex_line};
use bms_utils::token::{Command, Decimal, Token};
use bms_utils::{Channel, FixedDraws, RawBms};

fn cmd(line: &str) -> Command {
    match lex_line(line) {
        Some(Token::Command(c)) => c,
        other => panic!("not a command: {:?}", other),
    }
}

#[test]
fn escapes_in_quoted_strings() {
    let q = |t: &str| escaped_string(&chars_of(t), 0).map(|(s, e)| (s, e));
    assert_eq!(q(r#""a\/b""#), Some((String::from("a/b"), 6)));
    assert_eq!(q(r#""x\u{41}y""#), Some((String::from("xAy"), 10)));
    assert_eq!(q("\"a\\  \n b\""), Some((String::from("ab"), 9)));
    assert_eq!(q(r#""\u{D800}""#), None);
    assert_eq!(q(r#""\u{1234567}""#), None);
    assert_eq!(q(r#""\q""#), None);
    assert_eq!(q(r#""open"#), None);
    assert_eq!(q("plain"), None);
    assert_eq!(cmd("#TITLE \"\\u{110000}\""), Command::Title(String::from("\"\\u{110000}\"")));
}

#[test]
fn channels_convert_in_either_base() {
    let chs = vec![Channel::from("0z"), Channel::from("Z0")];
    assert_eq!(convert_channels(&chs, false), vec![35, 1260]);
    assert_eq!(convert_channels(&chs, true), vec![61, 35 * 62]);
}

#[test]
fn builder_uses_base62_when_marker_present() {
    let a = cmd("#WAVaZ x.wav");
    let b = cmd("#BASE 62");
    let chart = build(&vec![&a]);
    assert_eq!(chart.wav.get(&(10 * 36 + 35)).map(|s| s.as_str()), Some("x.wav"));
    let chart = build(&vec![&a, &b]);
    assert_eq!(chart.wav.get(&(36 * 62 + 35)).map(|s| s.as_str()), Some("x.wav"));
}

#[test]
fn later_map_entries_replace_earlier_ones() {
    let a = cmd("#BPM01 120");
    let b = cmd("#BPM01 150");
    let c = cmd("#STOP01 48");
    let chart = build(&vec![&a, &b, &c]);
    assert_eq!(chart.ex_bpm.get(&1).map(|d| d.text.as_str()), Some("150"));
    assert_eq!(chart.stop.get(&1), Some(&&Decimal { text: String::from("48") }));
}

#[test]
fn extended_records_are_kept() {
    let src = "#ExtChr 5 7 1 2 3 4 5 6\n#SWBGA01 100:400:16:1:1,2,3,4 0102\n#BGA02 03 1 2 3 4 5 6\n#EXWAV01 p 10 a.wav\n#EXBMP01 1,2,3,4 b.bmp\n#ARGB02 9,8,7,6";
    let raw = RawBms::parse(src).unwrap();
    let bms = raw.make_bms(&mut FixedDraws::new(vec![]));
    let ex = bms.ex_character.unwrap();
    assert_eq!((ex.sprite_num, ex.bmp), (5, 7));
    assert_eq!(ex.offset.map(|p| p[0].text.clone()), Some(String::from("5")));
    assert!(ex.abs_pos.is_none());
    let sw = bms.switch_bga.get(&1).unwrap();
    assert_eq!(sw.2, 36 + 16 - 10);
    assert!(sw.3);
    assert_eq!(sw.4, &[1, 2, 3, 4]);
    assert_eq!(sw.5.len(), 2);
    let bga = bms.bga.get(&2).unwrap();
    assert_eq!(bga.0, 3);
    assert_eq!(bga.1[2][1].text, "6");
    let exwav = bms.ex_wav.get(&1).unwrap();
    assert_eq!(exwav.0[0].as_ref().map(|d| d.text.as_str()), Some("10"));
    assert_eq!(exwav.1.as_str(), "a.wav");
    assert_eq!(bms.ex_bmp.get(&1).map(|(a, s)| (**a, s.as_str())), Some(([1, 2, 3, 4], "b.bmp")));
    assert_eq!(bms.argb.get(&2), Some(&&[9, 8, 7, 6]));
}

#[test]
fn measures_between_are_created_empty() {
    let raw = RawBms::parse("#00301:01").unwrap();
    let bms = raw.make_bms(&mut FixedDraws::new(vec![]));
    assert_eq!(bms.main_data.len(), 4);
    for k in 0..3 {
        assert!(bms.main_data[k].bgm.is_empty());
        assert!(bms.main_data[k].notes.is_empty());
    }
    assert_eq!(bms.main_data[3].bgm, vec![vec![1]]);
}

#[test]
fn tempo_bytes_and_other_main_data() {
    let raw = RawBms::parse("#00003:0A00\n#00009:0101").unwrap();
    let bms = raw.make_bms(&mut FixedDraws::new(vec![]));
    assert_eq!(bms.main_data[0].bpm.len(), 1);
    assert_eq!(bms.main_data[0].bpm[0], &vec![Some(10), None]);
    assert_eq!(bms.main_data[0].other.len(), 1);
    assert_eq!(bms.main_data[0].other[0].0, 9);
    assert_eq!(bms.main_data[0].other[0].1.as_str(), "0101");
}
