use bms_utils::lex::{channel_at, chars_of, lex, lex_line, one_space, quoted_or_no_quote, space0, space1};
use bms_utils::token::{Command, ControlFlow, Decimal, MainDataValue, Token};
use bms_utils::Channel;

fn d(t: &str) -> Decimal {
    Decimal { text: t.to_string() }
}

fn cmd(line: &str) -> Command {
    match lex_line(line) {
        Some(Token::Command(c)) => c,
        other => panic!("not a command: {:?}", other),
    }
}

fn flow(line: &str) -> ControlFlow {
    match lex_line(line) {
        Some(Token::ControlFlow(c)) => c,
        other => panic!("not a marker: {:?}", other),
    }
}

fn other(a: &str, b: &str) -> Command {
    Command::Other(a.to_string(), b.to_string())
}

#[test]
fn space_test() {
    let s = chars_of("  test");
    assert_eq!(one_space(&s, 0), Some(1));
    let s = chars_of("　　test");
    assert_eq!(one_space(&s, 0), Some(1));
    let s = chars_of("\t\ttest");
    assert_eq!(one_space(&s, 0), Some(1));
    let s = chars_of("\n\ntest");
    assert_eq!(one_space(&s, 0), Some(1));
    assert_eq!(one_space(&chars_of("てすと"), 0), None);

    assert_eq!(space0(&chars_of("  test"), 0), 2);
    assert_eq!(space0(&chars_of("　　test"), 0), 2);
    assert_eq!(space0(&chars_of("\t\ttest"), 0), 2);
    assert_eq!(space0(&chars_of("\n\ntest"), 0), 2);
    assert_eq!(space0(&chars_of("てすと"), 0), 0);

    assert_eq!(space1(&chars_of("  test"), 0), Some(2));
    assert_eq!(space1(&chars_of("　　test"), 0), Some(2));
    assert_eq!(space1(&chars_of("\t\ttest"), 0), Some(2));
    assert_eq!(space1(&chars_of("\n\ntest"), 0), Some(2));
    assert_eq!(space1(&chars_of("てすと"), 0), None);
}

#[test]
fn channel_test() {
    for (text, ch) in [("00?", "00"), ("99?", "99"), ("FF?", "FF"), ("ZZ?", "ZZ"), ("ff?", "ff"), ("zz?", "zz")] {
        assert_eq!(channel_at(&chars_of(text), 0), Some((Channel::from(ch), 2)));
    }
    assert!(channel_at(&chars_of("てすと"), 0).is_none());
}

#[test]
fn quoted_or_no_quote_test() {
    let q = |t: &str| quoted_or_no_quote(t, &chars_of(t), 0);
    assert_eq!(q(r#""Test""#), String::from("Test"));
    assert_eq!(q(r#"Test"#), String::from("Test"));
    assert_eq!(q(r#""\n\r\t\\\"""#), String::from("\n\r\t\\\""));
    assert_eq!(q(r#""\u{2014}""#), String::from("\u{2014}"));
}

#[test]
fn command_test() {
    // PLAYER
    assert_eq!(cmd("#PLAYER 1"), Command::Player(1));
    assert_eq!(cmd("#player 2"), Command::Player(2));
    assert_eq!(cmd("#PLAYER 0"), other("PLAYER", "0"));
    assert_eq!(cmd("#Player 5"), other("Player", "5"));
    // RANK
    assert_eq!(cmd("#RANK 0"), Command::Rank(0));
    assert_eq!(cmd("#rank 100"), Command::Rank(100));
    assert_eq!(cmd("#Rank -100"), Command::Rank(-100));
    // DEFEXRANK
    assert_eq!(cmd("#DEFEXRANK 0"), Command::DefExRank(d("0")));
    assert_eq!(cmd("#defexrank 100.5"), Command::DefExRank(d("100.5")));
    assert_eq!(cmd("#DefExRank -123e-7"), Command::DefExRank(d("-123e-7")));
    // EXRANK
    assert_eq!(cmd("#EXRANK01 0"), Command::ExRank(Channel::from("01"), d("0")));
    assert_eq!(cmd("#exrankZZ 100.5"), Command::ExRank(Channel::from("ZZ"), d("100.5")));
    assert_eq!(cmd("#ExRankff -123E-7"), Command::ExRank(Channel::from("ff"), d("-123E-7")));
    // TOTAL, VOLWAV
    assert_eq!(cmd("#TOTAL 250"), Command::Total(d("250")));
    assert_eq!(cmd("#total 12345.6789e123"), Command::Total(d("12345.6789e123")));
    assert_eq!(cmd("#VOLWAV 100"), Command::VolumeWav(d("100")));
    assert_eq!(cmd("#volwav 123.4"), Command::VolumeWav(d("123.4")));
    // file names
    assert_eq!(cmd("#STAGEFILE image.bmp"), Command::StageFile(String::from("image.bmp")));
    assert_eq!(cmd("#stagefile 画像.png"), Command::StageFile(String::from("画像.png")));
    assert_eq!(cmd("#BANNER banner.jpg"), Command::Banner(String::from("banner.jpg")));
    assert_eq!(cmd("#backbmp 背景.jpg"), Command::BackBmp(String::from("背景.jpg")));
    assert_eq!(cmd("#CHARFILE character.chp"), Command::CharacterFile(String::from("character.chp")));
    // PLAYLEVEL, DIFFICULTY
    assert_eq!(cmd("#PLAYLEVEL 12"), Command::PlayLevel(12));
    assert_eq!(cmd("#playlevel 999"), Command::PlayLevel(999));
    assert_eq!(cmd("#DIFFICULTY 1"), Command::Difficulty(1));
    assert_eq!(cmd("#difficulty 5"), Command::Difficulty(5));
    // TITLE
    assert_eq!(cmd("#TITLE \"title\""), Command::Title(String::from("title")));
    assert_eq!(cmd("#title タイトル"), Command::Title(String::from("タイトル")));
    assert_eq!(cmd("#Title  　ABC　 "), Command::Title(String::from(" 　ABC　 ")));
    // SUBTITLE, ARTIST, SUBARTIST, MAKER, GENRE
    assert_eq!(cmd("#SUBTITLE sub_title"), Command::SubTitle(String::from("sub_title")));
    assert_eq!(cmd("#SubTitle \tLOVE♡SHINE\t"), Command::SubTitle(String::from("\tLOVE♡SHINE\t")));
    assert_eq!(cmd("#artist アーティスト"), Command::Artist(String::from("アーティスト")));
    assert_eq!(cmd("#SUBARTIST sub_artist"), Command::SubArtist(String::from("sub_artist")));
    assert_eq!(cmd("#maker 譜面制作者"), Command::Maker(String::from("譜面制作者")));
    assert_eq!(cmd("#GENRE genre"), Command::Genre(String::from("genre")));
    // COMMENT
    assert_eq!(cmd("#COMMENT \"comment\""), Command::Comment(String::from("comment")));
    assert_eq!(cmd("#comment コメント"), Command::Comment(String::from("コメント")));
    assert_eq!(cmd("#Comment \"𠮷野家\""), Command::Comment(String::from("𠮷野家")));
    // TEXT, SONG
    assert_eq!(cmd("#TEXT01 \"歌詞\""), Command::Text(Channel::from("01"), String::from("歌詞")));
    assert_eq!(cmd("#songzz \"瑕疵\""), Command::Text(Channel::from("zz"), String::from("瑕疵")));
    // PATH_WAV
    assert_eq!(cmd("#PATH_WAV C:/path/to/wav"), Command::PathWav(String::from("C:/path/to/wav")));
    // BPM, EXBPM, BASEBPM
    assert_eq!(cmd("#BPM 120"), Command::Bpm(d("120")));
    assert_eq!(cmd("#BPM 222.22"), Command::Bpm(d("222.22")));
    assert_eq!(cmd("#BPM01 1.2e-10"), Command::ExBpm(Channel::from("01"), d("1.2e-10")));
    assert_eq!(cmd("#EXBPM01 1.2e-10"), Command::ExBpm(Channel::from("01"), d("1.2e-10")));
    assert_eq!(cmd("#bpmzz 123456789"), Command::ExBpm(Channel::from("zz"), d("123456789")));
    assert_eq!(cmd("#exbpmzz 123456789."), Command::ExBpm(Channel::from("zz"), d("123456789.")));
    assert_eq!(cmd("#BASEBPM 80."), Command::BaseBpm(d("80.")));
    // STOP, STP
    assert_eq!(cmd("#STOP01 192"), Command::Stop(Channel::from("01"), d("192")));
    assert_eq!(cmd("#stopzz 1e20"), Command::Stop(Channel::from("zz"), d("1e20")));
    assert_eq!(cmd("#STP 000.000 1000"), Command::Stp(0, 0, d("1000")));
    assert_eq!(cmd("#stp 999.999 0.1"), Command::Stp(999, 999, d("0.1")));
    assert_eq!(cmd("#stp 500.1000 500"), other("stp", "500.1000 500"));
    // LNTYPE, LNOBJ, OCT/FP
    assert_eq!(cmd("#LNTYPE 1"), Command::LnType(1));
    assert_eq!(cmd("#lntype 2"), Command::LnType(2));
    assert_eq!(cmd("#LnType 0"), other("LnType", "0"));
    assert_eq!(cmd("#LNTYPE 3"), other("LNTYPE", "3"));
    assert_eq!(cmd("#LNOBJ 01"), Command::LnObject(Channel::from("01")));
    assert_eq!(cmd("#lnobj zz"), Command::LnObject(Channel::from("zz")));
    assert_eq!(cmd("#OCT/FP"), Command::OctFp);
    assert_eq!(cmd("#oct/fp"), Command::OctFp);
    // OPTION, CHANGEOPTION
    assert_eq!(
        cmd("#option GameName:OptionStr"),
        Command::Option(String::from("GameName"), String::from("OptionStr"))
    );
    assert_eq!(
        cmd("#OPTION 774:HI-SPEED_x99.75"),
        Command::Option(String::from("774"), String::from("HI-SPEED_x99.75"))
    );
    assert_eq!(
        cmd("#CHANGEOPTION01 charatbeatHDX:LONGMODE 0"),
        Command::ChangeOption(Channel::from("01"), String::from("charatbeatHDX"), String::from("LONGMODE 0"))
    );
    // WAV, WAVCMD
    assert_eq!(cmd("#WAV01 base.wav"), Command::Wav(Channel::from("01"), String::from("base.wav")));
    assert_eq!(cmd("#WAVzz kick.ogg"), Command::Wav(Channel::from("zz"), String::from("kick.ogg")));
    assert_eq!(cmd("#WAVCMD 00 01 60"), Command::WavCommand(0, Channel::from("01"), d("60")));
    assert_eq!(cmd("#wavcmd 02 zz 2000."), Command::WavCommand(2, Channel::from("zz"), d("2000.")));
    assert_eq!(cmd("#WavCmd 03 zz 2000."), other("WavCmd", "03 zz 2000."));
    // EXWAV
    assert_eq!(
        cmd("#EXWAV01 vfp -50 100 -10000 aaa.wav"),
        Command::ExWav(Channel::from("01"), [Some(d("-10000")), Some(d("-50")), Some(d("100"))], String::from("aaa.wav"))
    );
    assert_eq!(
        cmd("#exwavzz   P            500 aaa.wav"),
        Command::ExWav(Channel::from("zz"), [Some(d("500")), None, None], String::from("aaa.wav"))
    );
    assert_eq!(cmd("#ExWavFF p 10000.001 aaa.wav"), other("ExWavFF", "p 10000.001 aaa.wav"));
    assert_eq!(cmd("#ExWavFF p -10000.001 aaa.wav"), other("ExWavFF", "p -10000.001 aaa.wav"));
    assert_eq!(cmd("#ExWavFF v 0.001 aaa.wav"), other("ExWavFF", "v 0.001 aaa.wav"));
    assert_eq!(cmd("#ExWavFF v -10000.001 aaa.wav"), other("ExWavFF", "v -10000.001 aaa.wav"));
    assert_eq!(cmd("#ExWavFF f 100000.001 aaa.wav"), other("ExWavFF", "f 100000.001 aaa.wav"));
    assert_eq!(cmd("#ExWavFF f 99.999 aaa.wav"), other("ExWavFF", "f 99.999 aaa.wav"));
    // CDDA, MIDIFILE, BMP, EXBMP
    assert_eq!(cmd("#CDDA 0"), Command::Cdda(0));
    assert_eq!(cmd("#cdda 5"), Command::Cdda(5));
    assert_eq!(cmd("#MIDIFILE piano.mid"), Command::MidiFile(String::from("piano.mid")));
    assert_eq!(cmd("#BMP00 miss.bmp"), Command::Bmp(Channel::from("00"), String::from("miss.bmp")));
    assert_eq!(
        cmd("#EXBMP00 0,0,0,0 miss.avi"),
        Command::ExBmp(Channel::from("00"), [0; 4], String::from("miss.avi"))
    );
    assert_eq!(
        cmd("#exbmpzz 255,255,255,255 bga.webm"),
        Command::ExBmp(Channel::from("zz"), [255; 4], String::from("bga.webm"))
    );
    assert_eq!(cmd("#ExBmpFF 256,0,0,0 movie.mov"), other("ExBmpFF", "256,0,0,0 movie.mov"));
    // BGA, @BGA
    assert_eq!(
        cmd("#BGA00 00 64 64 128 128 0 0"),
        Command::Bga(
            Channel::from("00"),
            Channel::from("00"),
            [[d("64"), d("64")], [d("128"), d("128")], [d("0"), d("0")]]
        )
    );
    assert_eq!(
        cmd("#@bgazz ZZ 1.1 2.2 3.3 4.4 5.5 6.6"),
        Command::AtBga(
            Channel::from("zz"),
            Channel::from("ZZ"),
            [[d("1.1"), d("2.2")], [d("3.3"), d("4.4")], [d("5.5"), d("6.6")]]
        )
    );
    // POORBGA
    assert_eq!(cmd("#POORBGA 0"), Command::PoorBga(0));
    assert_eq!(cmd("#poorbga 2"), Command::PoorBga(2));
    assert_eq!(cmd("#PoorBga 3"), other("PoorBga", "3"));
    // SWBGA
    assert_eq!(
        cmd("#SWBGA01 0:0:11:0:0,0,0,0 00"),
        Command::SwitchBga(Channel::from("01"), d("0"), d("0"), Channel::from("11"), false, [0; 4], vec![Channel::from("00")])
    );
    assert_eq!(
        cmd("#SWBGA01 100:400:16:0:255,255,255,255 01020304"),
        Command::SwitchBga(
            Channel::from("01"),
            d("100"),
            d("400"),
            Channel::from("16"),
            false,
            [255; 4],
            vec![Channel::from("01"), Channel::from("02"), Channel::from("03"), Channel::from("04")]
        )
    );
    assert_eq!(
        cmd("#SWBGA01 100:400:16:0:255,255,255,256 01"),
        other("SWBGA01", "100:400:16:0:255,255,255,256 01")
    );
    // ARGB
    assert_eq!(cmd("#ARGB01 0,0,0,0"), Command::Argb(Channel::from("01"), [0; 4]));
    assert_eq!(cmd("#argbzz 255,255,255,255"), Command::Argb(Channel::from("zz"), [255; 4]));
    assert_eq!(cmd("#ArgbFF 255,255,255,256"), other("ArgbFF", "255,255,255,256"));
    // VIDEO
    assert_eq!(cmd("#VIDEOFILE video.mp4"), Command::VideoFile(String::from("video.mp4")));
    assert_eq!(cmd("#VIDEOf/s 60"), Command::VideoFps(d("60")));
    assert_eq!(cmd("#videoF/S 59.94"), Command::VideoFps(d("59.94")));
    assert_eq!(cmd("#VIDEOCOLORS 16"), Command::VideoColors(16));
    assert_eq!(cmd("#videodelay 1234"), Command::VideoDelay(1234));
    assert_eq!(cmd("#MOVIE movie.mp4"), Command::Movie(String::from("movie.mp4")));
    assert_eq!(cmd("#SEEK01 1000"), Command::Seek(Channel::from("01"), d("1000")));
    // ExtChr
    assert_eq!(
        cmd("#ExtChr 0 0 0 0 0 0"),
        Command::ExCharacter(0, 0, [[d("0"), d("0")], [d("0"), d("0")]], None, None)
    );
    assert_eq!(
        cmd("#EXTCHR 1023 0 0 0 0 0 1 1"),
        Command::ExCharacter(1023, 0, [[d("0"), d("0")], [d("0"), d("0")]], Some([d("1"), d("1")]), None)
    );
    assert_eq!(
        cmd("#extchr 0 255 0 0 0 0 1 1 2 2"),
        Command::ExCharacter(
            0,
            255,
            [[d("0"), d("0")], [d("0"), d("0")]],
            Some([d("1"), d("1")]),
            Some([d("2"), d("2")])
        )
    );
    assert_eq!(cmd("#ExtChr 1024 0 0 0 0 0"), other("ExtChr", "1024 0 0 0 0 0"));
    assert_eq!(cmd("#ExtChr 0 256 0 0 0 0"), other("ExtChr", "0 256 0 0 0 0"));
    // URL, EMAIL
    assert_eq!(cmd("%URL https://home-page.net"), Command::Url(String::from("https://home-page.net")));
    assert_eq!(cmd("%email foo@some.mail.co.jp"), Command::Email(String::from("foo@some.mail.co.jp")));
    // SCROLL, SPEED, PREVIEW, BASE 62
    assert_eq!(cmd("#SCROLL01 1"), Command::Scroll(Channel::from("01"), d("1")));
    assert_eq!(cmd("#speedzz 0.5"), Command::Speed(Channel::from("zz"), d("0.5")));
    assert_eq!(cmd("#preview プレビュー.ogg"), Command::Preview(String::from("プレビュー.ogg")));
    assert_eq!(cmd("#BASE 62"), Command::Base62);
    assert_eq!(cmd("#base 62"), Command::Base62);
    // cases of every command given in both spellings
    assert_eq!(cmd("#ARTIST artist"), Command::Artist(String::from("artist")));
    assert_eq!(cmd("#subartist サブアーティスト"), Command::SubArtist(String::from("サブアーティスト")));
    assert_eq!(cmd("#MAKER maker"), Command::Maker(String::from("maker")));
    assert_eq!(cmd("#genre ジャンル"), Command::Genre(String::from("ジャンル")));
    assert_eq!(cmd("#subtitle サブタイトル"), Command::SubTitle(String::from("サブタイトル")));
    assert_eq!(cmd("#banner ばなー.bmp"), Command::Banner(String::from("ばなー.bmp")));
    assert_eq!(cmd("#BACKBMP back.png"), Command::BackBmp(String::from("back.png")));
    assert_eq!(cmd("#charfile キャラファイル.chp"), Command::CharacterFile(String::from("キャラファイル.chp")));
    assert_eq!(cmd("#textzz \"瑕疵\""), Command::Text(Channel::from("zz"), String::from("瑕疵")));
    assert_eq!(cmd("#SONG01 \"歌詞\""), Command::Text(Channel::from("01"), String::from("歌詞")));
    assert_eq!(cmd("#path_wav local/path"), Command::PathWav(String::from("local/path")));
    assert_eq!(cmd("#basebpm 800."), Command::BaseBpm(d("800.")));
    assert_eq!(
        cmd("#changeoptionzz 774:RANDOM_MIRROR"),
        Command::ChangeOption(Channel::from("zz"), String::from("774"), String::from("RANDOM_MIRROR"))
    );
    assert_eq!(cmd("#midifile base.mid"), Command::MidiFile(String::from("base.mid")));
    assert_eq!(cmd("#bmpzz bga.mp4"), Command::Bmp(Channel::from("zz"), String::from("bga.mp4")));
    assert_eq!(
        cmd("#bgazz ZZ 1.1 2.2 3.3 4.4 5.5 6.6"),
        Command::Bga(
            Channel::from("zz"),
            Channel::from("ZZ"),
            [[d("1.1"), d("2.2")], [d("3.3"), d("4.4")], [d("5.5"), d("6.6")]]
        )
    );
    assert_eq!(
        cmd("#@BGA00 00 64 64 128 128 0 0"),
        Command::AtBga(
            Channel::from("00"),
            Channel::from("00"),
            [[d("64"), d("64")], [d("128"), d("128")], [d("0"), d("0")]]
        )
    );
    assert_eq!(cmd("#videofile bga.avi"), Command::VideoFile(String::from("bga.avi")));
    assert_eq!(cmd("#videocolors 32"), Command::VideoColors(32));
    assert_eq!(cmd("#VIDEODELAY 60"), Command::VideoDelay(60));
    assert_eq!(cmd("#movie bga.avi"), Command::Movie(String::from("bga.avi")));
    assert_eq!(cmd("#seekzz 1234"), Command::Seek(Channel::from("zz"), d("1234")));
    assert_eq!(cmd("%url https://foo.com"), Command::Url(String::from("https://foo.com")));
    assert_eq!(cmd("%EMAIL name@some.mail.com"), Command::Email(String::from("name@some.mail.com")));
    assert_eq!(cmd("#scrollzz 0.5"), Command::Scroll(Channel::from("zz"), d("0.5")));
    assert_eq!(cmd("#SPEED01 1"), Command::Speed(Channel::from("01"), d("1")));
    assert_eq!(cmd("#PREVIEW preview.wav"), Command::Preview(String::from("preview.wav")));
    assert_eq!(cmd("#LNTYPE 1"), Command::LnType(1));
    assert_eq!(cmd("#EXRANK01 0"), Command::ExRank(Channel::from("01"), d("0")));
    assert_eq!(cmd("#STAGEFILE image.bmp"), Command::StageFile(String::from("image.bmp")));
    assert_eq!(flow("#random 123456789012345678901234567890"), ControlFlow::Random(123456789012345678901234567890));
    assert_eq!(
        flow("#setrandom 123456789012345678901234567890"),
        ControlFlow::SetRandom(123456789012345678901234567890)
    );
    assert_eq!(flow("#endrandom"), ControlFlow::EndRandom);
    assert_eq!(flow("#if 123456789012345678901234567890"), ControlFlow::If(123456789012345678901234567890));
    assert_eq!(flow("#ELSEIF 1"), ControlFlow::ElseIf(1));
    assert_eq!(flow("#else"), ControlFlow::Else);
    assert_eq!(flow("#ENDIF"), ControlFlow::EndIf);
    assert_eq!(flow("#switch 123456789012345678901234567890"), ControlFlow::Switch(123456789012345678901234567890));
    assert_eq!(flow("#SETSWITCH 1"), ControlFlow::SetSwitch(1));
    assert_eq!(flow("#endsw"), ControlFlow::EndSwitch);
    assert_eq!(flow("#CASE 1"), ControlFlow::Case(1));
    assert_eq!(flow("#skip"), ControlFlow::Skip);
    assert_eq!(flow("#DEFAULT"), ControlFlow::Default);
    assert_eq!(cmd("#stagefile 画像.png"), Command::StageFile(String::from("画像.png")));
    // control flow
    assert_eq!(flow("#RANDOM 1"), ControlFlow::Random(1));
    assert_eq!(
        flow("#random 123456789012345678901234567890"),
        ControlFlow::Random(123456789012345678901234567890)
    );
    assert_eq!(flow("#SETRANDOM 1"), ControlFlow::SetRandom(1));
    assert_eq!(flow("#ENDRANDOM"), ControlFlow::EndRandom);
    assert_eq!(flow("#IF 1"), ControlFlow::If(1));
    assert_eq!(flow("#elseif 123456789012345678901234567890"), ControlFlow::ElseIf(123456789012345678901234567890));
    assert_eq!(flow("#ELSE"), ControlFlow::Else);
    assert_eq!(flow("#endif"), ControlFlow::EndIf);
    assert_eq!(flow("#SWITCH 1"), ControlFlow::Switch(1));
    assert_eq!(flow("#setswitch 123456789012345678901234567890"), ControlFlow::SetSwitch(123456789012345678901234567890));
    assert_eq!(flow("#ENDSW"), ControlFlow::EndSwitch);
    assert_eq!(flow("#case 123456789012345678901234567890"), ControlFlow::Case(123456789012345678901234567890));
    assert_eq!(flow("#SKIP"), ControlFlow::Skip);
    assert_eq!(flow("#default"), ControlFlow::Default);
}

#[test]
fn blank_and_unmarked_lines_give_no_token() {
    assert_eq!(lex_line(""), None);
    assert_eq!(lex_line("   \t "), None);
    assert_eq!(lex_line("TITLE no sigil"), None);
    assert_eq!(lex_line("; comment"), None);
    assert!(lex_line("   #TITLE x").is_some());
}

#[test]
fn unknown_command_is_kept_verbatim() {
    assert_eq!(cmd("#FOO   bar baz "), other("FOO", "bar baz "));
    assert_eq!(cmd("#"), other("", ""));
    assert_eq!(cmd("%NOTE something"), other("NOTE", "something"));
}

#[test]
fn main_data_lines() {
    assert_eq!(
        cmd("#00101:0102zz"),
        Command::MainData(1, MainDataValue::Bgm(vec![Channel::from("01"), Channel::from("02"), Channel::from("zz")]))
    );
    assert_eq!(cmd("#00202:0.75"), Command::MainData(2, MainDataValue::Length(d("0.75"))));
    assert_eq!(cmd("#00303:00FF10"), Command::MainData(3, MainDataValue::Bpm(vec![None, Some(255), Some(16)])));
    assert_eq!(
        cmd("#00411:0100"),
        Command::MainData(4, MainDataValue::Note(37, vec![Channel::from("01"), Channel::from("00")]))
    );
    assert_eq!(cmd("#0052Z:01"), Command::MainData(5, MainDataValue::Note(107, vec![Channel::from("01")])));
    assert_eq!(cmd("#00631:01"), Command::MainData(6, MainDataValue::InvisibleNote(109, vec![Channel::from("01")])));
    assert_eq!(cmd("#00751:01"), Command::MainData(7, MainDataValue::LongNote(181, vec![Channel::from("01")])));
    assert_eq!(cmd("#008D1:0A0Z"), Command::MainData(8, MainDataValue::Landmine(469, vec![10, 35])));
    assert_eq!(cmd("#0090B:FF80"), Command::MainData(9, MainDataValue::BgaAlpha(vec![255, 128])));
    assert_eq!(cmd("#010SC:01"), Command::MainData(10, MainDataValue::Scroll(vec![Channel::from("01")])));
    assert_eq!(cmd("#01109:0101"), Command::MainData(11, MainDataValue::Other(9, String::from("0101"))));
}

#[test]
fn lines_are_split_and_lexed_in_order() {
    let tokens = lex("#TITLE a\r\n\n  \n#RANK 2\n; note\n#BPM 90");
    assert_eq!(
        tokens,
        vec![
            Token::Command(Command::Title(String::from("a"))),
            Token::Command(Command::Rank(2)),
            Token::Command(Command::Bpm(d("90"))),
        ]
    );
    assert!(lex("").is_empty());
}

#[test]
fn numbers_out_of_range_fall_back() {
    assert_eq!(cmd("#RANK 2147483648"), other("RANK", "2147483648"));
    assert_eq!(cmd("#RANK -2147483648"), Command::Rank(-2147483648));
    assert_eq!(cmd("#CDDA 4294967296"), other("CDDA", "4294967296"));
    assert_eq!(cmd("#BPM abc"), other("BPM", "abc"));
    assert_eq!(cmd("#TOTAL 1e"), other("TOTAL", "1e"));
    assert_eq!(cmd("#TOTAL inf"), Command::Total(d("inf")));
    assert_eq!(cmd("#TOTAL .5"), Command::Total(d(".5")));
}

#[test]
fn carriage_return_ends_only_terminated_lines() {
    let tokens = lex("#TITLE a\r\n#GENRE b\r");
    assert_eq!(
        tokens,
        vec![
            Token::Command(Command::Title(String::from("a"))),
            Token::Command(Command::Genre(String::from("b\r"))),
        ]
    );
}
