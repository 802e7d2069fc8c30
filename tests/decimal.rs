use bms_utils::lex::lex_line;
use bms_utils::token::{Command, Token};

/// Whether an EXWAV line with the pitch `t` is taken as an extended sound;
/// the pitch must lie from -10000 to 1000.
fn pitch_ok(t: &str) -> bool {
    let line = format!("#EXWAV01 p {} a.wav", t);
    matches!(lex_line(&line), Some(Token::Command(Command::ExWav(..))))
}

/// The same for the volume, from -10000 to 0.
fn volume_ok(t: &str) -> bool {
    let line = format!("#EXWAV01 v {} a.wav", t);
    matches!(lex_line(&line), Some(Token::Command(Command::ExWav(..))))
}

/// The same for the frequency, from 100 to 10000.
fn frequency_ok(t: &str) -> bool {
    let line = format!("#EXWAV01 f {} a.wav", t);
    matches!(lex_line(&line), Some(Token::Command(Command::ExWav(..))))
}

#[test]
fn decimal_bounds_are_inclusive() {
    assert!(pitch_ok("1000"));
    assert!(pitch_ok("-10000"));
    assert!(pitch_ok("1e3"));
    assert!(pitch_ok("10.0e2"));
    assert!(frequency_ok("100"));
    assert!(frequency_ok("10000."));
}

#[test]
fn decimal_just_outside_is_out() {
    assert!(!pitch_ok("1000.0000001"));
    assert!(!pitch_ok("-10000.001"));
    assert!(!frequency_ok("99.999"));
    assert!(!volume_ok("0.001"));
    assert!(!frequency_ok("1.0001e4"));
}

#[test]
fn decimal_zero_in_any_sign() {
    assert!(volume_ok("-0"));
    assert!(volume_ok("0.000"));
    assert!(volume_ok("+0e5"));
    assert!(!frequency_ok("0"));
}

#[test]
fn decimal_extremes() {
    assert!(!pitch_ok("nan"));
    assert!(!pitch_ok("inf"));
    assert!(!pitch_ok("-Infinity"));
    assert!(!pitch_ok("1e99999999999999999999999"));
    assert!(pitch_ok("1e-99999999999999999999999"));
    assert!(volume_ok("-5e-99999999999999999999999"));
    assert!(pitch_ok(".5"));
    assert!(frequency_ok("000123.4500"));
}
