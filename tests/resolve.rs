use std::collections::HashSet;

use bms_utils::token::{Command as C, Decimal};
use bms_utils::tree::{
    BmsBlock, BmsCaseBlock, BmsElement, BmsIfBlock, BmsRandomBlock, BmsRandomElement, BmsSwitchBlock, RandomValue,
    SwitchLabel,
};
use bms_utils::{Channel, FixedDraws, PlayType, RandomSource, RawBms, SeededRandom};

fn title(s: &str) -> C {
    C::Title(s.to_string())
}

fn block(cmds: Vec<C>) -> BmsBlock {
    BmsBlock(cmds.into_iter().map(BmsElement::Command).collect())
}

fn titles(cmds: &[&C]) -> Vec<String> {
    cmds.iter()
        .map(|c| match c {
            C::Title(s) => s.clone(),
            other => format!("{:?}", other),
        })
        .collect()
}

fn resolve(b: &BmsBlock, draws: Vec<u128>) -> Vec<String> {
    let mut out = Vec::new();
    let mut drawn = Vec::new();
    b.get_token_vec(&mut out, &mut FixedDraws::new(draws), &mut drawn);
    titles(&out)
}

fn if_chain_124_else() -> BmsBlock {
    BmsBlock(vec![BmsElement::Random(BmsRandomBlock(
        RandomValue::Max(4),
        vec![BmsRandomElement::IfBlock(BmsIfBlock {
            branches: vec![
                (1, block(vec![title("one")])),
                (2, block(vec![title("two")])),
                (4, block(vec![title("four")])),
            ],
            else_block: Some(block(vec![title("else")])),
        })],
    ))])
}

#[test]
fn if_chain_takes_else_when_no_branch_matches() {
    let b = if_chain_124_else();
    assert_eq!(resolve(&b, vec![3]), vec!["else"]);
}

#[test]
fn if_chain_takes_only_the_matching_branch() {
    let b = if_chain_124_else();
    assert_eq!(resolve(&b, vec![2]), vec!["two"]);
    assert_eq!(resolve(&b, vec![1]), vec!["one"]);
    assert_eq!(resolve(&b, vec![4]), vec!["four"]);
}

fn switch_fallthrough() -> BmsBlock {
    BmsBlock(vec![BmsElement::Switch(BmsSwitchBlock(
        RandomValue::Max(3),
        vec![
            BmsCaseBlock(SwitchLabel::Case(1), block(vec![title("case1")]), false),
            BmsCaseBlock(SwitchLabel::Case(2), block(vec![title("case2")]), true),
            BmsCaseBlock(SwitchLabel::Default, block(vec![title("default")]), false),
        ],
        [1u128, 2].into_iter().collect::<HashSet<u128>>(),
    ))])
}

#[test]
fn switch_falls_through_until_skip() {
    let b = switch_fallthrough();
    assert_eq!(resolve(&b, vec![1]), vec!["case1", "case2"]);
    assert_eq!(resolve(&b, vec![2]), vec!["case2"]);
}

#[test]
fn switch_default_takes_values_without_case() {
    let b = switch_fallthrough();
    assert_eq!(resolve(&b, vec![3]), vec!["default"]);
}

#[test]
fn fixed_selector_draws_nothing() {
    let b = BmsBlock(vec![BmsElement::Random(BmsRandomBlock(
        RandomValue::Fixed(2),
        vec![BmsRandomElement::IfBlock(BmsIfBlock {
            branches: vec![(1, block(vec![title("a")])), (2, block(vec![title("b")]))],
            else_block: None,
        })],
    ))]);
    let mut out = Vec::new();
    let mut drawn = Vec::new();
    b.get_token_vec(&mut out, &mut FixedDraws::new(vec![1]), &mut drawn);
    assert_eq!(titles(&out), vec!["b"]);
    assert!(drawn.is_empty());
}

#[test]
fn draws_are_logged_in_textual_order() {
    let src = "#RANDOM 3\n#IF 1\n#TITLE a\n#ENDIF\n#ENDRANDOM\n#RANDOM 5\n#IF 5\n#TITLE b\n#ENDIF\n#ENDRANDOM";
    let raw = RawBms::parse(src).unwrap();
    let mut drawn = Vec::new();
    let cmds = raw.resolve_commands(&mut FixedDraws::new(vec![1, 5]), &mut drawn);
    assert_eq!(drawn, vec![1, 5]);
    assert_eq!(titles(&cmds), vec!["a", "b"]);
}

#[test]
fn same_seed_resolves_alike() {
    let src = "#RANDOM 100\n#IF 1\n#TITLE a\n#ELSE\n#TITLE b\n#ENDIF\n#ENDRANDOM\n#SWITCH 50\n#CASE 7\n#GENRE g\n#SKIP\n#DEFAULT\n#GENRE h\n#ENDSW";
    let raw = RawBms::parse(src).unwrap();
    for seed in [0u64, 1, 42, 1234567] {
        let mut d1 = Vec::new();
        let mut d2 = Vec::new();
        let a = raw.resolve_commands(&mut SeededRandom::new(seed), &mut d1);
        let b = raw.resolve_commands(&mut SeededRandom::new(seed), &mut d2);
        assert_eq!(a, b);
        assert_eq!(d1, d2);
        assert_eq!(d1.len(), 2);
        assert!(1 <= d1[0] && d1[0] <= 100);
        assert!(1 <= d1[1] && d1[1] <= 50);
    }
}

#[test]
fn fixed_draws_replay_the_same_sequence() {
    let raw = RawBms::parse("#RANDOM 4\n#IF 3\n#TITLE x\n#ENDIF\n#ENDRANDOM").unwrap();
    let a = raw.make_bms(&mut FixedDraws::new(vec![3]));
    let b = raw.make_bms(&mut FixedDraws::new(vec![3]));
    assert_eq!(a, b);
    assert_eq!(a.title.map(|s| s.as_str()), Some("x"));
}

#[test]
fn fixed_draws_are_clamped_and_cycle() {
    let mut f = FixedDraws::new(vec![0, 9, 2]);
    assert_eq!(f.draw(5), 1);
    assert_eq!(f.draw(5), 5);
    assert_eq!(f.draw(5), 2);
    assert_eq!(f.draw(5), 1);
    let mut empty = FixedDraws::new(vec![]);
    assert_eq!(empty.draw(7), 1);
}

#[test]
fn seeded_draws_stay_in_range() {
    let mut r = SeededRandom::new(7);
    for max in 1..50u128 {
        let v = r.draw(max);
        assert!(1 <= v && v <= max);
    }
}

#[test]
fn round_trip_draw_one_gives_first_title() {
    let src = "#BPM 180\n#RANDOM 2\n#IF 1\n#TITLE A\n#ELSE\n#TITLE B\n#ENDIF\n#ENDRANDOM";
    let raw = RawBms::parse(src).unwrap();
    let bms = raw.make_bms(&mut FixedDraws::new(vec![1]));
    assert_eq!(bms.bpm.map(|d| d.text.parse::<f64>().unwrap()), Some(180.0));
    assert_eq!(bms.title.map(|s| s.as_str()), Some("A"));
}

#[test]
fn round_trip_draw_two_gives_else_title() {
    let src = "#BPM 180\n#RANDOM 2\n#IF 1\n#TITLE A\n#ELSE\n#TITLE B\n#ENDIF\n#ENDRANDOM";
    let raw = RawBms::parse(src).unwrap();
    let bms = raw.make_bms(&mut FixedDraws::new(vec![2]));
    assert_eq!(bms.title.map(|s| s.as_str()), Some("B"));
    assert_eq!(bms.bpm, Some(&Decimal { text: "180".to_string() }));
}

#[test]
fn base62_marker_in_unselected_branch_has_no_effect() {
    let src = "#RANDOM 2\n#IF 1\n#BASE 62\n#ENDIF\n#ENDRANDOM\n#WAVzz a.wav";
    let raw = RawBms::parse(src).unwrap();
    let not_taken = raw.make_bms(&mut FixedDraws::new(vec![2]));
    assert_eq!(not_taken.wav.get(&Channel::from("zz").to_base_36()).map(|s| s.as_str()), Some("a.wav"));
    assert_eq!(not_taken.wav.get(&1295).map(|s| s.as_str()), Some("a.wav"));
    let taken = raw.make_bms(&mut FixedDraws::new(vec![1]));
    assert_eq!(taken.wav.get(&3843).map(|s| s.as_str()), Some("a.wav"));
    assert_eq!(taken.wav.get(&1295), None);
}

#[test]
fn main_data_lines_accumulate_in_order() {
    let src = "#00101:0102\n#00101:0304\n#00102:0.5\n#00102:0.75";
    let raw = RawBms::parse(src).unwrap();
    let bms = raw.make_bms(&mut FixedDraws::new(vec![]));
    assert_eq!(bms.main_data.len(), 2);
    assert_eq!(bms.main_data[1].bgm, vec![vec![1, 2], vec![3, 4]]);
    assert_eq!(bms.main_data[1].length.map(|d| d.text.as_str()), Some("0.75"));
    assert_eq!(bms.main_data[0].length, None);
    assert!(bms.main_data[0].bgm.is_empty());
}

#[test]
fn note_lanes_are_keyed_by_channel() {
    let src = "#00211:01\n#00211:02\n#00212:03\n#002D1:0A";
    let bms_raw = RawBms::parse(src).unwrap();
    let bms = bms_raw.make_bms(&mut FixedDraws::new(vec![]));
    assert_eq!(bms.main_data.len(), 3);
    assert_eq!(bms.main_data[2].notes.get(&37), Some(&vec![vec![1], vec![2]]));
    assert_eq!(bms.main_data[2].notes.get(&38), Some(&vec![vec![3]]));
    assert_eq!(bms.main_data[2].landmine.get(&469).map(|v| v.len()), Some(1));
}

#[test]
fn header_fields_follow_their_rules() {
    let src = "#PLAYER 3\n#TITLE a\n#TITLE b\n#SUBTITLE s1\n#SUBTITLE s2\n#WAV01 x.wav\n#WAV01 y.wav\n#LNOBJ ZZ\n#OCT/FP\n#FOO bar";
    let raw = RawBms::parse(src).unwrap();
    let bms = raw.make_bms(&mut FixedDraws::new(vec![]));
    assert_eq!(bms.player, Some(PlayType::DoublePlay));
    assert_eq!(bms.title.map(|s| s.as_str()), Some("b"));
    assert_eq!(bms.sub_title.iter().map(|s| s.as_str()).collect::<Vec<_>>(), vec!["s1", "s2"]);
    assert_eq!(bms.wav.get(&1).map(|s| s.as_str()), Some("y.wav"));
    assert!(bms.ln_object.contains(&1295));
    assert!(bms.oct_fp);
    assert_eq!(bms.other.len(), 1);
    assert_eq!(bms.other[0].0.as_str(), "FOO");
    assert_eq!(bms.other[0].1.as_str(), "bar");
}

#[test]
fn all_wav_files_lists_every_name_once() {
    let src = "#WAV01 a.wav\n#RANDOM 2\n#IF 1\n#WAV02 b.wav\n#ENDIF\n#ENDRANDOM\n#WAV03 a.wav";
    let raw = RawBms::parse(src).unwrap();
    let files: Vec<&str> = raw.all_wav_files().iter().map(|s| s.as_str()).collect();
    assert_eq!(files, vec!["a.wav", "b.wav"]);
}

#[test]
fn broken_nesting_is_reported() {
    let src = "#TITLE a\n#RANDOM 2\n#IF 1\n#TITLE b\n#ENDRANDOM\n#TITLE c";
    let err = RawBms::parse(src).unwrap_err();
    assert_eq!(err.position, 2);
    assert_eq!(RawBms::parse("#ENDIF").unwrap_err().position, 0);
    assert_eq!(RawBms::parse("#TITLE a\n#CASE 1").unwrap_err().position, 1);
}

#[test]
fn empty_chart_has_no_data() {
    let raw = RawBms::parse("").unwrap();
    let bms = raw.make_bms(&mut FixedDraws::new(vec![]));
    assert!(bms.main_data.is_empty());
    assert_eq!(bms.title, None);
    assert!(raw.all_wav_files().is_empty());
}

#[test]
fn largest_measure_index() {
    let raw = RawBms::parse("#99901:0Z").unwrap();
    let bms = raw.make_bms(&mut FixedDraws::new(vec![]));
    assert_eq!(bms.main_data.len(), 1000);
    assert_eq!(bms.main_data[999].bgm, vec![vec![35]]);
}

#[test]
fn random_with_bound_zero_draws_nothing() {
    let raw = RawBms::parse("#RANDOM 0\n#IF 0\n#TITLE zero\n#ENDIF\n#ENDRANDOM").unwrap();
    let mut drawn = Vec::new();
    let cmds = raw.resolve_commands(&mut FixedDraws::new(vec![5]), &mut drawn);
    assert!(drawn.is_empty());
    assert_eq!(titles(&cmds), vec!["zero"]);
}

#[test]
fn nested_groups_draw_only_when_visited() {
    let src = "#RANDOM 2\n#IF 1\n#RANDOM 3\n#IF 3\n#TITLE inner\n#ENDIF\n#ENDRANDOM\n#ENDIF\n#ENDRANDOM";
    let raw = RawBms::parse(src).unwrap();
    let mut drawn = Vec::new();
    let cmds = raw.resolve_commands(&mut FixedDraws::new(vec![1, 3]), &mut drawn);
    assert_eq!(drawn, vec![1, 3]);
    assert_eq!(titles(&cmds), vec!["inner"]);
    let mut drawn = Vec::new();
    let cmds = raw.resolve_commands(&mut FixedDraws::new(vec![2, 3]), &mut drawn);
    assert_eq!(drawn, vec![2]);
    assert!(cmds.is_empty());
}
