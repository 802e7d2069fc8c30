use std::collections::HashSet;

use bms_utils::parse::{parse_tokens, ParseError};
use bms_utils::token::{Command as C, ControlFlow as F, Token};
use bms_utils::tree::{
    BmsBlock, BmsCaseBlock, BmsElement, BmsIfBlock, BmsRandomBlock, BmsRandomElement, BmsSwitchBlock, RandomValue,
    SwitchLabel,
};

fn c(x: C) -> Token {
    Token::Command(x)
}

fn f(x: F) -> Token {
    Token::ControlFlow(x)
}

fn title(s: &str) -> C {
    C::Title(s.to_string())
}

fn labels(v: &[u128]) -> HashSet<u128> {
    v.iter().copied().collect()
}

#[test]
fn simple() {
    let empty_token_stream = vec![];
    assert_eq!(parse_tokens(empty_token_stream).unwrap(), BmsBlock(vec![]));
    let token_stream = vec![c(C::Player(1)), c(C::Genre("ジャンル".to_string())), c(title("タイトル"))];
    assert_eq!(
        parse_tokens(token_stream).unwrap(),
        BmsBlock(vec![
            BmsElement::Command(C::Player(1)),
            BmsElement::Command(C::Genre("ジャンル".to_string())),
            BmsElement::Command(title("タイトル")),
        ])
    );
}

#[test]
fn random() {
    let token_stream = vec![
        c(C::PlayLevel(12)),
        f(F::Random(10)),
        c(C::Genre("ジャンル".to_string())),
        f(F::If(1)),
        c(title("タイトル1")),
        f(F::ElseIf(2)),
        c(title("タイトル2")),
        f(F::ElseIf(4)),
        c(title("タイトル4")),
        f(F::Else),
        c(title("タイトル*")),
        f(F::Random(100)),
        f(F::EndRandom),
        f(F::EndIf),
        c(C::Artist("アーティスト".to_string())),
        f(F::If(1)),
        f(F::EndIf),
        f(F::If(2)),
        f(F::ElseIf(3)),
        f(F::EndIf),
        f(F::If(4)),
        f(F::Else),
        f(F::EndIf),
        f(F::EndRandom),
        c(C::Rank(3)),
        f(F::SetRandom(123456789012345678901234567890)),
    ];
    assert_eq!(
        parse_tokens(token_stream).unwrap(),
        BmsBlock(vec![
            BmsElement::Command(C::PlayLevel(12)),
            BmsElement::Random(BmsRandomBlock(
                RandomValue::Max(10),
                vec![
                    BmsRandomElement::Block(BmsBlock(vec![BmsElement::Command(C::Genre("ジャンル".to_string()))])),
                    BmsRandomElement::IfBlock(BmsIfBlock {
                        branches: vec![
                            (1, BmsBlock(vec![BmsElement::Command(title("タイトル1"))])),
                            (2, BmsBlock(vec![BmsElement::Command(title("タイトル2"))])),
                            (4, BmsBlock(vec![BmsElement::Command(title("タイトル4"))])),
                        ],
                        else_block: Some(BmsBlock(vec![
                            BmsElement::Command(title("タイトル*")),
                            BmsElement::Random(BmsRandomBlock(RandomValue::Max(100), vec![])),
                        ])),
                    }),
                    BmsRandomElement::Block(BmsBlock(vec![BmsElement::Command(C::Artist(
                        "アーティスト".to_string()
                    ))])),
                    BmsRandomElement::IfBlock(BmsIfBlock { branches: vec![(1, BmsBlock(vec![]))], else_block: None }),
                    BmsRandomElement::IfBlock(BmsIfBlock {
                        branches: vec![(2, BmsBlock(vec![])), (3, BmsBlock(vec![]))],
                        else_block: None,
                    }),
                    BmsRandomElement::IfBlock(BmsIfBlock {
                        branches: vec![(4, BmsBlock(vec![]))],
                        else_block: Some(BmsBlock(vec![])),
                    }),
                ]
            )),
            BmsElement::Command(C::Rank(3)),
            BmsElement::Random(BmsRandomBlock(RandomValue::Fixed(123456789012345678901234567890), vec![])),
        ])
    );
}

#[test]
fn switch() {
    let token_stream = vec![
        c(C::PlayLevel(12)),
        f(F::Switch(10)),
        f(F::Case(1)),
        c(title("タイトル1")),
        f(F::Case(2)),
        c(title("タイトル2")),
        f(F::Skip),
        f(F::Case(4)),
        c(title("タイトル4")),
        f(F::Skip),
        f(F::Default),
        c(title("タイトル*")),
        f(F::Switch(100)),
        f(F::EndSwitch),
        f(F::EndSwitch),
        f(F::SetSwitch(123456789012345678901234567890)),
        f(F::Case(10)),
        f(F::Skip),
        f(F::Default),
        f(F::Case(20)),
        f(F::EndSwitch),
    ];
    assert_eq!(
        parse_tokens(token_stream).unwrap(),
        BmsBlock(vec![
            BmsElement::Command(C::PlayLevel(12)),
            BmsElement::Switch(BmsSwitchBlock(
                RandomValue::Max(10),
                vec![
                    BmsCaseBlock(SwitchLabel::Case(1), BmsBlock(vec![BmsElement::Command(title("タイトル1"))]), false),
                    BmsCaseBlock(SwitchLabel::Case(2), BmsBlock(vec![BmsElement::Command(title("タイトル2"))]), true),
                    BmsCaseBlock(SwitchLabel::Case(4), BmsBlock(vec![BmsElement::Command(title("タイトル4"))]), true),
                    BmsCaseBlock(
                        SwitchLabel::Default,
                        BmsBlock(vec![
                            BmsElement::Command(title("タイトル*")),
                            BmsElement::Switch(BmsSwitchBlock(RandomValue::Max(100), vec![], labels(&[]))),
                        ]),
                        false
                    ),
                ],
                labels(&[1, 2, 4])
            )),
            BmsElement::Switch(BmsSwitchBlock(
                RandomValue::Fixed(123456789012345678901234567890),
                vec![
                    BmsCaseBlock(SwitchLabel::Case(10), BmsBlock(vec![]), true),
                    BmsCaseBlock(SwitchLabel::Default, BmsBlock(vec![]), false),
                    BmsCaseBlock(SwitchLabel::Case(20), BmsBlock(vec![]), false),
                ],
                labels(&[10, 20])
            )),
        ])
    );
}

#[test]
fn unclosed_if_is_an_error_at_its_marker() {
    let tokens = vec![c(C::Rank(1)), f(F::Random(2)), f(F::If(1)), c(title("a")), f(F::EndRandom)];
    assert_eq!(parse_tokens(tokens), Err(ParseError { position: 2 }));
}

#[test]
fn unclosed_switch_is_an_error_at_its_marker() {
    let tokens = vec![f(F::Switch(2)), f(F::Case(1)), c(title("a"))];
    assert_eq!(parse_tokens(tokens), Err(ParseError { position: 0 }));
}

#[test]
fn stray_end_marker_is_an_error() {
    let tokens = vec![c(title("a")), f(F::EndIf), c(title("b"))];
    assert_eq!(parse_tokens(tokens), Err(ParseError { position: 1 }));
}

#[test]
fn end_random_is_optional() {
    let tokens = vec![f(F::Random(2)), f(F::If(1)), c(title("a")), f(F::EndIf)];
    let b = parse_tokens(tokens).unwrap();
    assert_eq!(
        b,
        BmsBlock(vec![BmsElement::Random(BmsRandomBlock(
            RandomValue::Max(2),
            vec![BmsRandomElement::IfBlock(BmsIfBlock {
                branches: vec![(1, BmsBlock(vec![BmsElement::Command(title("a"))]))],
                else_block: None,
            })]
        ))])
    );
}
