//! The tokens that the lexer makes of single lines.
use vstd::prelude::*;

use crate::channel::Channel;

verus! {

/// A decimal number kept as the text it was written with, for example
/// `-123e-7`, `80.` or `inf`. Its value as a float is left to the reader of
/// the chart.
#[derive(Clone, Debug, PartialEq)]
pub struct Decimal {
    pub text: String,
}

/// One line of a chart, once lexed.
#[derive(Clone, Debug, PartialEq)]
pub enum Token {
    Command(Command),
    ControlFlow(ControlFlow),
}

/// A command that contributes to the chart record.
#[derive(Clone, Debug, PartialEq)]
pub enum Command {
    MainData(usize, MainDataValue),
    Player(i32),
    Rank(i32),
    DefExRank(Decimal),
    ExRank(Channel, Decimal),
    Total(Decimal),
    VolumeWav(Decimal),
    StageFile(String),
    Banner(String),
    BackBmp(String),
    CharacterFile(String),
    PlayLevel(i32),
    Difficulty(i32),
    Title(String),
    SubTitle(String),
    Artist(String),
    SubArtist(String),
    Maker(String),
    Genre(String),
    Comment(String),
    Text(Channel, String),
    PathWav(String),
    Bpm(Decimal),
    ExBpm(Channel, Decimal),
    BaseBpm(Decimal),
    Stop(Channel, Decimal),
    Stp(usize, u32, Decimal),
    LnMode(i32),
    LnType(i32),
    LnObject(Channel),
    OctFp,
    Option(String, String),
    ChangeOption(Channel, String, String),
    Wav(Channel, String),
    WavCommand(i32, Channel, Decimal),
    ExWav(Channel, [Option<Decimal>; 3], String),
    Cdda(u32),
    MidiFile(String),
    Bmp(Channel, String),
    ExBmp(Channel, [u8; 4], String),
    Bga(Channel, Channel, [[Decimal; 2]; 3]),
    AtBga(Channel, Channel, [[Decimal; 2]; 3]),
    PoorBga(i32),
    SwitchBga(Channel, Decimal, Decimal, Channel, bool, [u8; 4], Vec<Channel>),
    Argb(Channel, [u8; 4]),
    VideoFile(String),
    VideoFps(Decimal),
    VideoColors(u32),
    VideoDelay(u32),
    Movie(String),
    Seek(Channel, Decimal),
    ExCharacter(u32, usize, [[Decimal; 2]; 2], Option<[Decimal; 2]>, Option<[Decimal; 2]>),
    Url(String),
    Email(String),
    Scroll(Channel, Decimal),
    Speed(Channel, Decimal),
    Preview(String),
    /// Channels of the chart are read in base 62 rather than base 36.
    Base62,
    /// A command that no recognizer took: its word and the rest of the line.
    Other(String, String),
}

/// The payload of a main-data line, by channel family.
#[derive(Clone, Debug, PartialEq)]
pub enum MainDataValue {
    Bgm(Vec<Channel>),
    Length(Decimal),
    Bga(Vec<Channel>),
    /// Tempo bytes; a zero byte is no change.
    Bpm(Vec<Option<u8>>),
    BgaPoor(Vec<Channel>),
    BgaLayer(Vec<Channel>),
    ExBpm(Vec<Channel>),
    Stop(Vec<Channel>),
    BgaLayer2(Vec<Channel>),
    ExRank(Vec<Channel>),
    BgaAlpha(Vec<u8>),
    BgaLayerAlpha(Vec<u8>),
    BgaLayer2Alpha(Vec<u8>),
    BgaPoorAlpha(Vec<u8>),
    Note(usize, Vec<Channel>),
    InvisibleNote(usize, Vec<Channel>),
    LongNote(usize, Vec<Channel>),
    Text(Vec<Channel>),
    BgaArgb(Vec<Channel>),
    BgaLayerArgb(Vec<Channel>),
    BgaLayer2Argb(Vec<Channel>),
    BgaPoorArgb(Vec<Channel>),
    SwitchBga(Vec<Channel>),
    Option(Vec<Channel>),
    /// Landmine lanes: the damage of each object, as its base-36 value.
    Landmine(usize, Vec<usize>),
    Scroll(Vec<Channel>),
    Speed(Vec<Channel>),
    Other(usize, String),
}

/// A marker of the RANDOM / IF / SWITCH constructs.
#[derive(Clone, Copy, Debug, PartialEq, Eq)]
pub enum ControlFlow {
    Random(u128),
    SetRandom(u128),
    EndRandom,
    If(u128),
    ElseIf(u128),
    Else,
    EndIf,
    Switch(u128),
    SetSwitch(u128),
    EndSwitch,
    Case(u128),
    Skip,
    Default,
}

} // verus!
