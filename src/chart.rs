//! The chart record and the fold that builds it from resolved commands.
use vstd::prelude::*;

use std::collections::{HashMap, HashSet};

use crate::channel::Channel;
use crate::token::{Command, Decimal, MainDataValue};

verus! {

broadcast use vstd::std_specs::hash::group_hash_axioms;

/// Play style.
#[derive(Debug, Clone, Copy, PartialEq, Eq)]
pub enum PlayType {
    SinglePlay,
    CouplePlay,
    DoublePlay,
    BattlePlay,
}

/// An extended character sprite.
#[derive(Debug, Clone, Copy, PartialEq)]
pub struct ExCharacter<'a> {
    pub sprite_num: u32,
    pub bmp: usize,
    pub trim_rect: &'a [[Decimal; 2]; 2],
    pub offset: Option<&'a [Decimal; 2]>,
    pub abs_pos: Option<&'a [Decimal; 2]>,
}

/// The channel values of a list of channels.
pub open spec fn ch_values(chs: Seq<Channel>, base62: bool) -> Seq<usize> {
    chs.map_values(|c: Channel| c.value(base62) as usize)
}

/// The views of a list of lists.
pub open spec fn lists(v: Seq<Vec<usize>>) -> Seq<Seq<usize>> {
    v.map_values(|x: Vec<usize>| x@)
}

/// The views of lists of lists kept by key.
pub open spec fn keyed_lists(m: Map<usize, Vec<Vec<usize>>>) -> Map<usize, Seq<Seq<usize>>> {
    m.map_values(|l: Vec<Vec<usize>>| lists(l@))
}

/// The views of lists kept by key.
pub open spec fn keyed_seqs<T>(m: Map<usize, Vec<T>>) -> Map<usize, Seq<T>> {
    m.map_values(|l: Vec<T>| l@)
}

/// Appends `x` to the list kept under `k`, starting one if there is none.
pub open spec fn keyed_push<T>(m: Map<usize, Seq<T>>, k: usize, x: T) -> Map<usize, Seq<T>> {
    m.insert(
        k,
        if m.contains_key(k) {
            m[k]
        } else {
            Seq::empty()
        }.push(x),
    )
}

/// One measure of main data, as values.
pub struct MainDataModel<'a> {
    pub bgm: Seq<Seq<usize>>,
    pub bga: Seq<Seq<usize>>,
    pub bga_poor: Seq<Seq<usize>>,
    pub bga_layer: Seq<Seq<usize>>,
    pub ex_bpm: Seq<Seq<usize>>,
    pub stop: Seq<Seq<usize>>,
    pub bga_layer2: Seq<Seq<usize>>,
    pub ex_rank: Seq<Seq<usize>>,
    pub text: Seq<Seq<usize>>,
    pub bga_argb: Seq<Seq<usize>>,
    pub bga_layer_argb: Seq<Seq<usize>>,
    pub bga_layer2_argb: Seq<Seq<usize>>,
    pub bga_poor_argb: Seq<Seq<usize>>,
    pub switch_bga: Seq<Seq<usize>>,
    pub option: Seq<Seq<usize>>,
    pub scroll: Seq<Seq<usize>>,
    pub speed: Seq<Seq<usize>>,
    pub length: Option<&'a Decimal>,
    pub bpm: Seq<&'a Vec<Option<u8>>>,
    pub bga_alpha: Seq<&'a Vec<u8>>,
    pub bga_layer_alpha: Seq<&'a Vec<u8>>,
    pub bga_layer2_alpha: Seq<&'a Vec<u8>>,
    pub bga_poor_alpha: Seq<&'a Vec<u8>>,
    pub notes: Map<usize, Seq<Seq<usize>>>,
    pub invisible_notes: Map<usize, Seq<Seq<usize>>>,
    pub long_notes: Map<usize, Seq<Seq<usize>>>,
    pub landmine: Map<usize, Seq<&'a Vec<usize>>>,
    pub other: Seq<(usize, &'a String)>,
}

/// A measure with no data and the standard length.
pub open spec fn empty_measure<'a>() -> MainDataModel<'a> {
    MainDataModel {
        bgm: Seq::empty(),
        bga: Seq::empty(),
        bga_poor: Seq::empty(),
        bga_layer: Seq::empty(),
        ex_bpm: Seq::empty(),
        stop: Seq::empty(),
        bga_layer2: Seq::empty(),
        ex_rank: Seq::empty(),
        text: Seq::empty(),
        bga_argb: Seq::empty(),
        bga_layer_argb: Seq::empty(),
        bga_layer2_argb: Seq::empty(),
        bga_poor_argb: Seq::empty(),
        switch_bga: Seq::empty(),
        option: Seq::empty(),
        scroll: Seq::empty(),
        speed: Seq::empty(),
        length: None,
        bpm: Seq::empty(),
        bga_alpha: Seq::empty(),
        bga_layer_alpha: Seq::empty(),
        bga_layer2_alpha: Seq::empty(),
        bga_poor_alpha: Seq::empty(),
        notes: Map::empty(),
        invisible_notes: Map::empty(),
        long_notes: Map::empty(),
        landmine: Map::empty(),
        other: Seq::empty(),
    }
}

/// What a main-data payload does to its measure: the measure length is
/// overwritten, every other family gets one more entry at its end.
pub open spec fn apply_main<'a>(m: MainDataModel<'a>, v: &'a MainDataValue, base62: bool) -> MainDataModel<'a> {
    match v {
        MainDataValue::Bgm(d) => MainDataModel { bgm: m.bgm.push(ch_values(d@, base62)), ..m },
        MainDataValue::Bga(d) => MainDataModel { bga: m.bga.push(ch_values(d@, base62)), ..m },
        MainDataValue::BgaPoor(d) => MainDataModel { bga_poor: m.bga_poor.push(ch_values(d@, base62)), ..m },
        MainDataValue::BgaLayer(d) => MainDataModel { bga_layer: m.bga_layer.push(ch_values(d@, base62)), ..m },
        MainDataValue::ExBpm(d) => MainDataModel { ex_bpm: m.ex_bpm.push(ch_values(d@, base62)), ..m },
        MainDataValue::Stop(d) => MainDataModel { stop: m.stop.push(ch_values(d@, base62)), ..m },
        MainDataValue::BgaLayer2(d) => MainDataModel { bga_layer2: m.bga_layer2.push(ch_values(d@, base62)), ..m },
        MainDataValue::ExRank(d) => MainDataModel { ex_rank: m.ex_rank.push(ch_values(d@, base62)), ..m },
        MainDataValue::Text(d) => MainDataModel { text: m.text.push(ch_values(d@, base62)), ..m },
        MainDataValue::BgaArgb(d) => MainDataModel { bga_argb: m.bga_argb.push(ch_values(d@, base62)), ..m },
        MainDataValue::BgaLayerArgb(d) => MainDataModel { bga_layer_argb: m.bga_layer_argb.push(ch_values(d@, base62)), ..m },
        MainDataValue::BgaLayer2Argb(d) => MainDataModel { bga_layer2_argb: m.bga_layer2_argb.push(ch_values(d@, base62)), ..m },
        MainDataValue::BgaPoorArgb(d) => MainDataModel { bga_poor_argb: m.bga_poor_argb.push(ch_values(d@, base62)), ..m },
        MainDataValue::SwitchBga(d) => MainDataModel { switch_bga: m.switch_bga.push(ch_values(d@, base62)), ..m },
        MainDataValue::Option(d) => MainDataModel { option: m.option.push(ch_values(d@, base62)), ..m },
        MainDataValue::Scroll(d) => MainDataModel { scroll: m.scroll.push(ch_values(d@, base62)), ..m },
        MainDataValue::Speed(d) => MainDataModel { speed: m.speed.push(ch_values(d@, base62)), ..m },
        MainDataValue::Length(n) => MainDataModel { length: Some(n), ..m },
        MainDataValue::Bpm(d) => MainDataModel { bpm: m.bpm.push(d), ..m },
        MainDataValue::BgaAlpha(d) => MainDataModel { bga_alpha: m.bga_alpha.push(d), ..m },
        MainDataValue::BgaLayerAlpha(d) => MainDataModel { bga_layer_alpha: m.bga_layer_alpha.push(d), ..m },
        MainDataValue::BgaLayer2Alpha(d) => MainDataModel { bga_layer2_alpha: m.bga_layer2_alpha.push(d), ..m },
        MainDataValue::BgaPoorAlpha(d) => MainDataModel { bga_poor_alpha: m.bga_poor_alpha.push(d), ..m },
        MainDataValue::Note(ch, d) => MainDataModel { notes: keyed_push(m.notes, *ch, ch_values(d@, base62)), ..m },
        MainDataValue::InvisibleNote(ch, d) => MainDataModel { invisible_notes: keyed_push(m.invisible_notes, *ch, ch_values(d@, base62)), ..m },
        MainDataValue::LongNote(ch, d) => MainDataModel { long_notes: keyed_push(m.long_notes, *ch, ch_values(d@, base62)), ..m },
        MainDataValue::Landmine(ch, d) => MainDataModel { landmine: keyed_push(m.landmine, *ch, d), ..m },
        MainDataValue::Other(ch, d) => MainDataModel { other: m.other.push((*ch, d)), ..m },
    }
}

/// The main data of one measure. A measure may hold several lines of one
/// family: each is kept, in source order.
#[derive(Debug, PartialEq)]
pub struct MainData<'a> {
    pub bgm: Vec<Vec<usize>>,
    pub bga: Vec<Vec<usize>>,
    pub bga_poor: Vec<Vec<usize>>,
    pub bga_layer: Vec<Vec<usize>>,
    pub ex_bpm: Vec<Vec<usize>>,
    pub stop: Vec<Vec<usize>>,
    pub bga_layer2: Vec<Vec<usize>>,
    pub ex_rank: Vec<Vec<usize>>,
    pub text: Vec<Vec<usize>>,
    pub bga_argb: Vec<Vec<usize>>,
    pub bga_layer_argb: Vec<Vec<usize>>,
    pub bga_layer2_argb: Vec<Vec<usize>>,
    pub bga_poor_argb: Vec<Vec<usize>>,
    pub switch_bga: Vec<Vec<usize>>,
    pub option: Vec<Vec<usize>>,
    pub scroll: Vec<Vec<usize>>,
    pub speed: Vec<Vec<usize>>,
    /// The measure length; `None` is the standard length 1.
    pub length: Option<&'a Decimal>,
    pub bpm: Vec<&'a Vec<Option<u8>>>,
    pub bga_alpha: Vec<&'a Vec<u8>>,
    pub bga_layer_alpha: Vec<&'a Vec<u8>>,
    pub bga_layer2_alpha: Vec<&'a Vec<u8>>,
    pub bga_poor_alpha: Vec<&'a Vec<u8>>,
    /// Keyed by the lane's base-36 channel value.
    pub notes: HashMap<usize, Vec<Vec<usize>>>,
    /// Keyed by the lane's base-36 channel value.
    pub invisible_notes: HashMap<usize, Vec<Vec<usize>>>,
    /// Keyed by the lane's base-36 channel value.
    pub long_notes: HashMap<usize, Vec<Vec<usize>>>,
    pub landmine: HashMap<usize, Vec<&'a Vec<usize>>>,
    pub other: Vec<(usize, &'a String)>,
}

impl<'a> MainData<'a> {
    pub open spec fn model(&self) -> MainDataModel<'a> {
        MainDataModel {
            bgm: lists(self.bgm@),
            bga: lists(self.bga@),
            bga_poor: lists(self.bga_poor@),
            bga_layer: lists(self.bga_layer@),
            ex_bpm: lists(self.ex_bpm@),
            stop: lists(self.stop@),
            bga_layer2: lists(self.bga_layer2@),
            ex_rank: lists(self.ex_rank@),
            text: lists(self.text@),
            bga_argb: lists(self.bga_argb@),
            bga_layer_argb: lists(self.bga_layer_argb@),
            bga_layer2_argb: lists(self.bga_layer2_argb@),
            bga_poor_argb: lists(self.bga_poor_argb@),
            switch_bga: lists(self.switch_bga@),
            option: lists(self.option@),
            scroll: lists(self.scroll@),
            speed: lists(self.speed@),
            length: self.length,
            bpm: self.bpm@,
            bga_alpha: self.bga_alpha@,
            bga_layer_alpha: self.bga_layer_alpha@,
            bga_layer2_alpha: self.bga_layer2_alpha@,
            bga_poor_alpha: self.bga_poor_alpha@,
            notes: keyed_lists(self.notes@),
            invisible_notes: keyed_lists(self.invisible_notes@),
            long_notes: keyed_lists(self.long_notes@),
            landmine: keyed_seqs(self.landmine@),
            other: self.other@,
        }
    }

    pub fn new() -> (r: MainData<'a>)
        ensures
            r.model() == empty_measure::<'a>(),
    {
        let r = MainData {
            bgm: Vec::new(),
            bga: Vec::new(),
            bga_poor: Vec::new(),
            bga_layer: Vec::new(),
            ex_bpm: Vec::new(),
            stop: Vec::new(),
            bga_layer2: Vec::new(),
            ex_rank: Vec::new(),
            text: Vec::new(),
            bga_argb: Vec::new(),
            bga_layer_argb: Vec::new(),
            bga_layer2_argb: Vec::new(),
            bga_poor_argb: Vec::new(),
            switch_bga: Vec::new(),
            option: Vec::new(),
            scroll: Vec::new(),
            speed: Vec::new(),
            length: None,
            bpm: Vec::new(),
            bga_alpha: Vec::new(),
            bga_layer_alpha: Vec::new(),
            bga_layer2_alpha: Vec::new(),
            bga_poor_alpha: Vec::new(),
            notes: HashMap::new(),
            invisible_notes: HashMap::new(),
            long_notes: HashMap::new(),
            landmine: HashMap::new(),
            other: Vec::new(),
        };
        proof {
            assert(lists(r.bgm@) =~= Seq::empty());
            assert(lists(r.bga@) =~= Seq::empty());
            assert(lists(r.bga_poor@) =~= Seq::empty());
            assert(lists(r.bga_layer@) =~= Seq::empty());
            assert(lists(r.ex_bpm@) =~= Seq::empty());
            assert(lists(r.stop@) =~= Seq::empty());
            assert(lists(r.bga_layer2@) =~= Seq::empty());
            assert(lists(r.ex_rank@) =~= Seq::empty());
            assert(lists(r.text@) =~= Seq::empty());
            assert(lists(r.bga_argb@) =~= Seq::empty());
            assert(lists(r.bga_layer_argb@) =~= Seq::empty());
            assert(lists(r.bga_layer2_argb@) =~= Seq::empty());
            assert(lists(r.bga_poor_argb@) =~= Seq::empty());
            assert(lists(r.switch_bga@) =~= Seq::empty());
            assert(lists(r.option@) =~= Seq::empty());
            assert(lists(r.scroll@) =~= Seq::empty());
            assert(lists(r.speed@) =~= Seq::empty());
            assert(keyed_lists(r.notes@) =~= Map::empty());
            assert(keyed_lists(r.invisible_notes@) =~= Map::empty());
            assert(keyed_lists(r.long_notes@) =~= Map::empty());
            assert(keyed_seqs(r.landmine@) =~= Map::empty());
        }
        r
    }

    /// Adds a main-data payload to this measure.
    pub fn apply(&mut self, v: &'a MainDataValue, base62: bool)
        ensures
            final(self).model() == apply_main(old(self).model(), v, base62),
    {
        match v {
            MainDataValue::Bgm(d) => push_list(&mut self.bgm, convert_channels(d, base62)),
            MainDataValue::Bga(d) => push_list(&mut self.bga, convert_channels(d, base62)),
            MainDataValue::BgaPoor(d) => push_list(&mut self.bga_poor, convert_channels(d, base62)),
            MainDataValue::BgaLayer(d) => push_list(&mut self.bga_layer, convert_channels(d, base62)),
            MainDataValue::ExBpm(d) => push_list(&mut self.ex_bpm, convert_channels(d, base62)),
            MainDataValue::Stop(d) => push_list(&mut self.stop, convert_channels(d, base62)),
            MainDataValue::BgaLayer2(d) => push_list(&mut self.bga_layer2, convert_channels(d, base62)),
            MainDataValue::ExRank(d) => push_list(&mut self.ex_rank, convert_channels(d, base62)),
            MainDataValue::Text(d) => push_list(&mut self.text, convert_channels(d, base62)),
            MainDataValue::BgaArgb(d) => push_list(&mut self.bga_argb, convert_channels(d, base62)),
            MainDataValue::BgaLayerArgb(d) => push_list(&mut self.bga_layer_argb, convert_channels(d, base62)),
            MainDataValue::BgaLayer2Argb(d) => push_list(&mut self.bga_layer2_argb, convert_channels(d, base62)),
            MainDataValue::BgaPoorArgb(d) => push_list(&mut self.bga_poor_argb, convert_channels(d, base62)),
            MainDataValue::SwitchBga(d) => push_list(&mut self.switch_bga, convert_channels(d, base62)),
            MainDataValue::Option(d) => push_list(&mut self.option, convert_channels(d, base62)),
            MainDataValue::Scroll(d) => push_list(&mut self.scroll, convert_channels(d, base62)),
            MainDataValue::Speed(d) => push_list(&mut self.speed, convert_channels(d, base62)),
            MainDataValue::Length(n) => {
                self.length = Some(n);
            },
            MainDataValue::Bpm(d) => self.bpm.push(d),
            MainDataValue::BgaAlpha(d) => self.bga_alpha.push(d),
            MainDataValue::BgaLayerAlpha(d) => self.bga_layer_alpha.push(d),
            MainDataValue::BgaLayer2Alpha(d) => self.bga_layer2_alpha.push(d),
            MainDataValue::BgaPoorAlpha(d) => self.bga_poor_alpha.push(d),
            MainDataValue::Note(ch, d) => push_keyed_list(&mut self.notes, *ch, convert_channels(d, base62)),
            MainDataValue::InvisibleNote(ch, d) => push_keyed_list(&mut self.invisible_notes, *ch, convert_channels(d, base62)),
            MainDataValue::LongNote(ch, d) => push_keyed_list(&mut self.long_notes, *ch, convert_channels(d, base62)),
            MainDataValue::Landmine(ch, d) => push_keyed(&mut self.landmine, *ch, d),
            MainDataValue::Other(ch, d) => self.other.push((*ch, d)),
        }
    }
}

/// The values of a list of channels.
pub fn convert_channels(chs: &Vec<Channel>, base62: bool) -> (r: Vec<usize>)
    ensures
        r@ == ch_values(chs@, base62),
{
    let mut r: Vec<usize> = Vec::new();
    let mut i: usize = 0;
    while i < chs.len()
        invariant
            i <= chs@.len(),
            r@ == ch_values(chs@.subrange(0, i as int), base62),
        decreases chs@.len() - i,
    {
        r.push(chs[i].to_base_36_or_62(base62));
        i = i + 1;
        proof {
            assert(ch_values(chs@.subrange(0, i as int), base62) =~= ch_values(
                chs@.subrange(0, i - 1),
                base62,
            ).push(chs@[i - 1].value(base62) as usize));
        }
    }
    assert(chs@.subrange(0, i as int) =~= chs@);
    r
}

fn push_list(l: &mut Vec<Vec<usize>>, v: Vec<usize>)
    ensures
        lists(final(l)@) == lists(old(l)@).push(v@),
{
    let ghost x = v@;
    l.push(v);
    assert(lists(l@) =~= lists(old(l)@).push(x));
}

fn push_keyed_list(m: &mut HashMap<usize, Vec<Vec<usize>>>, k: usize, v: Vec<usize>)
    ensures
        keyed_lists(final(m)@) == keyed_push(keyed_lists(old(m)@), k, v@),
{
    let ghost x = v@;
    let mut l = match m.remove(&k) {
        Some(l) => l,
        None => Vec::new(),
    };
    let ghost l0 = l@;
    push_list(&mut l, v);
    m.insert(k, l);
    proof {
        if old(m)@.contains_key(k) {
            assert(l0 == old(m)@[k]@);
        } else {
            assert(lists(l0) =~= Seq::empty());
        }
        assert(keyed_lists(m@) =~= keyed_push(keyed_lists(old(m)@), k, x));
    }
}

fn push_keyed<T>(m: &mut HashMap<usize, Vec<T>>, k: usize, v: T)
    ensures
        keyed_seqs(final(m)@) == keyed_push(keyed_seqs(old(m)@), k, v),
{
    let ghost x = v;
    let mut l = match m.remove(&k) {
        Some(l) => l,
        None => Vec::new(),
    };
    let ghost l0 = l@;
    l.push(v);
    m.insert(k, l);
    proof {
        if old(m)@.contains_key(k) {
            assert(l0 == old(m)@[k]@);
        } else {
            assert(l0 =~= Seq::empty());
        }
        assert(keyed_seqs(m@) =~= keyed_push(keyed_seqs(old(m)@), k, x));
    }
}

/// The chart record, as values.
pub struct BmsModel<'a> {
    pub main_data: Seq<MainDataModel<'a>>,
    pub rank: Option<i32>,
    pub def_ex_rank: Option<&'a Decimal>,
    pub total: Option<&'a Decimal>,
    pub volume_wav: Option<&'a Decimal>,
    pub stage_file: Option<&'a String>,
    pub banner: Option<&'a String>,
    pub back_bmp: Option<&'a String>,
    pub play_level: Option<i32>,
    pub difficulty: Option<i32>,
    pub title: Option<&'a String>,
    pub sub_title: Seq<&'a String>,
    pub artist: Option<&'a String>,
    pub sub_artist: Seq<&'a String>,
    pub genre: Option<&'a String>,
    pub bpm: Option<&'a Decimal>,
    pub ex_bpm: Map<usize, &'a Decimal>,
    pub stop: Map<usize, &'a Decimal>,
    pub ln_mode: Option<i32>,
    pub ln_type: Option<i32>,
    pub ln_object: Set<usize>,
    pub wav: Map<usize, &'a String>,
    pub bmp: Map<usize, &'a String>,
    pub url: Option<&'a String>,
    pub email: Option<&'a String>,
    pub scroll: Map<usize, &'a Decimal>,
    pub speed: Map<usize, &'a Decimal>,
    pub preview: Option<&'a String>,
    pub ex_rank: Map<usize, &'a Decimal>,
    pub character_file: Option<&'a String>,
    pub maker: Option<&'a String>,
    pub comment: Seq<&'a String>,
    pub text: Map<usize, &'a String>,
    pub path_wav: Option<&'a String>,
    pub stp: Seq<(usize, u32, &'a Decimal)>,
    pub oct_fp: bool,
    pub option: Seq<(&'a String, &'a String)>,
    pub change_option: Map<usize, (&'a String, &'a String)>,
    pub wav_command: Seq<(i32, usize, &'a Decimal)>,
    pub ex_wav: Map<usize, (&'a [Option<Decimal>; 3], &'a String)>,
    pub cdda: Option<u32>,
    pub midi_file: Option<&'a String>,
    pub ex_bmp: Map<usize, (&'a [u8; 4], &'a String)>,
    pub bga: Map<usize, (usize, &'a [[Decimal; 2]; 3])>,
    pub at_bga: Map<usize, (usize, &'a [[Decimal; 2]; 3])>,
    pub poor_bga: Option<i32>,
    pub argb: Map<usize, &'a [u8; 4]>,
    pub video_file: Option<&'a String>,
    pub video_fps: Option<&'a Decimal>,
    pub video_colors: Option<u32>,
    pub video_delay: Option<u32>,
    pub movie: Option<&'a String>,
    pub ex_character: Option<ExCharacter<'a>>,
    pub player: Option<PlayType>,
    pub base_bpm: Option<&'a Decimal>,
    pub switch_bga: Map<usize, (&'a Decimal, &'a Decimal, usize, bool, &'a [u8; 4], &'a Vec<Channel>)>,
    pub seek: Map<usize, &'a Decimal>,
    pub other: Seq<(&'a String, &'a String)>,
}

/// The record of a chart with no commands.
pub open spec fn empty_chart<'a>() -> BmsModel<'a> {
    BmsModel {
        main_data: Seq::empty(),
        rank: None,
        def_ex_rank: None,
        total: None,
        volume_wav: None,
        stage_file: None,
        banner: None,
        back_bmp: None,
        play_level: None,
        difficulty: None,
        title: None,
        sub_title: Seq::empty(),
        artist: None,
        sub_artist: Seq::empty(),
        genre: None,
        bpm: None,
        ex_bpm: Map::empty(),
        stop: Map::empty(),
        ln_mode: None,
        ln_type: None,
        ln_object: Set::empty(),
        wav: Map::empty(),
        bmp: Map::empty(),
        url: None,
        email: None,
        scroll: Map::empty(),
        speed: Map::empty(),
        preview: None,
        ex_rank: Map::empty(),
        character_file: None,
        maker: None,
        comment: Seq::empty(),
        text: Map::empty(),
        path_wav: None,
        stp: Seq::empty(),
        oct_fp: false,
        option: Seq::empty(),
        change_option: Map::empty(),
        wav_command: Seq::empty(),
        ex_wav: Map::empty(),
        cdda: None,
        midi_file: None,
        ex_bmp: Map::empty(),
        bga: Map::empty(),
        at_bga: Map::empty(),
        poor_bga: None,
        argb: Map::empty(),
        video_file: None,
        video_fps: None,
        video_colors: None,
        video_delay: None,
        movie: None,
        ex_character: None,
        player: None,
        base_bpm: None,
        switch_bga: Map::empty(),
        seek: Map::empty(),
        other: Seq::empty(),
    }
}

/// The measures with at least `n` of them, the new ones empty.
pub open spec fn extend_measures<'a>(s: Seq<MainDataModel<'a>>, n: nat) -> Seq<MainDataModel<'a>> {
    if s.len() >= n {
        s
    } else {
        s + Seq::new((n - s.len()) as nat, |i: int| empty_measure::<'a>())
    }
}

/// The play style of a PLAYER code.
pub open spec fn play_type(n: i32) -> Option<PlayType> {
    if n == 1 {
        Some(PlayType::SinglePlay)
    } else if n == 2 {
        Some(PlayType::CouplePlay)
    } else if n == 3 {
        Some(PlayType::DoublePlay)
    } else if n == 4 {
        Some(PlayType::BattlePlay)
    } else {
        None
    }
}

pub open spec fn opt_ref<'a, T>(o: &'a Option<T>) -> Option<&'a T> {
    match o {
        Some(x) => Some(x),
        None => None,
    }
}

/// Whether a base-62 marker is among the commands.
pub open spec fn has_base62<'a>(cmds: Seq<&'a Command>) -> bool {
    exists|i: int| 0 <= i < cmds.len() && #[trigger] cmds[i] matches Command::Base62
}

/// The chart record that the first `k` commands make.
pub open spec fn build_upto<'a>(cmds: Seq<&'a Command>, k: nat, base62: bool) -> BmsModel<'a>
    decreases k,
{
    if k == 0 || k > cmds.len() {
        empty_chart()
    } else {
        apply(build_upto(cmds, (k - 1) as nat, base62), cmds[k - 1], base62)
    }
}

/// The chart record that a resolved command list makes, its channels read
/// in base 62 when a base-62 marker is among the commands.
pub open spec fn chart_of<'a>(cmds: Seq<&'a Command>) -> BmsModel<'a> {
    build_upto(cmds, cmds.len(), has_base62(cmds))
}

/// What one command does to the chart record, with channels read in base
/// 62 when `base62` is set, else in base 36. Scalars are overwritten, lists
/// get one more entry, maps by channel get the key set or replaced; a main
/// data command goes to its measure, which is created, with every measure
/// before it, when missing. A measure index of `usize::MAX` cannot be held
/// and is ignored.
pub open spec fn apply<'a>(m: BmsModel<'a>, c: &'a Command, base62: bool) -> BmsModel<'a> {
    match c {
        Command::MainData(k, v) => if *k == usize::MAX {
            m
        } else {
            let md = extend_measures(m.main_data, (*k + 1) as nat);
            BmsModel { main_data: md.update(*k as int, apply_main(md[*k as int], v, base62)), ..m }
        },
        Command::Player(n) => match play_type(*n) {
            Some(p) => BmsModel { player: Some(p), ..m },
            None => m,
        },
        Command::Rank(n) => BmsModel { rank: Some(*n), ..m },
        Command::DefExRank(n) => BmsModel { def_ex_rank: Some(n), ..m },
        Command::ExRank(ch, n) => BmsModel { ex_rank: m.ex_rank.insert(ch.value(base62) as usize, n), ..m },
        Command::Total(n) => BmsModel { total: Some(n), ..m },
        Command::VolumeWav(n) => BmsModel { volume_wav: Some(n), ..m },
        Command::StageFile(s) => BmsModel { stage_file: Some(s), ..m },
        Command::Banner(s) => BmsModel { banner: Some(s), ..m },
        Command::BackBmp(s) => BmsModel { back_bmp: Some(s), ..m },
        Command::CharacterFile(s) => BmsModel { character_file: Some(s), ..m },
        Command::PlayLevel(n) => BmsModel { play_level: Some(*n), ..m },
        Command::Difficulty(n) => BmsModel { difficulty: Some(*n), ..m },
        Command::Title(s) => BmsModel { title: Some(s), ..m },
        Command::SubTitle(s) => BmsModel { sub_title: m.sub_title.push(s), ..m },
        Command::Artist(s) => BmsModel { artist: Some(s), ..m },
        Command::SubArtist(s) => BmsModel { sub_artist: m.sub_artist.push(s), ..m },
        Command::Maker(s) => BmsModel { maker: Some(s), ..m },
        Command::Genre(s) => BmsModel { genre: Some(s), ..m },
        Command::Comment(s) => BmsModel { comment: m.comment.push(s), ..m },
        Command::Text(ch, s) => BmsModel { text: m.text.insert(ch.value(base62) as usize, s), ..m },
        Command::PathWav(s) => BmsModel { path_wav: Some(s), ..m },
        Command::Bpm(n) => BmsModel { bpm: Some(n), ..m },
        Command::ExBpm(ch, n) => BmsModel { ex_bpm: m.ex_bpm.insert(ch.value(base62) as usize, n), ..m },
        Command::BaseBpm(n) => BmsModel { base_bpm: Some(n), ..m },
        Command::Stop(ch, n) => BmsModel { stop: m.stop.insert(ch.value(base62) as usize, n), ..m },
        Command::Stp(x, y, z) => BmsModel { stp: m.stp.push((*x, *y, z)), ..m },
        Command::LnMode(n) => BmsModel { ln_mode: Some(*n), ..m },
        Command::LnType(n) => BmsModel { ln_type: Some(*n), ..m },
        Command::LnObject(ch) => BmsModel { ln_object: m.ln_object.insert(ch.value(base62) as usize), ..m },
        Command::OctFp => BmsModel { oct_fp: true, ..m },
        Command::Option(a, b) => BmsModel { option: m.option.push((a, b)), ..m },
        Command::ChangeOption(ch, a, b) => BmsModel { change_option: m.change_option.insert(ch.value(base62) as usize, (a, b)), ..m },
        Command::Wav(ch, s) => BmsModel { wav: m.wav.insert(ch.value(base62) as usize, s), ..m },
        Command::WavCommand(o, ch, v) => BmsModel { wav_command: m.wav_command.push((*o, (ch.value(base62) as usize), v)), ..m },
        Command::ExWav(ch, o, s) => BmsModel { ex_wav: m.ex_wav.insert(ch.value(base62) as usize, (o, s)), ..m },
        Command::Cdda(n) => BmsModel { cdda: Some(*n), ..m },
        Command::MidiFile(s) => BmsModel { midi_file: Some(s), ..m },
        Command::Bmp(ch, s) => BmsModel { bmp: m.bmp.insert(ch.value(base62) as usize, s), ..m },
        Command::ExBmp(ch, a, s) => BmsModel { ex_bmp: m.ex_bmp.insert(ch.value(base62) as usize, (a, s)), ..m },
        Command::Bga(ch, b, p) => BmsModel { bga: m.bga.insert(ch.value(base62) as usize, ((b.value(base62) as usize), p)), ..m },
        Command::AtBga(ch, b, p) => BmsModel { at_bga: m.at_bga.insert(ch.value(base62) as usize, ((b.value(base62) as usize), p)), ..m },
        Command::PoorBga(n) => BmsModel { poor_bga: Some(*n), ..m },
        Command::SwitchBga(ch, f, t, l, lp, a, d) => BmsModel { switch_bga: m.switch_bga.insert(ch.value(base62) as usize, (f, t, (l.base36() as usize), *lp, a, d)), ..m },
        Command::Argb(ch, a) => BmsModel { argb: m.argb.insert(ch.value(base62) as usize, a), ..m },
        Command::VideoFile(s) => BmsModel { video_file: Some(s), ..m },
        Command::VideoFps(n) => BmsModel { video_fps: Some(n), ..m },
        Command::VideoColors(n) => BmsModel { video_colors: Some(*n), ..m },
        Command::VideoDelay(n) => BmsModel { video_delay: Some(*n), ..m },
        Command::Movie(s) => BmsModel { movie: Some(s), ..m },
        Command::Seek(ch, n) => BmsModel { seek: m.seek.insert(ch.value(base62) as usize, n), ..m },
        Command::ExCharacter(sn, b, tr, off, ab) => BmsModel { ex_character: Some(ExCharacter { sprite_num: *sn, bmp: *b, trim_rect: tr, offset: opt_ref(off), abs_pos: opt_ref(ab) }), ..m },
        Command::Url(s) => BmsModel { url: Some(s), ..m },
        Command::Email(s) => BmsModel { email: Some(s), ..m },
        Command::Scroll(ch, n) => BmsModel { scroll: m.scroll.insert(ch.value(base62) as usize, n), ..m },
        Command::Speed(ch, n) => BmsModel { speed: m.speed.insert(ch.value(base62) as usize, n), ..m },
        Command::Preview(s) => BmsModel { preview: Some(s), ..m },
        Command::Other(a, b) => BmsModel { other: m.other.push((a, b)), ..m },
        Command::Base62 => m,
    }
}

/// A chart once its random groups are resolved. Texts, numbers and
/// payloads are borrowed from the commands that set them.
#[derive(Debug, PartialEq)]
pub struct Bms<'a> {
    /// Main data by measure index.
    pub main_data: Vec<MainData<'a>>,
    /// Judge rank.
    pub rank: Option<i32>,
    /// Finer judge rank.
    pub def_ex_rank: Option<&'a Decimal>,
    /// Gauge total.
    pub total: Option<&'a Decimal>,
    /// Overall volume.
    pub volume_wav: Option<&'a Decimal>,
    /// Image shown while loading.
    pub stage_file: Option<&'a String>,
    /// Banner image.
    pub banner: Option<&'a String>,
    /// Image laid over the stage file.
    pub back_bmp: Option<&'a String>,
    /// Level.
    pub play_level: Option<i32>,
    /// Difficulty class.
    pub difficulty: Option<i32>,
    /// Title.
    pub title: Option<&'a String>,
    /// Subtitles, in order.
    pub sub_title: Vec<&'a String>,
    /// Artist.
    pub artist: Option<&'a String>,
    /// Secondary artists, in order.
    pub sub_artist: Vec<&'a String>,
    /// Genre.
    pub genre: Option<&'a String>,
    /// Initial tempo.
    pub bpm: Option<&'a Decimal>,
    /// Tempo changes by channel.
    pub ex_bpm: HashMap<usize, &'a Decimal>,
    /// Stop durations by channel.
    pub stop: HashMap<usize, &'a Decimal>,
    /// Long-note judging mode.
    pub ln_mode: Option<i32>,
    /// Long-note encoding.
    pub ln_type: Option<i32>,
    /// Channels that end a long note.
    pub ln_object: HashSet<usize>,
    /// Sound files by channel.
    pub wav: HashMap<usize, &'a String>,
    /// Image files by channel.
    pub bmp: HashMap<usize, &'a String>,
    /// Home page of the author.
    pub url: Option<&'a String>,
    /// E-mail of the author.
    pub email: Option<&'a String>,
    /// Scroll speeds by channel.
    pub scroll: HashMap<usize, &'a Decimal>,
    /// Note speeds by channel.
    pub speed: HashMap<usize, &'a Decimal>,
    /// Preview sound.
    pub preview: Option<&'a String>,
    /// Judge ranks by channel.
    pub ex_rank: HashMap<usize, &'a Decimal>,
    /// Character file.
    pub character_file: Option<&'a String>,
    /// Chart author.
    pub maker: Option<&'a String>,
    /// Comments, in order.
    pub comment: Vec<&'a String>,
    /// Texts by channel.
    pub text: HashMap<usize, &'a String>,
    /// Folder of the sound files.
    pub path_wav: Option<&'a String>,
    /// Stops: measure, position in thousandths, duration.
    pub stp: Vec<(usize, u32, &'a Decimal)>,
    /// Octave / foot-pedal mode.
    pub oct_fp: bool,
    /// Options: name and value.
    pub option: Vec<(&'a String, &'a String)>,
    /// Options to switch to, by channel.
    pub change_option: HashMap<usize, (&'a String, &'a String)>,
    /// Sound edits: kind, channel, value.
    pub wav_command: Vec<(i32, usize, &'a Decimal)>,
    /// Sounds with pitch, volume and frequency, by channel.
    pub ex_wav: HashMap<usize, (&'a [Option<Decimal>; 3], &'a String)>,
    /// CD audio track.
    pub cdda: Option<u32>,
    /// MIDI file.
    pub midi_file: Option<&'a String>,
    /// Images with a colour key, by channel.
    pub ex_bmp: HashMap<usize, (&'a [u8; 4], &'a String)>,
    /// Image cut-outs by channel.
    pub bga: HashMap<usize, (usize, &'a [[Decimal; 2]; 3])>,
    /// Image cut-outs placed by size, by channel.
    pub at_bga: HashMap<usize, (usize, &'a [[Decimal; 2]; 3])>,
    /// Miss image mode.
    pub poor_bga: Option<i32>,
    /// Colours by channel.
    pub argb: HashMap<usize, &'a [u8; 4]>,
    /// Video file.
    pub video_file: Option<&'a String>,
    /// Video frame rate.
    pub video_fps: Option<&'a Decimal>,
    /// Video colour depth.
    pub video_colors: Option<u32>,
    /// Video delay.
    pub video_delay: Option<u32>,
    /// Movie file.
    pub movie: Option<&'a String>,
    /// Extended character sprite.
    pub ex_character: Option<ExCharacter<'a>>,
    /// Play style.
    pub player: Option<PlayType>,
    /// Reference tempo of the scroll speed.
    pub base_bpm: Option<&'a Decimal>,
    /// Key-triggered images by channel.
    pub switch_bga: HashMap<usize, (&'a Decimal, &'a Decimal, usize, bool, &'a [u8; 4], &'a Vec<Channel>)>,
    /// Video seek positions by channel.
    pub seek: HashMap<usize, &'a Decimal>,
    /// Commands that no recognizer took: word and rest of the line.
    pub other: Vec<(&'a String, &'a String)>,
}

impl<'a> Bms<'a> {
    pub open spec fn model(&self) -> BmsModel<'a> {
        BmsModel {
            main_data: self.main_data@.map_values(|d: MainData<'a>| d.model()),
            rank: self.rank,
            def_ex_rank: self.def_ex_rank,
            total: self.total,
            volume_wav: self.volume_wav,
            stage_file: self.stage_file,
            banner: self.banner,
            back_bmp: self.back_bmp,
            play_level: self.play_level,
            difficulty: self.difficulty,
            title: self.title,
            sub_title: self.sub_title@,
            artist: self.artist,
            sub_artist: self.sub_artist@,
            genre: self.genre,
            bpm: self.bpm,
            ex_bpm: self.ex_bpm@,
            stop: self.stop@,
            ln_mode: self.ln_mode,
            ln_type: self.ln_type,
            ln_object: self.ln_object@,
            wav: self.wav@,
            bmp: self.bmp@,
            url: self.url,
            email: self.email,
            scroll: self.scroll@,
            speed: self.speed@,
            preview: self.preview,
            ex_rank: self.ex_rank@,
            character_file: self.character_file,
            maker: self.maker,
            comment: self.comment@,
            text: self.text@,
            path_wav: self.path_wav,
            stp: self.stp@,
            oct_fp: self.oct_fp,
            option: self.option@,
            change_option: self.change_option@,
            wav_command: self.wav_command@,
            ex_wav: self.ex_wav@,
            cdda: self.cdda,
            midi_file: self.midi_file,
            ex_bmp: self.ex_bmp@,
            bga: self.bga@,
            at_bga: self.at_bga@,
            poor_bga: self.poor_bga,
            argb: self.argb@,
            video_file: self.video_file,
            video_fps: self.video_fps,
            video_colors: self.video_colors,
            video_delay: self.video_delay,
            movie: self.movie,
            ex_character: self.ex_character,
            player: self.player,
            base_bpm: self.base_bpm,
            switch_bga: self.switch_bga@,
            seek: self.seek@,
            other: self.other@,
        }
    }

    /// A chart with no data.
    pub fn new() -> (r: Bms<'a>)
        ensures
            r.model() == empty_chart::<'a>(),
    {
        let r = Bms {
            main_data: Vec::new(),
            rank: None,
            def_ex_rank: None,
            total: None,
            volume_wav: None,
            stage_file: None,
            banner: None,
            back_bmp: None,
            play_level: None,
            difficulty: None,
            title: None,
            sub_title: Vec::new(),
            artist: None,
            sub_artist: Vec::new(),
            genre: None,
            bpm: None,
            ex_bpm: HashMap::new(),
            stop: HashMap::new(),
            ln_mode: None,
            ln_type: None,
            ln_object: HashSet::new(),
            wav: HashMap::new(),
            bmp: HashMap::new(),
            url: None,
            email: None,
            scroll: HashMap::new(),
            speed: HashMap::new(),
            preview: None,
            ex_rank: HashMap::new(),
            character_file: None,
            maker: None,
            comment: Vec::new(),
            text: HashMap::new(),
            path_wav: None,
            stp: Vec::new(),
            oct_fp: false,
            option: Vec::new(),
            change_option: HashMap::new(),
            wav_command: Vec::new(),
            ex_wav: HashMap::new(),
            cdda: None,
            midi_file: None,
            ex_bmp: HashMap::new(),
            bga: HashMap::new(),
            at_bga: HashMap::new(),
            poor_bga: None,
            argb: HashMap::new(),
            video_file: None,
            video_fps: None,
            video_colors: None,
            video_delay: None,
            movie: None,
            ex_character: None,
            player: None,
            base_bpm: None,
            switch_bga: HashMap::new(),
            seek: HashMap::new(),
            other: Vec::new(),
        };
        assert(r.model().main_data =~= Seq::empty());
        r
    }

    /// The measure of index `k`, created with every missing measure
    /// before it.
    fn measure_at(&mut self, k: usize)
        requires
            k < usize::MAX,
        ensures
            final(self).model() == (BmsModel {
                main_data: extend_measures(old(self).model().main_data, (k + 1) as nat),
                ..old(self).model()
            }),
            final(self).main_data@.len() > k,
    {
        let ghost m0 = self.model();
        while self.main_data.len() <= k
            invariant
                k < usize::MAX,
                self.model() == (BmsModel {
                    main_data: self.model().main_data,
                    ..m0
                }),
                m0.main_data.len() <= self.main_data@.len(),
                self.main_data@.len() <= k + 1 || self.main_data@.len() == m0.main_data.len(),
                self.model().main_data =~= extend_measures(m0.main_data, self.main_data@.len() as nat),
            decreases k + 1 - self.main_data@.len(),
        {
            let ghost before = self.model().main_data;
            self.main_data.push(MainData::new());
            proof {
                assert(self.model().main_data =~= before.push(empty_measure::<'a>()));
                assert(extend_measures(m0.main_data, self.main_data@.len() as nat) =~= extend_measures(
                    m0.main_data,
                    (self.main_data@.len() - 1) as nat,
                ).push(empty_measure::<'a>()));
            }
        }
        proof {
            if m0.main_data.len() >= k + 1 {
                assert(extend_measures(m0.main_data, (k + 1) as nat) == m0.main_data);
                assert(extend_measures(m0.main_data, self.main_data@.len() as nat) == m0.main_data);
            } else {
                assert(self.main_data@.len() == k + 1);
            }
        }
    }

    /// Folds one command into the chart.
    pub fn apply_command(&mut self, c: &'a Command, base62: bool)
        ensures
            final(self).model() == apply(old(self).model(), c, base62),
    {
        match c {
            Command::MainData(k, v) => {
                if *k == usize::MAX {
                    assert(self.model().main_data =~= apply(old(self).model(), c, base62).main_data);
                    return;
                }
                self.measure_at(*k);
                let ghost mid = self.model();
                let md = &mut self.main_data[*k];
                md.apply(v, base62);
                proof {
                    assert(self.model().main_data =~= mid.main_data.update(
                        *k as int,
                        apply_main(mid.main_data[*k as int], v, base62),
                    ));
                }
            },
            Command::Player(n) => {
                if *n == 1 {
                    self.player = Some(PlayType::SinglePlay);
                } else if *n == 2 {
                    self.player = Some(PlayType::CouplePlay);
                } else if *n == 3 {
                    self.player = Some(PlayType::DoublePlay);
                } else if *n == 4 {
                    self.player = Some(PlayType::BattlePlay);
                }
            },
            Command::Rank(n) => {
                self.rank = Some(*n);
            },
            Command::DefExRank(n) => {
                self.def_ex_rank = Some(n);
            },
            Command::ExRank(ch, n) => {
                let key = ch.to_base_36_or_62(base62);
                let e = n;
                self.ex_rank.insert(key, e);
            },
            Command::Total(n) => {
                self.total = Some(n);
            },
            Command::VolumeWav(n) => {
                self.volume_wav = Some(n);
            },
            Command::StageFile(s) => {
                self.stage_file = Some(s);
            },
            Command::Banner(s) => {
                self.banner = Some(s);
            },
            Command::BackBmp(s) => {
                self.back_bmp = Some(s);
            },
            Command::CharacterFile(s) => {
                self.character_file = Some(s);
            },
            Command::PlayLevel(n) => {
                self.play_level = Some(*n);
            },
            Command::Difficulty(n) => {
                self.difficulty = Some(*n);
            },
            Command::Title(s) => {
                self.title = Some(s);
            },
            Command::SubTitle(s) => {
                let e = s;
                self.sub_title.push(e);
            },
            Command::Artist(s) => {
                self.artist = Some(s);
            },
            Command::SubArtist(s) => {
                let e = s;
                self.sub_artist.push(e);
            },
            Command::Maker(s) => {
                self.maker = Some(s);
            },
            Command::Genre(s) => {
                self.genre = Some(s);
            },
            Command::Comment(s) => {
                let e = s;
                self.comment.push(e);
            },
            Command::Text(ch, s) => {
                let key = ch.to_base_36_or_62(base62);
                let e = s;
                self.text.insert(key, e);
            },
            Command::PathWav(s) => {
                self.path_wav = Some(s);
            },
            Command::Bpm(n) => {
                self.bpm = Some(n);
            },
            Command::ExBpm(ch, n) => {
                let key = ch.to_base_36_or_62(base62);
                let e = n;
                self.ex_bpm.insert(key, e);
            },
            Command::BaseBpm(n) => {
                self.base_bpm = Some(n);
            },
            Command::Stop(ch, n) => {
                let key = ch.to_base_36_or_62(base62);
                let e = n;
                self.stop.insert(key, e);
            },
            Command::Stp(x, y, z) => {
                let e = (*x, *y, z);
                self.stp.push(e);
            },
            Command::LnMode(n) => {
                self.ln_mode = Some(*n);
            },
            Command::LnType(n) => {
                self.ln_type = Some(*n);
            },
            Command::LnObject(ch) => {
                let key = ch.to_base_36_or_62(base62);
                self.ln_object.insert(key);
            },
            Command::OctFp => {
                self.oct_fp = true;
            },
            Command::Option(a, b) => {
                let e = (a, b);
                self.option.push(e);
            },
            Command::ChangeOption(ch, a, b) => {
                let key = ch.to_base_36_or_62(base62);
                let e = (a, b);
                self.change_option.insert(key, e);
            },
            Command::Wav(ch, s) => {
                let key = ch.to_base_36_or_62(base62);
                let e = s;
                self.wav.insert(key, e);
            },
            Command::WavCommand(o, ch, v) => {
                let e = (*o, ch.to_base_36_or_62(base62), v);
                self.wav_command.push(e);
            },
            Command::ExWav(ch, o, s) => {
                let key = ch.to_base_36_or_62(base62);
                let e = (o, s);
                self.ex_wav.insert(key, e);
            },
            Command::Cdda(n) => {
                self.cdda = Some(*n);
            },
            Command::MidiFile(s) => {
                self.midi_file = Some(s);
            },
            Command::Bmp(ch, s) => {
                let key = ch.to_base_36_or_62(base62);
                let e = s;
                self.bmp.insert(key, e);
            },
            Command::ExBmp(ch, a, s) => {
                let key = ch.to_base_36_or_62(base62);
                let e = (a, s);
                self.ex_bmp.insert(key, e);
            },
            Command::Bga(ch, b, p) => {
                let key = ch.to_base_36_or_62(base62);
                let e = (b.to_base_36_or_62(base62), p);
                self.bga.insert(key, e);
            },
            Command::AtBga(ch, b, p) => {
                let key = ch.to_base_36_or_62(base62);
                let e = (b.to_base_36_or_62(base62), p);
                self.at_bga.insert(key, e);
            },
            Command::PoorBga(n) => {
                self.poor_bga = Some(*n);
            },
            Command::SwitchBga(ch, f, t, l, lp, a, d) => {
                let key = ch.to_base_36_or_62(base62);
                let e = (f, t, l.to_base_36(), *lp, a, d);
                self.switch_bga.insert(key, e);
            },
            Command::Argb(ch, a) => {
                let key = ch.to_base_36_or_62(base62);
                let e = a;
                self.argb.insert(key, e);
            },
            Command::VideoFile(s) => {
                self.video_file = Some(s);
            },
            Command::VideoFps(n) => {
                self.video_fps = Some(n);
            },
            Command::VideoColors(n) => {
                self.video_colors = Some(*n);
            },
            Command::VideoDelay(n) => {
                self.video_delay = Some(*n);
            },
            Command::Movie(s) => {
                self.movie = Some(s);
            },
            Command::Seek(ch, n) => {
                let key = ch.to_base_36_or_62(base62);
                let e = n;
                self.seek.insert(key, e);
            },
            Command::ExCharacter(sn, b, tr, off, ab) => {
                self.ex_character = Some(ExCharacter { sprite_num: *sn, bmp: *b, trim_rect: tr, offset: option_ref(off), abs_pos: option_ref(ab) });
            },
            Command::Url(s) => {
                self.url = Some(s);
            },
            Command::Email(s) => {
                self.email = Some(s);
            },
            Command::Scroll(ch, n) => {
                let key = ch.to_base_36_or_62(base62);
                let e = n;
                self.scroll.insert(key, e);
            },
            Command::Speed(ch, n) => {
                let key = ch.to_base_36_or_62(base62);
                let e = n;
                self.speed.insert(key, e);
            },
            Command::Preview(s) => {
                self.preview = Some(s);
            },
            Command::Other(a, b) => {
                let e = (a, b);
                self.other.push(e);
            },
            Command::Base62 => {},
        }
        proof {
            assert(self.model().main_data =~= apply(old(self).model(), c, base62).main_data);
        }
    }
}

/// Whether a base-62 marker is among the commands.
pub fn uses_base62<'a>(cmds: &Vec<&'a Command>) -> (r: bool)
    ensures
        r == has_base62(cmds@),
{
    let mut i: usize = 0;
    while i < cmds.len()
        invariant
            i <= cmds@.len(),
            forall|j: int| 0 <= j < i ==> !(#[trigger] cmds@[j] matches Command::Base62),
        decreases cmds@.len() - i,
    {
        if let Command::Base62 = cmds[i] {
            return true;
        }
        i = i + 1;
    }
    false
}

/// Builds the chart record from resolved commands.
pub fn build<'a>(cmds: &Vec<&'a Command>) -> (r: Bms<'a>)
    ensures
        r.model() == chart_of(cmds@),
{
    let base62 = uses_base62(cmds);
    let mut bms = Bms::new();
    let mut i: usize = 0;
    while i < cmds.len()
        invariant
            i <= cmds@.len(),
            base62 == has_base62(cmds@),
            bms.model() == build_upto(cmds@, i as nat, base62),
        decreases cmds@.len() - i,
    {
        bms.apply_command(cmds[i], base62);
        i = i + 1;
    }
    bms
}

/// Two main-data lines of one measure and of the background-music
/// channel both stay, in source order.
pub proof fn lemma_background_lines_accumulate<'a>(
    m: BmsModel<'a>,
    k: usize,
    x: Vec<Channel>,
    y: Vec<Channel>,
    c1: &'a Command,
    c2: &'a Command,
    base62: bool,
)
    requires
        k < usize::MAX,
        *c1 == Command::MainData(k, MainDataValue::Bgm(x)),
        *c2 == Command::MainData(k, MainDataValue::Bgm(y)),
    ensures
        apply(apply(m, c1, base62), c2, base62).main_data[k as int].bgm == extend_measures(
            m.main_data,
            (k + 1) as nat,
        )[k as int].bgm.push(ch_values(x@, base62)).push(ch_values(y@, base62)),
{
    let m1 = apply(m, c1, base62);
    assert(extend_measures(m1.main_data, (k + 1) as nat) == m1.main_data);
}

/// Of two main-data lines that set the length of one measure, the second
/// is kept.
pub proof fn lemma_length_last_wins<'a>(
    m: BmsModel<'a>,
    k: usize,
    x: Decimal,
    y: Decimal,
    c1: &'a Command,
    c2: &'a Command,
    base62: bool,
)
    requires
        k < usize::MAX,
        *c1 == Command::MainData(k, MainDataValue::Length(x)),
        *c2 == Command::MainData(k, MainDataValue::Length(y)),
    ensures
        apply(apply(m, c1, base62), c2, base62).main_data[k as int].length == Some(&y),
{
    let m1 = apply(m, c1, base62);
    assert(extend_measures(m1.main_data, (k + 1) as nat) == m1.main_data);
}

fn option_ref<'a, T>(o: &'a Option<T>) -> (r: Option<&'a T>)
    ensures
        r == opt_ref(o),
{
    match o {
        Some(x) => Some(x),
        None => None,
    }
}

} // verus!
