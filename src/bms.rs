//! The entry points: a chart as parsed, and its resolution into a chart
//! record.
use vstd::prelude::*;

use crate::chart::{build, chart_of, Bms};
use crate::lex::{lex, lexes_to, lines_of};
use crate::parse::{block_fit, nests, parse_tokens, strip_end, ParseError};
use crate::token::{Command, Token};
use crate::tree::{derefs, drawn_since, render_block, res_block, BmsBlock, RandomSource};

verus! {

/// The name of the sound file that a token sets, if it is a WAV command.
pub open spec fn wav_of(t: Token) -> Option<Seq<char>> {
    match t {
        Token::Command(Command::Wav(_, f)) => Some(f@),
        _ => None,
    }
}

/// `files` holds each sound-file name of `ts` once.
pub open spec fn lists_wav_files(files: Seq<String>, ts: Seq<Token>) -> bool {
    &&& forall|j: int|
        0 <= j < files.len() ==> exists|i: int|
            0 <= i < ts.len() && #[trigger] wav_of(ts[i]) == Some(#[trigger] files[j]@)
    &&& forall|i: int|
        0 <= i < ts.len() && (#[trigger] wav_of(ts[i])) is Some ==> exists|j: int|
            0 <= j < files.len() && Some(#[trigger] files[j]@) == wav_of(ts[i])
    &&& forall|j1: int, j2: int|
        0 <= j1 < files.len() && 0 <= j2 < files.len() && j1 != j2 ==> #[trigger] files[j1]@
            != #[trigger] files[j2]@
}

fn contains_name(files: &Vec<String>, f: &String) -> (r: bool)
    ensures
        r == exists|j: int| 0 <= j < files@.len() && #[trigger] files@[j]@ == f@,
{
    let mut j: usize = 0;
    while j < files.len()
        invariant
            j <= files@.len(),
            forall|k: int| 0 <= k < j ==> #[trigger] files@[k]@ != f@,
        decreases files@.len() - j,
    {
        if files[j] == *f {
            return true;
        }
        j = j + 1;
    }
    false
}

/// The distinct sound-file names of the WAV commands among the tokens, in
/// the order they first appear.
pub fn collect_wav_files(ts: &Vec<Token>) -> (r: Vec<String>)
    ensures
        lists_wav_files(r@, ts@),
{
    let mut files: Vec<String> = Vec::new();
    let mut i: usize = 0;
    while i < ts.len()
        invariant
            i <= ts@.len(),
            lists_wav_files(files@, ts@.subrange(0, i as int)),
        decreases ts@.len() - i,
    {
        let ghost before = files@;
        if let Token::Command(Command::Wav(_, f)) = &ts[i] {
            if !contains_name(&files, f) {
                files.push(f.clone());
            }
        }
        i = i + 1;
        proof {
            let sub = ts@.subrange(0, i as int);
            let prev = ts@.subrange(0, i - 1);
            assert forall|j: int| 0 <= j < files@.len() implies exists|k: int|
                0 <= k < sub.len() && #[trigger] wav_of(sub[k]) == Some(#[trigger] files@[j]@) by {
                if j < before.len() {
                    let k = choose|k: int| 0 <= k < prev.len() && #[trigger] wav_of(prev[k]) == Some(before[j]@);
                    assert(sub[k] == prev[k]);
                } else {
                    assert(wav_of(sub[i - 1]) == Some(files@[j]@));
                }
            }
            assert forall|k: int| 0 <= k < sub.len() && (#[trigger] wav_of(sub[k])) is Some implies exists|j: int|
                0 <= j < files@.len() && Some(#[trigger] files@[j]@) == wav_of(sub[k]) by {
                if k < i - 1 {
                    assert(sub[k] == prev[k]);
                    let j = choose|j: int| 0 <= j < before.len() && Some(#[trigger] before[j]@) == wav_of(prev[k]);
                    assert(files@[j] == before[j]);
                } else if files@.len() > before.len() {
                    assert(Some(files@[before.len() as int]@) == wav_of(sub[k]));
                } else {
                    let j = choose|j: int| 0 <= j < files@.len() && #[trigger] files@[j]@ == wav_of(sub[k])->0;
                    assert(Some(files@[j]@) == wav_of(sub[k]));
                }
            }
        }
    }
    assert(ts@.subrange(0, i as int) =~= ts@);
    files
}

/// The draws a random source made between two of its states.
pub open spec fn new_draws<R: RandomSource>(before: R, after: R) -> Seq<u128> {
    after.history().subrange(before.history().len() as int, after.history().len() as int)
}

/// A chart as parsed, before its random groups are resolved.
#[derive(Debug, PartialEq, Default)]
pub struct RawBms {
    raw_bms: BmsBlock,
    all_wav_files: Vec<String>,
}

impl RawBms {
    /// The control-flow tree.
    pub closed spec fn tree(&self) -> BmsBlock {
        self.raw_bms
    }

    /// The sound files that the chart names.
    pub closed spec fn wav_files(&self) -> Seq<String> {
        self.all_wav_files@
    }

    /// The chart of a token list; it fails when the control-flow markers
    /// do not nest.
    pub fn from_tokens(tokens: Vec<Token>) -> (r: Result<RawBms, ParseError>)
        ensures
            r matches Ok(b) ==> block_fit(b.tree(), tokens@) == Some(tokens@.len()),
            r matches Ok(b) ==> render_block(b.tree()) == strip_end(tokens@) && lists_wav_files(
                b.wav_files(),
                tokens@,
            ),
            r matches Err(e) ==> e.position < tokens@.len(),
            r is Ok <==> nests(tokens@),
    {
        let files = collect_wav_files(&tokens);
        match parse_tokens(tokens) {
            Ok(b) => Ok(RawBms { raw_bms: b, all_wav_files: files }),
            Err(e) => Err(e),
        }
    }

    /// Parses the text of a chart: its lines are lexed, one token for each
    /// line with a sigil, and the tokens are parsed into the control-flow
    /// tree. Markers that do not nest are a failure of the whole document:
    /// an IF or SWITCH that is never closed, or an end, ELSE or CASE with no
    /// opening marker, is reported with the index of the token where the
    /// document stops being well formed.
    pub fn parse(source: &str) -> (r: Result<RawBms, ParseError>)
        ensures
            exists|ts: Seq<Token>|
                #[trigger] lexes_to(lines_of(source@), ts) && (r is Ok <==> nests(ts)) && (
                r matches Ok(b) ==> render_block(b.tree()) == strip_end(ts) && block_fit(b.tree(), ts)
                    == Some(ts.len()) && lists_wav_files(b.wav_files(), ts)),
    {
        let tokens = lex(source);
        let ghost ts = tokens@;
        let r = RawBms::from_tokens(tokens);
        assert(lexes_to(lines_of(source@), ts));
        r
    }

    /// Every sound-file name that a WAV command of the chart gives, once
    /// each, whether or not the command survives resolution.
    pub fn all_wav_files(&self) -> (r: &Vec<String>)
        ensures
            r@ == self.wav_files(),
    {
        &self.all_wav_files
    }

    /// The commands that the chart resolves to: each random or switch group
    /// takes a value, drawn from `rng` when it has a bound, in textual
    /// order. The draws are appended to `drawn`.
    pub fn resolve_commands<'a, R: RandomSource>(
        &'a self,
        rng: &mut R,
        drawn: &mut Vec<u128>,
    ) -> (r: Vec<&'a Command>)
        ensures
            old(drawn)@.len() <= final(drawn)@.len(),
            final(drawn)@.subrange(0, old(drawn)@.len() as int) == old(drawn)@,
            res_block(self.tree(), final(drawn)@, old(drawn)@.len() as nat) == (
                derefs(r@),
                final(drawn)@.len() as nat,
            ),
            final(rng).history() == drawn_since(
                old(rng).history(),
                final(drawn)@,
                old(drawn)@.len() as int,
            ),
    {
        let mut out: Vec<&'a Command> = Vec::new();
        self.raw_bms.get_token_vec(&mut out, rng, drawn);
        assert(derefs(out@) =~= Seq::<Command>::empty() + derefs(out@));
        out
    }

    /// The chart record of this chart once its groups have drawn their
    /// values from `rng`.
    pub fn make_bms<'a, R: RandomSource>(&'a self, rng: &mut R) -> (r: Bms<'a>)
        ensures
            exists|cmds: Seq<&'a Command>|
                res_block(self.tree(), new_draws(*old(rng), *final(rng)), 0).0 == #[trigger] derefs(
                    cmds,
                ) && r.model() == chart_of(cmds),
    {
        let mut drawn: Vec<u128> = Vec::new();
        let cmds = self.resolve_commands(rng, &mut drawn);
        let r = build(&cmds);
        assert(new_draws(*old(rng), *rng) =~= drawn@);
        assert(res_block(self.tree(), drawn@, 0).0 == derefs(cmds@));
        r
    }
}

} // verus!
