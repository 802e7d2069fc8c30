//! The control-flow parser: from the token list to the tree of blocks.
use vstd::prelude::*;

use std::collections::HashSet;
use std::collections::VecDeque;

use crate::token::{ControlFlow, Token};
use crate::tree::{
    branch_marker, case_labels, label_marker, random_marker, render_block, render_branches,
    render_cases, render_elem, render_elems, render_if, render_members, switch_marker, BmsBlock,
    BmsCaseBlock, BmsElement, BmsIfBlock, BmsRandomBlock, BmsRandomElement, BmsSwitchBlock,
    RandomValue, SwitchLabel,
};

verus! {

broadcast use vstd::std_specs::hash::group_hash_axioms;

/// A document whose RANDOM / IF / SWITCH markers do not nest: `position`
/// is the index, among the tokens, of the IF or SWITCH that is never
/// closed, or of the first marker that nothing opened.
#[derive(Debug, Clone, Copy, PartialEq, Eq)]
pub struct ParseError {
    pub position: usize,
}

/// A token, unless it is an ENDRANDOM marker.
pub open spec fn kept(t: Token) -> Seq<Token> {
    if t == Token::ControlFlow(ControlFlow::EndRandom) {
        Seq::empty()
    } else {
        seq![t]
    }
}

/// The tokens without their ENDRANDOM markers.
pub open spec fn strip_end(ts: Seq<Token>) -> Seq<Token>
    decreases ts.len(),
{
    if ts.len() == 0 {
        Seq::empty()
    } else {
        kept(ts[0]) + strip_end(ts.drop_first())
    }
}

proof fn lemma_strip_concat(a: Seq<Token>, b: Seq<Token>)
    ensures
        strip_end(a + b) == strip_end(a) + strip_end(b),
    decreases a.len(),
{
    if a.len() == 0 {
        assert(a + b =~= b);
        assert(strip_end(a) + strip_end(b) =~= strip_end(b));
    } else {
        assert((a + b).drop_first() =~= a.drop_first() + b);
        lemma_strip_concat(a.drop_first(), b);
        assert((a + b)[0] == a[0]);
        let h = kept(a[0]);
        assert(h + (strip_end(a.drop_first()) + strip_end(b)) =~= (h + strip_end(a.drop_first()))
            + strip_end(b));
    }
}

/// `o` with `k` more tokens taken.
pub open spec fn shifted(k: nat, o: Option<nat>) -> Option<nat> {
    match o {
        Some(n) => Some(n + k),
        None => None,
    }
}

pub open spec fn is_marker(t: Token, m: ControlFlow) -> bool {
    t == Token::ControlFlow(m)
}

/// How many tokens a block takes from the front of `ts`: commands and
/// groups for as long as they come. `None` when a group in it is not
/// closed as the grammar asks.
pub open spec fn block_len(ts: Seq<Token>) -> Option<nat>
    decreases ts.len(), 2nat,
{
    if ts.len() == 0 {
        Some(0)
    } else {
        match ts[0] {
            Token::Command(_) => shifted(1, block_len(ts.drop_first())),
            Token::ControlFlow(ControlFlow::Random(_))
            | Token::ControlFlow(ControlFlow::SetRandom(_)) => match random_len(ts) {
                Some(n) => if 0 < n <= ts.len() {
                    shifted(n, block_len(ts.subrange(n as int, ts.len() as int)))
                } else {
                    None
                },
                None => None,
            },
            Token::ControlFlow(ControlFlow::Switch(_))
            | Token::ControlFlow(ControlFlow::SetSwitch(_)) => match switch_len(ts) {
                Some(n) => if 0 < n <= ts.len() {
                    shifted(n, block_len(ts.subrange(n as int, ts.len() as int)))
                } else {
                    None
                },
                None => None,
            },
            _ => Some(0),
        }
    }
}

/// How many tokens the members of a random group take: IF chains and
/// non-empty blocks for as long as they come.
pub open spec fn members_len(ts: Seq<Token>) -> Option<nat>
    decreases ts.len(), 3nat,
{
    if ts.len() > 0 && ts[0] matches Token::ControlFlow(ControlFlow::If(_)) {
        match if_len(ts) {
            Some(n) => if 0 < n <= ts.len() {
                shifted(n, members_len(ts.subrange(n as int, ts.len() as int)))
            } else {
                None
            },
            None => None,
        }
    } else {
        match block_len(ts) {
            Some(k) => if k == 0 {
                Some(0)
            } else if k <= ts.len() {
                shifted(k, members_len(ts.subrange(k as int, ts.len() as int)))
            } else {
                None
            },
            None => None,
        }
    }
}

/// How many tokens a random group takes: its marker, its members, and an
/// ENDRANDOM if one follows.
pub open spec fn random_len(ts: Seq<Token>) -> Option<nat>
    decreases ts.len(), 1nat,
{
    if ts.len() == 0 {
        None
    } else {
        match members_len(ts.drop_first()) {
            Some(m) => if m < ts.len() {
                let rest = ts.subrange((1 + m) as int, ts.len() as int);
                if rest.len() > 0 && is_marker(rest[0], ControlFlow::EndRandom) {
                    Some(m + 2)
                } else {
                    Some(m + 1)
                }
            } else {
                None
            },
            None => None,
        }
    }
}

/// How many tokens a branch body and the rest of its IF chain take.
pub open spec fn branch_rest_len(ts: Seq<Token>) -> Option<nat>
    decreases ts.len(), 4nat,
{
    match block_len(ts) {
        Some(k) => if k <= ts.len() {
            shifted(k, after_branch_len(ts.subrange(k as int, ts.len() as int)))
        } else {
            None
        },
        None => None,
    }
}

/// How many tokens the rest of an IF chain takes after a branch body:
/// further ELSEIF branches, an optional ELSE body, and the ENDIF, which
/// must be there.
pub open spec fn after_branch_len(ts: Seq<Token>) -> Option<nat>
    decreases ts.len(), 3nat,
{
    if ts.len() == 0 {
        None
    } else if ts[0] matches Token::ControlFlow(ControlFlow::ElseIf(_)) {
        shifted(1, branch_rest_len(ts.drop_first()))
    } else if is_marker(ts[0], ControlFlow::Else) {
        match block_len(ts.drop_first()) {
            Some(k) => if k + 1 < ts.len() && is_marker(ts[(k + 1) as int], ControlFlow::EndIf) {
                Some(k + 2)
            } else {
                None
            },
            None => None,
        }
    } else if is_marker(ts[0], ControlFlow::EndIf) {
        Some(1)
    } else {
        None
    }
}

/// How many tokens an IF chain takes.
pub open spec fn if_len(ts: Seq<Token>) -> Option<nat>
    decreases ts.len(), 1nat,
{
    if ts.len() == 0 {
        None
    } else {
        shifted(1, branch_rest_len(ts.drop_first()))
    }
}

/// How many tokens the cases of a switch take, with its ENDSW, which must
/// be there.
pub open spec fn cases_len(ts: Seq<Token>) -> Option<nat>
    decreases ts.len(), 3nat,
{
    if ts.len() > 0 && (ts[0] matches Token::ControlFlow(ControlFlow::Case(_)) || is_marker(
        ts[0],
        ControlFlow::Default,
    )) {
        match block_len(ts.drop_first()) {
            Some(k) => if k + 1 <= ts.len() {
                let r = ts.subrange((k + 1) as int, ts.len() as int);
                if r.len() > 0 && is_marker(r[0], ControlFlow::Skip) {
                    shifted(k + 2, cases_len(r.drop_first()))
                } else {
                    shifted(k + 1, cases_len(r))
                }
            } else {
                None
            },
            None => None,
        }
    } else if ts.len() > 0 && is_marker(ts[0], ControlFlow::EndSwitch) {
        Some(1)
    } else {
        None
    }
}

/// How many tokens a switch group takes.
pub open spec fn switch_len(ts: Seq<Token>) -> Option<nat>
    decreases ts.len(), 1nat,
{
    if ts.len() == 0 {
        None
    } else {
        shifted(1, cases_len(ts.drop_first()))
    }
}

/// A token list nests: the block grammar takes all of it.
pub open spec fn nests(ts: Seq<Token>) -> bool {
    block_len(ts) == Some(ts.len())
}

/// The number of tokens taken to leave `rest` of `all`.
pub open spec fn used(all: Seq<Token>, rest: Seq<Token>) -> nat {
    (all.len() - rest.len()) as nat
}

proof fn lemma_shift(a: nat, b: nat, o: Option<nat>)
    ensures
        shifted(a, shifted(b, o)) == shifted(a + b, o),
        shifted(0, o) == o,
{
}

/// The tokens after the first `n`.
pub open spec fn skip(ts: Seq<Token>, n: nat) -> Seq<Token> {
    ts.subrange(n as int, ts.len() as int)
}

/// A block stops here: at the end, or at a marker that opens no group.
pub open spec fn block_stops(ts: Seq<Token>) -> bool {
    ts.len() == 0 || (ts[0] is ControlFlow && !(ts[0] matches Token::ControlFlow(
        ControlFlow::Random(_),
    ) || ts[0] matches Token::ControlFlow(ControlFlow::SetRandom(_)) || ts[0] matches Token::ControlFlow(
        ControlFlow::Switch(_),
    ) || ts[0] matches Token::ControlFlow(ControlFlow::SetSwitch(_))))
}

pub open spec fn starts_if(ts: Seq<Token>) -> bool {
    ts.len() > 0 && ts[0] matches Token::ControlFlow(ControlFlow::If(_))
}

/// The members of a random group stop here.
pub open spec fn members_stop(ts: Seq<Token>) -> bool {
    !starts_if(ts) && block_stops(ts)
}

/// How many tokens the element `e` takes at the front of `ts`, when `e` is
/// exactly what the grammar reads there; `None` when it is not.
pub open spec fn elem_fit(e: BmsElement, ts: Seq<Token>) -> Option<nat>
    decreases e, 0nat,
{
    match e {
        BmsElement::Command(c) => if ts.len() > 0 && ts[0] == Token::Command(c) {
            Some(1)
        } else {
            None
        },
        BmsElement::Random(rb) => random_fit(rb, ts),
        BmsElement::Switch(sb) => switch_fit(sb, ts),
    }
}

/// How many tokens the elements take one after the other.
pub open spec fn elems_fit(es: Seq<BmsElement>, ts: Seq<Token>) -> Option<nat>
    decreases es, 0nat,
{
    if es.len() == 0 {
        Some(0)
    } else {
        match elem_fit(es[0], ts) {
            Some(n) => if n <= ts.len() {
                shifted(n, elems_fit(es.subrange(1, es.len() as int), skip(ts, n)))
            } else {
                None
            },
            None => None,
        }
    }
}

/// How many tokens the block `b` takes at the front of `ts`, when `b` is
/// exactly the block that the grammar reads there: its elements, up to
/// where a block stops.
pub open spec fn block_fit(b: BmsBlock, ts: Seq<Token>) -> Option<nat>
    decreases b, 0nat,
{
    match elems_fit(b.0@, ts) {
        Some(k) => if k <= ts.len() && block_stops(skip(ts, k)) {
            Some(k)
        } else {
            None
        },
        None => None,
    }
}

/// How many tokens the members take: an IF chain where an IF stands, else
/// a non-empty block.
pub open spec fn members_fit(ms: Seq<BmsRandomElement>, ts: Seq<Token>) -> Option<nat>
    decreases ms, 0nat,
{
    if ms.len() == 0 {
        Some(0)
    } else {
        let n = match ms[0] {
            BmsRandomElement::IfBlock(ib) => if starts_if(ts) {
                if_fit(ib, ts)
            } else {
                None
            },
            BmsRandomElement::Block(b) => if !starts_if(ts) && b.0@.len() > 0 {
                block_fit(b, ts)
            } else {
                None
            },
        };
        match n {
            Some(n) => if n <= ts.len() {
                shifted(n, members_fit(ms.subrange(1, ms.len() as int), skip(ts, n)))
            } else {
                None
            },
            None => None,
        }
    }
}

/// How many tokens a random group takes: its marker, its members up to
/// where members stop, and an ENDRANDOM if one follows.
pub open spec fn random_fit(rb: BmsRandomBlock, ts: Seq<Token>) -> Option<nat>
    decreases rb, 0nat,
{
    if ts.len() > 0 && ts[0] == random_marker(rb.0) {
        match members_fit(rb.1@, ts.drop_first()) {
            Some(m) => if m + 1 <= ts.len() && members_stop(skip(ts, m + 1)) {
                let rest = skip(ts, m + 1);
                if rest.len() > 0 && is_marker(rest[0], ControlFlow::EndRandom) {
                    Some(m + 2)
                } else {
                    Some(m + 1)
                }
            } else {
                None
            },
            None => None,
        }
    } else {
        None
    }
}

/// How many tokens the branches take, each with its marker: IF for the
/// first of the chain, ELSEIF for the others.
pub open spec fn branches_fit(bs: Seq<(u128, BmsBlock)>, ts: Seq<Token>, first: bool) -> Option<
    nat,
>
    decreases bs, 0nat,
{
    if bs.len() == 0 {
        Some(0)
    } else {
        let m = if first {
            Token::ControlFlow(ControlFlow::If(bs[0].0))
        } else {
            Token::ControlFlow(ControlFlow::ElseIf(bs[0].0))
        };
        if ts.len() > 0 && ts[0] == m {
            match block_fit(bs[0].1, ts.drop_first()) {
                Some(k) => if k + 1 <= ts.len() {
                    shifted(
                        k + 1,
                        branches_fit(bs.subrange(1, bs.len() as int), skip(ts, k + 1), false),
                    )
                } else {
                    None
                },
                None => None,
            }
        } else {
            None
        }
    }
}

/// How many tokens an IF chain takes: its branches, up to where no ELSEIF
/// follows, the ELSE body if it has one, and the ENDIF.
pub open spec fn if_fit(ib: BmsIfBlock, ts: Seq<Token>) -> Option<nat>
    decreases ib, 0nat,
{
    if ib.branches@.len() == 0 {
        None
    } else {
        match branches_fit(ib.branches@, ts, true) {
            Some(k) => if k <= ts.len() {
                let r = skip(ts, k);
                if r.len() > 0 && r[0] matches Token::ControlFlow(ControlFlow::ElseIf(_)) {
                    None
                } else {
                    match ib.else_block {
                        Some(b) => if r.len() > 0 && is_marker(r[0], ControlFlow::Else) {
                            match block_fit(b, r.drop_first()) {
                                Some(e) => if e + 1 < r.len() && is_marker(
                                    r[(e + 1) as int],
                                    ControlFlow::EndIf,
                                ) {
                                    Some(k + e + 2)
                                } else {
                                    None
                                },
                                None => None,
                            }
                        } else {
                            None
                        },
                        None => if r.len() > 0 && is_marker(r[0], ControlFlow::EndIf) {
                            Some(k + 1)
                        } else {
                            None
                        },
                    }
                }
            } else {
                None
            },
            None => None,
        }
    }
}

/// How many tokens the cases take: each its label, its body, and a SKIP
/// exactly when its stop flag is set.
pub open spec fn cases_fit(cs: Seq<BmsCaseBlock>, ts: Seq<Token>) -> Option<nat>
    decreases cs, 0nat,
{
    if cs.len() == 0 {
        Some(0)
    } else if ts.len() > 0 && ts[0] == label_marker(cs[0].0) {
        match block_fit(cs[0].1, ts.drop_first()) {
            Some(k) => if k + 1 <= ts.len() {
                let r = skip(ts, k + 1);
                let skipped = r.len() > 0 && is_marker(r[0], ControlFlow::Skip);
                if skipped != cs[0].2 {
                    None
                } else {
                    let n: nat = if skipped {
                        k + 2
                    } else {
                        k + 1
                    };
                    shifted(n, cases_fit(cs.subrange(1, cs.len() as int), skip(ts, n)))
                }
            } else {
                None
            },
            None => None,
        }
    } else {
        None
    }
}

/// How many tokens a switch group takes: its marker, its cases up to where
/// no CASE or DEFAULT follows, and the ENDSW; its label set holds the
/// values of its CASE labels.
pub open spec fn switch_fit(sb: BmsSwitchBlock, ts: Seq<Token>) -> Option<nat>
    decreases sb, 0nat,
{
    if ts.len() > 0 && ts[0] == switch_marker(sb.0) && sb.2@ == case_labels(sb.1@) {
        match cases_fit(sb.1@, ts.drop_first()) {
            Some(m) => if m + 1 < ts.len() && !(ts[(m + 1) as int] matches Token::ControlFlow(
                ControlFlow::Case(_),
            ) || is_marker(ts[(m + 1) as int], ControlFlow::Default)) && is_marker(
                ts[(m + 1) as int],
                ControlFlow::EndSwitch,
            ) {
                Some(m + 2)
            } else {
                None
            },
            None => None,
        }
    } else {
        None
    }
}

proof fn lemma_skip_skip(ts: Seq<Token>, a: nat, b: nat)
    requires
        a + b <= ts.len(),
    ensures
        skip(skip(ts, a), b) == skip(ts, a + b),
{
    assert(skip(skip(ts, a), b) =~= skip(ts, a + b));
}

proof fn lemma_elems_push(es: Seq<BmsElement>, e: BmsElement, ts: Seq<Token>, k: nat, n: nat)
    requires
        elems_fit(es, ts) == Some(k),
        k + n <= ts.len(),
        elem_fit(e, skip(ts, k)) == Some(n),
    ensures
        elems_fit(es.push(e), ts) == Some(k + n),
    decreases es.len(),
{
    let es2 = es.push(e);
    if es.len() == 0 {
        assert(skip(ts, 0) =~= ts);
        assert(es2.subrange(1, es2.len() as int) =~= Seq::<BmsElement>::empty());
        assert(es2[0] == e);
        assert(elem_fit(e, ts) == Some(n));
        assert(elems_fit(Seq::<BmsElement>::empty(), skip(ts, n)) == Some(0nat));
        assert(elems_fit(es2, ts) == shifted(n, elems_fit(es2.subrange(1, es2.len() as int), skip(ts, n))));
    } else {
        let n0 = elem_fit(es[0], ts)->0;
        assert(es2[0] == es[0]);
        assert(es2.subrange(1, es2.len() as int) =~= es.subrange(1, es.len() as int).push(e));
        lemma_skip_skip(ts, n0, (k - n0) as nat);
        lemma_elems_push(es.subrange(1, es.len() as int), e, skip(ts, n0), (k - n0) as nat, n);
        assert(elems_fit(es2, ts) == shifted(n0, elems_fit(es2.subrange(1, es2.len() as int), skip(ts, n0))));
    }
}

proof fn lemma_members_push(
    ms: Seq<BmsRandomElement>,
    m: BmsRandomElement,
    ts: Seq<Token>,
    k: nat,
    n: nat,
)
    requires
        members_fit(ms, ts) == Some(k),
        k + n <= ts.len(),
        members_fit(seq![m], skip(ts, k)) == Some(n),
    ensures
        members_fit(ms.push(m), ts) == Some(k + n),
    decreases ms.len(),
{
    let ms2 = ms.push(m);
    if ms.len() == 0 {
        assert(skip(ts, 0) =~= ts);
        assert(ms2 =~= seq![m]);
    } else {
        let n0 = (k - members_fit(ms.subrange(1, ms.len() as int), skip(ts, (k - (k - 0)) as nat))->0) as nat;
        assert(ms2[0] == ms[0]);
        assert(ms2.subrange(1, ms2.len() as int) =~= ms.subrange(1, ms.len() as int).push(m));
        let first = match ms[0] {
            BmsRandomElement::IfBlock(ib) => if starts_if(ts) {
                if_fit(ib, ts)
            } else {
                None
            },
            BmsRandomElement::Block(b) => if !starts_if(ts) && b.0@.len() > 0 {
                block_fit(b, ts)
            } else {
                None
            },
        };
        let f = first->0;
        lemma_skip_skip(ts, f, (k - f) as nat);
        lemma_members_push(ms.subrange(1, ms.len() as int), m, skip(ts, f), (k - f) as nat, n);
    }
}

proof fn lemma_branches_push(
    bs: Seq<(u128, BmsBlock)>,
    b: (u128, BmsBlock),
    ts: Seq<Token>,
    first: bool,
    k: nat,
    n: nat,
)
    requires
        branches_fit(bs, ts, first) == Some(k),
        k + n <= ts.len(),
        branches_fit(seq![b], skip(ts, k), first && bs.len() == 0) == Some(n),
    ensures
        branches_fit(bs.push(b), ts, first) == Some(k + n),
    decreases bs.len(),
{
    let bs2 = bs.push(b);
    if bs.len() == 0 {
        assert(skip(ts, 0) =~= ts);
        assert(bs2 =~= seq![b]);
    } else {
        let f = block_fit(bs[0].1, ts.drop_first())->0 + 1;
        assert(bs2[0] == bs[0]);
        assert(bs2.subrange(1, bs2.len() as int) =~= bs.subrange(1, bs.len() as int).push(b));
        lemma_skip_skip(ts, f, (k - f) as nat);
        lemma_branches_push(bs.subrange(1, bs.len() as int), b, skip(ts, f), false, (k - f) as nat, n);
    }
}

proof fn lemma_cases_push(cs: Seq<BmsCaseBlock>, c: BmsCaseBlock, ts: Seq<Token>, k: nat, n: nat)
    requires
        cases_fit(cs, ts) == Some(k),
        k + n <= ts.len(),
        cases_fit(seq![c], skip(ts, k)) == Some(n),
    ensures
        cases_fit(cs.push(c), ts) == Some(k + n),
    decreases cs.len(),
{
    let cs2 = cs.push(c);
    if cs.len() == 0 {
        assert(skip(ts, 0) =~= ts);
        assert(cs2 =~= seq![c]);
    } else {
        let bk = block_fit(cs[0].1, ts.drop_first())->0;
        let r = skip(ts, bk + 1);
        let skipped = r.len() > 0 && is_marker(r[0], ControlFlow::Skip);
        let f: nat = if skipped {
            bk + 2
        } else {
            bk + 1
        };
        assert(cs2[0] == cs[0]);
        assert(cs2.subrange(1, cs2.len() as int) =~= cs.subrange(1, cs.len() as int).push(c));
        lemma_skip_skip(ts, f, (k - f) as nat);
        lemma_cases_push(cs.subrange(1, cs.len() as int), c, skip(ts, f), (k - f) as nat, n);
    }
}

/// A branch read at the pending marker extends the chain read so far.
proof fn lemma_branch_step(
    t0: Seq<Token>,
    upm: nat,
    mid: Seq<Token>,
    b0: Seq<(u128, BmsBlock)>,
    cur: u128,
    b: BmsBlock,
    k: nat,
)
    requires
        branches_fit(b0, t0, true) == Some(upm),
        upm + 1 + k <= t0.len(),
        mid == skip(t0, upm + 1),
        t0[upm as int] == (if b0.len() == 0 {
            Token::ControlFlow(ControlFlow::If(cur))
        } else {
            Token::ControlFlow(ControlFlow::ElseIf(cur))
        }),
        block_fit(b, mid) == Some(k),
    ensures
        branches_fit(b0.push((cur, b)), t0, true) == Some(upm + k + 1),
{
    let e = (cur, b);
    let seg = skip(t0, upm);
    assert(seg.drop_first() =~= mid);
    assert(seg[0] == t0[upm as int]);
    assert(seq![e].subrange(1, 1) =~= Seq::<(u128, BmsBlock)>::empty());
    assert(seq![e][0] == e);
    assert(branches_fit(Seq::<(u128, BmsBlock)>::empty(), skip(seg, k + 1), false) == Some(0nat));
    assert(branches_fit(seq![e], seg, b0.len() == 0) == Some(k + 1));
    lemma_branches_push(b0, e, t0, true, upm, k + 1);
}

/// `rest` is what is left of `all` once a prefix has been taken.
pub open spec fn is_rest(all: Seq<Token>, rest: Seq<Token>) -> bool {
    rest.len() <= all.len() && rest == all.subrange(all.len() - rest.len(), all.len() as int)
}

/// The prefix of `all` that was taken to leave `rest`.
pub open spec fn taken(all: Seq<Token>, rest: Seq<Token>) -> Seq<Token> {
    all.subrange(0, all.len() - rest.len())
}

proof fn lemma_rest_refl(a: Seq<Token>)
    ensures
        is_rest(a, a),
        strip_end(taken(a, a)) == Seq::<Token>::empty(),
{
    assert(a.subrange(0, a.len() as int) =~= a);
    assert(taken(a, a) =~= Seq::<Token>::empty());
}

proof fn lemma_rest_trans(a: Seq<Token>, b: Seq<Token>, c: Seq<Token>)
    requires
        is_rest(a, b),
        is_rest(b, c),
    ensures
        is_rest(a, c),
        strip_end(taken(a, c)) == strip_end(taken(a, b)) + strip_end(taken(b, c)),
{
    assert(c =~= a.subrange(a.len() - c.len(), a.len() as int));
    assert(taken(a, c) =~= taken(a, b) + taken(b, c));
    lemma_strip_concat(taken(a, b), taken(b, c));
}

/// Taking the first token.
proof fn lemma_rest_pop(a: Seq<Token>)
    requires
        a.len() > 0,
    ensures
        is_rest(a, a.drop_first()),
        strip_end(taken(a, a.drop_first())) == kept(a[0]),
{
    assert(a.drop_first() =~= a.subrange(1, a.len() as int));
    let t = taken(a, a.drop_first());
    assert(t =~= seq![a[0]]);
    assert(t.drop_first() =~= Seq::<Token>::empty());
    assert(strip_end(t.drop_first()) == Seq::<Token>::empty());
    assert(strip_end(t) == kept(t[0]) + strip_end(t.drop_first()));
    assert(kept(a[0]) + Seq::<Token>::empty() =~= kept(a[0]));
}

/// The marker at the front, if the front token is a marker.
fn front_marker(ts: &VecDeque<Token>) -> (r: Option<ControlFlow>)
    ensures
        match r {
            Some(m) => ts@.len() > 0 && ts@[0] == Token::ControlFlow(m),
            None => ts@.len() == 0 || ts@[0] is Command,
        },
{
    if ts.len() == 0 {
        None
    } else {
        match &ts[0] {
            Token::ControlFlow(m) => Some(*m),
            Token::Command(_) => None,
        }
    }
}

/// Drops the front token, a marker.
fn drop_marker(ts: &mut VecDeque<Token>)
    requires
        old(ts)@.len() > 0,
        old(ts)@[0] is ControlFlow,
    ensures
        final(ts)@ == old(ts)@.drop_first(),
        is_rest(old(ts)@, final(ts)@),
        strip_end(taken(old(ts)@, final(ts)@)) == kept(old(ts)@[0]),
{
    proof {
        lemma_rest_pop(ts@);
    }
    let _ = ts.pop_front();
}

/// Parses a block from the front of `ts`: as many commands and groups as
/// stand there. `total` is the number of tokens of the whole document.
#[verifier::rlimit(60)]
pub fn parse_block(ts: &mut VecDeque<Token>, total: usize) -> (r: Result<BmsBlock, usize>)
    requires
        old(ts)@.len() <= total,
    ensures
        final(ts)@.len() <= total,
        r matches Ok(b) ==> is_rest(old(ts)@, final(ts)@) && render_block(b) == strip_end(
            taken(old(ts)@, final(ts)@),
        ) && (b.0@.len() > 0 ==> final(ts)@.len() < old(ts)@.len()),
        r matches Err(p) ==> p < total,
        r is Ok <==> block_len(old(ts)@) is Some,
        r is Ok ==> block_len(old(ts)@) == Some(used(old(ts)@, final(ts)@)),
        r matches Ok(b) ==> block_fit(b, old(ts)@) == Some(used(old(ts)@, final(ts)@)),
    decreases old(ts)@.len(), 2nat,
{
    let ghost t0 = ts@;
    let mut elems: Vec<BmsElement> = Vec::new();
    proof {
        lemma_rest_refl(t0);
        assert(render_elems(elems@) =~= Seq::<Token>::empty());
        lemma_shift(0, 0, block_len(t0));
        assert(elems_fit(elems@, t0) == Some(0nat));
    }
    loop
        invariant
            t0 == old(ts)@,
            t0.len() <= total,
            is_rest(t0, ts@),
            render_elems(elems@) == strip_end(taken(t0, ts@)),
            elems@.len() > 0 ==> ts@.len() < t0.len(),
            block_len(t0) == shifted(used(t0, ts@), block_len(ts@)),
            elems_fit(elems@, t0) == Some(used(t0, ts@)),
        ensures
            block_len(ts@) == Some(0nat),
            block_stops(ts@),
        decreases ts@.len(),
    {
        let ghost mid = ts@;
        let ghost e0 = elems@;
        let ghost u = used(t0, mid);
        let m = front_marker(ts);
        match m {
            None => {
                if ts.len() == 0 {
                    break;
                }
                proof {
                    lemma_rest_pop(ts@);
                }
                match ts.pop_front() {
                    Some(Token::Command(c)) => {
                        let ghost e = BmsElement::Command(c);
                        proof {
                            assert(elems@.push(e).subrange(0, elems@.len() as int) =~= elems@);
                        }
                        elems.push(BmsElement::Command(c));
                        proof {
                            assert(render_elems(elems@) == render_elems(e0) + render_elem(e));
                            assert(block_len(mid) == shifted(1, block_len(ts@)));
                            lemma_shift(u, 1, block_len(ts@));
                            assert(mid =~= skip(t0, u));
                            assert(elem_fit(e, skip(t0, u)) == Some(1nat));
                            lemma_elems_push(e0, e, t0, u, 1);
                        }
                    },
                    _ => {
                        assert(false);
                        break;
                    },
                }
            },
            Some(ControlFlow::Random(_)) | Some(ControlFlow::SetRandom(_)) => {
                let rb = match parse_random_block(ts, total) {
                    Ok(rb) => rb,
                    Err(p) => {
                        assert(block_len(mid) is None);
                        return Err(p);
                    },
                };
                proof {
                    let n = used(mid, ts@);
                    assert(ts@ =~= mid.subrange(n as int, mid.len() as int));
                    lemma_shift(u, n, block_len(ts@));
                }
                let ghost e = BmsElement::Random(rb);
                proof {
                    assert(elems@.push(e).subrange(0, elems@.len() as int) =~= elems@);
                }
                elems.push(BmsElement::Random(rb));
                proof {
                    assert(render_elems(elems@) == render_elems(e0) + render_elem(e));
                    assert(mid =~= skip(t0, u));
                    lemma_elems_push(e0, e, t0, u, used(mid, ts@));
                }
            },
            Some(ControlFlow::Switch(_)) | Some(ControlFlow::SetSwitch(_)) => {
                let sb = match parse_switch_block(ts, total) {
                    Ok(sb) => sb,
                    Err(p) => {
                        assert(block_len(mid) is None);
                        return Err(p);
                    },
                };
                proof {
                    let n = used(mid, ts@);
                    assert(ts@ =~= mid.subrange(n as int, mid.len() as int));
                    lemma_shift(u, n, block_len(ts@));
                }
                let ghost e = BmsElement::Switch(sb);
                proof {
                    assert(elems@.push(e).subrange(0, elems@.len() as int) =~= elems@);
                }
                elems.push(BmsElement::Switch(sb));
                proof {
                    assert(render_elems(elems@) == render_elems(e0) + render_elem(e));
                    assert(mid =~= skip(t0, u));
                    lemma_elems_push(e0, e, t0, u, used(mid, ts@));
                }
            },
            _ => {
                break;
            },
        }
        proof {
            lemma_rest_trans(t0, mid, ts@);
        }
    }
    proof {
        assert(ts@ =~= skip(t0, used(t0, ts@)));
    }
    Ok(BmsBlock(elems))
}

/// Parses a RANDOM group whose marker is at the front of `ts`; an
/// ENDRANDOM after its members is taken if it is there.
#[verifier::rlimit(60)]
fn parse_random_block(ts: &mut VecDeque<Token>, total: usize) -> (r: Result<BmsRandomBlock, usize>)
    requires
        old(ts)@.len() <= total,
        old(ts)@.len() > 0,
        old(ts)@[0] matches Token::ControlFlow(ControlFlow::Random(_))
            || old(ts)@[0] matches Token::ControlFlow(ControlFlow::SetRandom(_)),
    ensures
        final(ts)@.len() <= total,
        r matches Ok(b) ==> is_rest(old(ts)@, final(ts)@) && final(ts)@.len() < old(ts)@.len()
            && render_elem(BmsElement::Random(b)) == strip_end(taken(old(ts)@, final(ts)@)),
        r matches Err(p) ==> p < total,
        r is Ok <==> random_len(old(ts)@) is Some,
        r is Ok ==> random_len(old(ts)@) == Some(used(old(ts)@, final(ts)@)),
        r matches Ok(b) ==> random_fit(b, old(ts)@) == Some(used(old(ts)@, final(ts)@)),
    decreases old(ts)@.len(), 1nat,
{
    let ghost t0 = ts@;
    let sel = match ts[0] {
        Token::ControlFlow(ControlFlow::Random(n)) => RandomValue::Max(n),
        Token::ControlFlow(ControlFlow::SetRandom(n)) => RandomValue::Fixed(n),
        _ => RandomValue::Fixed(0),
    };
    assert(t0[0] == random_marker(sel));
    drop_marker(ts);
    let ghost t1 = ts@;
    let mut members: Vec<BmsRandomElement> = Vec::new();
    proof {
        lemma_rest_refl(t1);
        assert(render_members(members@) =~= Seq::<Token>::empty());
        lemma_shift(0, 0, members_len(t1));
        assert(members_fit(members@, t1) == Some(0nat));
    }
    loop
        invariant_except_break
            members_len(t1) == shifted(used(t1, ts@), members_len(ts@)),
        invariant
            t0 == old(ts)@,
            t0.len() <= total,
            is_rest(t0, t1),
            t1.len() < t0.len(),
            strip_end(taken(t0, t1)) == seq![random_marker(sel)],
            is_rest(t1, ts@),
            render_members(members@) == strip_end(taken(t1, ts@)),
            t1 == t0.drop_first(),
            members_fit(members@, t1) == Some(used(t1, ts@)),
        ensures
            members_len(t1) == Some(used(t1, ts@)),
            members_stop(ts@),
        decreases ts@.len(),
    {
        let ghost mid = ts@;
        let ghost m0 = members@;
        let ghost u = used(t1, mid);
        let m = front_marker(ts);
        if let Some(ControlFlow::If(_)) = m {
            let ib = match parse_if_block(ts, total) {
                Ok(ib) => ib,
                Err(p) => {
                    assert(members_len(mid) is None);
                    assert(members_len(t1) is None);
                    return Err(p);
                },
            };
            proof {
                let n = used(mid, ts@);
                assert(ts@ =~= mid.subrange(n as int, mid.len() as int));
                lemma_shift(u, n, members_len(ts@));
            }
            let ghost e = BmsRandomElement::IfBlock(ib);
            proof {
                assert(members@.push(e).subrange(0, members@.len() as int) =~= members@);
            }
            members.push(BmsRandomElement::IfBlock(ib));
            proof {
                let n = used(mid, ts@);
                assert(mid =~= skip(t1, u));
                assert(skip(skip(t1, u), n) =~= skip(t1, u + n));
                assert(seq![e].subrange(1, 1) =~= Seq::<BmsRandomElement>::empty());
                assert(seq![e][0] == e);
                assert(members_fit(Seq::<BmsRandomElement>::empty(), skip(mid, n)) == Some(0nat));
                assert(members_fit(seq![e], mid) == Some(n));
                lemma_members_push(m0, e, t1, u, n);
            }
        } else {
            let b = match parse_block(ts, total) {
                Ok(b) => b,
                Err(p) => {
                    assert(members_len(mid) is None);
                    assert(members_len(t1) is None);
                    return Err(p);
                },
            };
            proof {
                let n = used(mid, ts@);
                assert(ts@ =~= mid.subrange(n as int, mid.len() as int));
                lemma_shift(u, n, members_len(ts@));
            }
            if b.0.len() == 0 {
                proof {
                    assert(ts@ == mid);
                    assert(skip(mid, 0) =~= mid);
                    assert(block_stops(mid));
                    assert(members_len(mid) == Some(0nat));
                    assert(render_elems(b.0@) =~= Seq::<Token>::empty());
                    lemma_rest_trans(t1, mid, ts@);
                    assert(render_members(members@) + Seq::<Token>::empty() =~= render_members(
                        members@,
                    ));
                }
                break;
            }
            let ghost e = BmsRandomElement::Block(b);
            proof {
                assert(members@.push(e).subrange(0, members@.len() as int) =~= members@);
            }
            members.push(BmsRandomElement::Block(b));
            proof {
                let n = used(mid, ts@);
                assert(mid =~= skip(t1, u));
                assert(seq![e].subrange(1, 1) =~= Seq::<BmsRandomElement>::empty());
                assert(seq![e][0] == e);
                assert(members_fit(Seq::<BmsRandomElement>::empty(), skip(mid, n)) == Some(0nat));
                assert(members_fit(seq![e], mid) == Some(n));
                lemma_members_push(m0, e, t1, u, n);
            }
        }
        proof {
            lemma_rest_trans(t1, mid, ts@);
        }
    }
    let ghost t2 = ts@;
    proof {
        let mm = used(t1, t2);
        assert(t2 =~= t0.subrange((1 + mm) as int, t0.len() as int));
        assert(skip(t0, mm + 1) =~= t2);
    }
    if let Some(ControlFlow::EndRandom) = front_marker(ts) {
        drop_marker(ts);
        proof {
            lemma_rest_trans(t1, t2, ts@);
            assert(render_members(members@) + Seq::<Token>::empty() =~= render_members(members@));
        }
    }
    proof {
        lemma_rest_trans(t0, t1, ts@);
    }
    Ok(BmsRandomBlock(sel, members))
}

/// Parses an IF chain whose IF is at the front of `ts`; it fails, giving
/// the index of that IF, when no ENDIF closes it.
#[verifier::rlimit(100)]
fn parse_if_block(ts: &mut VecDeque<Token>, total: usize) -> (r: Result<BmsIfBlock, usize>)
    requires
        old(ts)@.len() <= total,
        old(ts)@.len() > 0,
        old(ts)@[0] matches Token::ControlFlow(ControlFlow::If(_)),
    ensures
        final(ts)@.len() <= total,
        r matches Ok(b) ==> is_rest(old(ts)@, final(ts)@) && final(ts)@.len() < old(ts)@.len()
            && render_if(b) == strip_end(taken(old(ts)@, final(ts)@)),
        r matches Err(p) ==> p < total,
        r is Ok <==> if_len(old(ts)@) is Some,
        r is Ok ==> if_len(old(ts)@) == Some(used(old(ts)@, final(ts)@)),
        r matches Ok(b) ==> if_fit(b, old(ts)@) == Some(used(old(ts)@, final(ts)@)),
    decreases old(ts)@.len(), 1nat,
{
    let ghost t0 = ts@;
    let here = total - ts.len();
    let mut cur: u128 = match ts[0] {
        Token::ControlFlow(ControlFlow::If(n)) => n,
        _ => 0,
    };
    assert(t0[0] == branch_marker(0, cur));
    drop_marker(ts);
    let mut branches: Vec<(u128, BmsBlock)> = Vec::new();
    proof {
        assert(render_branches(branches@) + seq![branch_marker(0, cur)] =~= seq![
            branch_marker(0, cur),
        ]);
        assert(if_len(t0) == shifted(1, branch_rest_len(ts@)));
        assert(branches_fit(branches@, t0, true) == Some(0nat));
    }
    let ghost mut upm: nat = 0;
    loop
        invariant_except_break
            strip_end(taken(t0, ts@)) == render_branches(branches@) + seq![
                branch_marker(branches@.len() as int, cur),
            ],
            if_len(t0) == shifted(used(t0, ts@), branch_rest_len(ts@)),
            branches_fit(branches@, t0, true) == Some(upm),
            upm + 1 == used(t0, ts@),
            t0[upm as int] == (if branches@.len() == 0 {
                Token::ControlFlow(ControlFlow::If(cur))
            } else {
                Token::ControlFlow(ControlFlow::ElseIf(cur))
            }),
        invariant
            t0 == old(ts)@,
            t0.len() <= total,
            here < total,
            is_rest(t0, ts@),
            ts@.len() < t0.len(),
        ensures
            branches@.len() > 0,
            strip_end(taken(t0, ts@)) == render_branches(branches@),
            if_len(t0) == shifted(used(t0, ts@), after_branch_len(ts@)),
            !(ts@.len() > 0 && ts@[0] matches Token::ControlFlow(ControlFlow::ElseIf(_))),
            branches_fit(branches@, t0, true) == Some(used(t0, ts@)),
        decreases ts@.len(),
    {
        let ghost mid = ts@;
        let ghost b0 = branches@;
        let b = match parse_block(ts, total) {
            Ok(b) => b,
            Err(_) => {
                assert(branch_rest_len(mid) is None);
                return Err(here);
            },
        };
        proof {
            let k = used(mid, ts@);
            assert(ts@ =~= mid.subrange(k as int, mid.len() as int));
            lemma_shift(used(t0, mid), k, after_branch_len(ts@));
        }
        let ghost e = (cur, b);
        proof {
            assert(branches@.push(e).subrange(0, branches@.len() as int) =~= branches@);
            lemma_rest_trans(t0, mid, ts@);
        }
        branches.push((cur, b));
        proof {
            assert(render_branches(branches@) =~= render_branches(b0) + seq![
                branch_marker(b0.len() as int, cur),
            ] + render_block(b));
            lemma_branch_step(t0, upm, mid, b0, cur, b, used(mid, ts@));
        }
        if let Some(ControlFlow::ElseIf(n)) = front_marker(ts) {
            let ghost mid2 = ts@;
            assert(mid2[0] == branch_marker(branches@.len() as int, n));
            drop_marker(ts);
            proof {
                lemma_rest_trans(t0, mid2, ts@);
                lemma_shift(used(t0, mid2), 1, branch_rest_len(ts@));
                assert(mid2 =~= skip(t0, used(t0, mid2)));
                assert(t0[used(t0, mid2) as int] == mid2[0]);
                upm = used(t0, mid2);
            }
            cur = n;
        } else {
            break;
        }
    }
    let ghost t2 = ts@;
    let mut else_block: Option<BmsBlock> = None;
    let ghost has_else = false;
    if let Some(ControlFlow::Else) = front_marker(ts) {
        drop_marker(ts);
        let ghost t3 = ts@;
        let b = match parse_block(ts, total) {
            Ok(b) => b,
            Err(_) => {
                assert(after_branch_len(t2) is None);
                return Err(here);
            },
        };
        proof {
            lemma_rest_trans(t2, t3, ts@);
            let k = used(t3, ts@);
            assert(ts@ =~= t3.subrange(k as int, t3.len() as int));
            assert(t3 =~= t2.drop_first());
            has_else = true;
        }
        else_block = Some(b);
    } else {
        proof {
            lemma_rest_refl(t2);
        }
    }
    let ghost t4 = ts@;
    proof {
        lemma_rest_trans(t0, t2, t4);
    }
    if let Some(ControlFlow::EndIf) = front_marker(ts) {
        drop_marker(ts);
    } else {
        proof {
            if has_else {
                assert(t4.len() == 0 || !is_marker(t4[0], ControlFlow::EndIf));
            }
        }
        assert(after_branch_len(t2) is None);
        return Err(here);
    }
    proof {
        lemma_rest_trans(t0, t4, ts@);
        assert(after_branch_len(t2) == Some(used(t2, ts@)));
        assert(skip(t0, used(t0, t2)) =~= t2);
        if has_else {
            assert(t4 =~= skip(t2, used(t2, t4)));
            assert(t2[used(t2, t4) as int] == t4[0]);
        }
    }
    let ib = BmsIfBlock { branches, else_block };
    proof {
        let eb = else_tokens(ib);
        assert(strip_end(taken(t2, t4)) == eb);
        assert(render_branches(branches@) + eb + seq![Token::ControlFlow(ControlFlow::EndIf)]
            =~= render_if(ib));
    }
    Ok(ib)
}

spec fn else_tokens(ib: BmsIfBlock) -> Seq<Token> {
    match ib.else_block {
        Some(b) => seq![Token::ControlFlow(ControlFlow::Else)] + render_block(b),
        None => Seq::empty(),
    }
}

/// Parses a SWITCH group whose marker is at the front of `ts`; it fails,
/// giving the index of that marker, when no ENDSW closes it.
#[verifier::rlimit(100)]
fn parse_switch_block(ts: &mut VecDeque<Token>, total: usize) -> (r: Result<BmsSwitchBlock, usize>)
    requires
        old(ts)@.len() <= total,
        old(ts)@.len() > 0,
        old(ts)@[0] matches Token::ControlFlow(ControlFlow::Switch(_))
            || old(ts)@[0] matches Token::ControlFlow(ControlFlow::SetSwitch(_)),
    ensures
        final(ts)@.len() <= total,
        r matches Ok(b) ==> is_rest(old(ts)@, final(ts)@) && final(ts)@.len() < old(ts)@.len()
            && render_elem(BmsElement::Switch(b)) == strip_end(taken(old(ts)@, final(ts)@))
            && b.2@ == case_labels(b.1@),
        r matches Err(p) ==> p < total,
        r is Ok <==> switch_len(old(ts)@) is Some,
        r is Ok ==> switch_len(old(ts)@) == Some(used(old(ts)@, final(ts)@)),
        r matches Ok(b) ==> switch_fit(b, old(ts)@) == Some(used(old(ts)@, final(ts)@)),
    decreases old(ts)@.len(), 1nat,
{
    let ghost t0 = ts@;
    let here = total - ts.len();
    let sel = match ts[0] {
        Token::ControlFlow(ControlFlow::Switch(n)) => RandomValue::Max(n),
        Token::ControlFlow(ControlFlow::SetSwitch(n)) => RandomValue::Fixed(n),
        _ => RandomValue::Fixed(0),
    };
    assert(t0[0] == switch_marker(sel));
    drop_marker(ts);
    let ghost t1 = ts@;
    let mut cases: Vec<BmsCaseBlock> = Vec::new();
    let mut labels: HashSet<u128> = HashSet::new();
    proof {
        lemma_rest_refl(t1);
        assert(render_cases(cases@) =~= Seq::<Token>::empty());
        assert(labels@ =~= case_labels(cases@));
        assert(switch_len(t0) == shifted(1, cases_len(t1)));
        assert(cases_fit(cases@, t1) == Some(0nat));
        assert(t1 =~= t0.drop_first());
    }
    loop
        invariant
            t0 == old(ts)@,
            t0.len() <= total,
            here < total,
            is_rest(t0, t1),
            t1.len() < t0.len(),
            strip_end(taken(t0, t1)) == seq![switch_marker(sel)],
            is_rest(t1, ts@),
            render_cases(cases@) == strip_end(taken(t1, ts@)),
            labels@ == case_labels(cases@),
            switch_len(t0) == shifted(used(t0, ts@), cases_len(ts@)),
            cases_fit(cases@, t1) == Some(used(t1, ts@)),
            t1 == t0.drop_first(),
        ensures
            !(ts@.len() > 0 && (ts@[0] matches Token::ControlFlow(ControlFlow::Case(_)) || is_marker(
                ts@[0],
                ControlFlow::Default,
            ))),
        decreases ts@.len(),
    {
        let ghost mid = ts@;
        let ghost c0 = cases@;
        let label = match front_marker(ts) {
            Some(ControlFlow::Case(n)) => SwitchLabel::Case(n),
            Some(ControlFlow::Default) => SwitchLabel::Default,
            _ => {
                break;
            },
        };
        assert(mid[0] == label_marker(label));
        drop_marker(ts);
        let ghost mid2 = ts@;
        let b = match parse_block(ts, total) {
            Ok(b) => b,
            Err(_) => {
                assert(cases_len(mid) is None);
                return Err(here);
            },
        };
        let ghost mid3 = ts@;
        proof {
            let k = used(mid2, mid3);
            assert(mid3 =~= mid.subrange((k + 1) as int, mid.len() as int));
        }
        let mut stop = false;
        if let Some(ControlFlow::Skip) = front_marker(ts) {
            drop_marker(ts);
            stop = true;
        } else {
            proof {
                lemma_rest_refl(mid3);
            }
        }
        proof {
            lemma_rest_trans(mid, mid2, mid3);
            lemma_rest_trans(mid, mid3, ts@);
            lemma_rest_trans(t1, mid, ts@);
            lemma_shift(used(t0, mid), used(mid, ts@), cases_len(ts@));
            assert(cases_len(mid) == shifted(used(mid, ts@), cases_len(ts@)));
        }
        let ghost c = BmsCaseBlock(label, b, stop);
        proof {
            assert(cases@.push(c).subrange(0, cases@.len() as int) =~= cases@);
        }
        if let SwitchLabel::Case(n) = label {
            labels.insert(n);
        }
        cases.push(BmsCaseBlock(label, b, stop));
        proof {
            let k = used(mid2, mid3);
            let n = used(mid, ts@);
            assert(mid2 =~= mid.drop_first());
            assert(skip(mid, k + 1) =~= mid3);
            assert(skip(mid, n) =~= ts@);
            assert(seq![c].subrange(1, 1) =~= Seq::<BmsCaseBlock>::empty());
            assert(seq![c][0] == c);
            assert(cases_fit(Seq::<BmsCaseBlock>::empty(), ts@) == Some(0nat));
            assert(cases_fit(seq![c], mid) == Some(n));
            assert(mid =~= skip(t1, used(t1, mid)));
            lemma_cases_push(c0, c, t1, used(t1, mid), n);
            let skip = if stop {
                seq![Token::ControlFlow(ControlFlow::Skip)]
            } else {
                Seq::<Token>::empty()
            };
            assert(strip_end(taken(mid3, ts@)) == skip);
            assert(render_cases(cases@) =~= render_cases(c0) + (seq![label_marker(label)]
                + render_block(b) + skip));
            assert(labels@ =~= case_labels(cases@)) by {
                assert forall|v: u128| case_labels(cases@).contains(v) implies labels@.contains(v) by {
                    let i = choose|i: int| 0 <= i < cases@.len() && cases@[i].0 == SwitchLabel::Case(v);
                    if i < cases@.len() - 1 {
                        assert(case_labels(all_but_last(cases@)).contains(v));
                    }
                }
                assert forall|v: u128| labels@.contains(v) implies case_labels(cases@).contains(v) by {
                    if label == SwitchLabel::Case(v) {
                        assert(cases@[cases@.len() - 1].0 == SwitchLabel::Case(v));
                    } else {
                        assert(case_labels(all_but_last(cases@)).contains(v));
                        let i = choose|i: int| 0 <= i < cases@.len() - 1 && all_but_last(cases@)[i].0 == SwitchLabel::Case(v);
                        assert(cases@[i].0 == SwitchLabel::Case(v));
                    }
                }
            }
        }
    }
    let ghost t2 = ts@;
    if let Some(ControlFlow::EndSwitch) = front_marker(ts) {
        drop_marker(ts);
    } else {
        assert(cases_len(t2) is None);
        return Err(here);
    }
    proof {
        lemma_rest_trans(t1, t2, ts@);
        lemma_rest_trans(t0, t1, ts@);
        assert(t2 =~= skip(t0, used(t1, t2) + 1));
        assert(t0[(used(t1, t2) + 1) as int] == t2[0]);
        assert(seq![switch_marker(sel)] + (render_cases(cases@) + seq![
            Token::ControlFlow(ControlFlow::EndSwitch),
        ]) =~= seq![switch_marker(sel)] + render_cases(cases@) + seq![
            Token::ControlFlow(ControlFlow::EndSwitch),
        ]);
    }
    Ok(BmsSwitchBlock(sel, cases, labels))
}

/// All cases but the last.
spec fn all_but_last(cs: Seq<BmsCaseBlock>) -> Seq<BmsCaseBlock> {
    cs.subrange(0, cs.len() - 1)
}

/// Parses the whole token list into a block. It fails when a marker is
/// left over: an IF or SWITCH without its end, or an end, ELSE or CASE
/// that no opening marker goes with. The tree is written with exactly the
/// tokens of the list, ENDRANDOM markers aside.
pub fn parse_tokens(tokens: Vec<Token>) -> (r: Result<BmsBlock, ParseError>)
    ensures
        r matches Ok(b) ==> render_block(b) == strip_end(tokens@),
        r matches Ok(b) ==> block_fit(b, tokens@) == Some(tokens@.len()),
        r matches Err(e) ==> e.position < tokens@.len(),
        r is Ok <==> nests(tokens@),
        r matches Err(e) ==> (block_len(tokens@) matches Some(n) ==> e.position == n),
{
    let total = tokens.len();
    let mut ts: VecDeque<Token> = VecDeque::new();
    let mut v = tokens;
    let ghost all = v@;
    while v.len() > 0
        invariant
            all == v@ + ts@,
            total == all.len(),
        decreases v@.len(),
    {
        if let Some(t) = v.pop() {
            ts.push_front(t);
            proof {
                assert(all =~= v@ + ts@);
            }
        }
    }
    assert(ts@ =~= all);
    match parse_block(&mut ts, total) {
        Ok(b) => {
            if ts.len() == 0 {
                proof {
                    assert(taken(all, ts@) =~= all);
                }
                Ok(b)
            } else {
                Err(ParseError { position: total - ts.len() })
            }
        },
        Err(p) => Err(ParseError { position: p }),
    }
}

} // verus!
