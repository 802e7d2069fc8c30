//! The control-flow tree of a chart and its resolution into a flat list of
//! commands.
use vstd::prelude::*;

use std::collections::HashSet;

use crate::token::{Command, ControlFlow, Token};

verus! {

broadcast use vstd::std_specs::hash::group_hash_axioms;

/// A sequence of elements, in textual order.
#[derive(Debug, PartialEq, Default)]
pub struct BmsBlock(pub Vec<BmsElement>);

#[derive(Debug, PartialEq)]
pub enum BmsElement {
    Command(Command),
    Random(BmsRandomBlock),
    Switch(BmsSwitchBlock),
}

/// A RANDOM group: its selector and its members.
#[derive(Debug, PartialEq)]
pub struct BmsRandomBlock(pub RandomValue, pub Vec<BmsRandomElement>);

#[derive(Debug, PartialEq)]
pub enum BmsRandomElement {
    Block(BmsBlock),
    IfBlock(BmsIfBlock),
}

/// An IF chain: the value of each branch with its body, and an optional
/// else body.
#[derive(Debug, Default, PartialEq)]
pub struct BmsIfBlock {
    pub branches: Vec<(u128, BmsBlock)>,
    pub else_block: Option<BmsBlock>,
}

/// A SWITCH group: its selector, its cases, and the set of the values that
/// label a case.
#[derive(Debug, PartialEq)]
pub struct BmsSwitchBlock(pub RandomValue, pub Vec<BmsCaseBlock>, pub HashSet<u128>);

/// A case of a switch: its label, its body, and whether a SKIP follows it.
#[derive(Debug, PartialEq)]
pub struct BmsCaseBlock(pub SwitchLabel, pub BmsBlock, pub bool);

/// How the value of a group is chosen: drawn from 1 to the bound, or set.
#[derive(Debug, Clone, Copy, PartialEq, Eq)]
pub enum RandomValue {
    Max(u128),
    Fixed(u128),
}

#[derive(Debug, Clone, Copy, PartialEq, Eq)]
pub enum SwitchLabel {
    Case(u128),
    Default,
}

/// A source of random draws.
pub trait RandomSource {
    /// The draws made so far, in order.
    spec fn history(&self) -> Seq<u128>;

    /// A draw from `1` to `max`, both included.
    fn draw(&mut self, max: u128) -> (r: u128)
        requires
            max >= 1,
        ensures
            1 <= r <= max,
            final(self).history() == old(self).history().push(r),
    ;
}

/// The draws a source made since its history was `h0`, when those were
/// appended to a log from index `from` on.
pub open spec fn drawn_since(h0: Seq<u128>, log: Seq<u128>, from: int) -> Seq<u128> {
    h0 + log.subrange(from, log.len() as int)
}

proof fn lemma_history(h0: Seq<u128>, from: int, mid: Seq<u128>, new: Seq<u128>)
    requires
        0 <= from <= mid.len() <= new.len(),
        new.subrange(0, mid.len() as int) == mid,
    ensures
        drawn_since(drawn_since(h0, mid, from), new, mid.len() as int) == drawn_since(h0, new, from),
{
    assert forall|i: int| from <= i < mid.len() implies new[i] == mid[i] by {
        assert(new.subrange(0, mid.len() as int)[i] == new[i]);
    }
    assert(drawn_since(drawn_since(h0, mid, from), new, mid.len() as int) =~= drawn_since(h0, new, from));
}

/// The commands that references point to.
pub open spec fn derefs<'a>(v: Seq<&'a Command>) -> Seq<Command> {
    v.map_values(|c: &'a Command| *c)
}

/// The value of a group's selector, given the draws `s` and the position
/// `p` of the next unused draw, with the position after it. A bound of 0
/// leaves nothing to draw from and gives 0 without a draw.
pub open spec fn select(v: RandomValue, s: Seq<u128>, p: nat) -> (u128, nat) {
    match v {
        RandomValue::Max(n) => if n == 0 {
            (0, p)
        } else {
            (s[p as int], p + 1)
        },
        RandomValue::Fixed(n) => (n, p),
    }
}

/// The commands that a block resolves to when its groups take their draws
/// from `s` starting at `p`, with the position after the last draw used.
pub open spec fn res_block(b: BmsBlock, s: Seq<u128>, p: nat) -> (Seq<Command>, nat)
    decreases b, 0nat,
{
    res_elems(b.0@, b.0@.len() as nat, s, p)
}

/// The resolution of the first `k` elements of `es`.
pub open spec fn res_elems(es: Seq<BmsElement>, k: nat, s: Seq<u128>, p: nat) -> (
    Seq<Command>,
    nat,
)
    decreases es, k,
{
    if k == 0 || k > es.len() {
        (Seq::empty(), p)
    } else {
        let (o1, p1) = res_elems(es, (k - 1) as nat, s, p);
        let (o2, p2) = res_elem(es[k - 1], s, p1);
        (o1 + o2, p2)
    }
}

pub open spec fn res_elem(e: BmsElement, s: Seq<u128>, p: nat) -> (Seq<Command>, nat)
    decreases e, 0nat,
{
    match e {
        BmsElement::Command(c) => (seq![c], p),
        BmsElement::Random(rb) => {
            let (n, p1) = select(rb.0, s, p);
            res_members(rb.1@, rb.1@.len() as nat, n, s, p1)
        },
        BmsElement::Switch(sb) => {
            let (n, p1) = select(sb.0, s, p);
            let (o, p2, _, _) = res_cases(sb.1@, sb.1@.len() as nat, n, sb.2@, s, p1);
            (o, p2)
        },
    }
}

/// The resolution of the first `k` members of a random group whose value
/// is `n`: plain blocks always, IF chains by `n`.
pub open spec fn res_members(
    ms: Seq<BmsRandomElement>,
    k: nat,
    n: u128,
    s: Seq<u128>,
    p: nat,
) -> (Seq<Command>, nat)
    decreases ms, k,
{
    if k == 0 || k > ms.len() {
        (Seq::empty(), p)
    } else {
        let (o1, p1) = res_members(ms, (k - 1) as nat, n, s, p);
        let (o2, p2) = match ms[k - 1] {
            BmsRandomElement::Block(b) => res_block(b, s, p1),
            BmsRandomElement::IfBlock(ib) => res_if(ib, n, s, p1),
        };
        (o1 + o2, p2)
    }
}

/// The index of the first branch from index `i` on whose value is `n`.
pub open spec fn first_branch(bs: Seq<(u128, BmsBlock)>, i: nat, n: u128) -> Option<nat>
    decreases bs.len() - i,
{
    if i >= bs.len() {
        None
    } else if bs[i as int].0 == n {
        Some(i)
    } else {
        first_branch(bs, i + 1, n)
    }
}

/// The body an IF chain takes for the value `n`: the first branch of that
/// value, else the else body, if any.
pub open spec fn if_target(ib: BmsIfBlock, n: u128) -> Option<BmsBlock> {
    match first_branch(ib.branches@, 0, n) {
        Some(i) => Some(ib.branches@[i as int].1),
        None => ib.else_block,
    }
}

pub open spec fn res_if(ib: BmsIfBlock, n: u128, s: Seq<u128>, p: nat) -> (Seq<Command>, nat)
    decreases ib, 0nat,
{
    match first_branch(ib.branches@, 0, n) {
        Some(i) => if i < ib.branches@.len() {
            res_block(ib.branches@[i as int].1, s, p)
        } else {
            (Seq::empty(), p)
        },
        None => match ib.else_block {
            Some(b) => res_block(b, s, p),
            None => (Seq::empty(), p),
        },
    }
}

/// Whether a case label takes the value `n` of its switch, whose labels
/// are `labels`.
pub open spec fn label_takes(l: SwitchLabel, n: u128, labels: Set<u128>) -> bool {
    match l {
        SwitchLabel::Case(v) => v == n,
        SwitchLabel::Default => !labels.contains(n),
    }
}

/// The scan of the first `k` cases of a switch of value `n`: the commands,
/// the position, whether a case has been entered, and whether a SKIP has
/// ended the scan.
pub open spec fn res_cases(
    cs: Seq<BmsCaseBlock>,
    k: nat,
    n: u128,
    labels: Set<u128>,
    s: Seq<u128>,
    p: nat,
) -> (Seq<Command>, nat, bool, bool)
    decreases cs, k,
{
    if k == 0 || k > cs.len() {
        (Seq::empty(), p, false, false)
    } else {
        let (o1, p1, entered, stopped) = res_cases(cs, (k - 1) as nat, n, labels, s, p);
        let c = cs[k - 1];
        if stopped {
            (o1, p1, entered, stopped)
        } else if entered || label_takes(c.0, n, labels) {
            let (o2, p2) = res_block(c.1, s, p1);
            (o1 + o2, p2, true, c.2)
        } else {
            (o1, p1, false, false)
        }
    }
}

/// Whether two draw sequences hold the same draws at every position from
/// `p` up to `q`.
pub open spec fn agree_on(s1: Seq<u128>, s2: Seq<u128>, p: nat, q: nat) -> bool {
    &&& q <= s1.len()
    &&& q <= s2.len()
    &&& forall|i: int| p <= i < q ==> s1[i] == s2[i]
}

proof fn lemma_agree_split(s1: Seq<u128>, s2: Seq<u128>, p: nat, m: nat, q: nat)
    requires
        p <= m <= q,
        agree_on(s1, s2, p, q),
    ensures
        agree_on(s1, s2, p, m),
        agree_on(s1, s2, m, q),
{
}

proof fn lemma_select(v: RandomValue, s1: Seq<u128>, s2: Seq<u128>, p: nat)
    ensures
        select(v, s1, p).1 >= p,
        agree_on(s1, s2, p, select(v, s1, p).1) ==> select(v, s1, p) == select(v, s2, p),
{
    if let RandomValue::Max(n) = v {
        if n != 0 && agree_on(s1, s2, p, select(v, s1, p).1) {
            assert(p <= p < p + 1);
        }
    }
}

/// Resolution reads no draw beyond those it uses: two draw sequences that
/// agree on the draws that a block uses resolve it alike.
pub proof fn lemma_block_reads_used_draws(b: BmsBlock, s1: Seq<u128>, s2: Seq<u128>, p: nat)
    ensures
        res_block(b, s1, p).1 >= p,
        agree_on(s1, s2, p, res_block(b, s1, p).1) ==> res_block(b, s1, p) == res_block(b, s2, p),
    decreases b, 0nat,
{
    lemma_elems(b.0@, b.0@.len() as nat, s1, s2, p);
}

proof fn lemma_elems(es: Seq<BmsElement>, k: nat, s1: Seq<u128>, s2: Seq<u128>, p: nat)
    ensures
        res_elems(es, k, s1, p).1 >= p,
        agree_on(s1, s2, p, res_elems(es, k, s1, p).1) ==> res_elems(es, k, s1, p) == res_elems(
            es,
            k,
            s2,
            p,
        ),
    decreases es, k,
{
    if k == 0 || k > es.len() {
    } else {
        lemma_elems(es, (k - 1) as nat, s1, s2, p);
        let p1 = res_elems(es, (k - 1) as nat, s1, p).1;
        lemma_elem(es[k - 1], s1, s2, p1);
        let q = res_elems(es, k, s1, p).1;
        if agree_on(s1, s2, p, q) {
            lemma_agree_split(s1, s2, p, p1, q);
        }
    }
}

proof fn lemma_elem(e: BmsElement, s1: Seq<u128>, s2: Seq<u128>, p: nat)
    ensures
        res_elem(e, s1, p).1 >= p,
        agree_on(s1, s2, p, res_elem(e, s1, p).1) ==> res_elem(e, s1, p) == res_elem(e, s2, p),
    decreases e, 0nat,
{
    match e {
        BmsElement::Command(c) => {},
        BmsElement::Random(rb) => {
            lemma_select(rb.0, s1, s2, p);
            let (n, p1) = select(rb.0, s1, p);
            lemma_members(rb.1@, rb.1@.len() as nat, n, s1, s2, p1);
            let q = res_elem(e, s1, p).1;
            if agree_on(s1, s2, p, q) {
                lemma_agree_split(s1, s2, p, p1, q);
            }
        },
        BmsElement::Switch(sb) => {
            lemma_select(sb.0, s1, s2, p);
            let (n, p1) = select(sb.0, s1, p);
            lemma_cases(sb.1@, sb.1@.len() as nat, n, sb.2@, s1, s2, p1);
            let q = res_elem(e, s1, p).1;
            if agree_on(s1, s2, p, q) {
                lemma_agree_split(s1, s2, p, p1, q);
            }
        },
    }
}

proof fn lemma_members(
    ms: Seq<BmsRandomElement>,
    k: nat,
    n: u128,
    s1: Seq<u128>,
    s2: Seq<u128>,
    p: nat,
)
    ensures
        res_members(ms, k, n, s1, p).1 >= p,
        agree_on(s1, s2, p, res_members(ms, k, n, s1, p).1) ==> res_members(ms, k, n, s1, p)
            == res_members(ms, k, n, s2, p),
    decreases ms, k,
{
    if k == 0 || k > ms.len() {
    } else {
        lemma_members(ms, (k - 1) as nat, n, s1, s2, p);
        let p1 = res_members(ms, (k - 1) as nat, n, s1, p).1;
        match ms[k - 1] {
            BmsRandomElement::Block(b) => lemma_block_reads_used_draws(b, s1, s2, p1),
            BmsRandomElement::IfBlock(ib) => lemma_if(ib, n, s1, s2, p1),
        }
        let q = res_members(ms, k, n, s1, p).1;
        if agree_on(s1, s2, p, q) {
            lemma_agree_split(s1, s2, p, p1, q);
        }
    }
}

proof fn lemma_if(ib: BmsIfBlock, n: u128, s1: Seq<u128>, s2: Seq<u128>, p: nat)
    ensures
        res_if(ib, n, s1, p).1 >= p,
        agree_on(s1, s2, p, res_if(ib, n, s1, p).1) ==> res_if(ib, n, s1, p) == res_if(
            ib,
            n,
            s2,
            p,
        ),
    decreases ib, 0nat,
{
    match first_branch(ib.branches@, 0, n) {
        Some(i) => if i < ib.branches@.len() {
            lemma_block_reads_used_draws(ib.branches@[i as int].1, s1, s2, p);
        },
        None => match ib.else_block {
            Some(b) => lemma_block_reads_used_draws(b, s1, s2, p),
            None => {},
        },
    }
}

proof fn lemma_cases(
    cs: Seq<BmsCaseBlock>,
    k: nat,
    n: u128,
    labels: Set<u128>,
    s1: Seq<u128>,
    s2: Seq<u128>,
    p: nat,
)
    ensures
        res_cases(cs, k, n, labels, s1, p).1 >= p,
        agree_on(s1, s2, p, res_cases(cs, k, n, labels, s1, p).1) ==> res_cases(
            cs,
            k,
            n,
            labels,
            s1,
            p,
        ) == res_cases(cs, k, n, labels, s2, p),
    decreases cs, k,
{
    if k == 0 || k > cs.len() {
    } else {
        lemma_cases(cs, (k - 1) as nat, n, labels, s1, s2, p);
        let p1 = res_cases(cs, (k - 1) as nat, n, labels, s1, p).1;
        lemma_block_reads_used_draws(cs[k - 1].1, s1, s2, p1);
        let q = res_cases(cs, k, n, labels, s1, p).1;
        if agree_on(s1, s2, p, q) {
            lemma_agree_split(s1, s2, p, p1, q);
        }
    }
}

/// The value of a selector, drawing from `rng` when it has a bound of at
/// least 1; a draw is logged in `drawn`.
fn pick<R: RandomSource>(v: &RandomValue, rng: &mut R, drawn: &mut Vec<u128>) -> (r: u128)
    ensures
        old(drawn)@.len() <= final(drawn)@.len(),
        final(drawn)@.subrange(0, old(drawn)@.len() as int) == old(drawn)@,
        select(*v, final(drawn)@, old(drawn)@.len() as nat) == (r, final(drawn)@.len() as nat),
        final(rng).history() == drawn_since(old(rng).history(), final(drawn)@, old(drawn)@.len() as int),
        *v matches RandomValue::Max(n) ==> (n > 0 ==> 1 <= r <= n),
{
    match v {
        RandomValue::Max(n) => {
            if *n == 0 {
                assert(drawn_since(old(rng).history(), drawn@, drawn@.len() as int) =~= rng.history());
                0
            } else {
                let r = rng.draw(*n);
                drawn.push(r);
                assert(final(drawn)@.subrange(0, old(drawn)@.len() as int) =~= old(drawn)@);
                assert(drawn_since(old(rng).history(), drawn@, old(drawn)@.len() as int) =~= rng.history());
                r
            }
        },
        RandomValue::Fixed(n) => {
            assert(drawn_since(old(rng).history(), drawn@, drawn@.len() as int) =~= rng.history());
            *n
        },
    }
}

proof fn lemma_derefs_push<'a>(v: Seq<&'a Command>, c: &'a Command)
    ensures
        derefs(v.push(c)) == derefs(v) + seq![*c],
{
    assert(derefs(v.push(c)) =~= derefs(v) + seq![*c]);
}

proof fn lemma_extends(old_s: Seq<u128>, mid: Seq<u128>, new_s: Seq<u128>)
    requires
        mid.subrange(0, old_s.len() as int) == old_s,
        new_s.subrange(0, mid.len() as int) == mid,
        old_s.len() <= mid.len(),
        mid.len() <= new_s.len(),
    ensures
        new_s.subrange(0, old_s.len() as int) == old_s,
        agree_on(mid, new_s, old_s.len() as nat, mid.len() as nat),
{
    assert(new_s.subrange(0, old_s.len() as int) =~= old_s) by {
        assert forall|i: int| 0 <= i < old_s.len() implies new_s[i] == old_s[i] by {
            assert(new_s.subrange(0, mid.len() as int)[i] == mid[i]);
            assert(mid.subrange(0, old_s.len() as int)[i] == old_s[i]);
        }
    }
    assert forall|i: int| old_s.len() <= i < mid.len() implies mid[i] == new_s[i] by {
        assert(new_s.subrange(0, mid.len() as int)[i] == mid[i]);
    }
}

impl BmsBlock {
    /// Appends to `output` the commands of this block once each group in it
    /// has drawn its value from `rng`, in textual order; the draws are
    /// appended to `drawn`.
    pub fn get_token_vec<'a, R: RandomSource>(
        &'a self,
        output: &mut Vec<&'a Command>,
        rng: &mut R,
        drawn: &mut Vec<u128>,
    )
        ensures
            old(drawn)@.len() <= final(drawn)@.len(),
            final(drawn)@.subrange(0, old(drawn)@.len() as int) == old(drawn)@,
            final(rng).history() == drawn_since(
                old(rng).history(),
                final(drawn)@,
                old(drawn)@.len() as int,
            ),
            res_block(*self, final(drawn)@, old(drawn)@.len() as nat).1 == final(drawn)@.len(),
            derefs(final(output)@) == derefs(old(output)@) + res_block(
                *self,
                final(drawn)@,
                old(drawn)@.len() as nat,
            ).0,
        decreases self,
    {
        let ghost out0 = output@;
        let ghost d0 = drawn@;
        let ghost h0 = rng.history();
        let mut i: usize = 0;
        assert(drawn@.subrange(0, d0.len() as int) =~= d0);
        assert(drawn_since(h0, d0, d0.len() as int) =~= h0);
        while i < self.0.len()
            invariant
                i <= self.0@.len(),
                h0 == old(rng).history(),
                rng.history() == drawn_since(h0, drawn@, d0.len() as int),
                drawn@.subrange(0, d0.len() as int) == d0,
                d0.len() <= drawn@.len(),
                res_elems(self.0@, i as nat, drawn@, d0.len() as nat).1 == drawn@.len(),
                derefs(output@) == derefs(out0) + res_elems(
                    self.0@,
                    i as nat,
                    drawn@,
                    d0.len() as nat,
                ).0,
            decreases self.0@.len() - i,
        {
            let ghost mid = drawn@;
            let ghost mid_out = output@;
            self.0[i].get_token_vec(output, rng, drawn);
            proof {
                lemma_history(h0, d0.len() as int, mid, drawn@);
                lemma_extends(d0, mid, drawn@);
                lemma_elems(self.0@, i as nat, mid, drawn@, d0.len() as nat);
            }
            i = i + 1;
            proof {
                assert(derefs(output@) =~= derefs(out0) + res_elems(
                    self.0@,
                    i as nat,
                    drawn@,
                    d0.len() as nat,
                ).0);
            }
        }
    }
}

impl BmsElement {
    pub fn get_token_vec<'a, R: RandomSource>(
        &'a self,
        output: &mut Vec<&'a Command>,
        rng: &mut R,
        drawn: &mut Vec<u128>,
    )
        ensures
            old(drawn)@.len() <= final(drawn)@.len(),
            final(drawn)@.subrange(0, old(drawn)@.len() as int) == old(drawn)@,
            final(rng).history() == drawn_since(
                old(rng).history(),
                final(drawn)@,
                old(drawn)@.len() as int,
            ),
            res_elem(*self, final(drawn)@, old(drawn)@.len() as nat).1 == final(drawn)@.len(),
            derefs(final(output)@) == derefs(old(output)@) + res_elem(
                *self,
                final(drawn)@,
                old(drawn)@.len() as nat,
            ).0,
        decreases self,
    {
        match self {
            BmsElement::Command(c) => {
                proof {
                    lemma_derefs_push(output@, c);
                }
                output.push(c);
                assert(drawn@.subrange(0, drawn@.len() as int) =~= drawn@);
            },
            BmsElement::Random(rb) => {
                rb.get_token_vec(output, rng, drawn);
            },
            BmsElement::Switch(sb) => {
                sb.get_token_vec(output, rng, drawn);
            },
        }
    }
}

impl BmsRandomBlock {
    pub fn get_token_vec<'a, R: RandomSource>(
        &'a self,
        output: &mut Vec<&'a Command>,
        rng: &mut R,
        drawn: &mut Vec<u128>,
    )
        ensures
            old(drawn)@.len() <= final(drawn)@.len(),
            final(drawn)@.subrange(0, old(drawn)@.len() as int) == old(drawn)@,
            final(rng).history() == drawn_since(
                old(rng).history(),
                final(drawn)@,
                old(drawn)@.len() as int,
            ),
            res_elem(BmsElement::Random(*self), final(drawn)@, old(drawn)@.len() as nat).1
                == final(drawn)@.len(),
            derefs(final(output)@) == derefs(old(output)@) + res_elem(
                BmsElement::Random(*self),
                final(drawn)@,
                old(drawn)@.len() as nat,
            ).0,
            self.0 matches RandomValue::Max(n) ==> (n > 0 ==> final(drawn)@.len() > old(
                drawn,
            )@.len() && 1 <= final(drawn)@[old(drawn)@.len() as int] <= n),
        decreases self,
    {
        let ghost out0 = output@;
        let ghost d0 = drawn@;
        let ghost h0 = rng.history();
        let n = pick(&self.0, rng, drawn);
        let ghost d1 = drawn@;
        proof {
            if let RandomValue::Max(k) = self.0 {
                if k > 0 {
                    assert(d1.subrange(0, d0.len() as int) == d0);
                    assert(d1[d0.len() as int] == n);
                }
            }
        }
        let mut i: usize = 0;
        assert(drawn@.subrange(0, d1.len() as int) =~= d1);
        assert(derefs(output@) =~= derefs(out0) + res_members(self.1@, 0, n, drawn@, d1.len() as nat).0);
        while i < self.1.len()
            invariant
                i <= self.1@.len(),
                d0 == old(drawn)@,
                out0 == old(output)@,
                h0 == old(rng).history(),
                rng.history() == drawn_since(h0, drawn@, d0.len() as int),
                drawn@.subrange(0, d0.len() as int) == d0,
                drawn@.subrange(0, d1.len() as int) == d1,
                d1.subrange(0, d0.len() as int) == d0,
                d0.len() <= d1.len() <= drawn@.len(),
                select(self.0, d1, d0.len() as nat) == (n, d1.len() as nat),
                self.0 matches RandomValue::Max(k) ==> (k > 0 ==> d1.len() > d0.len() && 1 <= d1[d0.len() as int] <= k),
                res_members(self.1@, i as nat, n, drawn@, d1.len() as nat).1 == drawn@.len(),
                derefs(output@) == derefs(out0) + res_members(
                    self.1@,
                    i as nat,
                    n,
                    drawn@,
                    d1.len() as nat,
                ).0,
            decreases self.1@.len() - i,
        {
            let ghost mid = drawn@;
            match &self.1[i] {
                BmsRandomElement::Block(b) => b.get_token_vec(output, rng, drawn),
                BmsRandomElement::IfBlock(ib) => ib.get_token_vec(output, rng, drawn, n),
            }
            proof {
                lemma_history(h0, d0.len() as int, mid, drawn@);
                lemma_extends(d1, mid, drawn@);
                lemma_extends(d0, mid, drawn@);
                lemma_members(self.1@, i as nat, n, mid, drawn@, d1.len() as nat);
            }
            i = i + 1;
            proof {
                assert(derefs(output@) =~= derefs(out0) + res_members(
                    self.1@,
                    i as nat,
                    n,
                    drawn@,
                    d1.len() as nat,
                ).0);
            }
        }
        proof {
            lemma_extends(d0, d1, drawn@);
            lemma_select(self.0, d1, drawn@, d0.len() as nat);
        }
    }
}

impl BmsIfBlock {
    pub fn get_token_vec<'a, R: RandomSource>(
        &'a self,
        output: &mut Vec<&'a Command>,
        rng: &mut R,
        drawn: &mut Vec<u128>,
        n: u128,
    )
        ensures
            old(drawn)@.len() <= final(drawn)@.len(),
            final(drawn)@.subrange(0, old(drawn)@.len() as int) == old(drawn)@,
            final(rng).history() == drawn_since(
                old(rng).history(),
                final(drawn)@,
                old(drawn)@.len() as int,
            ),
            res_if(*self, n, final(drawn)@, old(drawn)@.len() as nat).1 == final(drawn)@.len(),
            derefs(final(output)@) == derefs(old(output)@) + res_if(
                *self,
                n,
                final(drawn)@,
                old(drawn)@.len() as nat,
            ).0,
        decreases self,
    {
        let mut i: usize = 0;
        while i < self.branches.len()
            invariant
                i <= self.branches@.len(),
                drawn@ == old(drawn)@,
                output@ == old(output)@,
                rng.history() == old(rng).history(),
                first_branch(self.branches@, 0, n) == first_branch(self.branches@, i as nat, n),
            decreases self.branches@.len() - i,
        {
            if self.branches[i].0 == n {
                assert(first_branch(self.branches@, i as nat, n) == Some(i as nat));
                self.branches[i].1.get_token_vec(output, rng, drawn);
                return;
            }
            i = i + 1;
        }
        assert(first_branch(self.branches@, i as nat, n) == None::<nat>);
        match &self.else_block {
            Some(b) => b.get_token_vec(output, rng, drawn),
            None => {
                assert(drawn@.subrange(0, drawn@.len() as int) =~= drawn@);
                assert(derefs(output@) =~= derefs(output@) + Seq::<Command>::empty());
            },
        }
    }
}

impl BmsSwitchBlock {
    pub fn get_token_vec<'a, R: RandomSource>(
        &'a self,
        output: &mut Vec<&'a Command>,
        rng: &mut R,
        drawn: &mut Vec<u128>,
    )
        ensures
            old(drawn)@.len() <= final(drawn)@.len(),
            final(drawn)@.subrange(0, old(drawn)@.len() as int) == old(drawn)@,
            final(rng).history() == drawn_since(
                old(rng).history(),
                final(drawn)@,
                old(drawn)@.len() as int,
            ),
            res_elem(BmsElement::Switch(*self), final(drawn)@, old(drawn)@.len() as nat).1
                == final(drawn)@.len(),
            derefs(final(output)@) == derefs(old(output)@) + res_elem(
                BmsElement::Switch(*self),
                final(drawn)@,
                old(drawn)@.len() as nat,
            ).0,
            self.0 matches RandomValue::Max(n) ==> (n > 0 ==> final(drawn)@.len() > old(
                drawn,
            )@.len() && 1 <= final(drawn)@[old(drawn)@.len() as int] <= n),
        decreases self,
    {
        let ghost out0 = output@;
        let ghost d0 = drawn@;
        let ghost h0 = rng.history();
        let n = pick(&self.0, rng, drawn);
        let ghost d1 = drawn@;
        proof {
            if let RandomValue::Max(k) = self.0 {
                if k > 0 {
                    assert(d1.subrange(0, d0.len() as int) == d0);
                    assert(d1[d0.len() as int] == n);
                }
            }
        }
        let mut flag = false;
        let mut i: usize = 0;
        assert(drawn@.subrange(0, d1.len() as int) =~= d1);
        assert(derefs(output@) =~= derefs(out0) + res_cases(self.1@, 0, n, self.2@, drawn@, d1.len() as nat).0);
        while i < self.1.len()
            invariant
                i <= self.1@.len(),
                d0 == old(drawn)@,
                out0 == old(output)@,
                h0 == old(rng).history(),
                rng.history() == drawn_since(h0, drawn@, d0.len() as int),
                drawn@.subrange(0, d0.len() as int) == d0,
                drawn@.subrange(0, d1.len() as int) == d1,
                d1.subrange(0, d0.len() as int) == d0,
                d0.len() <= d1.len() <= drawn@.len(),
                select(self.0, d1, d0.len() as nat) == (n, d1.len() as nat),
                self.0 matches RandomValue::Max(k) ==> (k > 0 ==> d1.len() > d0.len() && 1 <= d1[d0.len() as int] <= k),
                res_cases(self.1@, i as nat, n, self.2@, drawn@, d1.len() as nat).1 == drawn@.len(),
                res_cases(self.1@, i as nat, n, self.2@, drawn@, d1.len() as nat).2 == flag,
                !res_cases(self.1@, i as nat, n, self.2@, drawn@, d1.len() as nat).3,
                derefs(output@) == derefs(out0) + res_cases(
                    self.1@,
                    i as nat,
                    n,
                    self.2@,
                    drawn@,
                    d1.len() as nat,
                ).0,
            decreases self.1@.len() - i,
        {
            let ghost mid = drawn@;
            let c = &self.1[i];
            let takes = match c.0 {
                SwitchLabel::Case(v) => v == n,
                SwitchLabel::Default => !self.2.contains(&n),
            };
            if takes {
                flag = true;
            }
            if flag {
                c.1.get_token_vec(output, rng, drawn);
            }
            proof {
                assert(drawn@.subrange(0, mid.len() as int) =~= mid) by {
                    if !flag {
                        assert(drawn@ == mid);
                    }
                }
                lemma_history(h0, d0.len() as int, mid, drawn@);
                lemma_extends(d1, mid, drawn@);
                lemma_extends(d0, mid, drawn@);
                lemma_cases(self.1@, i as nat, n, self.2@, mid, drawn@, d1.len() as nat);
            }
            if flag && c.2 {
                proof {
                    lemma_cases_stopped(self.1@, (i + 1) as nat, self.1@.len() as nat, n, self.2@, drawn@, d1.len() as nat);
                    assert(derefs(output@) =~= derefs(out0) + res_cases(
                        self.1@,
                        (i + 1) as nat,
                        n,
                        self.2@,
                        drawn@,
                        d1.len() as nat,
                    ).0);
                    lemma_extends(d0, d1, drawn@);
                    lemma_select(self.0, d1, drawn@, d0.len() as nat);
                    if d1.len() > d0.len() {
                        assert(drawn@.subrange(0, d1.len() as int)[d0.len() as int] == d1[d0.len() as int]);
                    }
                }
                return;
            }
            i = i + 1;
            proof {
                assert(derefs(output@) =~= derefs(out0) + res_cases(
                    self.1@,
                    i as nat,
                    n,
                    self.2@,
                    drawn@,
                    d1.len() as nat,
                ).0);
            }
        }
        proof {
            lemma_extends(d0, d1, drawn@);
            lemma_select(self.0, d1, drawn@, d0.len() as nat);
        }
    }
}

/// Once a SKIP has ended the scan of a switch, later cases change nothing.
proof fn lemma_cases_stopped(
    cs: Seq<BmsCaseBlock>,
    j: nat,
    k: nat,
    n: u128,
    labels: Set<u128>,
    s: Seq<u128>,
    p: nat,
)
    requires
        j <= k <= cs.len(),
        res_cases(cs, j, n, labels, s, p).3,
    ensures
        res_cases(cs, k, n, labels, s, p) == res_cases(cs, j, n, labels, s, p),
    decreases k,
{
    if k > j {
        lemma_cases_stopped(cs, j, (k - 1) as nat, n, labels, s, p);
    }
}

/// The marker that opens a random group with this selector.
pub open spec fn random_marker(v: RandomValue) -> Token {
    match v {
        RandomValue::Max(n) => Token::ControlFlow(ControlFlow::Random(n)),
        RandomValue::Fixed(n) => Token::ControlFlow(ControlFlow::SetRandom(n)),
    }
}

/// The marker that opens a switch group with this selector.
pub open spec fn switch_marker(v: RandomValue) -> Token {
    match v {
        RandomValue::Max(n) => Token::ControlFlow(ControlFlow::Switch(n)),
        RandomValue::Fixed(n) => Token::ControlFlow(ControlFlow::SetSwitch(n)),
    }
}

/// The marker of the branch of index `k` of an IF chain: IF for the
/// first, ELSEIF for the others.
pub open spec fn branch_marker(k: int, n: u128) -> Token {
    if k == 0 {
        Token::ControlFlow(ControlFlow::If(n))
    } else {
        Token::ControlFlow(ControlFlow::ElseIf(n))
    }
}

pub open spec fn label_marker(l: SwitchLabel) -> Token {
    match l {
        SwitchLabel::Case(n) => Token::ControlFlow(ControlFlow::Case(n)),
        SwitchLabel::Default => Token::ControlFlow(ControlFlow::Default),
    }
}

/// The tokens that a block is written with, in order, leaving out the
/// ENDRANDOM markers, which may close a random group or not.
pub open spec fn render_block(b: BmsBlock) -> Seq<Token>
    decreases b, 0nat,
{
    render_elems(b.0@)
}

pub open spec fn render_elems(es: Seq<BmsElement>) -> Seq<Token>
    decreases es, 0nat,
{
    if es.len() == 0 {
        Seq::empty()
    } else {
        render_elems(es.subrange(0, es.len() - 1)) + render_elem(es[es.len() - 1])
    }
}

pub open spec fn render_elem(e: BmsElement) -> Seq<Token>
    decreases e, 0nat,
{
    match e {
        BmsElement::Command(c) => seq![Token::Command(c)],
        BmsElement::Random(rb) => seq![random_marker(rb.0)] + render_members(rb.1@),
        BmsElement::Switch(sb) => seq![switch_marker(sb.0)] + render_cases(sb.1@) + seq![
            Token::ControlFlow(ControlFlow::EndSwitch),
        ],
    }
}

pub open spec fn render_members(ms: Seq<BmsRandomElement>) -> Seq<Token>
    decreases ms, 0nat,
{
    if ms.len() == 0 {
        Seq::empty()
    } else {
        render_members(ms.subrange(0, ms.len() - 1)) + match ms[ms.len() - 1] {
            BmsRandomElement::Block(b) => render_block(b),
            BmsRandomElement::IfBlock(ib) => render_if(ib),
        }
    }
}

pub open spec fn render_if(ib: BmsIfBlock) -> Seq<Token>
    decreases ib, 0nat,
{
    render_branches(ib.branches@) + match ib.else_block {
        Some(b) => seq![Token::ControlFlow(ControlFlow::Else)] + render_block(b),
        None => Seq::empty(),
    } + seq![Token::ControlFlow(ControlFlow::EndIf)]
}

pub open spec fn render_branches(bs: Seq<(u128, BmsBlock)>) -> Seq<Token>
    decreases bs, 0nat,
{
    if bs.len() == 0 {
        Seq::empty()
    } else {
        render_branches(bs.subrange(0, bs.len() - 1)) + seq![
            branch_marker(bs.len() - 1, bs[bs.len() - 1].0),
        ] + render_block(bs[bs.len() - 1].1)
    }
}

pub open spec fn render_cases(cs: Seq<BmsCaseBlock>) -> Seq<Token>
    decreases cs, 0nat,
{
    if cs.len() == 0 {
        Seq::empty()
    } else {
        render_cases(cs.subrange(0, cs.len() - 1)) + seq![label_marker(cs[cs.len() - 1].0)]
            + render_block(cs[cs.len() - 1].1) + if cs[cs.len() - 1].2 {
            seq![Token::ControlFlow(ControlFlow::Skip)]
        } else {
            Seq::empty()
        }
    }
}

/// The values that label the cases of a switch.
pub open spec fn case_labels(cs: Seq<BmsCaseBlock>) -> Set<u128> {
    Set::new(|v: u128| exists|i: int| 0 <= i < cs.len() && cs[i].0 == SwitchLabel::Case(v))
}

proof fn lemma_first_branch_by_labels(
    b1: Seq<(u128, BmsBlock)>,
    b2: Seq<(u128, BmsBlock)>,
    i: nat,
    n: u128,
)
    requires
        b1.len() == b2.len(),
        forall|k: int| 0 <= k < b1.len() ==> (#[trigger] b1[k]).0 == b2[k].0,
    ensures
        first_branch(b1, i, n) == first_branch(b2, i, n),
        first_branch(b1, i, n) matches Some(k) ==> i <= k < b1.len() && b1[k as int].0 == n,
    decreases b1.len() - i,
{
    if i < b1.len() {
        lemma_first_branch_by_labels(b1, b2, i + 1, n);
    }
}

/// A branch of an IF chain that the value does not select has no effect:
/// whatever its body holds (a base-62 marker, say), the chain resolves to
/// the same commands with the same draws.
pub proof fn lemma_unselected_branch_has_no_effect(
    ib1: BmsIfBlock,
    ib2: BmsIfBlock,
    n: u128,
    j: int,
    s: Seq<u128>,
    p: nat,
)
    requires
        ib1.branches@.len() == ib2.branches@.len(),
        0 <= j < ib1.branches@.len(),
        forall|k: int|
            0 <= k < ib1.branches@.len() && k != j ==> #[trigger] ib1.branches@[k]
                == ib2.branches@[k],
        ib1.branches@[j].0 == ib2.branches@[j].0,
        ib1.else_block == ib2.else_block,
        first_branch(ib1.branches@, 0, n) != Some(j as nat),
    ensures
        res_if(ib1, n, s, p) == res_if(ib2, n, s, p),
{
    assert forall|k: int| 0 <= k < ib1.branches@.len() implies (#[trigger] ib1.branches@[k]).0
        == ib2.branches@[k].0 by {
        if k != j {
            assert(ib1.branches@[k] == ib2.branches@[k]);
        }
    }
    lemma_first_branch_by_labels(ib1.branches@, ib2.branches@, 0, n);
    match first_branch(ib1.branches@, 0, n) {
        Some(k) => {
            assert(ib1.branches@[k as int] == ib2.branches@[k as int]);
        },
        None => {},
    }
}

/// Resolution is reproducible: two runs whose random sources hand out the
/// same draws, as far as the tree uses them, give the same commands and
/// use the same number of draws.
pub proof fn lemma_resolution_is_reproducible(b: BmsBlock, s1: Seq<u128>, s2: Seq<u128>)
    requires
        agree_on(s1, s2, 0, res_block(b, s1, 0).1),
    ensures
        res_block(b, s1, 0) == res_block(b, s2, 0),
{
    lemma_block_reads_used_draws(b, s1, s2, 0);
}

} // verus!
