//! The search loop: the starting state after an offset, then one spawn-oracle
//! result per advance, filtered into match records tagged with their advance.

use vstd::prelude::*;
use crate::filter::{accepts, Filter, Predicate, SpawnEvent};
use crate::context::SearchContext;
use crate::statue::StatueConfig;
use crate::xorshift::{lemma_step_n_succ, lemma_step_n_zero, step_n, XorShift};

verus! {

/// Offsets (counted in minimum advances) from which the start is reached by a
/// jump rather than by single steps.
pub const JUMP_THRESHOLD: u32 = 4096;

/// What the spawn oracle produced at one advance: the regular spawns, in order,
/// and at most one rare spawn.
#[derive(Clone, Debug)]
pub struct AdvanceOutput {
    pub regular: Vec<SpawnEvent>,
    pub rare: Option<SpawnEvent>,
}

/// A spawn event that passed the filter, with the advance (counted from the
/// start of the window) at which it was produced.
#[derive(Clone, Copy, Debug, PartialEq, Eq)]
pub struct MatchRecord {
    pub advance: u32,
    /// Whether the event is the rare spawn of its advance.
    pub rare: bool,
    pub event: SpawnEvent,
}

/// The records of the regular spawns `s` of one advance that pass `f`, in order.
pub open spec fn regular_matches(f: &Filter, advance: u32, s: Seq<SpawnEvent>) -> Seq<MatchRecord>
    decreases s.len(),
{
    if s.len() == 0 {
        seq![]
    } else {
        let p = regular_matches(f, advance, s.drop_last());
        if accepts(f, &s.last()) {
            p.push(MatchRecord { advance, rare: false, event: s.last() })
        } else {
            p
        }
    }
}

/// The records of one advance: its regular matches, then its rare spawn if that matches.
pub open spec fn advance_matches(f: &Filter, advance: u32, o: AdvanceOutput) -> Seq<MatchRecord> {
    let reg = regular_matches(f, advance, o.regular@);
    match o.rare {
        Some(e) => if accepts(f, &e) {
            reg.push(MatchRecord { advance, rare: true, event: e })
        } else {
            reg
        },
        None => reg,
    }
}

/// The records of a whole window, where `outs[i]` is what the oracle produced
/// at advance `i`.
pub open spec fn collected(f: &Filter, outs: Seq<AdvanceOutput>) -> Seq<MatchRecord>
    decreases outs.len(),
{
    if outs.len() == 0 {
        seq![]
    } else {
        collected(f, outs.drop_last()) + advance_matches(
            f,
            (outs.len() - 1) as u32,
            outs.last(),
        )
    }
}

/// Records come in advance order, and within one advance no rare record
/// precedes a regular one.
pub open spec fn ordered(s: Seq<MatchRecord>) -> bool {
    forall|i: int, j: int|
        0 <= i < j < s.len() ==> (#[trigger] s[i]).advance < (#[trigger] s[j]).advance || (
        s[i].advance == s[j].advance && (!s[i].rare || s[j].rare))
}

/// The generator state from which a window starts: `min_advances + delay`
/// steps after `seed`, reached by single steps when `min_advances` is below
/// `JUMP_THRESHOLD` and by a jump otherwise.
pub fn starting_state(seed: XorShift, min_advances: u32, delay: u32) -> (r: XorShift)
    ensures
        r == step_n(seed, (min_advances + delay) as nat),
{
    let mut rng = seed;
    let offset: u64 = min_advances as u64 + delay as u64;
    if min_advances < JUMP_THRESHOLD {
        rng.advance(offset);
    } else {
        rng.jump(offset);
    }
    rng
}

/// One search in progress. The caller asks the spawn oracle for the current
/// advance with `state`, `context` and `statues`, and hands its result to
/// `record`, once per advance and in order, until `is_done`.
pub struct Search {
    predicate: Predicate,
    context: SearchContext,
    statues: StatueConfig,
    rng: XorShift,
    window: u32,
    advance: u32,
    results: Vec<MatchRecord>,
    start: Ghost<XorShift>,
    history: Ghost<Seq<AdvanceOutput>>,
}

impl Search {
    /// The filter of the search.
    pub closed spec fn filter(&self) -> Filter {
        self.predicate.filter()
    }

    /// The generator state at advance 0 of the window.
    pub closed spec fn start(&self) -> XorShift {
        self.start@
    }

    /// The number of advances the search covers.
    pub closed spec fn window(&self) -> u32 {
        self.window
    }

    /// The oracle results recorded so far, one per advance.
    pub closed spec fn history(&self) -> Seq<AdvanceOutput> {
        self.history@
    }

    pub closed spec fn snapshot(&self) -> (SearchContext, StatueConfig) {
        (self.context, self.statues)
    }

    pub closed spec fn wf(&self) -> bool {
        &&& self.predicate.wf()
        &&& self.advance <= self.window
        &&& self.history@.len() == self.advance
        &&& self.rng == step_n(self.start@, self.advance as nat)
        &&& self.results@ == collected(&self.predicate.filter(), self.history@)
    }

    /// Starts a search of `window` advances from `seed`, after the offset of
    /// `min_advances + delay` steps; the statue configuration is a snapshot
    /// taken now.
    pub fn new(
        seed: XorShift,
        min_advances: u32,
        delay: u32,
        window: u32,
        context: SearchContext,
        statues: StatueConfig,
        filter: Filter,
    ) -> (r: Search)
        ensures
            r.wf(),
            r.start() == step_n(seed, (min_advances + delay) as nat),
            r.window() == window,
            r.filter() == filter,
            r.history() == Seq::<AdvanceOutput>::empty(),
            r.snapshot() == (context, statues),
    {
        let start = starting_state(seed, min_advances, delay);
        proof {
            lemma_step_n_zero(start);
        }
        Search {
            predicate: Predicate::compile(filter),
            context,
            statues,
            rng: start,
            window,
            advance: 0,
            results: Vec::new(),
            start: Ghost(start),
            history: Ghost(Seq::empty()),
        }
    }

    /// The generator state at the current advance, for the oracle.
    pub fn state(&self) -> (r: XorShift)
        requires
            self.wf(),
        ensures
            r == step_n(self.start(), self.history().len()),
    {
        self.rng
    }

    /// The current advance, counted from the start of the window.
    pub fn advance(&self) -> (r: u32)
        requires
            self.wf(),
        ensures
            r == self.history().len(),
    {
        self.advance
    }

    /// The search context, for the oracle.
    pub fn context(&self) -> (r: SearchContext)
        ensures
            r == self.snapshot().0,
    {
        self.context
    }

    /// The statue configuration, for the oracle.
    pub fn statues(&self) -> (r: &StatueConfig)
        ensures
            *r == self.snapshot().1,
    {
        &self.statues
    }

    /// Whether every advance of the window has been recorded.
    pub fn is_done(&self) -> (r: bool)
        requires
            self.wf(),
        ensures
            r == (self.history().len() == self.window()),
    {
        self.advance == self.window
    }

    /// Records what the oracle produced at the current advance, then steps the
    /// generator once.
    pub fn record(&mut self, output: &AdvanceOutput)
        requires
            old(self).wf(),
            old(self).history().len() < old(self).window(),
        ensures
            final(self).wf(),
            final(self).history() == old(self).history().push(*output),
            final(self).start() == old(self).start(),
            final(self).window() == old(self).window(),
            final(self).filter() == old(self).filter(),
            final(self).snapshot() == old(self).snapshot(),
    {
        let ghost h = self.history@;
        collect_advance(&self.predicate, self.advance, output, &mut self.results);
        self.rng.step_once();
        proof {
            lemma_step_n_succ(self.start@, self.advance as nat);
            self.history = Ghost(h.push(*output));
            assert(self.history@.drop_last() =~= h);
        }
        self.advance = self.advance + 1;
    }

    /// The records of every advance recorded so far.
    pub fn results(&self) -> (r: &Vec<MatchRecord>)
        requires
            self.wf(),
        ensures
            r@ == collected(&self.filter(), self.history()),
    {
        &self.results
    }
}

/// Appends to `results` the records of one advance.
fn collect_advance(p: &Predicate, advance: u32, o: &AdvanceOutput, results: &mut Vec<MatchRecord>)
    requires
        p.wf(),
    ensures
        final(results)@ == old(results)@ + advance_matches(&p.filter(), advance, *o),
{
    let ghost f = p.filter();
    let ghost start = old(results)@;
    let mut k: usize = 0;
    while k < o.regular.len()
        invariant
            p.wf(),
            f == p.filter(),
            k <= o.regular@.len(),
            results@ == start + regular_matches(&f, advance, o.regular@.subrange(0, k as int)),
        decreases o.regular@.len() - k,
    {
        let e = o.regular[k];
        proof {
            assert(o.regular@.subrange(0, k + 1).drop_last() =~= o.regular@.subrange(0, k as int));
        }
        if p.matches(&e) {
            results.push(MatchRecord { advance, rare: false, event: e });
        }
        proof {
            assert(results@ =~= start + regular_matches(&f, advance, o.regular@.subrange(0, k + 1)));
        }
        k = k + 1;
    }
    assert(o.regular@.subrange(0, o.regular@.len() as int) =~= o.regular@);
    match o.rare {
        Some(e) => {
            if p.matches(&e) {
                results.push(MatchRecord { advance, rare: true, event: e });
            }
        },
        None => {},
    }
    assert(results@ =~= start + advance_matches(&f, advance, *o));
}

/// The records of a window whose `i`-th oracle result is `outputs[i]`.
pub fn run(filter: Filter, outputs: &Vec<AdvanceOutput>) -> (r: Vec<MatchRecord>)
    requires
        outputs@.len() <= u32::MAX,
    ensures
        r@ == collected(&filter, outputs@),
{
    let p = Predicate::compile(filter);
    let mut results: Vec<MatchRecord> = Vec::new();
    let mut i: usize = 0;
    while i < outputs.len()
        invariant
            p.wf(),
            p.filter() == filter,
            i <= outputs@.len(),
            outputs@.len() <= u32::MAX,
            results@ == collected(&filter, outputs@.subrange(0, i as int)),
        decreases outputs@.len() - i,
    {
        collect_advance(&p, i as u32, &outputs[i], &mut results);
        proof {
            let s = outputs@.subrange(0, i + 1);
            assert(s.drop_last() =~= outputs@.subrange(0, i as int));
        }
        i = i + 1;
    }
    assert(outputs@.subrange(0, outputs@.len() as int) =~= outputs@);
    results
}


proof fn lemma_regular_matches_tagged(f: &Filter, advance: u32, s: Seq<SpawnEvent>)
    ensures
        forall|k: int|
            0 <= k < regular_matches(f, advance, s).len() ==> (#[trigger] regular_matches(
                f,
                advance,
                s,
            )[k]).advance == advance && !regular_matches(f, advance, s)[k].rare,
    decreases s.len(),
{
    if s.len() > 0 {
        lemma_regular_matches_tagged(f, advance, s.drop_last());
    }
}

proof fn lemma_advance_matches_tagged(f: &Filter, advance: u32, o: AdvanceOutput)
    ensures
        forall|k: int|
            0 <= k < advance_matches(f, advance, o).len() ==> (#[trigger] advance_matches(
                f,
                advance,
                o,
            )[k]).advance == advance,
        forall|k: int|
            0 <= k < advance_matches(f, advance, o).len() - 1 ==> !(#[trigger] advance_matches(
                f,
                advance,
                o,
            )[k]).rare,
{
    lemma_regular_matches_tagged(f, advance, o.regular@);
}

/// Within one window, match records come in advance order, each advance lies
/// inside the window, and at one advance the rare record comes after the
/// regular ones.
pub proof fn lemma_collected_ordered(f: &Filter, outs: Seq<AdvanceOutput>)
    requires
        outs.len() <= u32::MAX,
    ensures
        ordered(collected(f, outs)),
        forall|k: int|
            0 <= k < collected(f, outs).len() ==> (#[trigger] collected(f, outs)[k]).advance
                < outs.len(),
    decreases outs.len(),
{
    if outs.len() > 0 {
        let prev = collected(f, outs.drop_last());
        let adv = (outs.len() - 1) as u32;
        let am = advance_matches(f, adv, outs.last());
        lemma_collected_ordered(f, outs.drop_last());
        lemma_advance_matches_tagged(f, adv, outs.last());
        let c = collected(f, outs);
        assert(c == prev + am);
        assert forall|i: int, j: int| 0 <= i < j < c.len() implies (#[trigger] c[i]).advance < (
        #[trigger] c[j]).advance || (c[i].advance == c[j].advance && (!c[i].rare || c[j].rare)) by {
            if j < prev.len() {
                assert(c[i] == prev[i] && c[j] == prev[j]);
            } else if i < prev.len() {
                assert(c[i] == prev[i] && c[j] == am[j - prev.len()]);
            } else {
                assert(c[i] == am[i - prev.len()] && c[j] == am[j - prev.len()]);
            }
        }
        assert forall|k: int| 0 <= k < c.len() implies (#[trigger] c[k]).advance < outs.len() by {
            if k < prev.len() {
                assert(c[k] == prev[k]);
            } else {
                assert(c[k] == am[k - prev.len()]);
            }
        }
    }
}

/// A search stopped after `k` advances holds a prefix of the records of the
/// whole window.
pub proof fn lemma_collected_prefix(f: &Filter, outs: Seq<AdvanceOutput>, k: int)
    requires
        0 <= k <= outs.len(),
    ensures
        collected(f, outs.subrange(0, k)).len() <= collected(f, outs).len(),
        collected(f, outs.subrange(0, k)) == collected(f, outs).subrange(
            0,
            collected(f, outs.subrange(0, k)).len() as int,
        ),
    decreases outs.len() - k,
{
    if k == outs.len() {
        assert(outs.subrange(0, k) =~= outs);
        assert(collected(f, outs).subrange(0, collected(f, outs).len() as int) =~= collected(f, outs));
    } else {
        lemma_collected_prefix(f, outs.drop_last(), k);
        assert(outs.drop_last().subrange(0, k) =~= outs.subrange(0, k));
        let a = collected(f, outs.subrange(0, k));
        let b = collected(f, outs.drop_last());
        let c = collected(f, outs);
        assert(c == b + advance_matches(f, (outs.len() - 1) as u32, outs.last()));
        assert(c.subrange(0, a.len() as int) =~= b.subrange(0, a.len() as int));
    }
}

/// A search is a function of its inputs: two results that meet the contract of
/// `run` on one filter and one sequence of oracle results are the same records.
pub proof fn lemma_run_deterministic(
    f: &Filter,
    outs: Seq<AdvanceOutput>,
    r1: Seq<MatchRecord>,
    r2: Seq<MatchRecord>,
)
    requires
        r1 == collected(f, outs),
        r2 == collected(f, outs),
    ensures
        r1 == r2,
{
}

} // verus!
