//! Spawn events and the filter compiled once per search and evaluated against
//! every event the oracle produces.

use vstd::prelude::*;

verus! {

/// The gender slot of a creature that has no gender.
pub const GENDERLESS: u8 = 2;

/// One simulated creature produced by the spawn oracle.
#[derive(Clone, Copy, Debug, PartialEq, Eq)]
pub struct SpawnEvent {
    pub species: u16,
    pub shiny: bool,
    /// The six individual stat values, each in 0..=31.
    pub ivs: [u8; 6],
    /// Ability slot, 0 or 1.
    pub ability: u8,
    /// Nature id, 0..=24.
    pub nature: u8,
    /// Gender slot: 0, 1, or `GENDERLESS`.
    pub gender: u8,
    pub item: u16,
    pub egg_move: Option<u16>,
    pub pid: u32,
    pub ec: u32,
}

/// What a search asks of a spawn event. `None`, an empty nature set, and the
/// stat range `[0, 31]` leave a field open.
#[derive(Clone, Debug)]
pub struct Filter {
    /// When set, only shiny events match.
    pub shiny: bool,
    pub species: Option<u16>,
    pub min_ivs: [u8; 6],
    pub max_ivs: [u8; 6],
    pub ability: Option<u8>,
    /// The accepted nature ids; empty accepts every nature.
    pub nature: Vec<u8>,
    pub item: Option<u16>,
    pub egg_move: Option<u16>,
    pub gender: Option<u8>,
    /// When unset, an event that lacks a constrained attribute (a genderless
    /// creature under a gender constraint, a creature without an egg move under
    /// an egg-move constraint) is not held against it; when set, every
    /// constrained field must match exactly.
    pub exclusive: bool,
}

pub open spec fn ivs_in_range(f: &Filter, e: &SpawnEvent) -> bool {
    forall|i: int| 0 <= i < 6 ==> f.min_ivs@[i] <= #[trigger] e.ivs@[i] <= f.max_ivs@[i]
}

pub open spec fn gender_matches(f: &Filter, e: &SpawnEvent) -> bool {
    match f.gender {
        None => true,
        Some(g) => e.gender == g || (!f.exclusive && e.gender == GENDERLESS),
    }
}

pub open spec fn egg_move_matches(f: &Filter, e: &SpawnEvent) -> bool {
    match f.egg_move {
        None => true,
        Some(m) => e.egg_move == Some(m) || (!f.exclusive && e.egg_move is None),
    }
}

/// Whether the spawn event `e` satisfies the filter `f`.
pub open spec fn accepts(f: &Filter, e: &SpawnEvent) -> bool {
    &&& !f.shiny || e.shiny
    &&& (f.species matches Some(s) ==> e.species == s)
    &&& ivs_in_range(f, e)
    &&& (f.ability matches Some(a) ==> e.ability == a)
    &&& (f.nature@.len() == 0 || f.nature@.contains(e.nature))
    &&& gender_matches(f, e)
    &&& (f.item matches Some(it) ==> e.item == it)
    &&& egg_move_matches(f, e)
}

/// The filter that leaves every field open.
pub open spec fn is_open_filter(f: &Filter) -> bool {
    &&& !f.shiny
    &&& f.species is None
    &&& forall|i: int| 0 <= i < 6 ==> f.min_ivs@[i] == 0 && #[trigger] f.max_ivs@[i] == 31
    &&& f.ability is None
    &&& f.nature@.len() == 0
    &&& f.item is None
    &&& f.egg_move is None
    &&& f.gender is None
}

/// Every one of the six stats of `e` is 31.
pub open spec fn perfect_ivs(e: &SpawnEvent) -> bool {
    forall|i: int| 0 <= i < 6 ==> #[trigger] e.ivs@[i] == 31
}

impl Filter {
    /// The filter that leaves every field open, not exclusive.
    pub fn open() -> (r: Filter)
        ensures
            is_open_filter(&r),
            !r.exclusive,
    {
        Filter {
            shiny: false,
            species: None,
            min_ivs: [0u8; 6],
            max_ivs: [31u8; 6],
            ability: None,
            nature: Vec::new(),
            item: None,
            egg_move: None,
            gender: None,
            exclusive: false,
        }
    }
}

impl Default for Filter {
    fn default() -> (r: Filter)
        ensures
            is_open_filter(&r),
            !r.exclusive,
    {
        Filter::open()
    }
}

/// A filter compiled for evaluation: the nature set becomes a table indexed by
/// nature id, so that each event is checked without a search or an allocation.
pub struct Predicate {
    filter: Filter,
    nature_table: Vec<bool>,
}

impl Predicate {
    /// The filter this predicate was compiled from.
    pub closed spec fn filter(&self) -> Filter {
        self.filter
    }

    pub closed spec fn wf(&self) -> bool {
        &&& self.nature_table@.len() == 256
        &&& forall|k: int|
            0 <= k < 256 ==> #[trigger] self.nature_table@[k] == self.filter.nature@.contains(
                k as u8,
            )
    }

    /// Compiles `filter`.
    pub fn compile(filter: Filter) -> (r: Predicate)
        ensures
            r.wf(),
            r.filter() == filter,
    {
        let mut table: Vec<bool> = Vec::new();
        let mut k: usize = 0;
        while k < 256
            invariant
                k <= 256,
                table@.len() == k,
                forall|t: int| 0 <= t < k ==> !#[trigger] table@[t],
            decreases 256 - k,
        {
            table.push(false);
            k = k + 1;
        }
        let mut i: usize = 0;
        while i < filter.nature.len()
            invariant
                i <= filter.nature@.len(),
                table@.len() == 256,
                forall|t: int|
                    0 <= t < 256 ==> #[trigger] table@[t] == (exists|p: int|
                        0 <= p < i && filter.nature@[p] == t as u8),
            decreases filter.nature@.len() - i,
        {
            let n = filter.nature[i];
            table.set(n as usize, true);
            assert forall|t: int| 0 <= t < 256 implies #[trigger] table@[t] == (exists|p: int|
                0 <= p < i + 1 && filter.nature@[p] == t as u8) by {
                if t == n as int {
                    assert(filter.nature@[i as int] == t as u8);
                } else {
                    if exists|p: int| 0 <= p < i + 1 && filter.nature@[p] == t as u8 {
                        let p = choose|p: int| 0 <= p < i + 1 && filter.nature@[p] == t as u8;
                        assert(p != i);
                    }
                }
            }
            i = i + 1;
        }
        let r = Predicate { filter, nature_table: table };
        assert forall|k: int| 0 <= k < 256 implies #[trigger] r.nature_table@[k]
            == r.filter.nature@.contains(k as u8) by {
            if r.filter.nature@.contains(k as u8) {
                let p = choose|p: int|
                    0 <= p < r.filter.nature@.len() && r.filter.nature@[p] == k as u8;
                assert(r.nature_table@[k]);
            }
        }
        r
    }

    /// Whether `e` satisfies the compiled filter; checks cheapest fields first
    /// and stops at the first that fails.
    pub fn matches(&self, e: &SpawnEvent) -> (r: bool)
        requires
            self.wf(),
        ensures
            r == accepts(&self.filter(), e),
    {
        let f = &self.filter;
        if f.shiny && !e.shiny {
            return false;
        }
        match f.species {
            Some(s) => {
                if e.species != s {
                    return false;
                }
            },
            None => {},
        }
        let mut i: usize = 0;
        while i < 6
            invariant
                i <= 6,
                *f == self.filter(),
                forall|t: int| 0 <= t < i ==> f.min_ivs@[t] <= #[trigger] e.ivs@[t] <= f.max_ivs@[t],
            decreases 6 - i,
        {
            if e.ivs[i] < f.min_ivs[i] || e.ivs[i] > f.max_ivs[i] {
                assert(!(f.min_ivs@[i as int] <= e.ivs@[i as int] <= f.max_ivs@[i as int]));
                assert(!ivs_in_range(f, e));
                return false;
            }
            i = i + 1;
        }
        match f.ability {
            Some(a) => {
                if e.ability != a {
                    return false;
                }
            },
            None => {},
        }
        if f.nature.len() > 0 && !self.nature_table[e.nature as usize] {
            return false;
        }
        match f.gender {
            Some(g) => {
                if e.gender != g && (f.exclusive || e.gender != GENDERLESS) {
                    return false;
                }
            },
            None => {},
        }
        match f.item {
            Some(it) => {
                if e.item != it {
                    return false;
                }
            },
            None => {},
        }
        match f.egg_move {
            Some(m) => {
                let ok = match e.egg_move {
                    Some(em) => em == m,
                    None => !f.exclusive,
                };
                if !ok {
                    return false;
                }
            },
            None => {},
        }
        true
    }
}

/// Evaluating a compiled filter is pure: two compilations of one filter give
/// the same answer on one event.
pub proof fn lemma_compile_is_pure(p1: &Predicate, p2: &Predicate, e: &SpawnEvent, r1: bool, r2: bool)
    requires
        p1.filter() == p2.filter(),
        r1 == accepts(&p1.filter(), e),
        r2 == accepts(&p2.filter(), e),
    ensures
        r1 == r2,
{
}

/// The filter that leaves every field open matches every spawn event.
pub proof fn lemma_open_filter_matches_all(f: &Filter, e: &SpawnEvent)
    requires
        is_open_filter(f),
        forall|i: int| 0 <= i < 6 ==> #[trigger] e.ivs@[i] <= 31,
    ensures
        accepts(f, e),
{
    assert forall|i: int| 0 <= i < 6 implies f.min_ivs@[i] <= #[trigger] e.ivs@[i]
        <= f.max_ivs@[i] by {
        assert(f.max_ivs@[i] == 31);
    }
}

/// A filter whose six stat ranges are all `[31, 31]` matches only events with
/// six perfect stats; with every other field open it matches exactly those.
pub proof fn lemma_perfect_range_filter(f: &Filter, e: &SpawnEvent)
    requires
        forall|i: int| 0 <= i < 6 ==> f.min_ivs@[i] == 31 && #[trigger] f.max_ivs@[i] == 31,
    ensures
        accepts(f, e) ==> perfect_ivs(e),
        !f.shiny && f.species is None && f.ability is None && f.nature@.len() == 0
            && f.item is None && f.egg_move is None && f.gender is None ==> (accepts(f, e)
            <==> perfect_ivs(e)),
{
    if accepts(f, e) {
        assert forall|i: int| 0 <= i < 6 implies #[trigger] e.ivs@[i] == 31 by {
            assert(f.min_ivs@[i] <= e.ivs@[i] <= f.max_ivs@[i]);
        }
    }
    if perfect_ivs(e) {
        assert forall|i: int| 0 <= i < 6 implies f.min_ivs@[i] <= #[trigger] e.ivs@[i]
            <= f.max_ivs@[i] by {
            assert(e.ivs@[i] == 31);
            assert(f.max_ivs@[i] == 31);
        }
    }
}

} // verus!
