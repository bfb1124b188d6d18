use bdsp_ug_search::context::{RoomType, SearchContext, StoryFlag, Version};
use bdsp_ug_search::filter::{Filter, SpawnEvent};
use bdsp_ug_search::search::{run, AdvanceOutput, MatchRecord, Search};
use bdsp_ug_search::statue::StatueConfig;
use bdsp_ug_search::xorshift::XorShift;

fn mon(species: u16, pid: u32) -> SpawnEvent {
    SpawnEvent {
        species,
        shiny: false,
        ivs: [1, 2, 3, 4, 5, 6],
        ability: 0,
        nature: 3,
        gender: 1,
        item: 0,
        egg_move: None,
        pid,
        ec: pid ^ 0xffff,
    }
}

fn context() -> SearchContext {
    SearchContext {
        version: Version::BD,
        story_flag: StoryFlag::NationalDex,
        room: RoomType::SpaciousCave,
        diglett_mode: false,
    }
}

fn species_filter(species: u16) -> Filter {
    let mut f = Filter::open();
    f.species = Some(species);
    f
}

#[test]
fn empty_window_gives_no_records() {
    let seed = XorShift::from_state([0, 0, 0, 1]);
    let s = Search::new(seed, 0, 0, 0, context(), StatueConfig::new(), Filter::open());
    assert!(s.is_done());
    assert!(s.results().is_empty());
    assert_eq!(s.state(), seed);
    assert!(run(Filter::open(), &vec![]).is_empty());
}

#[test]
fn one_match_per_advance_over_ten_advances() {
    let outputs: Vec<AdvanceOutput> = (0..10u32)
        .map(|i| AdvanceOutput { regular: vec![mon(25, i), mon(26, i + 100)], rare: None })
        .collect();
    let r = run(species_filter(25), &outputs);
    assert_eq!(r.len(), 10);
    for (i, rec) in r.iter().enumerate() {
        assert_eq!(rec.advance, i as u32);
        assert_eq!(rec.event.species, 25);
        assert_eq!(rec.event.pid, i as u32);
        assert!(!rec.rare);
    }
}

#[test]
fn session_steps_generator_once_per_advance() {
    let seed = XorShift::from_state([1, 2, 3, 4]);
    let mut s = Search::new(seed, 5, 2, 10, context(), StatueConfig::new(), species_filter(25));
    let mut expected = seed;
    expected.advance(7);
    let mut i = 0u32;
    while !s.is_done() {
        assert_eq!(s.advance(), i);
        assert_eq!(s.state(), expected);
        s.record(&AdvanceOutput { regular: vec![mon(25, i), mon(26, i)], rare: None });
        expected.step_once();
        i += 1;
    }
    assert_eq!(i, 10);
    assert_eq!(s.results().len(), 10);
    assert_eq!(s.context(), context());
    assert_eq!(s.statues().len(), 0);
}

#[test]
fn regular_records_precede_rare_in_one_advance() {
    let outputs = vec![
        AdvanceOutput { regular: vec![mon(1, 1), mon(2, 2)], rare: Some(mon(3, 3)) },
        AdvanceOutput { regular: vec![], rare: Some(mon(4, 4)) },
        AdvanceOutput { regular: vec![mon(5, 5)], rare: None },
    ];
    let r = run(Filter::open(), &outputs);
    let tags: Vec<(u32, bool, u32)> = r.iter().map(|m| (m.advance, m.rare, m.event.pid)).collect();
    assert_eq!(tags, vec![(0, false, 1), (0, false, 2), (0, true, 3), (1, true, 4), (2, false, 5)]);
    for w in r.windows(2) {
        assert!(w[0].advance <= w[1].advance);
    }
}

#[test]
fn identical_inputs_give_identical_records() {
    let outputs: Vec<AdvanceOutput> = (0..20u32)
        .map(|i| AdvanceOutput { regular: vec![mon((i % 3) as u16, i)], rare: Some(mon(9, i)) })
        .collect();
    let mut f = Filter::open();
    f.nature = vec![3];
    let a: Vec<MatchRecord> = run(f.clone(), &outputs);
    let b: Vec<MatchRecord> = run(f, &outputs);
    assert_eq!(a, b);
    assert_eq!(a.len(), 40);
}

#[test]
fn non_matching_rare_is_dropped() {
    let outputs = vec![AdvanceOutput { regular: vec![mon(25, 1)], rare: Some(mon(26, 2)) }];
    let r = run(species_filter(25), &outputs);
    assert_eq!(r.len(), 1);
    assert_eq!(r[0], MatchRecord { advance: 0, rare: false, event: mon(25, 1) });
}
