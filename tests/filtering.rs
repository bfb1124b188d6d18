use bdsp_ug_search::filter::{Filter, Predicate, SpawnEvent, GENDERLESS};

fn event() -> SpawnEvent {
    SpawnEvent {
        species: 25,
        shiny: false,
        ivs: [10, 20, 30, 31, 0, 15],
        ability: 1,
        nature: 7,
        gender: 0,
        item: 80,
        egg_move: Some(344),
        pid: 0x1234_5678,
        ec: 0x9abc_def0,
    }
}

fn passes(f: Filter, e: &SpawnEvent) -> bool {
    Predicate::compile(f).matches(e)
}

#[test]
fn open_filter_matches_every_event() {
    let mut e = event();
    assert!(passes(Filter::open(), &e));
    assert!(passes(Filter::default(), &e));
    e.shiny = true;
    e.gender = GENDERLESS;
    e.egg_move = None;
    e.ivs = [0, 31, 0, 31, 0, 31];
    e.nature = 24;
    assert!(passes(Filter::open(), &e));
}

#[test]
fn compiling_twice_gives_same_answer() {
    let mut f = Filter::open();
    f.species = Some(25);
    f.nature = vec![3, 7];
    let e = event();
    let a = passes(f.clone(), &e);
    let b = passes(f, &e);
    assert_eq!(a, b);
    assert!(a);
}

#[test]
fn perfect_ranges_match_only_perfect_events() {
    let mut f = Filter::open();
    f.min_ivs = [31; 6];
    f.max_ivs = [31; 6];
    let mut e = event();
    assert!(!passes(f.clone(), &e));
    e.ivs = [31; 6];
    assert!(passes(f.clone(), &e));
    e.ivs = [31, 31, 31, 31, 31, 30];
    assert!(!passes(f, &e));
}

#[test]
fn shiny_requirement() {
    let mut f = Filter::open();
    f.shiny = true;
    let mut e = event();
    assert!(!passes(f.clone(), &e));
    e.shiny = true;
    assert!(passes(f, &e));
}

#[test]
fn species_ability_item_fields() {
    let e = event();
    let mut f = Filter::open();
    f.species = Some(26);
    assert!(!passes(f, &e));
    let mut f = Filter::open();
    f.ability = Some(0);
    assert!(!passes(f, &e));
    let mut f = Filter::open();
    f.ability = Some(1);
    f.item = Some(80);
    assert!(passes(f, &e));
    let mut f = Filter::open();
    f.item = Some(81);
    assert!(!passes(f, &e));
}

#[test]
fn stat_ranges_are_inclusive() {
    let e = event();
    let mut f = Filter::open();
    f.min_ivs = [10, 20, 30, 31, 0, 15];
    f.max_ivs = [10, 20, 30, 31, 0, 15];
    assert!(passes(f.clone(), &e));
    f.min_ivs[5] = 16;
    f.max_ivs[5] = 31;
    assert!(!passes(f, &e));
}

#[test]
fn nature_set_membership() {
    let e = event();
    let mut f = Filter::open();
    f.nature = vec![1, 2, 3];
    assert!(!passes(f.clone(), &e));
    f.nature.push(7);
    assert!(passes(f, &e));
}

#[test]
fn gender_constraint_and_exclusive_mode() {
    let mut e = event();
    let mut f = Filter::open();
    f.gender = Some(1);
    assert!(!passes(f.clone(), &e));
    e.gender = 1;
    assert!(passes(f.clone(), &e));
    e.gender = GENDERLESS;
    assert!(passes(f.clone(), &e));
    f.exclusive = true;
    assert!(!passes(f, &e));
}

#[test]
fn egg_move_constraint_and_exclusive_mode() {
    let mut e = event();
    let mut f = Filter::open();
    f.egg_move = Some(344);
    assert!(passes(f.clone(), &e));
    f.egg_move = Some(1);
    assert!(!passes(f.clone(), &e));
    e.egg_move = None;
    assert!(passes(f.clone(), &e));
    f.exclusive = true;
    assert!(!passes(f.clone(), &e));
    e.egg_move = Some(1);
    assert!(passes(f, &e));
}
