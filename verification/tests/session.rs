use permute_mmo_rs_ui::results::{AdvanceEntry, PermuteOutcome};
use permute_mmo_rs_ui::session::{
    is_spawner_extension, is_spawner_file_name, plan_binary_drop, BinaryDrop, MassOutbreakSpawner,
    MassiveOutbreakArea, MassiveOutbreakSpawner, PermuteMMO,
};

fn entry(nature: usize) -> AdvanceEntry {
    AdvanceEntry {
        has_parent: false,
        is_action_multi_result: true,
        has_child_chain: false,
        feasibility: String::new(),
        steps: "A1".to_string(),
        wave_indicator: "".to_string(),
        spawn_index: 1,
        shiny: "Shiny".to_string(),
        is_alpha: false,
        species_name: "Eevee".to_string(),
        gender: 0,
        ivs: vec![1, 2, 3, 4, 5, 6],
        nature,
    }
}

fn found() -> PermuteOutcome {
    PermuteOutcome { has_results: true, entries: vec![entry(1)] }
}

fn session() -> PermuteMMO {
    PermuteMMO::new(vec!["Egg", "Bulbasaur", "Ivysaur"], vec!["Hardy", "Lonely"])
}

fn mass(area: &str, has_outbreak: bool, seed: u64, outcome: PermuteOutcome) -> MassOutbreakSpawner {
    MassOutbreakSpawner {
        area_name: area.to_string(),
        has_outbreak,
        x: "1.5".to_string(),
        y: "-2.0".to_string(),
        z: "3".to_string(),
        display_species: 2,
        seed,
        outcome,
    }
}

fn massive(is_present: bool, seed: u64, outcome: PermuteOutcome) -> MassiveOutbreakSpawner {
    MassiveOutbreakSpawner {
        is_present,
        x: "10.0".to_string(),
        y: "20.0".to_string(),
        z: "30".to_string(),
        display_species: 1,
        seed,
        outcome,
    }
}

#[test]
fn new_session_is_empty() {
    assert!(session().results().is_empty());
}

#[test]
fn permute_single_records_a_result_with_findings() {
    let mut s = session();
    s.permute_single(&found(), 0xABC, 1);
    assert_eq!(s.results().len(), 1);
    let r = &s.results()[0];
    assert_eq!(r.name, "Single Spawner displays Bulbasaur");
    assert_eq!(r.seed, "Seed: 0x0000000000000ABC");
    assert_eq!(r.lines.len(), 1);
    assert_eq!(r.lines[0].nature, "Lonely");
    assert_eq!(r.lines[0].extras, " ~~ Spawns multiple results!");
}

#[test]
fn permute_single_without_findings_changes_nothing() {
    let mut s = session();
    s.permute_single(&found(), 1, 0);
    s.permute_single(&PermuteOutcome::none(), 2, 99);
    assert_eq!(s.results().len(), 1);
    assert_eq!(s.results()[0].name, "Single Spawner displays Egg");
}

#[test]
fn permute_single_keeps_earlier_results() {
    let mut s = session();
    s.permute_single(&found(), 1, 0);
    s.permute_single(&found(), 2, 2);
    assert_eq!(s.results().len(), 2);
    assert_eq!(s.results()[0].name, "Single Spawner displays Egg");
    assert_eq!(s.results()[1].name, "Single Spawner displays Ivysaur");
}

#[test]
fn permute_mass_outbreak_reports_outbreaks_with_findings() {
    let mut s = session();
    let block = vec![
        mass("Obsidian Fieldlands", true, 1, found()),
        mass("Crimson Mirelands", false, 2, found()),
        mass("Cobalt Coastlands", true, 3, PermuteOutcome::none()),
        mass("Alabaster Icelands", true, 4, found()),
    ];
    s.permute_mass_outbreak(&block);
    assert_eq!(s.results().len(), 2);
    assert_eq!(
        s.results()[0].name,
        "Obsidian Fieldlands Outbreak Spawner at (1.5, -2.0. 3) displays Ivysaur"
    );
    assert_eq!(s.results()[0].seed, "Seed: 0x0000000000000001");
    assert_eq!(s.results()[1].name, "Alabaster Icelands Outbreak Spawner at (1.5, -2.0. 3) displays Ivysaur");
    assert_eq!(s.results()[1].seed, "Seed: 0x0000000000000004");
}

#[test]
fn permute_massive_mass_outbreak_numbers_spawners_within_areas() {
    let mut s = session();
    let block = vec![
        MassiveOutbreakArea {
            area_name: "Obsidian Fieldlands".to_string(),
            is_active: true,
            spawners: vec![massive(true, 1, PermuteOutcome::none()), massive(false, 2, found()), massive(true, 3, found())],
        },
        MassiveOutbreakArea {
            area_name: "Crimson Mirelands".to_string(),
            is_active: false,
            spawners: vec![massive(true, 4, found())],
        },
        MassiveOutbreakArea {
            area_name: "Cobalt Coastlands".to_string(),
            is_active: true,
            spawners: vec![massive(true, 5, found())],
        },
    ];
    s.permute_massive_mass_outbreak(&block);
    assert_eq!(s.results().len(), 2);
    assert_eq!(
        s.results()[0].name,
        "Obsidian Fieldlands MMO Spawner 3 at (10.0, 20.0. 30) displays Bulbasaur"
    );
    assert_eq!(s.results()[0].seed, "Seed: 0x0000000000000003");
    assert_eq!(s.results()[1].name, "Cobalt Coastlands MMO Spawner 1 at (10.0, 20.0. 30) displays Bulbasaur");
}

#[test]
fn binary_drop_plans() {
    assert_eq!(plan_binary_drop(30, 20, 10), BinaryDrop::Both { mass_end: 10, massive_start: 20 });
    assert_eq!(plan_binary_drop(29, 20, 10), BinaryDrop::MassiveOnly);
    assert_eq!(plan_binary_drop(20, 20, 10), BinaryDrop::MassiveOnly);
    assert_eq!(plan_binary_drop(19, 20, 10), BinaryDrop::MassOnly);
    assert_eq!(plan_binary_drop(10, 20, 10), BinaryDrop::MassOnly);
    assert_eq!(plan_binary_drop(9, 20, 10), BinaryDrop::Ignored);
    assert_eq!(plan_binary_drop(0, 20, 10), BinaryDrop::Ignored);
}

#[test]
fn binary_drop_clears_results_unless_ignored() {
    let mut s = session();
    s.permute_single(&found(), 1, 0);
    assert_eq!(s.begin_binary_drop(5, 20, 10), BinaryDrop::Ignored);
    assert_eq!(s.results().len(), 1);
    assert_eq!(s.begin_binary_drop(15, 20, 10), BinaryDrop::MassOnly);
    assert!(s.results().is_empty());
}

#[test]
fn clear_results_empties() {
    let mut s = session();
    s.permute_single(&found(), 1, 0);
    s.clear_results();
    assert!(s.results().is_empty());
}

#[test]
fn spawner_file_kinds() {
    assert!(is_spawner_extension("json"));
    assert!(is_spawner_extension("txt"));
    assert!(!is_spawner_extension("bin"));
    assert!(!is_spawner_extension("JSON"));
    assert!(is_spawner_file_name("spawner.json"));
    assert!(is_spawner_file_name("spawner.txt"));
    assert!(!is_spawner_file_name("main.bin"));
    assert!(!is_spawner_file_name("json"));
}

#[test]
fn inactive_areas_make_no_difference() {
    let area = |is_active: bool, spawners: Vec<MassiveOutbreakSpawner>| MassiveOutbreakArea {
        area_name: "Crimson Mirelands".to_string(),
        is_active,
        spawners,
    };
    let mut a = session();
    a.permute_massive_mass_outbreak(&vec![
        area(false, vec![massive(true, 7, found()), massive(true, 8, found())]),
        area(true, vec![massive(true, 9, found())]),
    ]);
    let mut b = session();
    b.permute_massive_mass_outbreak(&vec![area(false, vec![]), area(true, vec![massive(true, 9, found())])]);
    assert_eq!(a.results().len(), 1);
    assert_eq!(b.results().len(), 1);
    assert_eq!(a.results()[0].name, b.results()[0].name);
    assert_eq!(a.results()[0].seed, b.results()[0].seed);
    assert_eq!(a.results()[0].lines[0].ivs, b.results()[0].lines[0].ivs);
}
