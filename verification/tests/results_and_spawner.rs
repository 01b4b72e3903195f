use permute_mmo_rs_ui::results::{
    add_results, format_extras, format_ivs, format_seed, gender_text, result_line, AdvanceEntry,
    PermuteOutcome, PermuteResult,
};
use permute_mmo_rs_ui::spawner::{SpawnRequest, Spawner, EMPTY_TABLE_HASH};

fn entry(is_alpha: bool, gender: u8, nature: usize) -> AdvanceEntry {
    AdvanceEntry {
        has_parent: false,
        is_action_multi_result: false,
        has_child_chain: false,
        feasibility: String::new(),
        steps: "A1|B2".to_string(),
        wave_indicator: "  ".to_string(),
        spawn_index: 3,
        shiny: "Shiny: 2".to_string(),
        is_alpha,
        species_name: "Eevee".to_string(),
        gender,
        ivs: vec![31, 0, 5, 12, 30, 9],
        nature,
    }
}

fn spawner(seed: &str, species: u16, base_table: &str, bonus_table: &str) -> Spawner {
    Spawner {
        seed: seed.to_string(),
        species,
        base_count: 10,
        base_table: base_table.to_string(),
        bonus_count: 6,
        bonus_table: bonus_table.to_string(),
    }
}

#[test]
fn format_seed_pads_to_sixteen_upper_digits() {
    assert_eq!(format_seed(0x1234abcd), "Seed: 0x000000001234ABCD");
    assert_eq!(format_seed(0), "Seed: 0x0000000000000000");
    assert_eq!(format_seed(u64::MAX), "Seed: 0xFFFFFFFFFFFFFFFF");
}

#[test]
fn format_seed_agrees_with_format() {
    for seed in [1u64, 0xCBF29CE484222645, 0x0F0F_0000_1234_0001] {
        assert_eq!(format_seed(seed), format!("Seed: 0x{:0>16X}", seed));
    }
}

#[test]
fn seed_text_reads_back_as_spawner_seed() {
    let seed = 0x8F3A_2201_C0DE_0042u64;
    let text = format_seed(seed);
    let s = spawner(&text["Seed: ".len()..], 0, "", "");
    assert_eq!(s.group_seed(), seed);
}

#[test]
fn format_ivs_pads_and_joins() {
    assert_eq!(format_ivs(&vec![31, 0, 5, 12, 30, 9]), "31 / 00 / 05 / 12 / 30 / 09");
    assert_eq!(format_ivs(&vec![]), "");
    assert_eq!(format_ivs(&vec![7]), "07");
    assert_eq!(format_ivs(&vec![100, 255]), "100 / 255");
}

#[test]
fn format_ivs_agrees_with_format() {
    let ivs = vec![1u8, 22, 3];
    let expected = ivs.iter().map(|iv| format!("{:0>2}", iv)).collect::<Vec<_>>().join(" / ");
    assert_eq!(format_ivs(&ivs), expected);
}

#[test]
fn gender_labels() {
    assert_eq!(gender_text(2), "");
    assert_eq!(gender_text(1), "(F)");
    assert_eq!(gender_text(0), "(M)");
    assert_eq!(gender_text(7), "(M)");
}

#[test]
fn extras_notes() {
    let mut e = entry(true, 0, 0);
    e.feasibility = " ~~ Single advances!".to_string();
    assert_eq!(format_extras(&e), " ~~ Single advances!");
    e.has_parent = true;
    e.is_action_multi_result = true;
    assert_eq!(format_extras(&e), " ~~ Chain result! ~~ Spawns multiple results! ~~ Single advances!");
    e.has_parent = false;
    e.has_child_chain = true;
    e.is_action_multi_result = false;
    assert_eq!(format_extras(&e), " ~~ Chain result! ~~ Single advances!");
}

#[test]
fn result_line_shows_entry() {
    let natures = vec!["Hardy", "Lonely", "Brave"];
    let line = result_line(&entry(true, 1, 2), &natures);
    assert_eq!(line.path, "A1 | B2");
    assert_eq!(line.wave_indicator, "");
    assert_eq!(line.spawn, "Spawn 3");
    assert_eq!(line.shiny, "Shiny: 2");
    assert_eq!(line.name, "α-Eevee");
    assert_eq!(line.gender, "(F)");
    assert_eq!(line.not_alpha, "");
    assert_eq!(line.ivs, "31 / 00 / 05 / 12 / 30 / 09");
    assert_eq!(line.extras, "");
    assert_eq!(line.nature, "Brave");
}

#[test]
fn result_line_marks_non_alpha() {
    let natures = vec!["Hardy"];
    let line = result_line(&entry(false, 2, 0), &natures);
    assert_eq!(line.name, "Eevee");
    assert_eq!(line.not_alpha, "-- NOT ALPHA");
    assert_eq!(line.gender, "");
    assert_eq!(line.nature, "Hardy");
}

#[test]
fn add_results_appends_in_order() {
    let natures = vec!["Hardy", "Lonely"];
    let mut result = PermuteResult { name: "n".to_string(), seed: "s".to_string(), lines: vec![] };
    let mut second = entry(false, 0, 1);
    second.spawn_index = 12;
    add_results(&mut result, &vec![entry(true, 0, 0), second], &natures);
    assert_eq!(result.lines.len(), 2);
    assert_eq!(result.lines[0].nature, "Hardy");
    assert_eq!(result.lines[1].nature, "Lonely");
    assert_eq!(result.lines[1].spawn, "Spawn 12");
    assert_eq!(result.name, "n");
    assert_eq!(result.seed, "s");
}

#[test]
fn permute_outcome_none_is_empty() {
    let o = PermuteOutcome::none();
    assert!(!o.has_results);
    assert!(o.entries.is_empty());
}

#[test]
fn spawner_with_blank_tables_is_outbreak_of_its_species() {
    let s = spawner("0x1", 133, "0x0", "0xCBF29CE484222645");
    assert_eq!(s.spawn_request(), SpawnRequest::Outbreak { table: 133, count: 10 });
    let s = spawner("0x1", 133, "", "");
    assert_eq!(s.spawn_request(), SpawnRequest::Outbreak { table: 133, count: 10 });
}

#[test]
fn spawner_with_empty_table_hash_keeps_it() {
    let s = spawner("0x1", 133, "CBF29CE484222645", "0");
    assert_eq!(s.spawn_request(), SpawnRequest::Outbreak { table: EMPTY_TABLE_HASH, count: 10 });
}

#[test]
fn spawner_with_tables_is_massive_outbreak() {
    let s = spawner("0x1", 133, "0x1122334455667788", "0xCBF29CE484222645");
    assert_eq!(
        s.spawn_request(),
        SpawnRequest::MassiveOutbreak {
            table: 0x1122334455667788,
            count: 10,
            bonus_table: EMPTY_TABLE_HASH,
            bonus_count: 6,
        }
    );
    let s = spawner("0x1", 133, "0", "0x99");
    assert_eq!(
        s.spawn_request(),
        SpawnRequest::MassiveOutbreak { table: 0, count: 10, bonus_table: 0x99, bonus_count: 6 }
    );
}

#[test]
fn spawner_seed() {
    assert_eq!(spawner("0xDEADBEEF", 0, "", "").group_seed(), 0xDEADBEEF);
    assert_eq!(spawner("deadbeef", 0, "", "").group_seed(), 0xDEADBEEF);
    assert_eq!(spawner("not hex", 0, "", "").group_seed(), 0);
}

#[test]
fn default_spawner_is_blank_outbreak_of_species_zero() {
    let s = Spawner::default();
    assert_eq!(s.seed, "");
    assert_eq!(s.species, 0);
    assert_eq!(s.base_count, 0);
    assert_eq!(s.bonus_count, 0);
    assert_eq!(s.group_seed(), 0);
    assert_eq!(s.spawn_request(), SpawnRequest::Outbreak { table: 0, count: 0 });
}
