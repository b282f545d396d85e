use rom_extractor::wild::{merge_probabilities, sort_by_rank, total_proba, WildPokemonInfo};

fn slot(dex_id: u8, level: u8, proba: u8) -> WildPokemonInfo {
    WildPokemonInfo { dex_id, level, proba }
}

fn slots() -> Vec<WildPokemonInfo> {
    vec![
        slot(16, 3, 51),
        slot(19, 3, 51),
        slot(16, 3, 39),
        slot(19, 4, 25),
        slot(16, 5, 25),
        slot(19, 3, 25),
        slot(16, 3, 13),
        slot(19, 5, 13),
        slot(16, 4, 11),
        slot(19, 2, 2),
    ]
}

#[test]
fn duplicate_slots_are_summed() {
    let merged = merge_probabilities(&slots());
    assert_eq!(merged.len(), 7);
    assert_eq!(merged[0], slot(16, 3, 51 + 39 + 13));
    assert_eq!(merged[1], slot(19, 3, 51 + 25));
    assert_eq!(total_proba(&merged), 0xff);
    assert_eq!(total_proba(&slots()), 0xff);
}

#[test]
fn merged_list_is_ranked() {
    let ranked = sort_by_rank(&merge_probabilities(&slots()));
    let keys: Vec<(u8, u8, u8)> = ranked.iter().map(|p| (p.proba, p.dex_id, p.level)).collect();
    assert_eq!(
        keys,
        vec![(103, 16, 3), (76, 19, 3), (25, 19, 4), (25, 16, 5), (13, 19, 5), (11, 16, 4), (2, 19, 2)]
    );
}

#[test]
fn ties_break_on_species_then_level() {
    let ranked = sort_by_rank(&vec![slot(1, 1, 5), slot(2, 1, 5), slot(2, 9, 5), slot(1, 2, 5)]);
    let keys: Vec<(u8, u8)> = ranked.iter().map(|p| (p.dex_id, p.level)).collect();
    assert_eq!(keys, vec![(2, 9), (2, 1), (1, 2), (1, 1)]);
}

#[test]
fn empty_slot_table_merges_to_nothing() {
    assert!(merge_probabilities(&Vec::new()).is_empty());
    assert_eq!(total_proba(&Vec::new()), 0);
}

use rom_extractor::reader::{Addr, RomError};
use rom_extractor::wild::{Probabilities, WildPokemonsInfo};

/// An image with the cumulative probability table, a species order table
/// mapping internal id `i` to pokedex number `100 + i`, and an encounter
/// table at 0x100: grass rate 25 with ten slots, then water rate 0.
fn encounter_rom(cumulative: [u8; 10]) -> Vec<u8> {
    let mut rom = vec![0u8; 0x42000];
    let probas = 4 * 0x4000 + 0x7918 - 0x4000;
    for (i, c) in cumulative.iter().enumerate() {
        rom[probas + 2 * i] = *c;
        rom[probas + 2 * i + 1] = (2 * i) as u8;
    }
    let order = 0x10 * 0x4000 + 0x5024 - 0x4000;
    for i in 0..200usize {
        rom[order + i] = (100 + i + 1) as u8;
    }
    rom[0x100] = 25;
    // (level, internal id) per slot: ids 1 and 2 repeat at level 3.
    let slots: [(u8, u8); 10] =
        [(3, 1), (3, 2), (3, 1), (4, 2), (5, 1), (3, 2), (3, 1), (5, 2), (4, 1), (2, 2)];
    for (i, (level, id)) in slots.iter().enumerate() {
        rom[0x101 + 2 * i] = *level;
        rom[0x102 + 2 * i] = *id;
    }
    rom[0x115] = 0;
    rom
}

#[test]
fn encounters_merge_the_slots_read() {
    let rom = encounter_rom([51, 102, 141, 166, 191, 216, 229, 242, 253, 255]);
    let info = WildPokemonsInfo::new(Addr::new(0, 0x100), &rom).unwrap();
    assert!(info.water.is_none());
    let grass = info.grass.unwrap();
    assert_eq!(grass.rate, 25);
    let keys: Vec<(u8, u8, u8)> = grass.pokemons.iter().map(|p| (p.proba, p.dex_id, p.level)).collect();
    assert_eq!(
        keys,
        vec![(103, 101, 3), (76, 102, 3), (25, 102, 4), (25, 101, 5), (13, 102, 5), (11, 101, 4), (2, 102, 2)]
    );
}

#[test]
fn probabilities_not_summing_to_255_are_rejected() {
    let rom = encounter_rom([51, 102, 141, 166, 191, 216, 229, 242, 253, 254]);
    assert!(matches!(WildPokemonsInfo::new(Addr::new(0, 0x100), &rom), Err(RomError::Consistency)));
}

#[test]
fn decreasing_cumulative_table_is_rejected() {
    let rom = encounter_rom([51, 102, 100, 166, 191, 216, 229, 242, 253, 255]);
    assert!(matches!(Probabilities::load(&rom), Err(RomError::Consistency)));
    let ok = encounter_rom([51, 102, 141, 166, 191, 216, 229, 242, 253, 255]);
    assert_eq!(Probabilities::load(&ok).unwrap().0, vec![51, 51, 39, 25, 25, 25, 13, 13, 11, 2]);
}
