use hlanalysis::analysis::density_profile::accumulate_counts::{select_target_atoms, timestep_files_in_range};
use hlanalysis::analysis::hbond::hb_find::{
    attach_partners, bond_updates, frame_bond_updates, hb_conditions_of, hbond_candidates, neighbor_cells, BondEnd, CellLists,
    HbConditionsError,
};
use hlanalysis::analysis::hbond::statistics::{
    count_frame_hbonds, counted_frames, matches_target_type, sum_hbond_counts, HBondCounts, MoleculeBonds,
};
use hlanalysis::analysis::reorient_dynamics::oh_reorient::{oh_mask, result_file_name};
use hlanalysis::analysis::schedule::{
    correlation_offsets, correlation_origins, exclusive_frames, inclusive_frames, survey_frames,
    velocity_correlation_origins,
};
use hlanalysis::analysis::spectroscopy::pre_process::{
    first_layer, paired_hydrogen, precompute_indices, read_mode_of, silanol_mol_type, silanol_pairs,
    spectrum_oh_bonds, water_mol_type, MoleculeSummary, OhBond, ReadMode, SilanolState, WaterState,
};
use hlanalysis::analysis::spectroscopy::vvacf::{
    correlated_bonds, correlation_partners, dipole_file_path, spectrum_kind, SpectrumKind,
};
use hlanalysis::analysis::types::enums::HBondKind;
use hlanalysis::analysis::types::molecule::HydrogenBondPartner;
use hlanalysis::io::reader::select_timestep_files;

fn strings(s: &[&str]) -> Vec<String> {
    s.iter().map(|x| x.to_string()).collect()
}

fn key(x: f64) -> Option<i64> {
    if x.is_nan() {
        None
    } else {
        let b = (x + 0.0).to_bits() as i64;
        Some(if b >= 0 { b } else { -(b & i64::MAX) })
    }
}

#[test]
fn frame_schedules() {
    assert_eq!(exclusive_frames(2, 11, 3), vec![2, 5, 8]);
    assert_eq!(exclusive_frames(5, 5, 1), Vec::<usize>::new());
    assert_eq!(inclusive_frames(2, 11, 3), vec![2, 5, 8, 11]);
    assert_eq!(survey_frames(0, 4, 2), vec![0, 2, 4]);
    assert_eq!(survey_frames(3, 1, 1), Vec::<usize>::new());
    assert_eq!(correlation_origins(0, 10, 3, 2), vec![0, 3, 6]);
    assert_eq!(correlation_offsets(5, 2), vec![0, 2, 4]);
    assert_eq!(velocity_correlation_origins(0, 10, 2, 3), vec![0, 2, 4]);
    assert_eq!(velocity_correlation_origins(0, 3, 1, 5), Vec::<usize>::new());
}

#[test]
fn target_type_filter() {
    assert!(matches_target_type("W-1a-L-S1", &None));
    assert!(matches_target_type("W-1a-L-S1", &Some(vec![])));
    assert!(matches_target_type("W-1a-L-S1", &Some(strings(&["W", "1a"]))));
    assert!(!matches_target_type("W-1a-L-S1", &Some(strings(&["W", "U"]))));
    assert!(matches_target_type("", &Some(strings(&[""]))));
}

fn partner(o: i32, t: Option<&str>, k: HBondKind) -> HydrogenBondPartner {
    HydrogenBondPartner { partner_o_idx: o, partner_moltype: t.map(|s| s.to_string()), h_bond_type: k }
}

#[test]
fn hbonds_of_a_frame_are_counted() {
    let molecules = vec![
        MoleculeBonds {
            mol_type: Some("W-1a-L-S1".to_string()),
            partners: Some(vec![
                partner(3, Some("S-L-D"), HBondKind::Donor),
                partner(4, Some("W-B-NA"), HBondKind::Donor),
                partner(5, Some("W-B-NA"), HBondKind::Acceptor),
                partner(6, Some("S-U"), HBondKind::Acceptor),
                partner(7, None, HBondKind::Donor),
                partner(8, Some("X"), HBondKind::Acceptor),
            ]),
        },
        MoleculeBonds { mol_type: Some("W-B-NA".to_string()), partners: Some(vec![partner(1, Some("W"), HBondKind::Donor)]) },
        MoleculeBonds { mol_type: None, partners: None },
    ];
    let all = count_frame_hbonds(&molecules, &None);
    assert_eq!(
        all,
        HBondCounts { donated_to_silanol: 1, accepted_from_silanol: 1, donated_to_water: 2, accepted_from_water: 1, target_molecules: 3 }
    );
    let some = count_frame_hbonds(&molecules, &Some(strings(&["1a"])));
    assert_eq!(
        some,
        HBondCounts { donated_to_silanol: 1, accepted_from_silanol: 1, donated_to_water: 1, accepted_from_water: 1, target_molecules: 1 }
    );
    let total = sum_hbond_counts(&vec![all, some]);
    assert_eq!(
        total,
        HBondCounts { donated_to_silanol: 2, accepted_from_silanol: 2, donated_to_water: 3, accepted_from_water: 2, target_molecules: 4 }
    );
}

#[test]
fn density_profile_frames_and_atoms() {
    let names = strings(&["timestep_1.bin", "timestep_0.bin", "x.bin", "timestep_9.bin", "timestep_5.bin"]);
    assert_eq!(timestep_files_in_range(&names, None, None), strings(&["timestep_1.bin", "timestep_9.bin", "timestep_5.bin"]));
    assert_eq!(timestep_files_in_range(&names, Some(0), Some(5)), strings(&["timestep_1.bin", "timestep_0.bin", "timestep_5.bin"]));
    let symbols = strings(&["O", "H", "O", "O"]);
    assert_eq!(select_target_atoms(&None, &symbols, 4, "O", &vec![]), vec![0, 2, 3]);
    assert_eq!(select_target_atoms(&Some(vec![]), &symbols, 3, "O", &vec![]), vec![0, 2]);
    // numbers 1..=4 by default; the whitelist holds number - 1
    assert_eq!(select_target_atoms(&None, &symbols, 4, "O", &vec![2]), vec![2]);
    assert_eq!(select_target_atoms(&Some(vec![10, 11, 12]), &symbols, 4, "O", &vec![11]), vec![2]);
}

#[test]
fn atoms_sorted_by_role() {
    let symbols = strings(&["O", "H", "O", "H", "H", "Si", "O"]);
    let (o, so, sh, wo) = precompute_indices(&symbols, &vec![0, 1, 5], &vec![2, 3, 4, 6]);
    assert_eq!(o, vec![0, 2, 6]);
    assert_eq!(so, vec![0]);
    assert_eq!(sh, vec![1]);
    assert_eq!(wo, vec![2, 6]);
    let pairs = silanol_pairs(&vec![0, 7, 0], &vec![1, 8]);
    assert_eq!(paired_hydrogen(&pairs, 0), Some(1));
    assert_eq!(paired_hydrogen(&pairs, 7), Some(8));
    assert_eq!(paired_hydrogen(&pairs, 2), None);
    let later = silanol_pairs(&vec![0, 0], &vec![1, 9]);
    assert_eq!(paired_hydrogen(&later, 0), Some(9));
}

#[test]
fn layers_and_labels() {
    let layers = vec![[key(0.0), key(2.0)], [key(2.0), key(4.0)], [key(1.0), key(3.0)]];
    assert_eq!(first_layer(key(1.5), &layers), Some(0));
    assert_eq!(first_layer(key(2.0), &layers), Some(1));
    assert_eq!(first_layer(key(4.0), &layers), None);
    assert_eq!(first_layer(key(f64::NAN), &layers), None);
    assert_eq!(water_mol_type(None, true, WaterState::S1), "W");
    assert_eq!(water_mol_type(Some(0), true, WaterState::S2), "W-1a-L-S2");
    assert_eq!(water_mol_type(Some(0), false, WaterState::NA), "W-1b-L-NA");
    assert_eq!(water_mol_type(Some(3), false, WaterState::P), "W-B-P");
    assert_eq!(water_mol_type(Some(6), true, WaterState::B1), "W-1a-U-B1");
    assert_eq!(water_mol_type(Some(6), false, WaterState::SB), "W-1b-U-SB");
    assert_eq!(water_mol_type(Some(9), false, WaterState::B2), "W-B2");
    assert_eq!(silanol_mol_type(None, SilanolState::D), "S");
    assert_eq!(silanol_mol_type(Some(true), SilanolState::A), "S-U-A");
    assert_eq!(silanol_mol_type(Some(false), SilanolState::NA), "S-L-NA");
}

#[test]
fn modes_and_spectra() {
    assert_eq!(read_mode_of("spectrum"), Ok(ReadMode::Spectrum));
    assert_eq!(read_mode_of("crosscorr"), Ok(ReadMode::CrossCorr));
    assert_eq!(read_mode_of("timecorr"), Err("timecorr".to_string()));
    assert_eq!(spectrum_kind(&None), Some(SpectrumKind::Ir));
    assert_eq!(spectrum_kind(&Some("SFG".to_string())), Some(SpectrumKind::Sfg));
    assert_eq!(spectrum_kind(&Some("IR".to_string())), Some(SpectrumKind::Ir));
    assert_eq!(spectrum_kind(&Some("sfg".to_string())), None);
    assert_eq!(dipole_file_path("out", 12), "out/dipole_polar_12.bin");
}

#[test]
fn spectrum_bonds_are_laid_out() {
    let mols = vec![
        MoleculeSummary { o_idx: 10, h1_idx: Some(11), h2_idx: Some(12), mol_type: Some("W-B-NA".to_string()) },
        MoleculeSummary { o_idx: 20, h1_idx: Some(21), h2_idx: None, mol_type: Some("S-U-D".to_string()) },
        MoleculeSummary { o_idx: 30, h1_idx: None, h2_idx: None, mol_type: Some("X".to_string()) },
        MoleculeSummary { o_idx: 40, h1_idx: None, h2_idx: None, mol_type: None },
    ];
    let (n, bonds, map) = spectrum_oh_bonds(&mols);
    assert_eq!(n, 3);
    assert_eq!(
        bonds,
        vec![
            OhBond { molecule: 0, o_idx: 10, h_idx: 11 },
            OhBond { molecule: 0, o_idx: 10, h_idx: 12 },
            OhBond { molecule: 1, o_idx: 20, h_idx: 21 },
        ]
    );
    assert_eq!(map.len(), 3);
    assert_eq!(map[&0], vec![10, 11]);
    assert_eq!(map[&1], vec![10, 12]);
    assert_eq!(map[&2], vec![20, 21]);
}

#[test]
fn reorientation_mask_and_names() {
    let types = strings(&["W-1a-L-S1", "W-B-NA", "S-U-D"]);
    assert_eq!(oh_mask(&types, &None), Some(vec![true, true, true]));
    assert_eq!(oh_mask(&types, &Some(strings(&["W", "1a"]))), Some(vec![true, false, false]));
    assert_eq!(oh_mask(&types, &Some(strings(&["Q"]))), None);
    assert_eq!(result_file_name(7, &None), "time_corr_7.bin");
    assert_eq!(result_file_name(120, &Some(strings(&["W", "1a"]))), "time_corr_120_W+1a.bin");
    assert_eq!(result_file_name(0, &Some(vec![])), "time_corr_0_.bin");
}

#[test]
fn velocity_correlation_bonds() {
    let types = vec![Some("W-1a-L-S1".to_string()), Some("W-1a-U-S1".to_string()), None, Some("S-L".to_string())];
    assert_eq!(correlated_bonds(&types, &None), vec![Some(true), Some(false), Some(false), Some(true)]);
    assert_eq!(correlated_bonds(&types, &Some(strings(&["W"]))), vec![Some(true), Some(false), None, None]);
    let o = vec![5, 5, 9, 5, 2];
    assert_eq!(correlation_partners(&o, 0), (vec![1, 3], vec![2, 4]));
    assert_eq!(correlation_partners(&o, 2), (vec![], vec![0, 1, 3, 4]));
}

#[test]
fn hbond_search_conditions() {
    assert_eq!(hb_conditions_of(&vec![3.5, 2.5, 30.0]), Ok((3.5, 2.5, 30.0)));
    assert_eq!(hb_conditions_of(&vec![3.5, 2.5]), Err(HbConditionsError::WrongLength));
}

#[test]
fn neighbor_cells_wrap_around() {
    let cells = neighbor_cells((0, 1, 2), [3, 3, 3]);
    assert_eq!(cells.len(), 27);
    assert_eq!(cells[0], (2, 0, 1));
    assert_eq!(cells[13], (0, 1, 2));
    assert_eq!(cells[26], (1, 2, 0));
    let small = neighbor_cells((0, 0, 0), [1, 1, 2]);
    assert_eq!(small[0], (0, 0, 1));
    assert_eq!(small.iter().filter(|c| **c == (0, 0, 0)).count(), 9);
}

#[test]
fn cell_lists_find_candidates() {
    let keys = vec![(0, 0, 0), (1, 0, 0), (0, 0, 0), (2, 2, 2)];
    let lists = CellLists::build(&keys);
    assert_eq!(lists.members_of((0, 0, 0)), vec![0, 2]);
    assert_eq!(lists.members_of((1, 0, 0)), vec![1]);
    assert_eq!(lists.members_of((1, 1, 1)), Vec::<usize>::new());
    let c = hbond_candidates(&lists, 0, (0, 0, 0), [3, 3, 3]);
    let mut sorted = c.clone();
    sorted.sort();
    assert_eq!(sorted, vec![1, 2, 3]);
    // on a grid one cell wide every cell is its own neighbor 27 times
    let one = CellLists::build(&vec![(0, 0, 0), (0, 0, 0)]);
    assert_eq!(hbond_candidates(&one, 0, (0, 0, 0), [1, 1, 1]), vec![1; 27]);
}

#[test]
fn partners_are_attached_in_order() {
    let mut lists: Vec<Option<Vec<HydrogenBondPartner>>> = vec![None, Some(vec![partner(9, None, HBondKind::Donor)]), None];
    let updates = vec![
        (1, partner(2, Some("W"), HBondKind::Acceptor)),
        (0, partner(1, Some("W"), HBondKind::Donor)),
        (1, partner(3, Some("S"), HBondKind::Donor)),
    ];
    attach_partners(&mut lists, updates);
    let got: Vec<Option<Vec<i32>>> =
        lists.iter().map(|l| l.as_ref().map(|v| v.iter().map(|p| p.partner_o_idx).collect())).collect();
    assert_eq!(got, vec![Some(vec![1]), Some(vec![9, 2, 3]), None]);
}

#[test]
fn frame_counts_never_exceed_listed_bonds() {
    let molecules = vec![
        MoleculeBonds {
            mol_type: Some("W".to_string()),
            partners: Some(vec![partner(1, Some("W"), HBondKind::Donor), partner(2, Some("Q"), HBondKind::Donor)]),
        },
        MoleculeBonds { mol_type: Some("S".to_string()), partners: Some(vec![partner(3, Some("S"), HBondKind::Acceptor)]) },
    ];
    let c = count_frame_hbonds(&molecules, &None);
    let listed = 3;
    assert!(c.donated_to_silanol + c.accepted_from_silanol + c.donated_to_water + c.accepted_from_water <= listed);
    assert!(c.target_molecules <= molecules.len());
    assert_eq!(c.accepted_from_silanol, 1);
    assert_eq!(c.donated_to_water, 1);
}

#[test]
fn neighbor_cells_follow_integer_remainder() {
    let cell = (-5, 4, 0);
    let dims = [3, -2, 1];
    let cells = neighbor_cells(cell, dims);
    let mut n = 0;
    for dx in -1..=1 {
        for dy in -1..=1 {
            for dz in -1..=1 {
                let want = ((cell.0 + dx + dims[0]) % dims[0], (cell.1 + dy + dims[1]) % dims[1], (cell.2 + dz + dims[2]) % dims[2]);
                assert_eq!(cells[n], want);
                n += 1;
            }
        }
    }
}

#[test]
fn density_frames_match_interval_one_selection() {
    let names = strings(&["timestep_3.bin", "timestep_1.bin", "a.txt", "timestep_8.bin", "timestep_2.bin"]);
    let ours = timestep_files_in_range(&names, Some(2), Some(8));
    let theirs: Vec<String> = names
        .iter()
        .filter(|n| select_timestep_files(&names, 2, 8, 1).iter().any(|e| &e.1 == *n))
        .cloned()
        .collect();
    assert_eq!(ours, theirs);
    assert_eq!(ours, strings(&["timestep_3.bin", "timestep_8.bin", "timestep_2.bin"]));
}

#[test]
fn frames_without_targets_leave_the_average() {
    let a = HBondCounts { donated_to_silanol: 1, accepted_from_silanol: 0, donated_to_water: 2, accepted_from_water: 0, target_molecules: 2 };
    let b = HBondCounts { donated_to_silanol: 0, accepted_from_silanol: 0, donated_to_water: 0, accepted_from_water: 0, target_molecules: 0 };
    assert_eq!(counted_frames(&vec![a, b, a]), vec![a, a]);
    assert_eq!(counted_frames(&vec![b]), vec![]);
}

#[test]
fn bond_updates_pair_donor_and_acceptor_in_candidate_order() {
    let ends = vec![
        BondEnd { o_idx: 10, mol_type: Some("W".to_string()) },
        BondEnd { o_idx: 20, mol_type: None },
        BondEnd { o_idx: 30, mol_type: Some("S".to_string()) },
    ];
    let r = bond_updates(&ends, 1, &vec![2, 0, 2]);
    let got: Vec<(usize, i32, Option<String>, bool)> = r
        .iter()
        .map(|(m, p)| (*m, p.partner_o_idx, p.partner_moltype.clone(), matches!(p.h_bond_type, HBondKind::Donor)))
        .collect();
    assert_eq!(
        got,
        vec![
            (1, 30, Some("S".to_string()), true),
            (2, 20, None, false),
            (1, 10, Some("W".to_string()), true),
            (0, 20, None, false),
            (1, 30, Some("S".to_string()), true),
            (2, 20, None, false),
        ]
    );
    assert!(bond_updates(&ends, 0, &vec![]).is_empty());
}

#[test]
fn frame_bond_updates_go_donor_after_donor() {
    let ends = vec![
        BondEnd { o_idx: 10, mol_type: Some("W".to_string()) },
        BondEnd { o_idx: 20, mol_type: None },
        BondEnd { o_idx: 30, mol_type: Some("S".to_string()) },
    ];
    let accepted = vec![vec![2], vec![], vec![0, 1]];
    let r = frame_bond_updates(&ends, &accepted);
    let got: Vec<(usize, i32, bool)> =
        r.iter().map(|(m, p)| (*m, p.partner_o_idx, matches!(p.h_bond_type, HBondKind::Donor))).collect();
    assert_eq!(
        got,
        vec![(0, 30, true), (2, 10, false), (2, 10, true), (0, 30, false), (2, 20, true), (1, 30, false)]
    );
    assert!(frame_bond_updates(&ends, &vec![vec![], vec![]]).is_empty());
}
