use hlanalysis::io::read::read_cp2k_xyz::{parse_velocity_block, VelocityError};
use hlanalysis::io::read::read_lammps_dump::{
    bounds_line_of, column_of_name, columns_of, is_header as lammps_is_header, parse_timestep as parse_lammps,
    pbc_of_line, BoundsLine, Column, LammpsError,
};
use hlanalysis::io::read::read_xyz::{index_range, is_header as xyz_is_header, parse_timestep as parse_xyz, XyzError};
use hlanalysis::io::read::BlockScanner;
use hlanalysis::io::reader::{
    frame_file_path, select_format, select_timestep_files, timestep_of_name, Format,
};
use hlanalysis::text::IntErrorKind;

fn lines(s: &[&str]) -> Vec<String> {
    s.iter().map(|l| l.to_string()).collect()
}

#[test]
fn xyz_frame_is_read() {
    let block = lines(&["2", "water frame", "O 0.0 0.1 -0.2", "H 1e-1 .5 +3 extra"]);
    match parse_xyz(&block) {
        Ok(f) => {
            assert_eq!(f.indices, vec![0, 1]);
            assert_eq!(f.symbols, vec!["O".to_string(), "H".to_string()]);
            assert_eq!(f.coords[0], ("0.0".to_string(), "0.1".to_string(), "-0.2".to_string()));
            assert_eq!(f.coords[1], ("1e-1".to_string(), ".5".to_string(), "+3".to_string()));
        }
        Err(_) => panic!("frame refused"),
    }
}

#[test]
fn xyz_frame_errors() {
    assert!(matches!(parse_xyz(&lines(&["x", "c"])), Err(XyzError::AtomCount(IntErrorKind::InvalidDigit))));
    assert!(matches!(
        parse_xyz(&lines(&["3", "c", "O 0 0 0"])),
        Err(XyzError::BlockTooShort { expected: 3, found: 1 })
    ));
    assert!(matches!(parse_xyz(&lines(&["1", "c", "O 0 0"])), Err(XyzError::InvalidAtomLine { index: 0, .. })));
    assert!(matches!(parse_xyz(&lines(&["1", "c", "O 0 zz 0"])), Err(XyzError::BadCoordinate { axis: 1, .. })));
}

#[test]
fn xyz_headers() {
    assert!(xyz_is_header("  12  "));
    assert!(!xyz_is_header(""));
    assert!(!xyz_is_header("O 1 2 3"));
    assert!(!xyz_is_header("-3"));
    assert_eq!(index_range(3), vec![0, 1, 2]);
}

#[test]
fn velocity_block_is_read() {
    let block = lines(&["2", "i = 0", "O 0.1 0.2 0.3", "-1 -2 -3"]);
    match parse_velocity_block(&block, 2) {
        Ok(v) => {
            assert_eq!(v[0], ("0.1".to_string(), "0.2".to_string(), "0.3".to_string()));
            assert_eq!(v[1], ("-1".to_string(), "-2".to_string(), "-3".to_string()));
        }
        Err(_) => panic!("velocities refused"),
    }
}

#[test]
fn velocity_block_errors() {
    assert!(matches!(parse_velocity_block(&lines(&["1", "c"]), 1), Err(VelocityError::TooShort { lines: 2 })));
    assert!(matches!(
        parse_velocity_block(&lines(&["2", "c", "O 1 2 3"]), 1),
        Err(VelocityError::CountMismatch { expected: 1, found: 2 })
    ));
    assert!(matches!(
        parse_velocity_block(&lines(&["2", "c", "O 1 2 3"]), 2),
        Err(VelocityError::BlockTooShort { expected: 2, found: 1 })
    ));
    assert!(matches!(
        parse_velocity_block(&lines(&["1", "c", "1 O 1 2 3"]), 1),
        Err(VelocityError::InvalidLine { index: 0, .. })
    ));
    assert!(matches!(
        parse_velocity_block(&lines(&["1", "c", "O 1 2"]), 1),
        Err(VelocityError::BadComponent { axis: 0, .. })
    ));
    assert!(matches!(
        parse_velocity_block(&lines(&["1", "c", "O 1 2 q"]), 1),
        Err(VelocityError::BadComponent { axis: 2, .. })
    ));
    assert!(matches!(parse_velocity_block(&lines(&["n", "c", "O 1 2 3"]), 1), Err(VelocityError::AtomCount(_))));
}

fn dump_frame() -> Vec<String> {
    lines(&[
        "ITEM: TIMESTEP",
        "0",
        "ITEM: NUMBER OF ATOMS",
        "2",
        "ITEM: BOX BOUNDS xy xz yz pp pp ff",
        "0.0 10.0 0.5",
        "0.0 12.0",
        "-1 1",
        "ITEM: ATOMS id element mass x y z vx q",
        "1 O 15.999 1.0 2.0 3.0 0.1 7",
        "2 H 1.008 1.5 2.5 3.5 0.2 8",
    ])
}

#[test]
fn lammps_frame_is_read() {
    match parse_lammps(&dump_frame()) {
        Ok(f) => {
            assert_eq!(f.indices, vec![1, 2]);
            assert_eq!(f.symbols, vec!["O".to_string(), "H".to_string()]);
            assert_eq!(f.masses, vec!["15.999".to_string(), "1.008".to_string()]);
            assert_eq!(f.pbc, Some([true, true, false]));
            assert_eq!(f.atoms[1].slots[0], Some("1.5".to_string()));
            assert_eq!(f.atoms[1].slots[6], Some("0.2".to_string()));
            assert_eq!(f.atoms[1].slots[9], None);
            assert_eq!(f.atoms[0].charge, None);
            let b = f.bounds.expect("bounds");
            assert!(matches!(&b[0], BoundsLine::Triple(a, c, d) if a == "0.0" && c == "10.0" && d == "0.5"));
            assert!(matches!(&b[1], BoundsLine::Pair(a, c) if a == "0.0" && c == "12.0"));
        }
        Err(_) => panic!("frame refused"),
    }
}

#[test]
fn lammps_frame_errors() {
    let mut short = dump_frame();
    short[10] = "2 H 1.008".to_string();
    assert!(matches!(parse_lammps(&short), Err(LammpsError::MissingValue { line: 10, column: 3 })));
    let mut bad = dump_frame();
    bad[3] = "two".to_string();
    assert!(matches!(parse_lammps(&bad), Err(LammpsError::AtomCount(IntErrorKind::InvalidDigit))));
}

#[test]
fn lammps_columns_and_lines() {
    assert_eq!(column_of_name("id"), Column::Id);
    assert_eq!(column_of_name("element"), Column::Element);
    assert_eq!(column_of_name("zu"), Column::Slot(5));
    assert_eq!(column_of_name("fz"), Column::Slot(11));
    assert_eq!(column_of_name("type"), Column::Other);
    assert_eq!(columns_of("ITEM: ATOMS id x"), vec![Column::Id, Column::Slot(0)]);
    assert_eq!(pbc_of_line("ITEM: BOX BOUNDS ff pp ff"), [false, true, false]);
    assert_eq!(pbc_of_line("ITEM: BOX BOUNDS mm mm mm"), [false, false, false]);
    assert!(matches!(bounds_line_of("1 2 3 4"), BoundsLine::Unset));
    assert!(lammps_is_header("ITEM: TIMESTEP"));
    assert!(!lammps_is_header("ITEM: ATOMS"));
}

#[test]
fn scanner_hands_out_selected_blocks() {
    // blocks: 0 = [h0, a], 1 = [h1, b], 2 = [h2, c], 3 = [h3]
    let input = [(true, "h0"), (false, "a"), (true, "h1"), (false, "b"), (true, "h2"), (false, "c"), (true, "h3")];
    let mut s: BlockScanner<&str> = BlockScanner::new(1, 3, 1);
    let mut out = Vec::new();
    for (head, item) in input.iter() {
        if s.is_stopped() {
            break;
        }
        if let Some(b) = s.push(*head, *item) {
            out.push(b);
        }
    }
    if let Some(b) = s.finish() {
        out.push(b);
    }
    assert_eq!(out, vec![(1, vec!["h1", "b"]), (2, vec!["h2", "c"])]);
}

#[test]
fn scanner_hands_out_last_block_at_end() {
    let input = [(true, "h0"), (true, "h1"), (false, "x"), (true, "h2"), (false, "y")];
    let mut s: BlockScanner<&str> = BlockScanner::new(0, usize::MAX, 2);
    let mut out = Vec::new();
    for (head, item) in input.iter() {
        if let Some(b) = s.push(*head, *item) {
            out.push(b);
        }
    }
    if let Some(b) = s.finish() {
        out.push(b);
    }
    assert_eq!(out, vec![(0, vec!["h0"]), (2, vec!["h2", "y"])]);
}

#[test]
fn formats_and_frame_names() {
    assert!(matches!(select_format("lammps-dump"), Ok(Format::LammpsDump)));
    assert!(matches!(select_format("xyz"), Err(ref n) if n == "xyz"));
    assert_eq!(timestep_of_name("timestep_42.bin"), Some(42));
    assert_eq!(timestep_of_name("timestep_+7.bin"), Some(7));
    assert_eq!(timestep_of_name("timestep_.bin"), None);
    assert_eq!(timestep_of_name("timestep_4.txt"), None);
    assert_eq!(timestep_of_name("step_4.bin"), None);
    assert_eq!(frame_file_path("./tmp_atoms", 17), "./tmp_atoms/timestep_17.bin");
}

#[test]
fn saved_frame_names_read_back() {
    for n in [0usize, 1, 9, 10, 123456, usize::MAX].iter() {
        let path = frame_file_path("d", *n);
        let name = &path[2..];
        assert_eq!(timestep_of_name(name), Some(*n));
    }
}

#[test]
fn timestep_files_are_selected_and_sorted() {
    let names = lines(&[
        "timestep_10.bin", "notes.txt", "timestep_4.bin", "timestep_6.bin", "timestep_7.bin",
        "timestep_4.bin", "timestep_12.bin",
    ]);
    let r = select_timestep_files(&names, 4, 10, 2);
    let got: Vec<usize> = r.iter().map(|e| e.0).collect();
    assert_eq!(got, vec![4, 4, 6, 10]);
    assert!(r.iter().all(|e| e.1 == format!("timestep_{}.bin", e.0)));
}

fn run_scanner(input: &[(bool, usize)], start: usize, end: usize, interval: usize, stop: bool) -> Vec<(usize, Vec<usize>)> {
    let mut s: BlockScanner<usize> = BlockScanner::new(start, end, interval);
    let mut out = Vec::new();
    for (head, item) in input.iter() {
        if stop && s.is_stopped() {
            break;
        }
        if s.is_stopped() {
            continue;
        }
        if let Some(b) = s.push(*head, *item) {
            out.push(b);
        }
    }
    if let Some(b) = s.finish() {
        out.push(b);
    }
    out
}

#[test]
fn stopping_early_loses_no_block() {
    let input: Vec<(bool, usize)> = (0..40).map(|k| (k % 3 == 0 || k % 7 == 0, k)).collect();
    for (start, end, interval) in [(0, 3, 1), (1, 6, 2), (2, 100, 3), (5, 5, 1)].iter() {
        let early = run_scanner(&input, *start, *end, *interval, true);
        let all = run_scanner(&input, 0, usize::MAX, 1, false);
        let expected: Vec<(usize, Vec<usize>)> = all
            .into_iter()
            .filter(|(k, _)| *start <= *k && *k < *end && (*k - *start) % *interval == 0)
            .collect();
        assert_eq!(early, expected);
    }
}
