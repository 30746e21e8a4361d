use gzsplit::lines::LineSplitter;
use gzsplit::naming::get_part_filename;
use gzsplit::rollover::{should_roll_over, Decision, Driver, CHECKPOINT_LINES};

#[test]
fn filename_is_zero_padded() {
    assert_eq!(get_part_filename("out", 3), "out-00000003.gz");
    assert_eq!(get_part_filename("out", 0), "out-00000000.gz");
    assert_eq!(get_part_filename("a/b", 12345678), "a/b-12345678.gz");
}

#[test]
fn filename_grows_past_eight_digits() {
    assert_eq!(get_part_filename("p", 123456789), "p-123456789.gz");
    assert_eq!(get_part_filename("p", u32::MAX), "p-4294967295.gz");
    assert_eq!(get_part_filename("", 7), "-00000007.gz");
}

#[test]
fn roll_over_at_or_above_target() {
    assert!(should_roll_over(10, 10));
    assert!(should_roll_over(11, 10));
    assert!(!should_roll_over(9, 10));
    assert!(should_roll_over(0, 0));
}

#[test]
fn driver_measures_every_checkpoint() {
    let mut d = Driver::new(100);
    let mut checks = 0u32;
    for _ in 0..25_000u32 {
        if d.check_due() {
            checks += 1;
            assert_eq!(d.on_measured(5), Decision::Keep);
        }
        d.on_line_written();
    }
    assert_eq!(checks, 2);
    assert_eq!(d.part_index(), 0);
    assert_eq!(d.target(), 100);
}

#[test]
fn driver_scenario_two_parts() {
    let mib: u64 = 1024 * 1024;
    let mut d = Driver::new(mib);
    let mut first_part_lines = 0u64;
    for n in 0..20_000u64 {
        if d.check_due() {
            assert_eq!(n, CHECKPOINT_LINES);
            assert_eq!(d.on_measured(mib + mib / 5), Decision::RollOver);
        }
        if d.part_index() == 0 {
            first_part_lines += 1;
        }
        d.on_line_written();
    }
    assert_eq!(first_part_lines, 10_000);
    assert_eq!(d.part_index(), 1);
    // Another checkpoint would come before a further line.
    assert!(d.check_due());
}

#[test]
fn driver_keeps_part_below_target() {
    let mut d = Driver::new(50);
    for _ in 0..CHECKPOINT_LINES {
        assert!(!d.check_due());
        d.on_line_written();
    }
    assert!(d.check_due());
    assert_eq!(d.on_measured(49), Decision::Keep);
    assert!(!d.check_due());
    assert_eq!(d.part_index(), 0);
}

#[test]
fn splitter_strips_newlines() {
    let mut s = LineSplitter::new();
    let a = s.push_bytes(b"ab\ncd");
    assert_eq!(a, vec![b"ab".to_vec()]);
    let b = s.push_bytes(b"\n\nx\r");
    assert_eq!(b, vec![b"cd".to_vec(), Vec::new()]);
    assert_eq!(s.finish(), Some(b"x\r".to_vec()));
}

#[test]
fn splitter_empty_and_terminated() {
    let s = LineSplitter::new();
    assert_eq!(s.finish(), None);
    let mut t = LineSplitter::new();
    assert_eq!(t.push_bytes(b""), Vec::<Vec<u8>>::new());
    assert_eq!(t.push_bytes(b"one\n"), vec![b"one".to_vec()]);
    assert_eq!(t.finish(), None);
}
