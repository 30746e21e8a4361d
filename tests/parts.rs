use gzsplit::pipeline::{Pipeline, Pushed};
use gzsplit::source::{first_non_text, LineSource, SourceError};
use gzsplit::split::{Emit, GzSplit, SplitError};
use std::io::{Read, Write};

fn gzip(data: &[u8]) -> Vec<u8> {
    let mut e = flate2::write::GzEncoder::new(Vec::new(), flate2::Compression::default());
    e.write_all(data).unwrap();
    e.finish().unwrap()
}

fn gunzip(data: &[u8]) -> Vec<u8> {
    let mut d = flate2::read::GzDecoder::new(data);
    let mut out = Vec::new();
    d.read_to_end(&mut out).unwrap();
    out
}

/// Runs the splitter over `input`, fed in chunks of `chunk` bytes, and returns
/// the part files.
fn split_all(input: &[u8], target: u64, chunk: usize) -> Result<Vec<Vec<u8>>, SplitError> {
    let mut s = GzSplit::new(target);
    let mut files: Vec<Vec<u8>> = vec![Vec::new()];
    let mut emits = Vec::new();
    for c in input.chunks(chunk) {
        emits.extend(s.feed(c)?);
    }
    emits.extend(s.finish()?);
    for e in emits {
        match e {
            Emit::Data(b) => files.last_mut().unwrap().extend(b),
            Emit::Close { part, tail } => {
                assert_eq!(part as usize, files.len() - 1);
                files.last_mut().unwrap().extend(tail);
                files.push(Vec::new());
            }
        }
    }
    assert!(files.pop().unwrap().is_empty());
    Ok(files)
}

fn numbered_lines(n: usize) -> Vec<u8> {
    let mut v = Vec::new();
    for i in 0..n {
        v.extend(format!("line number {}\n", i).as_bytes());
    }
    v
}

/// Lines of 256 hex digits drawn from a fixed linear congruential sequence.
fn noisy_lines(n: usize, seed: u64) -> Vec<u8> {
    let mut x = seed;
    let mut v = Vec::new();
    for _ in 0..n {
        for _ in 0..256 {
            x = x.wrapping_mul(6364136223846793005).wrapping_add(1442695040888963407);
            v.push(b"0123456789abcdef"[(x >> 60) as usize]);
        }
        v.push(b'\n');
    }
    v
}

#[test]
fn round_trip_over_several_parts() {
    let plain = numbered_lines(25_000);
    let files = split_all(&gzip(&plain), 0, 997).unwrap();
    assert_eq!(files.len(), 3);
    let parts: Vec<Vec<u8>> = files.iter().map(|f| gunzip(f)).collect();
    assert_eq!(parts[0], numbered_lines(10_000));
    assert_eq!(parts[0].iter().filter(|b| **b == b'\n').count(), 10_000);
    assert_eq!(parts[1].iter().filter(|b| **b == b'\n').count(), 10_000);
    assert_eq!(parts[2].iter().filter(|b| **b == b'\n').count(), 5_000);
    assert_eq!(parts.concat(), plain);
}

#[test]
fn single_part_below_target() {
    let plain = numbered_lines(30_000);
    let files = split_all(&gzip(&plain), 20 * 1024 * 1024, 4096).unwrap();
    assert_eq!(files.len(), 1);
    assert_eq!(gunzip(&files[0]), plain);
}

#[test]
fn exact_checkpoint_leaves_no_empty_part() {
    let plain = numbered_lines(10_000);
    let files = split_all(&gzip(&plain), 0, 4096).unwrap();
    assert_eq!(files.len(), 1);
    assert_eq!(gunzip(&files[0]), plain);
}

#[test]
fn short_input_stays_in_one_part() {
    let plain = numbered_lines(9_999);
    let files = split_all(&gzip(&plain), 0, 4096).unwrap();
    assert_eq!(files.len(), 1);
    assert_eq!(gunzip(&files[0]), plain);
}

#[test]
fn empty_input_gives_one_empty_part() {
    let files = split_all(&gzip(b""), 1024, 4096).unwrap();
    assert_eq!(files.len(), 1);
    assert!(files[0].len() > 0);
    assert_eq!(gunzip(&files[0]), Vec::<u8>::new());
}

#[test]
fn unterminated_last_line_gets_newline() {
    let files = split_all(&gzip(b"a\nb"), 1024, 1).unwrap();
    assert_eq!(files.len(), 1);
    assert_eq!(gunzip(&files[0]), b"a\nb\n".to_vec());
}

#[test]
fn trailing_bytes_after_member_are_ignored() {
    let mut input = gzip(b"x\ny\n");
    input.extend(b"junk after the member");
    let files = split_all(&input, 1024, 3).unwrap();
    assert_eq!(gunzip(&files[0]), b"x\ny\n".to_vec());
}

#[test]
fn scenario_rollover_at_first_checkpoint() {
    let first = noisy_lines(10_000, 1);
    let second = numbered_lines(10_000);
    let mut plain = first.clone();
    plain.extend(&second);
    assert!(gzip(&first).len() > 1024 * 1024);
    let files = split_all(&gzip(&plain), 1024 * 1024, 65536).unwrap();
    assert_eq!(files.len(), 2);
    assert_eq!(gunzip(&files[0]), first);
    assert_eq!(gunzip(&files[1]), second);
}

#[test]
fn malformed_input_is_rejected() {
    match split_all(b"this is not gzip at all", 1024, 4096) {
        Err(SplitError::Input(_)) => {}
        other => panic!("unexpected {:?}", other),
    }
}

#[test]
fn truncated_input_is_rejected() {
    let input = gzip(&numbered_lines(100));
    match split_all(&input[..input.len() - 4], 1024, 4096) {
        Err(SplitError::Input(_)) => {}
        other => panic!("unexpected {:?}", other),
    }
}

#[test]
fn non_text_line_is_rejected() {
    match split_all(&gzip(b"fine\n\xff\xfe\n"), 1024, 4096) {
        Err(SplitError::NotText) => {}
        other => panic!("unexpected {:?}", other),
    }
}

#[test]
fn nothing_after_finish() {
    let mut s = GzSplit::new(10);
    assert!(s.finish().is_err());
    let mut t = GzSplit::new(10);
    let input = gzip(b"q\n");
    t.feed(&input).unwrap();
    let es = t.finish().unwrap();
    assert!(matches!(es.last(), Some(Emit::Close { part: 0, .. })));
    assert!(matches!(t.feed(&input), Err(SplitError::Finished)));
    assert!(matches!(t.finish(), Err(SplitError::Finished)));
}

#[test]
fn first_non_text_finds_index() {
    let ls = vec![b"ok".to_vec(), vec![0xc3, 0x28], b"also".to_vec()];
    assert_eq!(first_non_text(&ls), Some(1));
    assert_eq!(first_non_text(&vec![b"\xc3\xa9t\xc3\xa9".to_vec()]), None);
    assert_eq!(first_non_text(&Vec::new()), None);
}

#[test]
fn line_source_reads_lines() {
    let mut src = LineSource::new();
    let input = gzip(b"alpha\nbeta\ngam");
    let mut got = src.feed(&input).unwrap();
    got.extend(src.finish().unwrap());
    assert_eq!(got, vec![b"alpha".to_vec(), b"beta".to_vec(), b"gam".to_vec()]);
}

#[test]
fn line_source_non_text() {
    let mut src = LineSource::new();
    let input = gzip(b"\x80\n");
    let r = src.feed(&input);
    let r = match r {
        Ok(v) => {
            assert!(v.is_empty());
            src.finish()
        }
        Err(e) => Err(e),
    };
    assert!(matches!(r, Err(SourceError::NotText)));
}

#[test]
fn pipeline_rolls_at_checkpoint() {
    let mut p = Pipeline::new(0);
    for _ in 0..10_000 {
        assert!(matches!(p.push_line(b"z").unwrap(), Pushed::Written));
    }
    let tail = match p.push_line(b"next").unwrap() {
        Pushed::RolledOver { size, tail } => {
            assert!(size > 0);
            tail
        }
        other => panic!("unexpected {:?}", other),
    };
    assert_eq!(p.part_index(), 1);
    assert_eq!(gunzip(&tail), b"z\n".repeat(10_000));
    let last = p.finish().unwrap();
    assert_eq!(gunzip(&last), b"next\n".to_vec());
}

#[test]
fn pipeline_keeps_part_under_target() {
    let mut p = Pipeline::new(u64::MAX);
    let mut data = Vec::new();
    for _ in 0..10_000 {
        p.push_line(b"abc").unwrap();
    }
    match p.push_line(b"abc").unwrap() {
        Pushed::Checked { size, out } => {
            assert_eq!(size as usize, out.len());
            data.extend(out);
        }
        other => panic!("unexpected {:?}", other),
    }
    assert_eq!(p.part_index(), 0);
    data.extend(p.finish().unwrap());
    assert_eq!(gunzip(&data), b"abc\n".repeat(10_001));
}

#[test]
fn empty_chunk_is_accepted() {
    let mut s = GzSplit::new(10);
    assert!(s.feed(b"").unwrap().is_empty());
    let input = gzip(b"k\n");
    assert!(s.feed(&input).is_ok());
    assert!(s.feed(b"").is_ok());
    let es = s.finish().unwrap();
    assert!(matches!(es.last(), Some(Emit::Close { part: 0, .. })));
}

#[test]
fn close_items_count_up_from_zero() {
    let mut s = GzSplit::new(0);
    let mut es = s.feed(&gzip(&numbered_lines(30_001))).unwrap();
    es.extend(s.finish().unwrap());
    let parts: Vec<u32> = es
        .iter()
        .filter_map(|e| match e {
            Emit::Close { part, .. } => Some(*part),
            Emit::Data(_) => None,
        })
        .collect();
    assert_eq!(parts, vec![0, 1, 2, 3]);
}
