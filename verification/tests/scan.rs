use mbl2::maps::SimpleMapRange;
use mbl2::signature::{code_address, ScanStep, SignatureScan};

fn ranges() -> Vec<SimpleMapRange> {
    vec![SimpleMapRange { start: 0x1000, size: 0x100 }, SimpleMapRange { start: 0x5000, size: 0x200 }]
}

#[test]
fn scan_visits_signatures_then_regions() {
    let mut scan = SignatureScan::new(2, ranges());
    let mut seen = Vec::new();
    loop {
        match scan.next_step() {
            ScanStep::Search { signature, range, start, size } => {
                seen.push((signature, range, start, size));
                assert_eq!(scan.record(None, false), None);
            }
            ScanStep::NotFound => break,
        }
    }
    assert_eq!(seen, vec![(0, 0, 0x1000, 0x100), (0, 1, 0x5000, 0x200), (1, 0, 0x1000, 0x100), (1, 1, 0x5000, 0x200)]);
}

#[test]
fn first_hit_gives_address() {
    let mut scan = SignatureScan::new(2, ranges());
    assert_eq!(scan.record(None, false), None);
    assert_eq!(scan.next_step(), ScanStep::Search { signature: 0, range: 1, start: 0x5000, size: 0x200 });
    assert_eq!(scan.record(Some(0x10), false), Some(0x5010));
}

#[test]
fn thumb_code_address_is_odd() {
    let mut scan = SignatureScan::new(1, ranges());
    assert_eq!(scan.record(Some(0x20), true), Some(0x1021));
    assert_eq!(code_address(usize::MAX, 1, false), 0);
}

#[test]
fn no_regions_or_no_signatures_is_not_found() {
    assert_eq!(SignatureScan::new(3, Vec::new()).next_step(), ScanStep::NotFound);
    assert_eq!(SignatureScan::new(0, ranges()).next_step(), ScanStep::NotFound);
}
