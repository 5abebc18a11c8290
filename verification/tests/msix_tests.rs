use std::cell::Cell;

use vfio_passthrough::device::VfioPciDevice;
use vfio_passthrough::msix::{parse_msix_capability, MsixLayout};

/// A configuration space with the given dwords, and zeros elsewhere.
fn config(dwords: &[(u32, u32)]) -> impl Fn(u32) -> u32 + '_ {
    move |offset| {
        dwords.iter().find(|(at, _)| *at == offset).map_or(0, |(_, dword)| *dword)
    }
}

const LIST: (u32, u32) = (0x04, 0x0010_0000);

#[test]
fn msix_capability_is_found() {
    let read = config(&[
        LIST,
        (0x34, 0xab40),
        (0x40, 0x0003_5001),
        (0x50, 0x003f_6005),
        (0x60, 0x801f_0011),
        (0x64, 0x0000_2004),
        (0x68, 0x0000_3005),
    ]);
    let layout = MsixLayout {
        cap_offset: 0x60,
        table_bar: 4,
        table_offset: 0x2000,
        table_size: 0x20 * 16,
        pba_bar: 5,
        pba_offset: 0x3000,
        pba_size: 8,
    };
    assert_eq!(parse_msix_capability(&read), Some(layout));
    assert_eq!(VfioPciDevice::required_msix_vectors(&read), Some(0x20));
}

#[test]
fn no_capability_list_means_no_msix() {
    let read = config(&[(0x34, 0x60), (0x60, 0x0000_0011)]);
    assert_eq!(parse_msix_capability(&read), None);
    assert_eq!(VfioPciDevice::required_msix_vectors(&read), None);
}

#[test]
fn list_without_msix_ends() {
    let read = config(&[LIST, (0x34, 0x40), (0x40, 0x0000_5001), (0x50, 0x0000_0005)]);
    assert_eq!(parse_msix_capability(&read), None);
    assert_eq!(parse_msix_capability(&config(&[LIST])), None);
}

#[test]
fn first_msix_capability_counts() {
    let read = config(&[
        LIST,
        (0x34, 0x40),
        (0x40, 0x0000_5011),
        (0x44, 0x1001),
        (0x48, 0x1802),
        (0x50, 0x0001_0011),
    ]);
    let layout = parse_msix_capability(&read).unwrap();
    assert_eq!(layout.cap_offset, 0x40);
    assert_eq!((layout.table_bar, layout.table_offset, layout.table_size), (1, 0x1000, 16));
    assert_eq!((layout.pba_bar, layout.pba_offset, layout.pba_size), (2, 0x1800, 8));
}

#[test]
fn list_that_runs_in_a_circle_ends() {
    let reads = Cell::new(0);
    let circle = config(&[LIST, (0x34, 0x40), (0x40, 0x0000_5001), (0x50, 0x0000_4005)]);
    let read = |offset| {
        reads.set(reads.get() + 1);
        circle(offset)
    };
    assert_eq!(parse_msix_capability(&read), None);
    assert_eq!(reads.get(), 257);
    // The longest list without a circle.
    let chain = |offset: u32| match offset {
        0x04 => 0x0010_0000,
        0x34 => 0x34,
        0xff => 0x07ff_0011,
        0x33 => 0x3500,
        _ => ((offset + 1) & 0xff) << 8,
    };
    let longest = |offset: u32| {
        if offset == 0x34 {
            0x3534
        } else {
            chain(offset)
        }
    };
    let layout = parse_msix_capability(&longest).unwrap();
    assert_eq!((layout.cap_offset, layout.table_size, layout.pba_size), (0xff, 2048 * 16, 256));
    assert_eq!(VfioPciDevice::required_msix_vectors(&longest), Some(2048));
}

#[test]
fn pba_has_one_bit_per_vector_in_whole_qwords() {
    for (vectors, bytes) in [(1, 8), (8, 8), (9, 8), (64, 8), (65, 16), (128, 16), (2048, 256)] {
        let header = ((vectors - 1) << 16) | 0x11;
        let dwords = [LIST, (0x34, 0x40), (0x40, header)];
        let layout = parse_msix_capability(&config(&dwords)).unwrap();
        assert_eq!(layout.table_size, u64::from(vectors) * 16);
        assert_eq!(layout.pba_size, bytes);
    }
}

#[test]
fn answers_that_vary_count_as_they_were_first_read() {
    // Every dword reads as zero from the second time on.
    let first = config(&[LIST, (0x34, 0x40), (0x40, 0x0000_6001), (0x60, 0x0003_0011), (0x64, 2)]);
    let fresh = |seen: &Cell<Vec<u32>>, offset: u32| {
        let mut offsets = seen.take();
        let again = offsets.contains(&offset);
        offsets.push(offset);
        seen.set(offsets);
        if again {
            0
        } else {
            first(offset)
        }
    };
    let seen = Cell::new(vec![]);
    let layout = parse_msix_capability(&|offset| fresh(&seen, offset)).unwrap();
    assert_eq!((layout.cap_offset, layout.table_bar, layout.table_size), (0x60, 2, 4 * 16));
    assert_eq!(seen.take(), vec![0x04, 0x34, 0x40, 0x60, 0x64, 0x68]);
    let seen = Cell::new(vec![]);
    assert_eq!(VfioPciDevice::required_msix_vectors(&|offset| fresh(&seen, offset)), Some(4));
    // The status now shows no list, and nothing else is read.
    assert_eq!(parse_msix_capability(&|offset| fresh(&seen, offset)), None);
    assert_eq!(seen.take().len(), 7);
}
