use kcore::errors::{Code, Error};
use kcore::map::{Area, MemMap};

#[test]
fn new_map_has_one_area() {
    let m = MemMap::new(0x1000, 0x1000);
    assert_eq!(m.size(), (0x1000, 1));
}

#[test]
fn clean_allocator_round_trip() {
    let mut m = MemMap::new(0x1000, 0x1000);
    assert_eq!(m.allocate(0x100, 0x100), Ok(0x1000));
    // 0x1100 is not 0x200-aligned: the gap up to 0x1200 stays free
    assert_eq!(m.allocate(0x200, 0x200), Ok(0x1200));
    m.free(0x1000, 0x100);
    m.free(0x1200, 0x200);
    assert_eq!(m.size(), (0x1000, 1));
}

#[test]
fn aligned_split() {
    let mut m = MemMap::new(0x1000, 0x1000);
    assert_eq!(m.allocate(0x100, 0x400), Ok(0x1000));
    // skips to the next 0x400 boundary, leaving a 0x300 gap at 0x1100
    assert_eq!(m.allocate(0x100, 0x400), Ok(0x1400));
    assert_eq!(m.size(), (0xE00, 2));
    assert_eq!(m.allocate(0x300, 0x100), Ok(0x1100));
}

#[test]
fn exhaustion() {
    let mut m = MemMap::new(0x0, 0x100);
    assert_eq!(m.allocate(0x100, 1), Ok(0x0));
    assert_eq!(m.allocate(1, 1), Err(Error::new(Code::NoSpace)));
}

#[test]
fn error_code_is_no_space() {
    let mut m = MemMap::new(0x0, 0x10);
    let e = m.allocate(0x20, 1).unwrap_err();
    assert_eq!(e.code(), Code::NoSpace);
}

#[test]
fn padding_skips_to_next_area() {
    let mut m = MemMap::new(0x1000, 0x100);
    m.free(0x2000, 0x100);
    // aligning 0x1000 up to 0x2000 eats more than the first area holds
    assert_eq!(m.allocate(0x100, 0x2000), Ok(0x2000));
    assert_eq!(m.size(), (0x100, 1));
}

#[test]
fn emptied_area_is_removed() {
    let mut m = MemMap::new(0x1000, 0x100);
    assert_eq!(m.allocate(0x100, 1), Ok(0x1000));
    assert_eq!(m.size(), (0, 0));
}

#[test]
fn free_merges_three_into_one() {
    let mut m = MemMap::new(0x1000, 0x1000);
    assert_eq!(m.allocate(0x400, 1), Ok(0x1000));
    assert_eq!(m.allocate(0x400, 1), Ok(0x1400));
    m.free(0x1000, 0x400);
    // the free list now holds [0x1000, 0x400) and [0x1800, 0x800)
    assert_eq!(m.size(), (0xC00, 2));
    // freeing the middle region touches both neighbours
    m.free(0x1400, 0x400);
    assert_eq!(m.size(), (0x1000, 1));
}

#[test]
fn single_area_round_trip() {
    for s in [1usize, 0x40, 0x800, 0x1000] {
        let mut m = MemMap::new(0x1000, 0x1000);
        assert_eq!(m.allocate(s, 1), Ok(0x1000));
        m.free(0x1000, s);
        assert_eq!(m.size(), (0x1000, 1));
    }
}

#[test]
fn repeated_allocate_free_converges() {
    let mut m = MemMap::new(0x1000, 0x1000);
    for _ in 0..8 {
        let r = m.allocate(0x180, 0x80).unwrap();
        assert_eq!(r % 0x80, 0);
        m.free(r, 0x180);
        assert_eq!(m.size(), (0x1000, 1));
    }
}

#[test]
fn allocations_are_aligned_and_in_range() {
    let mut m = MemMap::new(0x1234, 0xE000);
    for align in [1usize, 2, 0x10, 0x100, 0x1000] {
        let r = m.allocate(0x123, align).unwrap();
        assert_eq!(r % align, 0);
        assert!(r >= 0x1234 && r + 0x123 <= 0x1234 + 0xE000);
    }
}

#[test]
fn total_free_bytes_track_outstanding_allocations() {
    let mut m = MemMap::new(0x1000, 0x1000);
    let a = m.allocate(0x100, 1).unwrap();
    let b = m.allocate(0x200, 0x100).unwrap();
    assert_eq!(m.size().0, 0x1000 - 0x100 - 0x200);
    m.free(a, 0x100);
    assert_eq!(m.size().0, 0x1000 - 0x200);
    m.free(b, 0x200);
    assert_eq!(m.size(), (0x1000, 1));
}

#[test]
fn area_fmt() {
    let a = Area::new(0x1000, 0x100);
    assert_eq!(a.fmt_text(), "Area[addr=0x1000, size=0x100]");
    assert!(a.fmt_text().contains("addr="));
    assert!(a.fmt_text().contains("size="));
}

#[test]
fn mem_map_fmt() {
    let mut m = MemMap::new(0x1000, 0x1000);
    assert_eq!(m.fmt_text(), "[\n    Area[addr=0x1000, size=0x1000]\n  ]");
    m.allocate(0x100, 0x400).unwrap();
    m.allocate(0x100, 0x400).unwrap();
    assert_eq!(
        m.fmt_text(),
        "[\n    Area[addr=0x1100, size=0x300]\n    Area[addr=0x1500, size=0xb00]\n  ]"
    );
}
