use annex::gui::{Coordinates, Draw, Window};
use annex::colour::Colour;
use annex::memory::{align_up, FrameAllocator, PAGE_BYTES};
use annex::paging::{PageSize, PageTable, PageTableEntry, Sv39Physical, Sv39Virtual, TABLE_ENTRIES};
use annex::rtc::{bcd_to_binary, ClockTime, Rtc, RtcSnapshot};

#[test]
fn align_up_rounds_to_the_next_multiple() {
    assert_eq!(align_up(5, 4), 8);
    assert_eq!(align_up(8, 4), 8);
    assert_eq!(align_up(0, 4096), 0);
    assert_eq!(align_up(1, 4096), 4096);
    assert_eq!(align_up(0x12345, 0x1000), 0x13000);
}

#[test]
fn frame_allocator_steps_through_the_region() {
    let mut a = FrameAllocator::new(0x8000, 3 * PAGE_BYTES);
    assert_eq!(a.next(), Some(0x8000));
    assert_eq!(a.next(), Some(0x8000 + PAGE_BYTES));
    assert_eq!(a.next(), Some(0x8000 + 2 * PAGE_BYTES));
    assert_eq!(a.next(), None);
    assert_eq!(a.next(), None);
}

#[test]
fn frame_allocator_hands_out_a_trailing_partial_page() {
    let mut a = FrameAllocator::new(0, 5000);
    assert_eq!(a.next(), Some(0));
    assert_eq!(a.next(), Some(4096));
    assert_eq!(a.next(), None);
}

#[test]
fn page_sizes() {
    assert_eq!(PageSize::Normal.bits(), 12);
    assert_eq!(PageSize::Mega.bits(), 21);
    assert_eq!(PageSize::Giga.bits(), 30);
    assert_eq!(PageSize::Tera.bits(), 39);
    assert_eq!(PageSize::Peta.bits(), 48);
    assert_eq!(PageSize::Normal.size(), 0x1000);
    assert_eq!(PageSize::Mega.size(), 1 << 21);
    assert_eq!(PageSize::Giga.size(), 1 << 30);
    assert_eq!(PageSize::Tera.size(), 1 << 39);
    assert_eq!(PageSize::Peta.size(), 1 << 48);
}

#[test]
fn page_size_round_down_picks_the_largest_fitting_size() {
    assert_eq!(PageSize::round_down(0), PageSize::Normal);
    assert_eq!(PageSize::round_down(0x1000), PageSize::Normal);
    assert_eq!(PageSize::round_down((1 << 21) - 1), PageSize::Normal);
    assert_eq!(PageSize::round_down(1 << 21), PageSize::Mega);
    assert_eq!(PageSize::round_down((1 << 30) + 5), PageSize::Giga);
    assert_eq!(PageSize::round_down(1 << 39), PageSize::Tera);
    assert_eq!(PageSize::round_down(u64::MAX), PageSize::Peta);
}

#[test]
fn page_table_entry_permission_bits() {
    let mut e = PageTableEntry(0);
    e.set_valid(true);
    e.set_r(true);
    e.set_w(true);
    e.set_x(true);
    assert_eq!(e.0, 0b1111);
    assert!(e.valid());
    assert!(!e.next_level());

    e.set_next_level();
    assert!(e.next_level());
    assert!(e.valid());
    assert_eq!(e.0, 0b0001);
}

#[test]
fn page_table_entry_to_physical_address() {
    // Physical page number parts 1, 2 and 3 placed in entry bits 10, 19
    // and 28.
    let e = PageTableEntry(1 | (1 << 10) | (2 << 19) | (3 << 28));
    let addr = e.as_physical_addr().unwrap();
    assert_eq!(addr.0, (1 << 12) | (2 << 21) | (3 << 30));

    let invalid = PageTableEntry((1 << 10) | (2 << 19));
    assert!(invalid.as_physical_addr().is_none());
}

#[test]
fn sv39_field_extraction() {
    let v = Sv39Virtual((1 << 12) | (2 << 21) | (3 << 30) | 0xabc);
    assert_eq!(v.vpn(0), 1);
    assert_eq!(v.vpn(1), 2);
    assert_eq!(v.vpn(2), 3);
    assert_eq!(v.page_offset(), 0xabc);

    let p = Sv39Physical((1 << 12) | (2 << 21) | (3 << 30) | 0xdef);
    assert_eq!(p.as_u64(), (1 << 12) | (2 << 21) | (3 << 30) | 0xdef);
}

#[test]
fn bcd_decoding() {
    assert_eq!(bcd_to_binary(0x59), 59);
    assert_eq!(bcd_to_binary(0x00), 0);
    assert_eq!(bcd_to_binary(0x12), 12);
}

#[test]
fn rtc_decodes_a_bcd_24_hour_snapshot() {
    let rtc = Rtc::new(0x32);
    assert_eq!(rtc.century_register, 0x32);
    let snapshot = RtcSnapshot {
        status_b: 0b010,  // 24-hour, binary-coded decimal
        seconds: 0x37,
        minutes: 0x08,
        hours: 0x23,
        day_of_month: 0x29,
        month: 0x02,
        year: 0x24,
        century: 0x20,
    };
    let time = rtc.time(snapshot);
    assert_eq!(
        time,
        ClockTime { year: 2024, month: 2, day: 29, hour: 23, minute: 8, second: 37 }
    );
}

#[test]
fn rtc_decodes_a_12_hour_pm_snapshot() {
    let rtc = Rtc::new(0x32);
    let snapshot = RtcSnapshot {
        status_b: 0b000,  // 12-hour, binary-coded decimal
        seconds: 0x01,
        minutes: 0x02,
        hours: 0x80 | 0x05,  // 5 PM
        day_of_month: 0x01,
        month: 0x12,
        year: 0x99,
        century: 0x19,
    };
    let time = rtc.time(snapshot);
    assert_eq!(
        time,
        ClockTime { year: 1999, month: 12, day: 1, hour: 17, minute: 2, second: 1 }
    );
}

#[test]
fn rtc_decodes_a_binary_snapshot() {
    let rtc = Rtc::new(0x32);
    let snapshot = RtcSnapshot {
        status_b: 0b110,  // 24-hour, plain binary
        seconds: 59,
        minutes: 30,
        hours: 0x11,  // BCD decoding of the hour applies even in binary mode
        day_of_month: 15,
        month: 7,
        year: 25,
        century: 20,
    };
    let time = rtc.time(snapshot);
    assert_eq!(
        time,
        ClockTime { year: 2025, month: 7, day: 15, hour: 11, minute: 30, second: 59 }
    );
}

#[test]
fn coordinates_contain_their_interior() {
    let c = Coordinates::new(-10, 5, 20, 10);
    assert_eq!((c.x, c.y, c.width, c.height), (-10, 5, 20, 10));
    assert!(c.contains(-10, 5));
    assert!(c.contains(9, 14));
    assert!(!c.contains(10, 14));
    assert!(!c.contains(9, 15));
    assert!(!c.contains(-11, 5));
    assert!(!c.contains(0, 4));
}

#[test]
fn window_pixels() {
    let mut w = Window::new("test".to_string(), Coordinates::new(0, 0, 4, 3));
    assert_eq!(w.name(), "test");
    assert_eq!(w.width(), 4);
    assert_eq!(w.height(), 3);
    assert_eq!(w.buffer.len(), 4 * 3 * 4);

    w.write_pixel(1, 2, Colour::new(10, 20, 30));
    let offset = (1 * 4 + 2) * 4;
    assert_eq!(&w.buffer[offset..offset + 4], &[10, 20, 30, 0]);

    // Off-window writes are ignored.
    let before = w.buffer.clone();
    w.write_pixel(-1, 0, Colour::new(1, 1, 1));
    w.write_pixel(0, 4, Colour::new(1, 1, 1));
    w.write_pixel(3, 0, Colour::new(1, 1, 1));
    assert_eq!(w.buffer, before);
}

#[test]
fn window_rows() {
    let mut w = Window::new("rows".to_string(), Coordinates::new(0, 0, 2, 3));
    w.write_row(1, Colour::new(9, 8, 7));
    assert_eq!(
        &w.buffer[8..16],
        &[9, 8, 7, 0, 9, 8, 7, 0]
    );
    // Other rows stay black.
    assert!(w.buffer[0..8].iter().all(|&b| b == 0));
    assert!(w.buffer[16..24].iter().all(|&b| b == 0));

    w.copy_row(1, 2);
    assert_eq!(&w.buffer[16..24], &[9, 8, 7, 0, 9, 8, 7, 0]);
    assert!(w.buffer[0..8].iter().all(|&b| b == 0));

    w.clear(Colour::new(1, 2, 3));
    for pixel in w.buffer.chunks(4) {
        assert_eq!(pixel, &[1, 2, 3, 0]);
    }
}

#[test]
fn page_table_ppn_drops_the_page_offset() {
    assert_eq!(PageTable::ppn(0x8020_3000), 0x8020_3);
    assert_eq!(PageTable::ppn(0xfff), 0);
}

#[test]
fn identity_map_covers_the_first_four_giga_pages() {
    let mut table = PageTable::new();
    assert_eq!(table.entries.len(), TABLE_ENTRIES);
    table.setup_identity_map();
    for i in 0..4u64 {
        let entry = table.entries[i as usize];
        assert!(entry.valid());
        assert!(!entry.next_level());
        let addr = entry.as_physical_addr().unwrap();
        assert_eq!(addr.as_u64(), i << 30);
    }
    for i in 4..TABLE_ENTRIES {
        assert_eq!(table.entries[i].0, 0);
    }
}

#[test]
fn entry_ppn_setters_round_trip() {
    let mut e = PageTableEntry(0);
    e.set_ppn_0(0x1a5);
    e.set_ppn_1(0x0f3);
    e.set_ppn_2(0x2b_cdef);
    e.set_valid(true);
    let addr = e.as_physical_addr().unwrap();
    assert_eq!(addr.ppn_0(), 0x1a5);
    assert_eq!(addr.ppn_1(), 0x0f3);
    assert_eq!(addr.ppn_2(), 0x2b_cdef);
}
