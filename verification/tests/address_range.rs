use goose::hal_core::mm::{align_down, align_up};
use goose::hal_core::AddressRange;

#[test]
fn align_up_rounds_to_next_page() {
    assert_eq!(align_up(0x1042, 0x1000), 0x2000);
    assert_eq!(align_up(0x1000, 0x1000), 0x1000);
    assert_eq!(align_up(0, 0x1000), 0);
}

#[test]
fn align_down_is_one_page_above_align_up() {
    assert_eq!(align_down(0x1042, 0x1000), 0x3000);
    assert_eq!(align_down(0x1000, 0x1000), 0x2000);
}

#[test]
fn arch_alignment_helpers_use_4k_pages() {
    assert_eq!(goose::hal_riscv64::mm::align_up(0x1001), 0x2000);
    assert_eq!(goose::hal_riscv64::mm::align_down(0x1001), 0x3000);
    assert_eq!(goose::hal_aarch64::mm::align_up(0x1fff), 0x2000);
    assert_eq!(goose::hal_aarch64::mm::align_down(0x1fff), 0x3000);
}

#[test]
fn address_range_new_and_size() {
    let r = AddressRange::new(0x1000..0x3000);
    assert_eq!(r.start, 0x1000);
    assert_eq!(r.end, 0x3000);
    assert_eq!(r.size(), 0x2000);
}

#[test]
fn address_range_with_size() {
    let r = AddressRange::with_size(0x4000, 0x800);
    assert_eq!(r, AddressRange { start: 0x4000, end: 0x4800 });
}

#[test]
fn address_range_contains_is_half_open() {
    let r = AddressRange::new(0x1000..0x2000);
    assert!(r.contains(0x1000));
    assert!(r.contains(0x1fff));
    assert!(!r.contains(0x2000));
    assert!(!r.contains(0xfff));
}

#[test]
fn address_range_round_up_to_page() {
    let r = AddressRange::new(0x1000..0x1800).round_up_to_page(0x1000);
    assert_eq!(r, AddressRange { start: 0x1000, end: 0x2000 });
}

#[test]
fn address_range_count_pages() {
    assert_eq!(AddressRange::new(0x1000..0x2800).count_pages(0x1000), 2);
    assert_eq!(AddressRange::new(0x1000..0x3000).count_pages(0x1000), 2);
    assert_eq!(AddressRange::new(0x1000..0x1001).count_pages(0x1000), 1);
}

#[test]
fn address_range_iter_pages() {
    let pages = AddressRange::new(0x1000..0x3000).iter_pages(0x1000);
    assert_eq!(pages, vec![0x1000, 0x2000]);
    let pages = AddressRange::new(0x1800..0x3000).iter_pages(0x1000);
    assert_eq!(pages, vec![0x1800, 0x2800]);
}


#[test]
fn align_up_at_the_top_of_memory() {
    assert_eq!(align_up(usize::MAX - 0xfff, 0x1000), usize::MAX - 0xfff);
    assert_eq!(align_up(usize::MAX - 0x1fff + 1, 0x1000), usize::MAX - 0xfff);
}

#[test]
fn iter_pages_up_to_the_top_of_memory() {
    let top = usize::MAX - 0xfff;
    let pages = AddressRange::new(top - 0x2000..top).iter_pages(0x1000);
    assert_eq!(pages, vec![top - 0x2000, top - 0x1000]);
    let range = AddressRange::new(0x1000..0x3000).round_up_to_page(0x1000);
    assert_eq!(range.count_pages(0x1000), 2);
}

#[test]
fn iter_pages_of_an_inverted_range_is_empty() {
    let range = AddressRange { start: 0x5000, end: 0x3000 };
    assert!(range.iter_pages(0x1000).is_empty());
}
