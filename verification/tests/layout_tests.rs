use arcane::cache::{data_offset, CacheBuf, CacheBufInit, IdentityHasher};
use arcane::radix::{level_mask, level_shift, LazyLen};
use arcane::untyped::{ArcLayout, DataLayout};

#[test]
fn layout_small_payload() {
    let layout = ArcLayout::from_data_layout(DataLayout { size: 12, align: 4 }).unwrap();
    assert_eq!(layout.header_size(), 8);
    let full = layout.full_layout();
    assert_eq!(full.size, 24);
    assert_eq!(full.align, 8);
    let data = layout.data_layout();
    assert_eq!(data.size, 16);
    assert_eq!(data.align, 8);
}

#[test]
fn layout_large_alignment() {
    let layout = ArcLayout::from_data_layout(DataLayout { size: 5, align: 64 }).unwrap();
    // the header pads out to one whole alignment unit
    assert_eq!(layout.header_size(), 64);
    let full = layout.full_layout();
    assert_eq!(full.size, 128);
    assert_eq!(full.align, 64);
}

#[test]
fn layout_overflow_is_an_error() {
    let r = ArcLayout::from_data_layout(DataLayout { size: isize::MAX as usize, align: 8 });
    assert!(r.is_err());
}

#[test]
fn layout_array() {
    let layout = ArcLayout::array(DataLayout { size: 4, align: 4 }, 10).unwrap();
    assert_eq!(layout.header_size(), 8);
    assert_eq!(layout.full_layout().size, 48);
    assert!(ArcLayout::array(DataLayout { size: 8, align: 8 }, usize::MAX / 2).is_err());
}

#[test]
fn entries_sit_behind_the_length_word() {
    assert_eq!(data_offset(DataLayout { size: 4, align: 4 }), 8);
    assert_eq!(data_offset(DataLayout { size: 1, align: 1 }), 8);
    assert_eq!(data_offset(DataLayout { size: 32, align: 16 }), 16);
}

#[test]
fn identity_hasher_words() {
    let mut hasher = IdentityHasher::new();
    hasher.write_u64(0xdead_beef);
    assert_eq!(hasher.finish(), 0xdead_beef);
    hasher.write_u8(0xab);
    assert_eq!(hasher.finish(), (0xdead_beefu64 >> 8) | (0xab << 56));
    let mut hasher = IdentityHasher::new();
    hasher.write_u32(0x1234_5678);
    assert_eq!(hasher.finish(), 0x1234_5678u64 << 32);
    let mut hasher = IdentityHasher::new();
    hasher.write_u16(0xbeef);
    assert_eq!(hasher.finish(), 0xbeefu64 << 48);
}

#[test]
fn identity_hasher_slices() {
    // at least eight bytes: the last eight, read little-endian
    let mut hasher = IdentityHasher::new();
    hasher.write(&[9, 1, 2, 3, 4, 5, 6, 7, 8]);
    assert_eq!(
        hasher.finish(),
        u64::from_le_bytes([1, 2, 3, 4, 5, 6, 7, 8])
    );
    // fewer: shifted in byte by byte from the top
    let mut short = IdentityHasher::new();
    short.write(&[0x11, 0x22]);
    let mut by_hand = IdentityHasher::new();
    by_hand.write_u8(0x11);
    by_hand.write_u8(0x22);
    assert_eq!(short.finish(), by_hand.finish());
    assert_eq!(short.finish(), (0x11u64 << 48) | (0x22u64 << 56));
}

#[test]
fn cache_buf_grow_keeps_entries() {
    let mut buf = CacheBuf::new(CacheBufInit::new(7u32));
    assert_eq!(buf.len(), 0);
    assert_eq!(*buf.get(0), 7);
    // out-of-range reads clamp to the last slot
    assert_eq!(*buf.get(100), 7);
    buf.grow(5, 0);
    assert_eq!(buf.len(), 6);
    assert_eq!(*buf.get(0), 7);
    assert_eq!(*buf.get(5), 0);
    buf.set(5, 99);
    assert_eq!(*buf.get(5), 99);
    buf.grow(20, 0);
    // doubling growth keeps every entry
    assert_eq!(buf.len(), 21);
    assert_eq!(*buf.get(0), 7);
    assert_eq!(*buf.get(5), 99);
    assert_eq!(*buf.get(21), 0);
}

#[test]
fn radix_levels() {
    assert_eq!(level_shift(0), 0);
    assert_eq!(level_shift(1), 6);
    assert_eq!(level_shift(2), 12);
    assert_eq!(level_mask(0), 0x3f);
    assert_eq!(level_mask(1), 0xfff);
    assert_eq!(level_mask(10), u64::MAX);
}

#[test]
fn lazy_len_publishes() {
    let mut len = LazyLen::unknown();
    assert_eq!(len.get(), None);
    len.set(17);
    assert_eq!(len.get(), Some(17));
    len.set(0);
    assert_eq!(len.get(), Some(0));
}
