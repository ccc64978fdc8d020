use zapzap::bake::{pack, paeth, unpack};

fn sample(stride: usize, height: usize, seed: u32) -> Vec<u8> {
    let mut state = seed;
    (0..stride * height)
        .map(|i| {
            state = state.wrapping_mul(1_103_515_245).wrapping_add(12_345);
            match i % 7 {
                0 | 1 => 0,
                2 => 255,
                3 => (state >> 24) as u8,
                _ => ((i * 37) % 256) as u8,
            }
        })
        .collect()
}

#[test]
fn paeth_picks_the_nearest_neighbour() {
    assert_eq!(paeth(10, 20, 10), 20);
    assert_eq!(paeth(20, 10, 10), 20);
    assert_eq!(paeth(0, 0, 0), 0);
    assert_eq!(paeth(100, 50, 90), 50);
    assert_eq!(paeth(5, 5, 200), 5);
}

#[test]
fn packed_bitmaps_unpack_to_themselves() {
    for (stride, height, seed) in [(1, 1, 1), (3, 4, 7), (12, 9, 42), (30, 20, 5), (64, 3, 99)] {
        let coverage = sample(stride, height, seed);
        let packed = pack(stride, height, &coverage);
        assert_eq!(unpack(stride, height, &packed), coverage);
    }
}

#[test]
fn an_empty_bitmap_is_one_run_of_zeros_per_64_bytes() {
    let coverage = vec![0u8; 100];
    let packed = pack(10, 10, &coverage);
    assert_eq!(packed, vec![63, 35]);
    assert_eq!(unpack(10, 10, &packed), coverage);
}

#[test]
fn small_differences_go_into_nibbles() {
    let coverage = vec![1u8, 2, 3, 4, 5, 6];
    let packed = pack(6, 1, &coverage);
    // Every byte is one more than its left neighbour: six differences of 1, then... the first is 1 too.
    assert_eq!(packed[0], 0x40 | 3);
    assert_eq!(unpack(6, 1, &packed), coverage);
}

#[test]
fn the_window_unpacks_into_its_buffer() {
    let coverage = sample(9, 5, 3);
    let packed = pack(9, 5, &coverage);
    let mut out = vec![0u8; 45];
    zapzap::pack::unpack(&packed, 9, &mut out);
    assert_eq!(out, coverage);
}

#[test]
fn bytes_after_the_packed_stream_are_not_read() {
    let cov = sample(9, 5, 3);
    let mut packed = pack(9, 5, &cov);
    packed.extend_from_slice(&[0xFF, 0x40, 0x00, 0x7F]);
    assert_eq!(unpack(9, 5, &packed), cov);
    let mut out = vec![0u8; 45];
    zapzap::pack::unpack(&packed, 9, &mut out);
    assert_eq!(out, cov);
}
