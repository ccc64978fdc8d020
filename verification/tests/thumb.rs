use zapzap::thumb::shrink;

#[test]
fn a_preview_shrinks_to_fit_the_side() {
    let red: Vec<u8> = (0..100 * 60).flat_map(|_| [255u8, 0, 0]).collect();
    let (width, height, pixels) = shrink(&red, 100, 60, 3).expect("a picture");
    assert_eq!((width, height), (33, 20));
    assert_eq!(pixels.len(), width * height * 2);
    assert_eq!(&pixels[..2], &[0x00, 0xF8]);
}

#[test]
fn a_grey_picture_averages_each_block() {
    // Two columns of 100 and 156: each preview pixel of a 96-wide picture stands for 2x2 pixels.
    let grey: Vec<u8> = (0..96 * 4).map(|i| if i % 2 == 0 { 100 } else { 156 }).collect();
    let (width, height, pixels) = shrink(&grey, 96, 4, 1).expect("a picture");
    assert_eq!((width, height), (48, 2));
    // The average is 128: 16, 32, 16 in five, six and five bits.
    assert_eq!(&pixels[..2], &[0x10, 0x84]);
}

#[test]
fn no_preview_without_pixels() {
    assert!(shrink(&[], 0, 10, 3).is_none());
    assert!(shrink(&[0; 10], 4, 4, 3).is_none());
    assert!(shrink(&[0; 64], 4, 4, 2).is_none());
}
