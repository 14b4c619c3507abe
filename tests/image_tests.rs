use emoji_builder::image::{bgra_to_rgba, enlarge_to};

#[test]
fn test_rgba() {
    let mut bgra: Vec<u8> = vec![0, 42, 17, 21, 1, 2, 3, 4, 5, 6, 7, 8];
    bgra_to_rgba(&mut bgra);
    let rgba: Vec<u8> = vec![17, 42, 0, 21, 3, 2, 1, 4, 7, 6, 5, 8];
    assert_eq!(rgba, bgra);
}

#[test]
fn enlarge_centres_the_image() {
    let pixel = [1, 2, 3, 4];
    let out = enlarge_to(&pixel, 1, 1, 3, 3);
    let mut expected = vec![0u8; 36];
    expected[16..20].copy_from_slice(&pixel);
    assert_eq!(out, expected);
}

#[test]
fn enlarge_odd_padding_goes_right_and_down() {
    let pixel = [9, 9, 9, 9];
    let out = enlarge_to(&pixel, 1, 1, 2, 2);
    assert_eq!(out.len(), 16);
    assert_eq!(&out[0..4], &pixel);
    assert!(out[4..].iter().all(|b| *b == 0));
}

#[test]
fn enlarge_to_same_size_copies() {
    let image: Vec<u8> = (0..16).collect();
    assert_eq!(enlarge_to(&image, 2, 2, 2, 2), image);
}
