use mandelbrot::bytes::{rgb_bytes, rgb_triples};

#[test]
fn rgb_triples_keep_channel_order() {
    assert_eq!(
        rgb_triples(&[(1, 2, 3), (4, 5, 6)]),
        vec![[1u8, 2, 3], [4, 5, 6]]
    );
    assert!(rgb_triples(&[]).is_empty());
}

#[test]
fn rgb_bytes_are_three_for_each_pixel() {
    assert_eq!(
        rgb_bytes(&[(1, 2, 3), (4, 5, 6), (40, 40, 40)]),
        vec![1u8, 2, 3, 4, 5, 6, 40, 40, 40]
    );
    assert_eq!(rgb_bytes(&[(255, 74, 1)]), vec![255u8, 74, 1]);
    assert!(rgb_bytes(&[]).is_empty());
}
