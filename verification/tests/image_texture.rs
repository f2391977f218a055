use path_tracer::image_texture::ImageTexture;

fn two_by_two() -> ImageTexture {
    // (0,0) red, (1,0) green, (0,1) blue, (1,1) white
    ImageTexture::new(2, 2, vec![255, 0, 0, 0, 255, 0, 0, 0, 255, 255, 255, 255])
}

#[test]
fn texture_over_an_image_is_loaded() {
    let t = two_by_two();
    assert!(t.is_loaded());
    assert_eq!(t.width(), 2);
    assert_eq!(t.height(), 2);
}

#[test]
fn missing_texture_has_no_size_and_no_texel() {
    let t = ImageTexture::missing();
    assert!(!t.is_loaded());
    assert_eq!(t.width(), 0);
    assert_eq!(t.height(), 0);
    assert_eq!(t.texel(0, 0), None);
}

#[test]
fn bytes_that_are_no_image_give_the_missing_texture() {
    assert!(!ImageTexture::new(0, 2, vec![]).is_loaded());
    assert!(!ImageTexture::new(2, 0, vec![]).is_loaded());
    assert!(!ImageTexture::new(2, 2, vec![0; 11]).is_loaded());
    assert!(!ImageTexture::new(2, 2, vec![0; 13]).is_loaded());
    assert!(!ImageTexture::new(u32::MAX, u32::MAX, vec![0; 3]).is_loaded());
    assert_eq!(ImageTexture::new(2, 2, vec![0; 11]).width(), 0);
}

#[test]
fn texel_reads_row_major_rgb() {
    let t = two_by_two();
    assert_eq!(t.texel(0, 0), Some((255, 0, 0)));
    assert_eq!(t.texel(1, 0), Some((0, 255, 0)));
    assert_eq!(t.texel(0, 1), Some((0, 0, 255)));
    assert_eq!(t.texel(1, 1), Some((255, 255, 255)));
}

#[test]
fn texel_past_the_edge_falls_on_the_last_column_and_row() {
    let t = two_by_two();
    assert_eq!(t.texel(2, 0), Some((0, 255, 0)));
    assert_eq!(t.texel(0, 2), Some((0, 0, 255)));
    assert_eq!(t.texel(u32::MAX, u32::MAX), Some((255, 255, 255)));
}

#[test]
fn texel_of_a_wide_image() {
    let mut rgb = Vec::new();
    for j in 0..3u8 {
        for i in 0..5u8 {
            rgb.extend_from_slice(&[i, j, 10 * j + i]);
        }
    }
    let t = ImageTexture::new(5, 3, rgb);
    assert_eq!(t.texel(4, 2), Some((4, 2, 24)));
    assert_eq!(t.texel(3, 1), Some((3, 1, 13)));
    assert_eq!(t.texel(9, 1), Some((4, 1, 14)));
}
