use pathtracer::texture::ImageTexture;

fn picture() -> ImageTexture {
    // Two rows of three texels; texel (i, j) holds (10 * j + i, 100 + i, 200 + j).
    let mut data = Vec::new();
    for j in 0..2u8 {
        for i in 0..3u8 {
            data.push(10 * j + i);
            data.push(100 + i);
            data.push(200 + j);
        }
    }
    ImageTexture::from(3, 2, data)
}

#[test]
fn new_texture_is_empty_and_black() {
    let t = ImageTexture::new();
    assert_eq!(t.dimensions(), (0, 0));
    assert_eq!(t.bytes_per_pixel(), 3);
    assert_eq!(t.texel(0, 0), (0, 0, 0));
    assert_eq!(t.texel(17, 4), (0, 0, 0));
}

#[test]
fn texel_reads_three_bytes_at_its_place() {
    let t = picture();
    assert_eq!(t.dimensions(), (3, 2));
    assert_eq!(t.bytes_per_pixel(), 3);
    assert_eq!(t.texel(0, 0), (0, 100, 200));
    assert_eq!(t.texel(2, 0), (2, 102, 200));
    assert_eq!(t.texel(0, 1), (10, 100, 201));
    assert_eq!(t.texel(1, 1), (11, 101, 201));
    assert_eq!(t.texel(2, 1), (12, 102, 201));
}

#[test]
fn texel_beyond_the_edge_is_the_last_one() {
    let t = picture();
    assert_eq!(t.texel(3, 0), (2, 102, 200));
    assert_eq!(t.texel(0, 2), (10, 100, 201));
    assert_eq!(t.texel(99, 99), (12, 102, 201));
    assert_eq!(t.texel(usize::MAX, usize::MAX), (12, 102, 201));
}

#[test]
fn data_of_the_wrong_size_gives_a_black_texture() {
    for (w, h, n) in [
        (3usize, 2usize, 17usize),
        (3, 2, 19),
        (3, 2, 0),
        (3, 2, 6),
        (3, 2, 24),
        (0, 2, 0),
        (3, 0, 0),
        (0, 0, 5),
        (usize::MAX, 2, 6),
        (usize::MAX / 2, 3, 6),
    ] {
        let t = ImageTexture::from(w, h, vec![255u8; n]);
        assert_eq!(t.dimensions(), (0, 0));
        assert_eq!(t.texel(0, 0), (0, 0, 0));
        assert_eq!(t.texel(1, 1), (0, 0, 0));
    }
}

/// Decodes with the outside decoder, asked for three bytes per texel, and
/// hands what it returns to the library.
fn decoded(bytes: &[u8]) -> ImageTexture {
    match stb_image::image::load_from_memory_with_depth(bytes, 3, false) {
        stb_image::image::LoadResult::ImageU8(v) => ImageTexture::from(v.width, v.height, v.data),
        _ => ImageTexture::new(),
    }
}

fn encoded() -> Vec<u8> {
    // A binary pixmap of two columns and three rows.
    let mut bytes = b"P6\n2 3\n255\n".to_vec();
    for n in 0..18u8 {
        bytes.push(10 * n);
    }
    bytes
}

#[test]
fn decoded_picture_has_three_bytes_per_texel() {
    let t = decoded(&encoded());
    assert_eq!(t.dimensions(), (2, 3));
    assert_eq!(t.texel(0, 0), (0, 10, 20));
    assert_eq!(t.texel(1, 0), (30, 40, 50));
    assert_eq!(t.texel(0, 1), (60, 70, 80));
    assert_eq!(t.texel(1, 2), (150, 160, 170));
    assert_eq!(t.texel(5, 9), (150, 160, 170));
}

#[test]
fn decoded_grey_picture_is_spread_over_three_channels() {
    let mut bytes = b"P5\n2 1\n255\n".to_vec();
    bytes.push(7);
    bytes.push(200);
    let t = decoded(&bytes);
    assert_eq!(t.dimensions(), (2, 1));
    assert_eq!(t.texel(0, 0), (7, 7, 7));
    assert_eq!(t.texel(1, 0), (200, 200, 200));
}

#[test]
fn what_is_no_picture_gives_a_black_texture() {
    for bytes in [&b""[..], &b"no picture at all"[..], &b"P6\n0 0\n255\n"[..]] {
        let t = decoded(bytes);
        assert_eq!(t.dimensions(), (0, 0));
        assert_eq!(t.texel(0, 0), (0, 0, 0));
    }
}
