use tinyrenderer::img::{texture_from_raw, Img};

#[test]
fn new_image_is_black_and_sized() {
    let img = Img::new(4, 3);
    assert_eq!(img.width(), 4);
    assert_eq!(img.height(), 3);
    for x in 0..4 {
        for y in 0..3 {
            assert_eq!(img.get(x, y), (0, 0, 0));
        }
    }
}

#[test]
fn set_writes_inside_and_ignores_outside() {
    let mut img = Img::new(3, 2);
    img.set(2, 1, (10, 20, 30));
    img.set(3, 0, (1, 1, 1));
    img.set(0, 2, (1, 1, 1));
    img.set(u32::MAX, u32::MAX, (1, 1, 1));
    assert_eq!(img.get(2, 1), (10, 20, 30));
    for x in 0..3 {
        for y in 0..2 {
            if (x, y) != (2, 1) {
                assert_eq!(img.get(x, y), (0, 0, 0));
            }
        }
    }
}

#[test]
fn set_then_read_back() {
    let mut img = Img::new(2, 2);
    img.set(1, 0, (255, 0, 0));
    img.set(1, 0, (0, 255, 0));
    assert_eq!(img.get(1, 0), (0, 255, 0));
}

#[test]
fn flip_vertical_moves_rows() {
    let mut img = Img::new(2, 3);
    img.set(1, 0, (255, 0, 0));
    img.set(0, 1, (0, 0, 255));
    img.flip_vertical();
    assert_eq!(img.get(1, 2), (255, 0, 0));
    assert_eq!(img.get(0, 1), (0, 0, 255));
    assert_eq!(img.get(1, 0), (0, 0, 0));
    assert_eq!(img.width(), 2);
    assert_eq!(img.height(), 3);
}

#[test]
fn flip_vertical_twice_restores() {
    let mut img = Img::new(3, 4);
    img.set(0, 0, (1, 2, 3));
    img.set(2, 3, (4, 5, 6));
    img.set(1, 1, (7, 8, 9));
    img.flip_vertical();
    img.flip_vertical();
    assert_eq!(img.get(0, 0), (1, 2, 3));
    assert_eq!(img.get(2, 3), (4, 5, 6));
    assert_eq!(img.get(1, 1), (7, 8, 9));
    assert_eq!(img.get(0, 3), (0, 0, 0));
}

#[test]
fn raw_samples_are_row_major_rgb() {
    let mut img = Img::new(2, 2);
    img.set(1, 0, (1, 2, 3));
    img.set(0, 1, (4, 5, 6));
    let raw = img.into_raw();
    assert_eq!(raw, vec![0, 0, 0, 1, 2, 3, 4, 5, 6, 0, 0, 0]);
}

#[test]
fn texture_from_samples() {
    let data: Vec<u8> = (0..12).collect();
    let tex = texture_from_raw(2, 2, data).unwrap();
    assert_eq!(tex.get(0, 0), (0, 1, 2));
    assert_eq!(tex.get(1, 0), (3, 4, 5));
    assert_eq!(tex.get(0, 1), (6, 7, 8));
    assert_eq!(tex.get(1, 1), (9, 10, 11));
}

#[test]
fn texture_from_too_few_samples_is_refused() {
    assert!(texture_from_raw(2, 2, vec![0; 11]).is_none());
    assert!(texture_from_raw(1024, 1024, Vec::new()).is_none());
    assert!(texture_from_raw(0, 5, Vec::new()).is_some());
}

fn tga(width: u16, height: u16, bits: u8, descriptor: u8, pixels: &[u8]) -> Vec<u8> {
    let mut v = vec![0u8, 0, 2, 0, 0, 0, 0, 0, 0, 0, 0, 0];
    v.extend_from_slice(&width.to_le_bytes());
    v.extend_from_slice(&height.to_le_bytes());
    v.push(bits);
    v.push(descriptor);
    v.extend_from_slice(pixels);
    v
}

#[test]
fn read_texture_decodes_tga() {
    // 2 x 2, top-left origin, pixels stored blue-green-red
    let bytes = tga(2, 2, 24, 0x20, &[3, 2, 1, 6, 5, 4, 9, 8, 7, 12, 11, 10]);
    let tex = tinyrenderer::img::read_texture(&bytes);
    assert_eq!(tex.width(), 2);
    assert_eq!(tex.height(), 2);
    assert_eq!(tex.get(0, 0), (1, 2, 3));
    assert_eq!(tex.get(1, 0), (4, 5, 6));
    assert_eq!(tex.get(0, 1), (7, 8, 9));
    assert_eq!(tex.get(1, 1), (10, 11, 12));
}

#[test]
fn read_texture_of_rgba_reads_samples_as_rgb() {
    let bytes = tga(2, 1, 32, 0x28, &[3, 2, 1, 255, 6, 5, 4, 255]);
    let tex = tinyrenderer::img::try_read_texture(&bytes).unwrap();
    assert_eq!(tex.get(0, 0), (1, 2, 3));
    assert_eq!(tex.get(1, 0), (255, 4, 5));
}

#[test]
fn read_texture_refuses_what_does_not_decode() {
    assert!(tinyrenderer::img::try_read_texture(&[]).is_none());
    assert!(tinyrenderer::img::try_read_texture(&[1, 2, 3, 4, 5]).is_none());
    let short = tga(4, 4, 24, 0x20, &[0, 0, 0]);
    assert!(tinyrenderer::img::try_read_texture(&short).is_none());
}

#[test]
fn encode_png_round_trips() {
    let mut img = Img::new(3, 2);
    img.set(0, 0, (255, 0, 0));
    img.set(2, 1, (1, 2, 3));
    let png = img.encode_png().unwrap();
    assert_eq!(&png[1..4], b"PNG");
    let back = image::load_from_memory(&png).unwrap().to_rgb8();
    assert_eq!(back.dimensions(), (3, 2));
    assert_eq!(back.get_pixel(0, 0).0, [255, 0, 0]);
    assert_eq!(back.get_pixel(2, 1).0, [1, 2, 3]);
    assert_eq!(back.get_pixel(1, 1).0, [0, 0, 0]);
}

#[test]
fn texture_from_decoded_samples() {
    let tex = tinyrenderer::img::texture_from_decoded(1, 2, 3, 3, vec![1, 2, 3, 4, 5, 6]);
    assert_eq!(tex.get(0, 0), (1, 2, 3));
    assert_eq!(tex.get(0, 1), (4, 5, 6));
    let empty = tinyrenderer::img::texture_from_decoded(0, 7, 6, 3, vec![1, 2, 3]);
    assert_eq!(empty.width(), 0);
    assert_eq!(empty.height(), 7);
}

#[test]
fn grey_texture_is_refused() {
    let mut v = vec![0u8, 0, 3, 0, 0, 0, 0, 0, 0, 0, 0, 0, 2, 0, 2, 0, 8, 0x20];
    v.extend_from_slice(&[1, 2, 3, 4]);
    assert!(tinyrenderer::img::try_read_texture(&v).is_none());
}
