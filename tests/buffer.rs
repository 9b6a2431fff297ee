use raytracer::buffer::Buffer;

#[test]
fn new_buffer_is_black_and_sized() {
    let b = Buffer::new(3, 2);
    assert_eq!(b.width(), 3);
    assert_eq!(b.height(), 2);
    for x in 0..3 {
        for y in 0..2 {
            assert_eq!(b.get(x, y), [0, 0, 0]);
        }
    }
    for i in 0..6 {
        assert_eq!(b.get_lin(i), [0, 0, 0]);
    }
}

#[test]
fn cart_and_lin_are_column_major() {
    assert_eq!(Buffer::cart_to_lin(4, 0, 0), 0);
    assert_eq!(Buffer::cart_to_lin(4, 0, 3), 3);
    assert_eq!(Buffer::cart_to_lin(4, 2, 1), 9);
    assert_eq!(Buffer::lin_to_cart(4, 9), (2, 1));
    assert_eq!(Buffer::lin_to_cart(4, 3), (0, 3));
    for idx in 0..20 {
        let (x, y) = Buffer::lin_to_cart(5, idx);
        assert_eq!(Buffer::cart_to_lin(5, x, y), idx);
    }
}

#[test]
fn get_mut_writes_one_pixel() {
    let mut b = Buffer::new(2, 3);
    *b.get_mut(1, 2) = [10, 20, 30];
    assert_eq!(b.get(1, 2), [10, 20, 30]);
    assert_eq!(b.get_lin(Buffer::cart_to_lin(3, 1, 2)), [10, 20, 30]);
    assert_eq!(b.get(0, 2), [0, 0, 0]);
    assert_eq!(b.get(1, 1), [0, 0, 0]);
}

#[test]
fn get_lin_mut_writes_one_pixel() {
    let mut b = Buffer::new(2, 2);
    *b.get_lin_mut(1) = [1, 2, 3];
    assert_eq!(b.get(0, 1), [1, 2, 3]);
    assert_eq!(b.get(1, 0), [0, 0, 0]);
}

fn sample_buffer() -> Buffer {
    // 2 columns, 2 rows
    let mut b = Buffer::new(2, 2);
    *b.get_mut(0, 0) = [255, 0, 0];
    *b.get_mut(1, 0) = [0, 255, 0];
    *b.get_mut(0, 1) = [0, 0, 255];
    *b.get_mut(1, 1) = [7, 80, 100];
    b
}

#[test]
fn binary_ppm_is_header_then_rows() {
    let b = sample_buffer();
    let mut out = Vec::new();
    b.write_binary_ppm(&mut out);
    let mut expected = b"P6\n2 2 255\n".to_vec();
    expected.extend_from_slice(&[255, 0, 0, 0, 255, 0, 0, 0, 255, 7, 80, 100]);
    assert_eq!(out, expected);
}

#[test]
fn binary_ppm_appends_to_what_is_there() {
    let b = Buffer::new(1, 1);
    let mut out = vec![42u8];
    b.write_binary_ppm(&mut out);
    assert_eq!(out, b"*P6\n1 1 255\n\0\0\0".to_vec());
}

#[test]
fn ascii_ppm_is_one_line_per_pixel() {
    let b = sample_buffer();
    let mut out = Vec::new();
    b.write_ascii_ppm(&mut out);
    let text = String::from_utf8(out).unwrap();
    assert_eq!(text, "P3\n2 2 255\n255 0 0\n0 255 0\n0 0 255\n7 80 100\n");
}

#[test]
fn empty_buffer_ppm_is_header_only() {
    let b = Buffer::new(0, 5);
    let mut out = Vec::new();
    b.write_ascii_ppm(&mut out);
    assert_eq!(out, b"P3\n0 5 255\n".to_vec());
    let mut bin = Vec::new();
    b.write_binary_ppm(&mut bin);
    assert_eq!(bin, b"P6\n0 5 255\n".to_vec());
}

#[test]
fn ppm_header_of_large_sizes() {
    let b = Buffer::new(1280, 1);
    let mut out = Vec::new();
    b.write_binary_ppm(&mut out);
    assert_eq!(&out[..14], b"P6\n1280 1 255\n");
    assert_eq!(out.len(), 14 + 3 * 1280);
}

#[test]
fn fill_with_sets_each_pixel_from_its_coordinates() {
    let mut b = Buffer::new(3, 2);
    b.fill_with(|x, y| [x as u8, y as u8, (10 * x + y) as u8]);
    for x in 0..3u32 {
        for y in 0..2u32 {
            assert_eq!(b.get(x, y), [x as u8, y as u8, (10 * x + y) as u8]);
        }
    }
    let mut out = Vec::new();
    b.write_ascii_ppm(&mut out);
    assert_eq!(
        String::from_utf8(out).unwrap(),
        "P3\n3 2 255\n0 0 0\n1 0 10\n2 0 20\n0 1 1\n1 1 11\n2 1 21\n"
    );
}

#[test]
fn fill_with_on_empty_buffer_does_nothing() {
    let mut b = Buffer::new(0, 0);
    b.fill_with(|_, _| panic!("no pixel to fill"));
    assert_eq!(b.width(), 0);
}
