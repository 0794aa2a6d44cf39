use renderer::{Buffer, Ray, Rgba};

#[test]
fn named_colours() {
    assert_eq!(Rgba::black(), Rgba { r: 0, g: 0, b: 0, a: 255 });
    assert_eq!(Rgba::white(), Rgba { r: 255, g: 255, b: 255, a: 255 });
    assert_eq!(Rgba::new(1, 2, 3, 4), Rgba { r: 1, g: 2, b: 3, a: 4 });
}

#[test]
fn from_u32_rgba_reads_little_endian_bytes() {
    assert_eq!(Rgba::from_u32_rgba(0x4433_2211), Rgba::new(0x11, 0x22, 0x33, 0x44));
}

#[test]
fn from_u32_reads_argb() {
    assert_eq!(Rgba::from(0xAA11_2233u32), Rgba::new(0x11, 0x22, 0x33, 0xAA));
}

#[test]
fn new_fills_every_pixel() {
    let red = Rgba::new(255, 0, 0, 255);
    let buf = Buffer::new(3, 2, red);
    assert_eq!(buf.width(), 3);
    assert_eq!(buf.height(), 2);
    assert_eq!(buf.inner_buf().len(), 6);
    assert!(buf.iter().all(|p| *p == red));
}

#[test]
fn new_with_fills_row_by_row() {
    let buf = Buffer::new_with(3, 2, |x, y| Rgba::new(x as u8, y as u8, 0, 255));
    let got: Vec<(u8, u8)> = buf.inner_buf().iter().map(|p| (p.r, p.g)).collect();
    assert_eq!(got, vec![(0, 0), (1, 0), (2, 0), (0, 1), (1, 1), (2, 1)]);
}

#[test]
fn get_inside_and_outside() {
    let buf = Buffer::new_with(2, 2, |x, y| Rgba::new(x as u8, y as u8, 7, 255));
    assert_eq!(buf.get(1, 0), Some(Rgba::new(1, 0, 7, 255)));
    assert_eq!(buf.get(2, 0), None);
    assert_eq!(buf.get(0, 2), None);
}

#[test]
fn set_and_get_mut() {
    let mut buf = Buffer::new(2, 3, Rgba::black());
    buf.set(1, 2, Rgba::white());
    assert_eq!(buf.get(1, 2), Some(Rgba::white()));
    assert_eq!(buf.inner_buf()[5], Rgba::white());
    if let Some(p) = buf.get_mut(0, 1) {
        p.g = 9;
    }
    assert_eq!(buf.get(0, 1).unwrap().g, 9);
    assert!(buf.get_mut(2, 0).is_none());
}

#[test]
fn iter_mut_changes_pixels() {
    let mut buf = Buffer::new(2, 1, Rgba::black());
    for p in buf.iter_mut() {
        p.b = 5;
    }
    assert!(buf.inner_buf().iter().all(|p| p.b == 5));
    buf.inner_buf_mut()[0] = Rgba::white();
    assert_eq!(buf.get(0, 0), Some(Rgba::white()));
}

#[test]
fn iter_pos_gives_positions() {
    let buf = Buffer::new_with(2, 2, |x, y| Rgba::new(x as u8, y as u8, 0, 0));
    let got: Vec<(usize, usize, u8, u8)> =
        buf.iter_pos().into_iter().map(|(x, y, p)| (x, y, p.r, p.g)).collect();
    assert_eq!(got, vec![(0, 0, 0, 0), (1, 0, 1, 0), (0, 1, 0, 1), (1, 1, 1, 1)]);
}

#[test]
fn resize_keeps_same_dimensions() {
    let mut buf = Buffer::new(2, 2, Rgba::white());
    buf.resize(2, 2);
    assert!(buf.iter().all(|p| *p == Rgba::white()));
}

#[test]
fn resize_to_new_dimensions_is_black() {
    let mut buf = Buffer::new(2, 2, Rgba::white());
    buf.resize(3, 1);
    assert_eq!(buf.width(), 3);
    assert_eq!(buf.height(), 1);
    assert_eq!(buf.inner_buf().len(), 3);
    assert!(buf.iter().all(|p| *p == Rgba::black()));
}

#[test]
fn resize_and_fill_uses_callback() {
    let mut buf = Buffer::new(1, 1, Rgba::white());
    buf.resize_and_fill(2, 2, |x, y| Rgba::new((x + 2 * y) as u8, 0, 0, 1));
    let got: Vec<u8> = buf.iter().map(|p| p.r).collect();
    assert_eq!(got, vec![0, 1, 2, 3]);
}

#[test]
fn as_rgba_packs_argb() {
    let buf = Buffer::new(2, 1, Rgba::new(0x11, 0x22, 0x33, 0x44));
    assert_eq!(buf.as_rgba(), vec![0x4411_2233, 0x4411_2233]);
    assert_eq!(Rgba::from(buf.as_rgba()[0]), Rgba::new(0x11, 0x22, 0x33, 0x44));
}

#[test]
fn empty_buffer() {
    let buf = Buffer::new(0, 5, Rgba::black());
    assert!(buf.inner_buf().is_empty());
    assert!(buf.iter_pos().is_empty());
    assert_eq!(buf.get(0, 0), None);
}

#[test]
fn ray_keeps_origin_and_direction() {
    let ray = Ray::new((1, 2, 3), (0, 0, 1));
    assert_eq!(*ray.origin(), (1, 2, 3));
    assert_eq!(*ray.direction(), (0, 0, 1));
}

#[test]
fn dimensions_are_width_and_height() {
    let buf = Buffer::new(4, 3, Rgba::black());
    assert_eq!(buf.dimensions(), (4, 3));
}
