use rt::bands::{place_rows, row_bands};
use rt::ppm::{write_ppm, Rgb8};
use rt::texture::checker_uses_first;

#[test]
fn ppm_text() {
    let px = [Rgb8 { r: 255, g: 0, b: 7 }, Rgb8 { r: 10, g: 128, b: 0 }];
    assert_eq!(write_ppm(&px, 2, 1), "P3\n2 1\n255\n255 0 7\n10 128 0\n");
    assert_eq!(write_ppm(&[], 0, 0), "P3\n0 0\n255\n");
}

#[test]
fn ppm_has_one_line_per_pixel() {
    let px = vec![Rgb8 { r: 1, g: 2, b: 3 }; 12];
    let text = write_ppm(&px, 4, 3);
    assert_eq!(text.lines().count(), 3 + 12);
    assert!(text.starts_with("P3\n4 3\n255\n"));
}

#[test]
fn bands_examples() {
    assert_eq!(row_bands(10, 4), vec![(0, 3), (3, 6), (6, 9), (9, 10)]);
    assert_eq!(row_bands(2, 8), vec![(0, 1), (1, 2)]);
    assert_eq!(row_bands(600, 1), vec![(0, 600)]);
    assert_eq!(row_bands(0, 3), vec![]);
    assert_eq!(row_bands(9, 3), vec![(0, 3), (3, 6), (6, 9)]);
    assert_eq!(row_bands(7, 3), vec![(0, 3), (3, 6), (6, 7)]);
}

#[test]
fn bands_cover_every_row_once() {
    for h in 0..40usize {
        for n in 1..12usize {
            let b = row_bands(h, n);
            assert!(b.len() <= n);
            let mut next = 0;
            for &(s, e) in &b {
                assert_eq!(s, next);
                assert!(s < e);
                next = e;
            }
            assert_eq!(next, h);
        }
    }
}

#[test]
fn rows_are_placed() {
    let mut img = vec![0u32; 12];
    place_rows(&mut img, 1, 4, &vec![5, 6, 7, 8, 9]);
    assert_eq!(img, vec![0, 0, 0, 0, 5, 6, 7, 8, 9, 0, 0, 0]);
    place_rows(&mut img, 0, 4, &vec![]);
    assert_eq!(img, vec![0, 0, 0, 0, 5, 6, 7, 8, 9, 0, 0, 0]);
}

#[test]
fn checker_cells() {
    assert!(checker_uses_first(true, 0, 0));
    assert!(!checker_uses_first(true, 1, 0));
    assert!(!checker_uses_first(true, -1, 0));
    assert!(checker_uses_first(true, -1, -3));
    assert!(checker_uses_first(false, 1, 0));
    for u in -5..5 {
        for v in -5..5 {
            assert_ne!(checker_uses_first(true, u, v), checker_uses_first(true, u + 1, v));
            assert_ne!(checker_uses_first(true, u, v), checker_uses_first(true, u, v + 1));
        }
    }
}
