use photo_grid_print::canvas::Canvas;

fn px(c: &Canvas, x: u32, y: u32) -> [u8; 3] {
    let i = 3 * (y as usize * c.width as usize + x as usize);
    [c.data[i], c.data[i + 1], c.data[i + 2]]
}

/// An image whose pixel (x, y) is (x, y, 7).
fn gradient(w: u32, h: u32) -> Canvas {
    let mut data = Vec::new();
    for y in 0..h {
        for x in 0..w {
            data.extend_from_slice(&[x as u8, y as u8, 7]);
        }
    }
    Canvas { width: w, height: h, data }
}

const WHITE: [u8; 3] = [255, 255, 255];
const RED: [u8; 3] = [255, 0, 0];
const MARK: [u8; 3] = [190, 195, 205];

#[test]
fn filled_canvas_has_one_colour() {
    let c = Canvas::filled(4, 3, [1, 2, 3]);
    assert_eq!((c.width, c.height), (4, 3));
    assert_eq!(c.data.len(), 36);
    for y in 0..3 {
        for x in 0..4 {
            assert_eq!(px(&c, x, y), [1, 2, 3]);
        }
    }
    assert!(Canvas::filled(0, 5, RED).data.is_empty());
}

#[test]
fn put_pixel_changes_one_pixel() {
    let mut c = Canvas::filled(3, 3, WHITE);
    c.put_pixel(1, 2, RED);
    for y in 0..3 {
        for x in 0..3 {
            let expected = if (x, y) == (1, 2) { RED } else { WHITE };
            assert_eq!(px(&c, x, y), expected);
        }
    }
}

#[test]
fn blit_copies_a_rectangle() {
    let src = gradient(5, 5);
    let mut dst = Canvas::filled(4, 4, WHITE);
    dst.blit(&src, 1, 1, 2, 3, 2, 1);
    assert_eq!(px(&dst, 1, 1), [2, 3, 7]);
    assert_eq!(px(&dst, 2, 1), [3, 3, 7]);
    assert_eq!(px(&dst, 1, 2), WHITE);
    assert_eq!(px(&dst, 0, 0), WHITE);
}

#[test]
fn overlay_drops_what_falls_outside() {
    let mut bottom = Canvas::filled(4, 3, WHITE);
    let top = Canvas::filled(3, 2, RED);
    bottom.overlay(&top, 2, 2);
    for y in 0..3 {
        for x in 0..4 {
            let expected = if x >= 2 && y == 2 { RED } else { WHITE };
            assert_eq!(px(&bottom, x, y), expected, "pixel {} {}", x, y);
        }
    }
    let before = bottom.data.clone();
    bottom.overlay(&top, 4, 0);
    assert_eq!(bottom.data, before);
}

#[test]
fn overlay_places_the_top_image_at_its_corner() {
    let mut bottom = Canvas::filled(6, 6, WHITE);
    let top = gradient(2, 3);
    bottom.overlay(&top, 1, 2);
    assert_eq!(px(&bottom, 1, 2), [0, 0, 7]);
    assert_eq!(px(&bottom, 2, 4), [1, 2, 7]);
    assert_eq!(px(&bottom, 3, 4), WHITE);
    assert_eq!(px(&bottom, 1, 5), WHITE);
}

#[test]
fn crop_cuts_down_to_the_image() {
    let img = gradient(4, 3);
    let c = img.crop(1, 1, 2, 2);
    assert_eq!((c.width, c.height), (2, 2));
    assert_eq!(px(&c, 0, 0), [1, 1, 7]);
    assert_eq!(px(&c, 1, 1), [2, 2, 7]);
    let edge = img.crop(3, 1, 5, 5);
    assert_eq!((edge.width, edge.height), (1, 2));
    assert_eq!(px(&edge, 0, 1), [3, 2, 7]);
    let outside = img.crop(9, 9, 2, 2);
    assert_eq!((outside.width, outside.height), (0, 0));
    assert!(outside.data.is_empty());
}

#[test]
fn border_paints_the_edge_band() {
    let mut c = Canvas::filled(5, 4, WHITE);
    c.draw_border(1, [60, 60, 60]);
    for y in 0..4 {
        for x in 0..5 {
            let edge = x == 0 || y == 0 || x == 4 || y == 3;
            let expected = if edge { [60, 60, 60] } else { WHITE };
            assert_eq!(px(&c, x, y), expected);
        }
    }
    let mut thick = Canvas::filled(5, 4, WHITE);
    thick.draw_border(2, RED);
    assert!(thick.data.chunks(3).all(|p| p == RED));
    let mut none = Canvas::filled(5, 4, WHITE);
    none.draw_border(0, RED);
    assert!(none.data.chunks(3).all(|p| p == WHITE));
}

#[test]
fn cut_marks_are_four_l_shapes_at_the_corners() {
    let mut c = Canvas::filled(20, 20, WHITE);
    c.draw_cut_corner_marks(5, 5, 10, 10, 3);
    let marked: Vec<(u32, u32)> = (0..20u32)
        .flat_map(|y| (0..20u32).map(move |x| (x, y)))
        .filter(|&(x, y)| px(&c, x, y) == MARK)
        .collect();
    assert_eq!(marked.len(), 20);
    for p in [(3, 5), (4, 5), (5, 5), (5, 4), (5, 3)] {
        assert!(marked.contains(&p));
    }
    for p in [(15, 5), (16, 5), (17, 5), (15, 4), (15, 3)] {
        assert!(marked.contains(&p));
    }
    for p in [(3, 15), (5, 15), (5, 17), (17, 15), (15, 17)] {
        assert!(marked.contains(&p));
    }
    assert_eq!(px(&c, 6, 6), WHITE);
    assert_eq!(px(&c, 10, 5), WHITE);
}

#[test]
fn cut_marks_are_clipped_at_the_image_edge() {
    let mut c = Canvas::filled(10, 10, WHITE);
    c.draw_cut_corner_marks(1, 1, 8, 8, 4);
    // the arms towards the edge stop at the border of the image
    assert_eq!(px(&c, 0, 1), MARK);
    assert_eq!(px(&c, 1, 0), MARK);
    assert_eq!(px(&c, 9, 1), MARK);
    assert_eq!(px(&c, 9, 9), MARK);
    assert_eq!(px(&c, 0, 9), MARK);
    let count = c.data.chunks(3).filter(|p| *p == MARK).count();
    assert_eq!(count, 8);
}

#[test]
fn rotation_and_mirroring_match_the_image_crate() {
    let img = gradient(5, 3);
    let buf: image::RgbImage = image::ImageBuffer::from_raw(5, 3, img.data.clone()).unwrap();
    let r = img.rotate90();
    assert_eq!((r.width, r.height), (3, 5));
    assert_eq!(r.data, image::imageops::rotate90(&buf).into_raw());
    assert_eq!(px(&r, 0, 0), [0, 2, 7]);
    let f = img.flip_horizontal();
    assert_eq!((f.width, f.height), (5, 3));
    assert_eq!(f.data, image::imageops::flip_horizontal(&buf).into_raw());
    assert_eq!(px(&f, 0, 1), [4, 1, 7]);
}

#[test]
fn four_quarter_turns_or_two_mirrorings_restore_the_photo() {
    let img = gradient(4, 7);
    let back = img.rotate90().rotate90().rotate90().rotate90();
    assert_eq!((back.width, back.height, back.data), (img.width, img.height, img.data.clone()));
    let twice = img.flip_horizontal().flip_horizontal();
    assert_eq!(twice.data, img.data);
}
