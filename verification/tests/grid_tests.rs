use image::{DynamicImage, GenericImageView, ImageBuffer, Rgb, RgbImage};
use photo_grid_print::canvas::Canvas;
use photo_grid_print::grid::{
    apply_color_filter, compose_sheet, contrast_byte, prepare_cell, render_print_page, preview_copy, preview_ready, print_ready, render_all_preview_pages_with_copies,
    render_images_with_copies_to_pdf_pages, scaled_size, ColorFilter, FitMode, GridConfig,
};
use photo_grid_print::layout::SheetLayout;
use photo_grid_print::paper::PaperSize;

const WHITE: [u8; 3] = [255, 255, 255];
const RED: [u8; 3] = [255, 0, 0];

fn px(c: &Canvas, x: u32, y: u32) -> [u8; 3] {
    let i = 3 * (y as usize * c.width as usize + x as usize);
    [c.data[i], c.data[i + 1], c.data[i + 2]]
}

fn solid(w: u32, h: u32, color: [u8; 3]) -> Canvas {
    let mut data = Vec::new();
    for _ in 0..(w * h) {
        data.extend_from_slice(&color);
    }
    Canvas { width: w, height: h, data }
}

/// Two cells side by side on a borderless A4 landscape sheet at 10 dpi (117 x 83 pixels).
fn small_config() -> GridConfig {
    GridConfig {
        paper_size: PaperSize::A4,
        cols: 2,
        rows: 1,
        border_width: 0,
        border_color: [0, 0, 0],
        gap: 0,
        margin_x: 0,
        margin_y: 0,
        is_portrait: false,
        fit_mode: FitMode::Fill,
        color_filter: ColorFilter::Original,
        show_cut_marks: false,
        dpi: 10,
    }
}

#[test]
fn grid_config_defaults() {
    let c = GridConfig::default();
    assert_eq!(c.paper_size, PaperSize::A4);
    assert_eq!((c.cols, c.rows), (4, 4));
    assert_eq!(c.border_width, 0);
    assert_eq!(c.border_color, [200, 200, 200]);
    assert_eq!(c.gap, 24);
    assert_eq!((c.margin_x, c.margin_y), (50, 42));
    assert!(!c.is_portrait);
    assert_eq!(c.fit_mode, FitMode::Fill);
    assert_eq!(c.color_filter, ColorFilter::Original);
    assert!(!c.show_cut_marks);
    assert_eq!(c.dpi, 300);
    assert_eq!(FitMode::default(), FitMode::Fill);
    assert_eq!(ColorFilter::default(), ColorFilter::Original);
}

#[test]
fn contrast_curve_values() {
    assert_eq!(contrast_byte(0), 0);
    assert_eq!(contrast_byte(45), 0);
    assert_eq!(contrast_byte(46), 0);
    assert_eq!(contrast_byte(128), 128);
    assert_eq!(contrast_byte(200), 240);
    assert_eq!(contrast_byte(255), 255);
}

#[test]
fn contrast_curve_matches_the_image_crate() {
    let mut img: RgbImage = ImageBuffer::new(256, 1);
    for x in 0..256u32 {
        img.put_pixel(x, 0, Rgb([x as u8, x as u8, x as u8]));
    }
    image::imageops::colorops::contrast_in_place(&mut img, 25.0);
    for x in 0..256u32 {
        assert_eq!(img.get_pixel(x, 0).0[0], contrast_byte(x as u8), "byte {}", x);
    }
}

#[test]
fn grayscale_filter_matches_the_image_crate() {
    let mut data = Vec::new();
    for i in 0..60u32 {
        data.extend_from_slice(&[(i * 37 % 256) as u8, (i * 91 % 256) as u8, (i * 13 % 256) as u8]);
    }
    let img = Canvas { width: 10, height: 6, data: data.clone() };
    let gray = apply_color_filter(&img, ColorFilter::Grayscale);
    let buf: RgbImage = ImageBuffer::from_raw(10, 6, data).unwrap();
    let expected = DynamicImage::ImageLuma8(image::imageops::grayscale(&buf)).to_rgb8().into_raw();
    assert_eq!((gray.width, gray.height), (10, 6));
    assert_eq!(gray.data, expected);
}

#[test]
fn color_filters_on_a_red_pixel() {
    let img = solid(2, 1, RED);
    assert_eq!(apply_color_filter(&img, ColorFilter::Original).data, img.data);
    // luminance of pure red: 2126 * 255 / 10000 = 54
    assert_eq!(apply_color_filter(&img, ColorFilter::Grayscale).data, vec![54; 6]);
    // the contrast curve darkens it: (50 * 54 - 2295) / 32 = 12
    assert_eq!(apply_color_filter(&img, ColorFilter::HighContrast).data, vec![12; 6]);
}

#[test]
fn scaled_size_fill_and_contain() {
    assert_eq!(scaled_size(4000, 3000, 700, 500, FitMode::Fill), (700, 525));
    assert_eq!(scaled_size(4000, 3000, 700, 500, FitMode::Contain), (667, 500));
    assert_eq!(scaled_size(3000, 4000, 700, 500, FitMode::Fill), (700, 933));
    assert_eq!(scaled_size(3000, 4000, 700, 500, FitMode::Contain), (375, 500));
    assert_eq!(scaled_size(1000, 1, 10, 10, FitMode::Contain), (10, 1));
    assert_eq!(scaled_size(5, 5, 0, 0, FitMode::Fill), (1, 1));
}

#[test]
fn prepared_cell_fills_the_target() {
    let cfg = small_config();
    let cell = prepare_cell(&solid(4, 4, RED), 10, 6, &cfg, false);
    assert_eq!((cell.width, cell.height), (10, 6));
    assert_eq!(cell.data.len(), 180);
    assert!(cell.data.chunks(3).all(|p| p == RED));
}

#[test]
fn contained_photo_is_centred_on_white() {
    let cfg = GridConfig { fit_mode: FitMode::Contain, ..small_config() };
    // a 4 x 2 photo in a 10 x 9 cell scales to 10 x 5, two rows of white above
    let cell = prepare_cell(&solid(4, 2, RED), 10, 9, &cfg, true);
    assert_eq!((cell.width, cell.height), (10, 9));
    for y in 0..9 {
        let expected = if (2..7).contains(&y) { RED } else { WHITE };
        assert_eq!(px(&cell, 5, y), expected, "row {}", y);
    }
}

#[test]
fn cell_border_is_drawn() {
    let cfg = GridConfig { border_width: 1, border_color: [60, 60, 60], ..small_config() };
    let cell = prepare_cell(&solid(3, 3, RED), 6, 6, &cfg, true);
    assert_eq!(px(&cell, 0, 0), [60, 60, 60]);
    assert_eq!(px(&cell, 5, 3), [60, 60, 60]);
    assert_eq!(px(&cell, 2, 2), RED);
}

#[test]
fn readiness_checks() {
    let cfg = small_config();
    assert!(print_ready(&vec![(solid(4, 4, RED), 3)], &cfg));
    assert!(print_ready(&vec![], &cfg));
    assert!(!print_ready(&vec![(Canvas { width: 0, height: 4, data: vec![] }, 1)], &cfg));
    assert!(!print_ready(&vec![(Canvas { width: 2, height: 2, data: vec![0; 5] }, 1)], &cfg));
    assert!(!print_ready(&vec![(solid(2, 2, RED), usize::MAX), (solid(2, 2, RED), 1)], &cfg));
    assert!(preview_ready(&vec![], &cfg, 100));
    assert!(preview_ready(&vec![(solid(4, 4, RED), 3)], &cfg, 100));
}

#[test]
fn preview_sheets_hold_the_queued_copies() {
    let cfg = small_config();
    let items = vec![(solid(4, 4, RED), 3)];
    assert!(preview_ready(&items, &cfg, 100));
    let sheets = render_all_preview_pages_with_copies(&items, &cfg, 100);
    assert_eq!(sheets.len(), 2);
    for s in &sheets {
        assert_eq!((s.width, s.height), (100, 71));
    }
    assert!(sheets[0].data.chunks(3).all(|p| p == RED));
    for y in 0..71 {
        for x in 0..100 {
            let expected = if x < 50 { RED } else { WHITE };
            assert_eq!(px(&sheets[1], x, y), expected);
        }
    }
}

#[test]
fn no_photos_or_no_copies_give_no_sheets() {
    let cfg = small_config();
    assert!(render_all_preview_pages_with_copies(&vec![], &cfg, 100).is_empty());
    let none = vec![(solid(4, 4, RED), 0)];
    assert!(render_all_preview_pages_with_copies(&none, &cfg, 100).is_empty());
    assert!(render_images_with_copies_to_pdf_pages(&none, &cfg).is_empty());
}

#[test]
fn passport_batch_fits_one_sheet() {
    // 6 (3 x 2) grid, two copies of one photo, default spacing
    let cfg = GridConfig { cols: 3, rows: 2, ..GridConfig::default() };
    let items = vec![(solid(6, 8, RED), 2)];
    assert!(preview_ready(&items, &cfg, 200));
    let sheets = render_all_preview_pages_with_copies(&items, &cfg, 200);
    assert_eq!(sheets.len(), 1);
}

#[test]
fn print_pages_are_jpeg_sheets() {
    let cfg = small_config();
    let items = vec![(solid(4, 4, RED), 3)];
    assert!(print_ready(&items, &cfg));
    let pages = render_images_with_copies_to_pdf_pages(&items, &cfg);
    assert_eq!(pages.len(), 2);
    for p in &pages {
        assert_eq!((p.width_px, p.height_px), (117, 83));
        assert_eq!(&p.jpeg_data[..2], &[0xFF, 0xD8]);
        let img = image::load_from_memory(&p.jpeg_data).unwrap();
        assert_eq!(img.dimensions(), (117, 83));
    }
    let first = image::load_from_memory(&pages[0].jpeg_data).unwrap().to_rgb8();
    let second = image::load_from_memory(&pages[1].jpeg_data).unwrap().to_rgb8();
    let red_like = |p: &Rgb<u8>| p.0[0] > 200 && p.0[1] < 60 && p.0[2] < 60;
    let white_like = |p: &Rgb<u8>| p.0.iter().all(|&c| c > 230);
    assert!(red_like(first.get_pixel(20, 40)));
    assert!(red_like(first.get_pixel(90, 40)));
    assert!(red_like(second.get_pixel(20, 40)));
    assert!(white_like(second.get_pixel(90, 40)));
}

#[test]
fn cut_marks_appear_on_preview_sheets_with_wide_gaps() {
    let cfg = GridConfig {
        cols: 2,
        rows: 1,
        gap: 400,
        margin_x: 400,
        margin_y: 400,
        show_cut_marks: true,
        ..GridConfig::default()
    };
    let items = vec![(solid(4, 4, RED), 2)];
    assert!(preview_ready(&items, &cfg, 800));
    let sheets = render_all_preview_pages_with_copies(&items, &cfg, 800);
    assert_eq!(sheets.len(), 1);
    let marks = sheets[0].data.chunks(3).filter(|p| *p == [190, 195, 205]).count();
    assert!(marks > 0);
}

#[test]
fn preview_copy_shrinks_only_large_photos() {
    let small = solid(30, 20, RED);
    let same = preview_copy(&small, 1200);
    assert_eq!((same.width, same.height, same.data.clone()), (30, 20, small.data.clone()));
    let mut data = Vec::new();
    for i in 0..(1500u32 * 600) {
        data.extend_from_slice(&[(i % 251) as u8, (i % 13) as u8, 9]);
    }
    let big = Canvas { width: 1500, height: 600, data: data.clone() };
    let thumb = preview_copy(&big, 1200);
    assert_eq!((thumb.width, thumb.height), (1200, 480));
    let buf: RgbImage = ImageBuffer::from_raw(1500, 600, data).unwrap();
    let expected = DynamicImage::ImageRgb8(buf).thumbnail(1200, 1200).to_rgb8();
    assert_eq!(thumb.data, expected.into_raw());
}

#[test]
fn one_sheet_at_a_time() {
    let sheet = SheetLayout { page_w: 20, page_h: 10, margin_x: 0, margin_y: 0, gap: 0 };
    let g = sheet.geometry(2, 1);
    assert_eq!((g.cell_w, g.cell_h), (10, 10));
    let cells = vec![solid(10, 10, RED), solid(10, 10, [0, 0, 255])];
    let queue = vec![0, 1, 1];
    let first = compose_sheet(0, 2, &cells, &queue, 20, 10, &g, false, 0);
    assert_eq!(px(&first, 3, 3), RED);
    assert_eq!(px(&first, 13, 3), [0, 0, 255]);
    let second = compose_sheet(1, 2, &cells, &queue, 20, 10, &g, false, 0);
    assert_eq!(px(&second, 3, 3), [0, 0, 255]);
    assert_eq!(px(&second, 13, 3), WHITE);
    let page = render_print_page(1, 2, &cells, &queue, 20, 10, &g, false, 0);
    assert_eq!((page.width_px, page.height_px), (20, 10));
    let decoded = image::load_from_memory(&page.jpeg_data).unwrap();
    assert_eq!(decoded.dimensions(), (20, 10));
}

#[test]
fn preview_and_print_have_the_same_sheets() {
    for (cols, rows, copies) in [(2usize, 1usize, 3usize), (3, 2, 7), (1, 1, 2)] {
        let cfg = GridConfig { cols, rows, ..small_config() };
        let items = vec![(solid(4, 4, RED), copies), (solid(3, 5, WHITE), 1)];
        assert!(print_ready(&items, &cfg) && preview_ready(&items, &cfg, 100));
        let pages = render_images_with_copies_to_pdf_pages(&items, &cfg);
        let sheets = render_all_preview_pages_with_copies(&items, &cfg, 100);
        assert_eq!(pages.len(), sheets.len());
        assert_eq!(pages.len(), (copies + 1 + cols * rows - 1) / (cols * rows));
    }
}

#[test]
fn every_grey_level_survives_the_rgb_expansion() {
    let mut data = Vec::new();
    for v in 0..=255u8 {
        data.extend_from_slice(&[v, v, v]);
    }
    let img = Canvas { width: 256, height: 1, data: data.clone() };
    assert_eq!(apply_color_filter(&img, ColorFilter::Grayscale).data, data);
}

#[test]
fn preview_copy_stays_within_the_bound() {
    let tall = solid(30, 90, RED);
    let thumb = preview_copy(&tall, 40);
    assert!(thumb.width <= 40 && thumb.height <= 40);
    assert_eq!((thumb.width, thumb.height), (13, 40));
}

#[test]
fn guides_only_add_guide_pixels() {
    let plain_cfg = GridConfig { cols: 2, rows: 1, gap: 400, margin_x: 400, margin_y: 400, ..GridConfig::default() };
    let marked_cfg = GridConfig { show_cut_marks: true, ..plain_cfg };
    let items = vec![(solid(4, 4, RED), 2)];
    assert!(preview_ready(&items, &plain_cfg, 800) && preview_ready(&items, &marked_cfg, 800));
    let plain = render_all_preview_pages_with_copies(&items, &plain_cfg, 800);
    let marked = render_all_preview_pages_with_copies(&items, &marked_cfg, 800);
    assert_eq!(plain.len(), marked.len());
    let mut changed = 0;
    for (a, b) in plain[0].data.chunks(3).zip(marked[0].data.chunks(3)) {
        if a != b {
            assert_eq!(b, [190, 195, 205]);
            changed += 1;
        }
    }
    // two cells, four corners each, two arms of 6 pixels sharing the corner pixel
    assert_eq!(changed, 2 * 4 * 11);
}
