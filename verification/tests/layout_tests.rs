use photo_grid_print::grid::{print_sheet, preview_sheet, GridConfig};
use photo_grid_print::layout::{page_pixel_size, GridGeometry, SheetLayout};
use photo_grid_print::paper::PaperSize;

const ALL_PAPERS: [PaperSize; 7] = [
    PaperSize::A4,
    PaperSize::A3,
    PaperSize::A5,
    PaperSize::Letter,
    PaperSize::Legal,
    PaperSize::Photo4x6,
    PaperSize::Photo5x7,
];

#[test]
fn paper_dimensions_portrait_and_landscape() {
    assert_eq!(PaperSize::A4.dimensions_mm(true), (2100, 2970));
    assert_eq!(PaperSize::A4.dimensions_mm(false), (2970, 2100));
    assert_eq!(PaperSize::A3.dimensions_mm(true), (2970, 4200));
    assert_eq!(PaperSize::A5.dimensions_mm(true), (1480, 2100));
    assert_eq!(PaperSize::Letter.dimensions_mm(true), (2159, 2794));
    assert_eq!(PaperSize::Legal.dimensions_mm(false), (3556, 2159));
    assert_eq!(PaperSize::Photo4x6.dimensions_mm(true), (1016, 1524));
    assert_eq!(PaperSize::Photo5x7.dimensions_mm(false), (1778, 1270));
}

#[test]
fn landscape_swaps_the_sides() {
    for p in ALL_PAPERS {
        let (w, h) = p.dimensions_mm(true);
        assert_eq!(p.dimensions_mm(false), (h, w));
        assert!(w < h);
    }
}

#[test]
fn paper_names() {
    assert_eq!(PaperSize::A4.name(), "A4 (210 x 297 mm)");
    assert_eq!(PaperSize::Letter.name(), "US Letter (8.5 x 11 in)");
    assert_eq!(PaperSize::Legal.name(), "US Legal (8.5 x 14 in)");
    assert_eq!(PaperSize::Photo4x6.name(), "4 x 6 in Photo Paper");
    assert_eq!(PaperSize::Photo5x7.name(), "5 x 7 in Photo Paper");
    assert_eq!(PaperSize::A3.name(), "A3 (297 x 420 mm)");
    assert_eq!(PaperSize::A5.name(), "A5 (148 x 210 mm)");
}

#[test]
fn pixel_size_at_300_dpi() {
    assert_eq!(page_pixel_size(PaperSize::A4, false, 300), (3508, 2480));
    assert_eq!(page_pixel_size(PaperSize::A4, true, 300), (2480, 3508));
    assert_eq!(page_pixel_size(PaperSize::Letter, true, 300), (2550, 3300));
    assert_eq!(page_pixel_size(PaperSize::Photo4x6, true, 300), (1200, 1800));
    assert_eq!(page_pixel_size(PaperSize::A4, false, 10), (117, 83));
    assert_eq!(page_pixel_size(PaperSize::A4, false, 0), (0, 0));
}

#[test]
fn pixel_size_matches_rounded_millimetres() {
    for p in ALL_PAPERS {
        for dpi in [72u32, 96, 150, 300, 600] {
            let (tw, th) = p.dimensions_mm(true);
            let fw = (tw as f64 / 10.0 / 25.4 * dpi as f64).round() as u32;
            let fh = (th as f64 / 10.0 / 25.4 * dpi as f64).round() as u32;
            assert_eq!(page_pixel_size(p, true, dpi), (fw, fh));
        }
    }
}

#[test]
fn default_print_sheet_geometry() {
    let c = GridConfig::default();
    let sheet = print_sheet(&c);
    assert_eq!(sheet, SheetLayout { page_w: 3508, page_h: 2480, margin_x: 50, margin_y: 42, gap: 24 });
    let g = sheet.geometry(c.cols, c.rows);
    assert_eq!(g, GridGeometry { cols: 4, rows: 4, cell_w: 834, cell_h: 581, gap: 24, start_x: 50, start_y: 42 });
    assert_eq!(g.cell_origin(0), (50, 42));
    assert_eq!(g.cell_origin(5), (908, 647));
    assert_eq!(g.cell_origin(15), (50 + 3 * 858, 42 + 3 * 605));
}

#[test]
fn grid_is_centred_when_cells_leave_a_remainder() {
    let sheet = SheetLayout { page_w: 103, page_h: 50, margin_x: 5, margin_y: 0, gap: 2 };
    let g = sheet.geometry(3, 1);
    // 93 px inside the margins, 4 px of gaps, 89 / 3 = 29 px cells, 91 px of grid
    assert_eq!(g.cell_w, 29);
    assert_eq!(g.start_x, 6);
    assert_eq!(g.cell_h, 50);
    assert_eq!(g.start_y, 0);
    let end = g.start_x + 3 * g.cell_w + 2 * g.gap;
    assert!(g.start_x >= sheet.margin_x);
    assert!(end <= sheet.page_w - sheet.margin_x);
    let left = g.start_x - sheet.margin_x;
    let right = sheet.page_w - sheet.margin_x - end;
    assert!(right == left || right == left + 1);
}

#[test]
fn zero_columns_count_as_one() {
    let sheet = SheetLayout { page_w: 100, page_h: 80, margin_x: 0, margin_y: 0, gap: 10 };
    let g = sheet.geometry(0, 0);
    assert_eq!((g.cols, g.rows), (1, 1));
    assert_eq!((g.cell_w, g.cell_h), (100, 80));
}

#[test]
fn margins_wider_than_the_page_leave_empty_cells() {
    let sheet = SheetLayout { page_w: 50, page_h: 50, margin_x: 40, margin_y: 0, gap: 0 };
    let g = sheet.geometry(2, 1);
    assert_eq!(g.cell_w, 0);
    assert_eq!(g.start_x, 40);
}

#[test]
fn cells_of_a_sheet_do_not_overlap() {
    let sheet = SheetLayout { page_w: 3508, page_h: 2480, margin_x: 50, margin_y: 42, gap: 24 };
    let g = sheet.geometry(3, 2);
    let n = g.cols * g.rows;
    for s in 0..n {
        for t in 0..n {
            if s == t {
                continue;
            }
            let (xs, ys) = g.cell_origin(s);
            let (xt, yt) = g.cell_origin(t);
            let apart = xs + g.cell_w <= xt || xt + g.cell_w <= xs || ys + g.cell_h <= yt || yt + g.cell_h <= ys;
            assert!(apart, "slots {} and {} overlap", s, t);
        }
    }
}

#[test]
fn preview_sheet_keeps_the_paper_shape() {
    let c = GridConfig::default();
    let s = preview_sheet(&c, 800);
    assert_eq!(s, SheetLayout { page_w: 800, page_h: 566, margin_x: 11, margin_y: 10, gap: 5 });
    let portrait = GridConfig { is_portrait: true, ..GridConfig::default() };
    let p = preview_sheet(&portrait, 800);
    assert_eq!((p.page_w, p.page_h), (566, 800));
}
