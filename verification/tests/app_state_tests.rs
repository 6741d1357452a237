use photo_grid_print::config::{
    base_stem, default_fps_cap, output_file_name, restamped_file_name, restamped_file_name_now, stamped_output_file_name,
    AppConfig,
};
use photo_grid_print::files::{is_supported_image_extension, limited_count, newest_first, parse_paper_size};
use photo_grid_print::grid::{ColorFilter, FitMode};
use photo_grid_print::paper::PaperSize;
use photo_grid_print::session::{
    clamp_page_index, copies_down, copies_up, move_item, next_page, prev_page, selection_after_remove, set_all_copies,
    swap_items, CopiesMode, PreviewViewMode, SheetSettings, SidebarTab, MAX_COPIES,
};
use photo_grid_print::theme::UiTheme;

const THEMES: [UiTheme; 6] = [
    UiTheme::CyberNeon,
    UiTheme::TokyoNight,
    UiTheme::ForestEmerald,
    UiTheme::SunsetAmber,
    UiTheme::DarkSlate,
    UiTheme::StudioLight,
];

#[test]
fn fps_cap_default() {
    assert_eq!(default_fps_cap(), 30);
}

#[test]
fn first_start_defaults() {
    let c = AppConfig::defaults(Some("out.pdf".to_string()));
    assert_eq!(c.paper_size, PaperSize::A4);
    assert_eq!((c.cols, c.rows), (4, 4));
    assert_eq!(c.global_copies, 1);
    assert!(!c.is_individual_copies);
    assert_eq!((c.gap, c.margin), (24, 50));
    assert!(!c.is_borderless && !c.is_portrait && !c.show_cut_marks);
    assert_eq!(c.fit_mode, FitMode::Fill);
    assert_eq!(c.color_filter, ColorFilter::Original);
    assert_eq!(c.output_path, Some("out.pdf".to_string()));
    assert_eq!(c.last_folder, None);
    assert_eq!(c.theme, UiTheme::CyberNeon);
    assert_eq!(c.fps_cap, 30);
}

#[test]
fn loaded_settings_get_a_fresh_output_path() {
    let mut stored = AppConfig::defaults(Some("old.pdf".to_string()));
    stored.cols = 3;
    stored.theme = UiTheme::DarkSlate;
    stored.fps_cap = 60;
    let c = AppConfig::resolve_loaded(Some(stored), "new.pdf".to_string());
    assert_eq!(c.cols, 3);
    assert_eq!(c.theme, UiTheme::DarkSlate);
    assert_eq!(c.fps_cap, 60);
    assert_eq!(c.output_path, Some("new.pdf".to_string()));
    let d = AppConfig::resolve_loaded(None, "fresh.pdf".to_string());
    assert_eq!(d.cols, 4);
    assert_eq!(d.output_path, Some("fresh.pdf".to_string()));
}

#[test]
fn output_names() {
    assert_eq!(output_file_name("20240102_030405"), "Photo_Grid_Print_20240102_030405.pdf");
    assert_eq!(base_stem("Photo_Grid_Print_20240102_030405"), "Photo_Grid_Print_20240102");
    assert_eq!(base_stem("Holiday_123456"), "Holiday");
    assert_eq!(base_stem("Holiday_12345"), "Holiday_12345");
    assert_eq!(base_stem("Holiday_12a456"), "Holiday_12a456");
    assert_eq!(base_stem("Holiday"), "Holiday");
    assert_eq!(base_stem("_000000"), "");
}

#[test]
fn supported_extensions() {
    for e in ["jpg", "JPG", "jpeg", "Jpeg", "png", "PNG", "webp", "bmp", "BMP"] {
        assert!(is_supported_image_extension(e), "{}", e);
    }
    for e in ["gif", "tiff", "jpg ", "", "pdf", "jp"] {
        assert!(!is_supported_image_extension(e), "{}", e);
    }
}

#[test]
fn paper_size_names() {
    assert_eq!(parse_paper_size("a4"), PaperSize::A4);
    assert_eq!(parse_paper_size("Letter"), PaperSize::Letter);
    assert_eq!(parse_paper_size("LEGAL"), PaperSize::Legal);
    assert_eq!(parse_paper_size("4x6"), PaperSize::Photo4x6);
    assert_eq!(parse_paper_size("photo-4x6"), PaperSize::Photo4x6);
    assert_eq!(parse_paper_size("4x6 in"), PaperSize::Photo4x6);
    assert_eq!(parse_paper_size("5X7"), PaperSize::Photo5x7);
    assert_eq!(parse_paper_size("Photo_5x7"), PaperSize::Photo5x7);
    assert_eq!(parse_paper_size("a 3"), PaperSize::A3);
    assert_eq!(parse_paper_size("A5"), PaperSize::A5);
    assert_eq!(parse_paper_size("tabloid"), PaperSize::A4);
    assert_eq!(parse_paper_size(""), PaperSize::A4);
}

#[test]
fn newest_photos_come_first() {
    let keys = vec![Some(5), None, Some(9), Some(5), Some(1)];
    assert_eq!(newest_first(&keys), vec![2, 0, 3, 4, 1]);
    assert_eq!(newest_first(&vec![]), Vec::<usize>::new());
    assert_eq!(newest_first(&vec![None, None]), vec![0, 1]);
}

#[test]
fn photo_limit() {
    assert_eq!(limited_count(40, 16), 16);
    assert_eq!(limited_count(10, 16), 10);
    assert_eq!(limited_count(10, 0), 10);
    assert_eq!(limited_count(16, 16), 16);
}

fn sample_settings() -> SheetSettings {
    SheetSettings::from_config(&AppConfig::defaults(None))
}

#[test]
fn settings_round_trip_through_the_stored_config() {
    let mut s = sample_settings();
    s.cols = 3;
    s.rows = 2;
    s.copies_mode = CopiesMode::Individual;
    s.border_width = 7;
    s.is_portrait = true;
    s.color_filter = ColorFilter::HighContrast;
    let stored = s.to_config("a.pdf".to_string(), Some("photos".to_string()), UiTheme::TokyoNight);
    assert!(stored.is_individual_copies);
    assert_eq!(stored.fps_cap, 30);
    assert_eq!(stored.last_folder, Some("photos".to_string()));
    let back = SheetSettings::from_config(&stored);
    assert_eq!(back, SheetSettings { border_width: 0, ..s });
}

#[test]
fn sheet_config_from_settings() {
    let mut s = sample_settings();
    s.border_width = 3;
    s.show_cut_marks = true;
    let c = s.current_config();
    assert_eq!((c.margin_x, c.margin_y), (50, 42));
    assert_eq!(c.gap, 24);
    assert_eq!(c.border_width, 3);
    assert_eq!(c.border_color, [60, 60, 60]);
    assert!(c.show_cut_marks);
    assert_eq!(c.dpi, 300);
    s.margin = 150;
    assert_eq!(s.current_config().margin_y, 127);
    s.is_borderless = true;
    let b = s.current_config();
    assert_eq!((b.margin_x, b.margin_y, b.gap, b.border_width), (0, 0, 0, 0));
    assert!(!b.show_cut_marks);
}

#[test]
fn copies_for_each_photo() {
    let mut s = sample_settings();
    s.global_copies = 4;
    assert_eq!(s.effective_copies(&vec![1, 2, 3]), vec![4, 4, 4]);
    s.copies_mode = CopiesMode::Individual;
    assert_eq!(s.effective_copies(&vec![1, 2, 3]), vec![1, 2, 3]);
    let mut own = vec![1, 5, 9];
    set_all_copies(&mut own, 2);
    assert_eq!(own, vec![2, 2, 2]);
}

#[test]
fn presets() {
    let mut s = sample_settings();
    s.fit_mode = FitMode::Contain;
    s.apply_grid_preset(3, 3);
    assert_eq!((s.cols, s.rows, s.fit_mode), (3, 3, FitMode::Contain));
    s.apply_photo_preset(3, 2);
    assert_eq!((s.cols, s.rows, s.fit_mode), (3, 2, FitMode::Fill));
}

#[test]
fn copy_steppers_stay_in_range() {
    assert_eq!(copies_up(1), 2);
    assert_eq!(copies_up(MAX_COPIES), MAX_COPIES);
    assert_eq!(copies_down(2), 1);
    assert_eq!(copies_down(1), 1);
}

#[test]
fn page_navigation() {
    assert_eq!(clamp_page_index(5, 3), 2);
    assert_eq!(clamp_page_index(1, 3), 1);
    assert_eq!(clamp_page_index(4, 0), 0);
    assert_eq!(next_page(0, 3), 1);
    assert_eq!(next_page(2, 3), 2);
    assert_eq!(prev_page(2), 1);
    assert_eq!(prev_page(0), 0);
}

#[test]
fn dragging_a_photo_moves_it_and_back() {
    let mut v = vec!['a', 'b', 'c', 'd'];
    assert!(move_item(&mut v, 0, 2));
    assert_eq!(v, vec!['b', 'c', 'a', 'd']);
    assert!(move_item(&mut v, 2, 0));
    assert_eq!(v, vec!['a', 'b', 'c', 'd']);
    assert!(!move_item(&mut v, 1, 1));
    assert!(!move_item(&mut v, 1, 9));
    assert_eq!(v, vec!['a', 'b', 'c', 'd']);
}

#[test]
fn swapping_twice_restores_the_list() {
    let mut v = vec![1, 2, 3];
    swap_items(&mut v, 0, 2);
    assert_eq!(v, vec![3, 2, 1]);
    swap_items(&mut v, 0, 2);
    assert_eq!(v, vec![1, 2, 3]);
    swap_items(&mut v, 1, 1);
    assert_eq!(v, vec![1, 2, 3]);
}

#[test]
fn removing_the_selected_photo_clears_the_selection() {
    assert_eq!(selection_after_remove(Some(2), 2), None);
    assert_eq!(selection_after_remove(Some(2), 0), Some(2));
    assert_eq!(selection_after_remove(None, 0), None);
}

#[test]
fn ui_enums() {
    assert_eq!(SidebarTab::default(), SidebarTab::Photos);
    assert_ne!(PreviewViewMode::AllPages, PreviewViewMode::SinglePage);
    assert_eq!(UiTheme::default(), UiTheme::CyberNeon);
}

#[test]
fn theme_names_and_colours() {
    let names: Vec<&str> = THEMES.iter().map(|t| t.name()).collect();
    assert_eq!(names, vec!["Cyber Neon", "Tokyo Purple", "Forest Emerald", "Sunset Amber", "Dark Slate", "Studio Light"]);
    for t in THEMES {
        assert_eq!(t.is_dark(), t != UiTheme::StudioLight);
        assert_eq!(t.emoji(), "\u{25CF}");
    }
    assert_eq!(UiTheme::CyberNeon.accent_color(), [6, 182, 212]);
    assert_eq!(UiTheme::TokyoNight.secondary_accent(), [236, 72, 153]);
    assert_eq!(UiTheme::ForestEmerald.panel_bg(), [12, 24, 21]);
    assert_eq!(UiTheme::SunsetAmber.canvas_bg(), [36, 28, 26]);
    assert_eq!(UiTheme::DarkSlate.card_bg(), [22, 25, 33]);
    assert_eq!(UiTheme::StudioLight.card_border(), [226, 232, 240]);
    assert_eq!(UiTheme::StudioLight.text_primary(), [15, 23, 42]);
    assert_eq!(UiTheme::CyberNeon.text_primary(), [243, 244, 246]);
    assert_eq!(UiTheme::StudioLight.text_muted(), [100, 116, 139]);
    assert_eq!(UiTheme::DarkSlate.text_muted(), [148, 163, 184]);
}

#[test]
fn restamped_names() {
    assert_eq!(restamped_file_name("Holiday_123456", "20250101_101010"), "Holiday_20250101_101010.pdf");
    assert_eq!(restamped_file_name("Holiday", "20250101_101010"), "Holiday_20250101_101010.pdf");
    assert_eq!(
        restamped_file_name("Photo_Grid_Print_20240102_030405", "20250101_101010"),
        "Photo_Grid_Print_20240102_20250101_101010.pdf"
    );
}

#[test]
fn names_stamped_with_the_clock() {
    let name = stamped_output_file_name();
    assert!(name.starts_with("Photo_Grid_Print_") && name.ends_with(".pdf"));
    let stamp = &name["Photo_Grid_Print_".len()..name.len() - 4];
    assert_eq!(stamp.len(), 15);
    assert!(stamp.chars().enumerate().all(|(i, c)| if i == 8 { c == '_' } else { c.is_ascii_digit() }));
    let again = restamped_file_name_now("Trip_000001");
    assert!(again.starts_with("Trip_") && again.ends_with(".pdf"));
    assert_eq!(again.len(), "Trip_".len() + 15 + 4);
}
