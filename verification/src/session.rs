//! The editing session: the layout settings the user changes, how they turn
//! into a sheet layout, the copy count of each photo, and the edits of the
//! photo list (reordering, swapping, removing) with the selection that follows.

use vstd::prelude::*;

use crate::config::{AppConfig, default_fps_cap};
use crate::grid::{ColorFilter, FitMode, GridConfig};
use crate::paper::PaperSize;
use crate::queue::page_count_spec;
use crate::theme::UiTheme;

verus! {

/// Whether all photos share one copy count or each has its own.
#[derive(Debug, Clone, Copy, PartialEq, Eq, Structural)]
pub enum CopiesMode {
    SameForAll,
    Individual,
}

/// Whether the preview shows every sheet or one at a time.
#[derive(Debug, Clone, Copy, PartialEq, Eq, Structural)]
pub enum PreviewViewMode {
    AllPages,
    SinglePage,
}

/// The tab shown in the side panel.
#[derive(Debug, Clone, Copy, PartialEq, Eq, Structural)]
pub enum SidebarTab {
    Photos,
    Layout,
    Settings,
}

impl Default for SidebarTab {
    fn default() -> (t: SidebarTab)
        ensures
            t == SidebarTab::Photos,
    {
        SidebarTab::Photos
    }
}

/// The layout settings of a session.
#[derive(Debug, Clone, Copy, PartialEq, Eq, Structural)]
pub struct SheetSettings {
    pub paper_size: PaperSize,
    pub cols: usize,
    pub rows: usize,
    pub global_copies: usize,
    pub copies_mode: CopiesMode,
    pub border_width: u32,
    pub gap: u32,
    pub margin: u32,
    pub is_borderless: bool,
    pub is_portrait: bool,
    pub fit_mode: FitMode,
    pub color_filter: ColorFilter,
    pub show_cut_marks: bool,
}

/// Largest copy count the steppers reach.
pub const MAX_COPIES: usize = 100;

/// The settings a session starts from: those of the stored configuration, without a border.
pub open spec fn settings_from(cfg: AppConfig) -> SheetSettings {
    SheetSettings {
        paper_size: cfg.paper_size,
        cols: cfg.cols,
        rows: cfg.rows,
        global_copies: cfg.global_copies,
        copies_mode: if cfg.is_individual_copies { CopiesMode::Individual } else { CopiesMode::SameForAll },
        border_width: 0,
        gap: cfg.gap,
        margin: cfg.margin,
        is_borderless: cfg.is_borderless,
        is_portrait: cfg.is_portrait,
        fit_mode: cfg.fit_mode,
        color_filter: cfg.color_filter,
        show_cut_marks: cfg.show_cut_marks,
    }
}

/// The configuration stored for settings `s`, with the session's output path, last folder and
/// theme, and the default frame-rate cap.
pub open spec fn config_from(s: SheetSettings, output_path: String, last_folder: Option<String>, theme: UiTheme) -> AppConfig {
    AppConfig {
        paper_size: s.paper_size,
        cols: s.cols,
        rows: s.rows,
        global_copies: s.global_copies,
        is_individual_copies: s.copies_mode == CopiesMode::Individual,
        gap: s.gap,
        margin: s.margin,
        is_borderless: s.is_borderless,
        is_portrait: s.is_portrait,
        fit_mode: s.fit_mode,
        color_filter: s.color_filter,
        show_cut_marks: s.show_cut_marks,
        output_path: Some(output_path),
        last_folder,
        theme,
        fps_cap: 30,
    }
}

impl SheetSettings {
    /// The settings a session starts from: those of the stored configuration, without a border.
    pub fn from_config(cfg: &AppConfig) -> (s: SheetSettings)
        ensures
            s == settings_from(*cfg),
    {
        SheetSettings {
            paper_size: cfg.paper_size,
            cols: cfg.cols,
            rows: cfg.rows,
            global_copies: cfg.global_copies,
            copies_mode: if cfg.is_individual_copies { CopiesMode::Individual } else { CopiesMode::SameForAll },
            border_width: 0,
            gap: cfg.gap,
            margin: cfg.margin,
            is_borderless: cfg.is_borderless,
            is_portrait: cfg.is_portrait,
            fit_mode: cfg.fit_mode,
            color_filter: cfg.color_filter,
            show_cut_marks: cfg.show_cut_marks,
        }
    }

    /// The configuration to store for these settings, with the session's output path, last
    /// folder and theme, and the default frame-rate cap.
    pub fn to_config(&self, output_path: String, last_folder: Option<String>, theme: UiTheme) -> (c: AppConfig)
        ensures
            c == config_from(*self, output_path, last_folder, theme),
    {
        AppConfig {
            paper_size: self.paper_size,
            cols: self.cols,
            rows: self.rows,
            global_copies: self.global_copies,
            is_individual_copies: self.copies_mode == CopiesMode::Individual,
            gap: self.gap,
            margin: self.margin,
            is_borderless: self.is_borderless,
            is_portrait: self.is_portrait,
            fit_mode: self.fit_mode,
            color_filter: self.color_filter,
            show_cut_marks: self.show_cut_marks,
            output_path: Some(output_path),
            last_folder,
            theme,
            fps_cap: default_fps_cap(),
        }
    }

    /// The sheet layout these settings describe: full bleed drops margins, gaps, borders and
    /// cutting guides; the vertical margin is 85% of the horizontal one (rounded down); dark
    /// grey borders; 300 dpi.
    pub fn current_config(&self) -> (c: GridConfig)
        ensures
            c.paper_size == self.paper_size,
            c.cols == self.cols,
            c.rows == self.rows,
            c.border_width == (if self.is_borderless { 0 } else { self.border_width }),
            c.border_color == [60u8, 60u8, 60u8],
            c.gap == (if self.is_borderless { 0 } else { self.gap }),
            c.margin_x == (if self.is_borderless { 0 } else { self.margin }),
            c.margin_y == (if self.is_borderless { 0 } else { self.margin }) * 85 / 100,
            c.is_portrait == self.is_portrait,
            c.fit_mode == self.fit_mode,
            c.color_filter == self.color_filter,
            c.show_cut_marks == (self.show_cut_marks && !self.is_borderless),
            c.dpi == 300,
    {
        let margin: u32 = if self.is_borderless { 0 } else { self.margin };
        let gap: u32 = if self.is_borderless { 0 } else { self.gap };
        let margin_y: u32 = (margin as u64 * 85 / 100) as u32;
        GridConfig {
            paper_size: self.paper_size,
            cols: self.cols,
            rows: self.rows,
            border_width: if self.is_borderless { 0 } else { self.border_width },
            border_color: [60, 60, 60],
            gap,
            margin_x: margin,
            margin_y,
            is_portrait: self.is_portrait,
            fit_mode: self.fit_mode,
            color_filter: self.color_filter,
            show_cut_marks: self.show_cut_marks && !self.is_borderless,
            dpi: 300,
        }
    }

    /// The copy count that applies to a photo whose own count is `item_copies`.
    pub open spec fn copies_for_spec(self, item_copies: usize) -> usize {
        match self.copies_mode {
            CopiesMode::SameForAll => self.global_copies,
            CopiesMode::Individual => item_copies,
        }
    }

    /// The copy count of every photo, from the photos' own counts.
    pub fn effective_copies(&self, item_copies: &Vec<usize>) -> (r: Vec<usize>)
        ensures
            r@.len() == item_copies@.len(),
            forall|i: int| 0 <= i < r@.len() ==> #[trigger] r@[i] == self.copies_for_spec(item_copies@[i]),
    {
        let mut r: Vec<usize> = Vec::new();
        let mut i: usize = 0;
        while i < item_copies.len()
            invariant
                0 <= i <= item_copies@.len(),
                r@.len() == i,
                forall|k: int| 0 <= k < i ==> #[trigger] r@[k] == self.copies_for_spec(item_copies@[k]),
            decreases item_copies@.len() - i,
        {
            let c = match self.copies_mode {
                CopiesMode::SameForAll => self.global_copies,
                CopiesMode::Individual => item_copies[i],
            };
            r.push(c);
            i = i + 1;
        }
        r
    }

    /// Applies one of the grid presets.
    pub fn apply_grid_preset(&mut self, cols: usize, rows: usize)
        ensures
            *final(self) == (SheetSettings { cols, rows, ..*old(self) }),
    {
        self.cols = cols;
        self.rows = rows;
    }

    /// Applies one of the ID photo presets: the grid, with photos filling their cells.
    pub fn apply_photo_preset(&mut self, cols: usize, rows: usize)
        ensures
            *final(self) == (SheetSettings { cols, rows, fit_mode: FitMode::Fill, ..*old(self) }),
    {
        self.cols = cols;
        self.rows = rows;
        self.fit_mode = FitMode::Fill;
    }
}

/// Number of preview sheets for `total` photo copies on a `cols` x `rows` grid (a grid without
/// cells counts as one cell per sheet).
pub fn sheet_count(total: usize, cols: usize, rows: usize) -> (r: usize)
    requires
        cols * rows <= usize::MAX,
        total + (if cols * rows < 1 { 1 } else { cols * rows }) - 1 <= usize::MAX,
    ensures
        r == page_count_spec(total as int, if cols * rows < 1 { 1 } else { cols * rows }),
{
    let cells = cols * rows;
    let per_page: usize = if cells < 1 { 1 } else { cells };
    (total + (per_page - 1)) / per_page
}

/// The shown sheet after the number of sheets changed: the last sheet when it lies beyond.
pub fn clamp_page_index(idx: usize, total_pages: usize) -> (r: usize)
    ensures
        r == (if idx >= total_pages { if total_pages > 0 { total_pages - 1 } else { 0 } } else { idx as int }),
        total_pages > 0 ==> r < total_pages,
{
    if idx >= total_pages {
        if total_pages > 0 { total_pages - 1 } else { 0 }
    } else {
        idx
    }
}

/// The next sheet in single-sheet view, when there is one.
pub fn next_page(idx: usize, total_pages: usize) -> (r: usize)
    ensures
        r == (if idx + 1 < total_pages { idx + 1 } else { idx as int }),
{
    if idx < total_pages && idx + 1 < total_pages { idx + 1 } else { idx }
}

/// The previous sheet in single-sheet view, when there is one.
pub fn prev_page(idx: usize) -> (r: usize)
    ensures
        r == (if idx > 0 { idx - 1 } else { idx as int }),
{
    if idx > 0 { idx - 1 } else { idx }
}

/// One more copy, up to the maximum.
pub fn copies_up(c: usize) -> (r: usize)
    ensures
        r == (if c < MAX_COPIES { c + 1 } else { c as int }),
{
    if c < MAX_COPIES { c + 1 } else { c }
}

/// One copy fewer, down to one.
pub fn copies_down(c: usize) -> (r: usize)
    ensures
        r == (if c > 1 { c - 1 } else { c as int }),
{
    if c > 1 { c - 1 } else { c }
}

/// Sets every photo's own copy count to `c`.
pub fn set_all_copies(item_copies: &mut Vec<usize>, c: usize)
    ensures
        final(item_copies)@ == Seq::new(old(item_copies)@.len(), |_i: int| c),
{
    let mut i: usize = 0;
    let n = item_copies.len();
    while i < n
        invariant
            0 <= i <= n,
            n == item_copies@.len(),
            n == old(item_copies)@.len(),
            forall|k: int| 0 <= k < i ==> item_copies@[k] == c,
        decreases n - i,
    {
        item_copies.set(i, c);
        i = i + 1;
    }
    assert(item_copies@ =~= Seq::new(old(item_copies)@.len(), |_i: int| c));
}

/// `s` with its element at `src` taken out and put back at `dst`.
pub open spec fn moved<T>(s: Seq<T>, src: int, dst: int) -> Seq<T> {
    s.remove(src).insert(dst, s[src])
}

/// Drag and drop: moves the photo at `src` to position `dst` when they differ and both lie in
/// the list; tells whether it did. The selection then follows the photo to `dst`.
pub fn move_item<T>(items: &mut Vec<T>, src: usize, dst: usize) -> (done: bool)
    ensures
        done == (src != dst && src < old(items)@.len() && dst < old(items)@.len()),
        done ==> final(items)@ == moved(old(items)@, src as int, dst as int),
        !done ==> final(items)@ == old(items)@,
{
    if src != dst && src < items.len() && dst < items.len() {
        let item = items.remove(src);
        items.insert(dst, item);
        true
    } else {
        false
    }
}

/// `s` with the elements at `a` and `b` exchanged.
pub open spec fn swapped<T>(s: Seq<T>, a: int, b: int) -> Seq<T> {
    s.update(a, s[b]).update(b, s[a])
}

/// Exchanges the photos at `a` and `b` (moving a photo up or down the list).
pub fn swap_items<T>(items: &mut Vec<T>, a: usize, b: usize)
    requires
        a < old(items)@.len(),
        b < old(items)@.len(),
    ensures
        final(items)@ == swapped(old(items)@, a as int, b as int),
{
    let ghost s = items@;
    if a == b {
        assert(items@ =~= swapped(s, a as int, b as int));
        return;
    }
    let (lo, hi) = if a < b { (a, b) } else { (b, a) };
    let x_hi = items.remove(hi);
    let x_lo = items.remove(lo);
    items.insert(lo, x_hi);
    items.insert(hi, x_lo);
    assert(items@ =~= swapped(s, a as int, b as int));
}

/// The selection after the photo at `removed` was taken out: cleared when it was the selected one.
pub fn selection_after_remove(selected: Option<usize>, removed: usize) -> (r: Option<usize>)
    ensures
        r == (if selected == Some(removed) { None } else { selected }),
{
    match selected {
        Some(s) => if s == removed { None } else { Some(s) },
        None => None,
    }
}

/// Moving a photo keeps the same photos, and moving it back restores the list.
pub proof fn lemma_move_keeps_photos<T>(s: Seq<T>, src: int, dst: int)
    requires
        0 <= src < s.len(),
        0 <= dst < s.len(),
    ensures
        moved(s, src, dst).len() == s.len(),
        moved(s, src, dst).to_multiset() == s.to_multiset(),
        moved(s, src, dst)[dst] == s[src],
        moved(moved(s, src, dst), dst, src) == s,
{
    vstd::seq_lib::to_multiset_remove(s, src);
    vstd::seq_lib::to_multiset_insert(s.remove(src), dst, s[src]);
    broadcast use vstd::multiset::group_multiset_axioms;
    let m = moved(s, src, dst);
    assert(m.remove(dst) =~= s.remove(src));
    assert(moved(m, dst, src) =~= s);
    assert(s.to_multiset().remove(s[src]).insert(s[src]) =~= s.to_multiset()) by {
        vstd::seq_lib::to_multiset_contains(s, s[src]);
    }
}

/// Exchanging two photos keeps the same photos, and exchanging them again restores the list.
pub proof fn lemma_swap_twice<T>(s: Seq<T>, a: int, b: int)
    requires
        0 <= a < s.len(),
        0 <= b < s.len(),
    ensures
        swapped(s, a, b).len() == s.len(),
        swapped(s, a, b)[a] == s[b],
        swapped(s, a, b)[b] == s[a],
        swapped(swapped(s, a, b), a, b) == s,
{
    assert(swapped(swapped(s, a, b), a, b) =~= s);
}

/// What a session stores is what the next one starts from: every layout setting survives a
/// save and a load except the border width, which each session starts at zero.
pub proof fn lemma_settings_survive_restart(s: SheetSettings, output_path: String, last_folder: Option<String>, theme: UiTheme)
    ensures
        settings_from(config_from(s, output_path, last_folder, theme)) == (SheetSettings { border_width: 0, ..s }),
{
    assert(settings_from(config_from(s, output_path, last_folder, theme)).copies_mode == s.copies_mode) by {
        match s.copies_mode {
            CopiesMode::Individual => {},
            CopiesMode::SameForAll => {},
        }
    }
}

/// Loading keeps every stored layout setting: the session starts with the stored paper,
/// orientation, grid, copies, spacing, fit, filter and guides, per-photo copies exactly when
/// they were stored as individual, and no border.
pub proof fn lemma_load_keeps_stored_settings(cfg: AppConfig)
    ensures
        settings_from(cfg).paper_size == cfg.paper_size,
        settings_from(cfg).is_portrait == cfg.is_portrait,
        settings_from(cfg).cols == cfg.cols,
        settings_from(cfg).rows == cfg.rows,
        settings_from(cfg).global_copies == cfg.global_copies,
        (settings_from(cfg).copies_mode == CopiesMode::Individual) == cfg.is_individual_copies,
        settings_from(cfg).border_width == 0,
        settings_from(cfg).gap == cfg.gap,
        settings_from(cfg).margin == cfg.margin,
        settings_from(cfg).is_borderless == cfg.is_borderless,
        settings_from(cfg).fit_mode == cfg.fit_mode,
        settings_from(cfg).color_filter == cfg.color_filter,
        settings_from(cfg).show_cut_marks == cfg.show_cut_marks,
{
}

/// Saving keeps every layout setting of the session, stores copies as individual exactly in
/// per-photo mode, and records the given output path, last folder and theme with the default
/// frame-rate cap.
pub proof fn lemma_save_keeps_session_settings(s: SheetSettings, output_path: String, last_folder: Option<String>, theme: UiTheme)
    ensures
        config_from(s, output_path, last_folder, theme).paper_size == s.paper_size,
        config_from(s, output_path, last_folder, theme).is_portrait == s.is_portrait,
        config_from(s, output_path, last_folder, theme).cols == s.cols,
        config_from(s, output_path, last_folder, theme).rows == s.rows,
        config_from(s, output_path, last_folder, theme).global_copies == s.global_copies,
        config_from(s, output_path, last_folder, theme).is_individual_copies == (s.copies_mode == CopiesMode::Individual),
        config_from(s, output_path, last_folder, theme).gap == s.gap,
        config_from(s, output_path, last_folder, theme).margin == s.margin,
        config_from(s, output_path, last_folder, theme).is_borderless == s.is_borderless,
        config_from(s, output_path, last_folder, theme).fit_mode == s.fit_mode,
        config_from(s, output_path, last_folder, theme).color_filter == s.color_filter,
        config_from(s, output_path, last_folder, theme).show_cut_marks == s.show_cut_marks,
        config_from(s, output_path, last_folder, theme).output_path == Some(output_path),
        config_from(s, output_path, last_folder, theme).last_folder == last_folder,
        config_from(s, output_path, last_folder, theme).theme == theme,
        config_from(s, output_path, last_folder, theme).fps_cap == 30,
{
}

/// In same-for-all mode every photo is printed the global number of times, whatever its own
/// count; in per-photo mode each photo is printed its own number of times.
pub proof fn lemma_copies_per_mode(s: SheetSettings, own: usize)
    ensures
        s.copies_mode == CopiesMode::SameForAll ==> s.copies_for_spec(own) == s.global_copies,
        s.copies_mode == CopiesMode::Individual ==> s.copies_for_spec(own) == own,
{
}

} // verus!
