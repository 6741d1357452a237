//! The persisted application settings, and the names given to output files.

use vstd::prelude::*;

use crate::clock::{clock_valid, local_clock, timestamp_of, timestamp_text, ClockReading};
use crate::grid::{ColorFilter, FitMode};
use crate::paper::PaperSize;
use crate::theme::UiTheme;

verus! {

/// The settings kept between sessions.
#[derive(Debug, Clone)]
pub struct AppConfig {
    pub paper_size: PaperSize,
    pub cols: usize,
    pub rows: usize,
    pub global_copies: usize,
    pub is_individual_copies: bool,
    pub gap: u32,
    pub margin: u32,
    pub is_borderless: bool,
    pub is_portrait: bool,
    pub fit_mode: FitMode,
    pub color_filter: ColorFilter,
    pub show_cut_marks: bool,
    pub output_path: Option<String>,
    pub last_folder: Option<String>,
    pub theme: UiTheme,
    pub fps_cap: u32,
}

/// Preview frame-rate cap used when the stored settings do not name one.
pub fn default_fps_cap() -> (r: u32)
    ensures
        r == 30,
{
    30
}

impl AppConfig {
    /// The settings of a first start: A4 landscape, 4 x 4 photos, one copy each, 24 px gaps,
    /// 50 px margins, photos filling their cells in colour, the first theme, writing to `output_path`.
    pub fn defaults(output_path: Option<String>) -> (c: AppConfig)
        ensures
            c.paper_size == PaperSize::A4,
            c.cols == 4,
            c.rows == 4,
            c.global_copies == 1,
            !c.is_individual_copies,
            c.gap == 24,
            c.margin == 50,
            !c.is_borderless,
            !c.is_portrait,
            c.fit_mode == FitMode::Fill,
            c.color_filter == ColorFilter::Original,
            !c.show_cut_marks,
            c.output_path == output_path,
            c.last_folder.is_none(),
            c.theme == UiTheme::CyberNeon,
            c.fps_cap == 30,
    {
        AppConfig {
            paper_size: PaperSize::A4,
            cols: 4,
            rows: 4,
            global_copies: 1,
            is_individual_copies: false,
            gap: 24,
            margin: 50,
            is_borderless: false,
            is_portrait: false,
            fit_mode: FitMode::Fill,
            color_filter: ColorFilter::Original,
            show_cut_marks: false,
            output_path,
            last_folder: None,
            theme: UiTheme::CyberNeon,
            fps_cap: default_fps_cap(),
        }
    }

    /// The settings a start begins with: the stored ones when they could be read (`stored`),
    /// the defaults otherwise, in either case writing to the fresh path `output_path`.
    pub fn resolve_loaded(stored: Option<AppConfig>, output_path: String) -> (c: AppConfig)
        ensures
            match stored {
                Some(s) => c == (AppConfig { output_path: Some(output_path), ..s }),
                None => c == (AppConfig { output_path: Some(output_path), ..AppConfig::defaults_spec() }),
            },
    {
        let mut c = match stored {
            Some(s) => s,
            None => AppConfig::defaults(None),
        };
        c.output_path = Some(output_path);
        c
    }

    /// The defaults, as `defaults` gives them for no output path.
    pub open spec fn defaults_spec() -> AppConfig {
        AppConfig {
            paper_size: PaperSize::A4,
            cols: 4,
            rows: 4,
            global_copies: 1,
            is_individual_copies: false,
            gap: 24,
            margin: 50,
            is_borderless: false,
            is_portrait: false,
            fit_mode: FitMode::Fill,
            color_filter: ColorFilter::Original,
            show_cut_marks: false,
            output_path: None,
            last_folder: None,
            theme: UiTheme::CyberNeon,
            fps_cap: 30,
        }
    }
}

/// Name of an output file stamped with `timestamp`.
pub open spec fn stamped_name(stem: Seq<char>, timestamp: Seq<char>) -> Seq<char> {
    stem + "_"@ + timestamp + ".pdf"@
}

/// The default output file name, `Photo_Grid_Print_<timestamp>.pdf`.
pub fn output_file_name(timestamp: &str) -> (r: String)
    ensures
        r@ == stamped_name("Photo_Grid_Print"@, timestamp@),
{
    let r = String::from_str("Photo_Grid_Print_").concat(timestamp).concat(".pdf");
    proof {
        reveal_strlit("Photo_Grid_Print_");
        reveal_strlit("Photo_Grid_Print");
        reveal_strlit("_");
    }
    assert(r@ =~= stamped_name("Photo_Grid_Print"@, timestamp@));
    r
}

/// The default output file name stamped with the current local time.
pub fn stamped_output_file_name() -> (r: String)
    ensures
        exists|t: ClockReading| clock_valid(t) && r@ == #[trigger] stamped_name("Photo_Grid_Print"@, timestamp_text(t)),
{
    let t = local_clock();
    let stamp = timestamp_of(&t);
    let r = output_file_name(stamp.as_str());
    assert(clock_valid(t) && r@ == stamped_name("Photo_Grid_Print"@, timestamp_text(t)));
    r
}

/// The name of an output file `stem` stamped anew with `timestamp`: an earlier stamp of the
/// stem is taken off first.
pub fn restamped_file_name(stem: &str, timestamp: &str) -> (r: String)
    ensures
        r@ == stamped_name(base_stem_spec(stem@), timestamp@),
{
    let base = base_stem(stem);
    let r = base.concat("_").concat(timestamp).concat(".pdf");
    proof {
        reveal_strlit("_");
    }
    assert(r@ =~= stamped_name(base_stem_spec(stem@), timestamp@));
    r
}

/// The name of an output file `stem` stamped anew with the current local time.
pub fn restamped_file_name_now(stem: &str) -> (r: String)
    ensures
        exists|t: ClockReading| clock_valid(t) && r@ == #[trigger] stamped_name(base_stem_spec(stem@), timestamp_text(t)),
{
    let t = local_clock();
    let stamp = timestamp_of(&t);
    let r = restamped_file_name(stem, stamp.as_str());
    assert(clock_valid(t) && r@ == stamped_name(base_stem_spec(stem@), timestamp_text(t)));
    r
}

/// `c` is an ASCII decimal digit.
pub open spec fn is_digit(c: char) -> bool {
    '0' <= c <= '9'
}

/// Position of the last `_` in `s`, if any.
pub open spec fn last_underscore(s: Seq<char>) -> Option<int>
    decreases s.len(),
{
    if s.len() == 0 {
        None
    } else if s.last() == '_' {
        Some(s.len() - 1)
    } else {
        last_underscore(s.drop_last())
    }
}

/// An output file stem with an earlier stamp taken off: when the text after the last `_` is
/// six or more digits, the part before that `_`; otherwise the whole stem.
pub open spec fn base_stem_spec(stem: Seq<char>) -> Seq<char> {
    match last_underscore(stem) {
        Some(i) => {
            let tail = stem.subrange(i + 1, stem.len() as int);
            if tail.len() >= 6 && (forall|j: int| 0 <= j < tail.len() ==> is_digit(#[trigger] tail[j])) {
                stem.subrange(0, i)
            } else {
                stem
            }
        },
        None => stem,
    }
}

/// The stem of an output file with an earlier timestamp (six or more digits after the last `_`) taken off.
pub fn base_stem(stem: &str) -> (r: String)
    ensures
        r@ == base_stem_spec(stem@),
{
    let n = stem.unicode_len();
    let mut i = n;
    let mut found = false;
    assert(stem@.subrange(0, n as int) =~= stem@);
    while i > 0 && !found
        invariant
            0 <= i <= n,
            n == stem@.len(),
            last_underscore(stem@) == last_underscore(stem@.subrange(0, i as int)),
            found ==> i > 0 && stem@[i - 1] == '_',
        decreases i, (if found { 0int } else { 1int }),
    {
        if stem.get_char(i - 1) == '_' {
            found = true;
        } else {
            proof {
                assert(stem@.subrange(0, i as int).drop_last() =~= stem@.subrange(0, i - 1));
            }
            i = i - 1;
        }
    }
    if !found {
        assert(stem@.subrange(0, 0) =~= Seq::<char>::empty());
        return String::from_str(stem);
    }
    let us = i - 1;
    assert(last_underscore(stem@) == Some(us as int));
    let mut all_digits = true;
    let mut j = i;
    while j < n
        invariant
            i <= j <= n,
            n == stem@.len(),
            all_digits == (forall|k: int| i <= k < j ==> is_digit(#[trigger] stem@[k])),
        decreases n - j,
    {
        let c = stem.get_char(j);
        if !('0' <= c && c <= '9') {
            all_digits = false;
        }
        j = j + 1;
    }
    let ghost tail = stem@.subrange(i as int, n as int);
    assert(all_digits == (forall|k: int| 0 <= k < tail.len() ==> is_digit(#[trigger] tail[k]))) by {
        if all_digits {
            assert forall|k: int| 0 <= k < tail.len() implies is_digit(#[trigger] tail[k]) by {
                assert(tail[k] == stem@[i + k]);
            }
        } else {
            let k = choose|k: int| i <= k < n && !is_digit(#[trigger] stem@[k]);
            assert(tail[k - i] == stem@[k]);
        }
    }
    if n - i >= 6 && all_digits {
        String::from_str(stem.substring_char(0, us))
    } else {
        String::from_str(stem)
    }
}

/// The last `_` of `s + t` is that of `s` when `t` holds none.
proof fn lemma_last_underscore_skips(s: Seq<char>, t: Seq<char>)
    requires
        forall|j: int| 0 <= j < t.len() ==> t[j] != '_',
    ensures
        last_underscore(s + t) == last_underscore(s),
    decreases t.len(),
{
    if t.len() == 0 {
        assert(s + t =~= s);
    } else {
        assert((s + t).drop_last() =~= s + t.drop_last());
        assert((s + t).last() == t.last());
        lemma_last_underscore_skips(s, t.drop_last());
    }
}

/// Restamping takes off exactly an earlier stamp: a stem followed by `_` and six or more digits
/// loses that suffix, while a stem followed by `_` and fewer than six digits, or by text after
/// its last `_` that is not all digits, is kept whole.
pub proof fn lemma_base_stem_strips_stamp(stem: Seq<char>, tail: Seq<char>)
    requires
        forall|j: int| 0 <= j < tail.len() ==> tail[j] != '_',
    ensures
        (tail.len() >= 6 && forall|j: int| 0 <= j < tail.len() ==> is_digit(#[trigger] tail[j]))
            ==> base_stem_spec(stem + seq!['_'] + tail) == stem,
        !(tail.len() >= 6 && forall|j: int| 0 <= j < tail.len() ==> is_digit(#[trigger] tail[j]))
            ==> base_stem_spec(stem + seq!['_'] + tail) == stem + seq!['_'] + tail,
{
    let s = stem + seq!['_'];
    let full = s + tail;
    lemma_last_underscore_skips(s, tail);
    assert(s.drop_last() =~= stem);
    assert(last_underscore(s) == Some(stem.len() as int));
    assert(full.subrange(stem.len() as int + 1, full.len() as int) =~= tail);
    assert(full.subrange(0, stem.len() as int) =~= stem);
}

/// A start without stored settings uses the documented command-line defaults: A4 in landscape,
/// 4 x 4 photos, one copy each, 24 px gaps, with margins.
pub proof fn lemma_first_start_settings()
    ensures
        AppConfig::defaults_spec().paper_size == PaperSize::A4,
        !AppConfig::defaults_spec().is_portrait,
        AppConfig::defaults_spec().cols == 4,
        AppConfig::defaults_spec().rows == 4,
        AppConfig::defaults_spec().global_copies == 1,
        !AppConfig::defaults_spec().is_individual_copies,
        AppConfig::defaults_spec().gap == 24,
        !AppConfig::defaults_spec().is_borderless,
{
}

} // verus!
