//! A minimal PDF writer: one JPEG image per page, stretched over the page.
//!
//! The document holds a catalog (object 1), the page tree (object 2) and, for
//! page `i`, a page object (`3 + 3i`), its content stream (`4 + 3i`) and its
//! image (`5 + 3i`), followed by the cross-reference table and the trailer.
//! Page sizes are given in ten-thousandths of a PostScript point and written
//! with four decimals.

use vstd::prelude::*;
use vstd::string::StringSliceAdditionalSpecFns;
use vstd::arithmetic::div_mod::{lemma_fundamental_div_mod, lemma_fundamental_div_mod_converse};

use crate::layout::round_div;
use crate::paper::{PaperSize, oriented_tenth_mm};

verus! {

/// One page to be written: a JPEG file and its pixel size.
pub struct PdfPage {
    pub jpeg_data: Vec<u8>,
    pub width_px: u32,
    pub height_px: u32,
}

/// ASCII code of decimal digit `d`.
pub open spec fn digit(d: int) -> u8 {
    (48 + d) as u8
}

/// Decimal representation of `n`, without leading zeros.
pub open spec fn dec(n: nat) -> Seq<u8>
    decreases n,
{
    if n < 10 {
        seq![digit(n as int)]
    } else {
        dec(n / 10).push(digit((n % 10) as int))
    }
}

/// `n` in decimal, left-padded with zeros to ten digits.
pub open spec fn dec_pad10(n: nat) -> Seq<u8> {
    if dec(n).len() < 10 {
        Seq::new((10 - dec(n).len()) as nat, |_i: int| 48u8) + dec(n)
    } else {
        dec(n)
    }
}

/// `v / 10000` written with four decimals.
pub open spec fn fixed4(v: nat) -> Seq<u8> {
    let f = (v % 10000) as int;
    dec(v / 10000) + ".".spec_bytes() + seq![digit(f / 1000), digit(f / 100 % 10), digit(f / 10 % 10), digit(f % 10)]
}

/// The file header: version line and a comment of four bytes above 127 (marks a binary file).
pub open spec fn pdf_header() -> Seq<u8> {
    "%PDF-1.4\n%".spec_bytes() + seq![0xe2u8, 0xe3u8, 0xcfu8, 0xd3u8] + "\n".spec_bytes()
}

/// Opening line of indirect object `id`.
pub open spec fn obj_start(id: nat) -> Seq<u8> {
    dec(id) + " 0 obj\n".spec_bytes()
}

/// Object 1, the document catalog.
pub open spec fn catalog_obj() -> Seq<u8> {
    obj_start(1) + "<< /Type /Catalog /Pages 2 0 R >>\nendobj\n".spec_bytes()
}

/// References to the first `n` page objects, separated by single spaces.
pub open spec fn kids(n: nat) -> Seq<u8>
    decreases n,
{
    if n == 0 {
        seq![]
    } else {
        kids((n - 1) as nat) + (if n > 1 { " ".spec_bytes() } else { seq![] }) + dec((3 + 3 * (n - 1)) as nat) + " 0 R".spec_bytes()
    }
}

/// Object 2, the page tree of `n` pages.
pub open spec fn pages_obj(n: nat) -> Seq<u8> {
    obj_start(2) + "<< /Type /Pages /Kids [".spec_bytes() + kids(n) + "] /Count ".spec_bytes() + dec(n) + " >>\nendobj\n".spec_bytes()
}

/// Content stream of page `i`: draw image `i + 1` scaled over the whole `w` x `h` page.
pub open spec fn content_stream(i: nat, w: nat, h: nat) -> Seq<u8> {
    "q ".spec_bytes() + fixed4(w) + " 0 0 ".spec_bytes() + fixed4(h) + " 0 0 cm /Im".spec_bytes() + dec(i + 1) + " Do Q".spec_bytes()
}

/// Page object of page `i` (object `3 + 3i`).
pub open spec fn page_obj(i: nat, w: nat, h: nat) -> Seq<u8> {
    obj_start(3 + 3 * i) + "<< /Type /Page /Parent 2 0 R /MediaBox [0 0 ".spec_bytes() + fixed4(w) + " ".spec_bytes()
        + fixed4(h) + "] /Resources << /XObject << /Im".spec_bytes() + dec(i + 1) + " ".spec_bytes() + dec(5 + 3 * i)
        + " 0 R >> >> /Contents ".spec_bytes() + dec(4 + 3 * i) + " 0 R >>\nendobj\n".spec_bytes()
}

/// Content object of page `i` (object `4 + 3i`).
pub open spec fn contents_obj(i: nat, w: nat, h: nat) -> Seq<u8> {
    obj_start(4 + 3 * i) + "<< /Length ".spec_bytes() + dec(content_stream(i, w, h).len()) + " >>\nstream\n".spec_bytes()
        + content_stream(i, w, h) + "\nendstream\nendobj\n".spec_bytes()
}

/// Image object of page `i` (object `5 + 3i`): the page's JPEG file as a DCT-encoded RGB image.
pub open spec fn image_obj(i: nat, pw: nat, ph: nat, jpeg: Seq<u8>) -> Seq<u8> {
    obj_start(5 + 3 * i) + "<< /Type /XObject /Subtype /Image /Width ".spec_bytes() + dec(pw) + " /Height ".spec_bytes() + dec(ph)
        + " /ColorSpace /DeviceRGB /BitsPerComponent 8 /Filter /DCTDecode /Length ".spec_bytes() + dec(jpeg.len())
        + " >>\nstream\n".spec_bytes() + jpeg + "\nendstream\nendobj\n".spec_bytes()
}

/// Number of indirect objects in a document of `n` pages.
pub open spec fn object_count(n: nat) -> nat {
    2 + 3 * n
}

/// Object `k + 1` of the document (objects are numbered from 1).
#[verifier::opaque]
pub open spec fn pdf_object(pages: Seq<PdfPage>, w: nat, h: nat, k: int) -> Seq<u8> {
    if k == 0 {
        catalog_obj()
    } else if k == 1 {
        pages_obj(pages.len())
    } else {
        let i = (k - 2) / 3;
        if (k - 2) % 3 == 0 {
            page_obj(i as nat, w, h)
        } else if (k - 2) % 3 == 1 {
            contents_obj(i as nat, w, h)
        } else {
            image_obj(i as nat, pages[i].width_px as nat, pages[i].height_px as nat, pages[i].jpeg_data@)
        }
    }
}

/// The first `k` objects, one after the other.
pub open spec fn objects_upto(pages: Seq<PdfPage>, w: nat, h: nat, k: int) -> Seq<u8>
    decreases k,
{
    if k <= 0 {
        seq![]
    } else {
        objects_upto(pages, w, h, k - 1) + pdf_object(pages, w, h, k - 1)
    }
}

/// Byte offset of object `k + 1` in the file.
pub open spec fn object_offset(pages: Seq<PdfPage>, w: nat, h: nat, k: int) -> nat {
    pdf_header().len() + objects_upto(pages, w, h, k).len()
}

/// Everything before the cross-reference table.
pub open spec fn pdf_body(pages: Seq<PdfPage>, w: nat, h: nat) -> Seq<u8> {
    pdf_header() + objects_upto(pages, w, h, object_count(pages.len()) as int)
}

/// Cross-reference entries of the first `k` objects.
pub open spec fn xref_entries(pages: Seq<PdfPage>, w: nat, h: nat, k: int) -> Seq<u8>
    decreases k,
{
    if k <= 0 {
        seq![]
    } else {
        xref_entries(pages, w, h, k - 1) + dec_pad10(object_offset(pages, w, h, k - 1)) + " 00000 n \n".spec_bytes()
    }
}

/// The cross-reference table: the free entry 0, then the offset of every object.
pub open spec fn xref_table(pages: Seq<PdfPage>, w: nat, h: nat) -> Seq<u8> {
    let total = object_count(pages.len());
    "xref\n0 ".spec_bytes() + dec(total + 1) + "\n".spec_bytes() + "0000000000 65535 f \n".spec_bytes()
        + xref_entries(pages, w, h, total as int)
}

/// The trailer: object count, root, and where the cross-reference table begins.
pub open spec fn pdf_trailer(pages: Seq<PdfPage>, w: nat, h: nat) -> Seq<u8> {
    let total = object_count(pages.len());
    "trailer\n<< /Size ".spec_bytes() + dec(total + 1) + " /Root 1 0 R >>\nstartxref\n".spec_bytes()
        + dec(pdf_body(pages, w, h).len()) + "\n%%EOF\n".spec_bytes()
}

/// The whole file for `pages` on pages of `w` x `h` ten-thousandths of a point.
pub open spec fn pdf_spec(pages: Seq<PdfPage>, w: nat, h: nat) -> Seq<u8> {
    pdf_body(pages, w, h) + xref_table(pages, w, h) + pdf_trailer(pages, w, h)
}

/// Appends the bytes of `s`.
fn push_str(buf: &mut Vec<u8>, s: &str)
    ensures
        final(buf)@ == old(buf)@ + s.spec_bytes(),
{
    let b = s.as_bytes();
    let ghost start = buf@;
    let mut i: usize = 0;
    while i < b.len()
        invariant
            0 <= i <= b@.len(),
            b@ == s.spec_bytes(),
            buf@ == start + b@.take(i as int),
        decreases b@.len() - i,
    {
        buf.push(b[i]);
        i = i + 1;
        assert(buf@ =~= start + b@.take(i as int));
    }
    assert(b@.take(b@.len() as int) =~= b@);
}

/// Appends `n` in decimal.
fn push_dec(buf: &mut Vec<u8>, n: u64)
    ensures
        final(buf)@ == old(buf)@ + dec(n as nat),
    decreases n,
{
    if n >= 10 {
        push_dec(buf, n / 10);
    }
    buf.push((48 + n % 10) as u8);
    assert(final(buf)@ =~= old(buf)@ + dec(n as nat)) by {
        if n >= 10 {
            assert(dec(n as nat) == dec((n / 10) as nat).push(digit((n % 10) as int)));
        }
    }
}

/// Number of decimal digits of `n`.
fn dec_len(n: u64) -> (r: u64)
    ensures
        r == dec(n as nat).len(),
        r <= n + 1,
    decreases n,
{
    if n >= 10 {
        dec_len(n / 10) + 1
    } else {
        1
    }
}

/// Appends `n` zero-padded to ten digits.
fn push_dec_pad10(buf: &mut Vec<u8>, n: u64)
    ensures
        final(buf)@ == old(buf)@ + dec_pad10(n as nat),
{
    let len = dec_len(n);
    let ghost start = buf@;
    if len < 10 {
        let mut k: u64 = 0;
        while k < 10 - len
            invariant
                0 <= k <= 10 - len,
                len < 10,
                buf@ == start + Seq::new(k as nat, |_i: int| 48u8),
            decreases 10 - len - k,
        {
            buf.push(48u8);
            k = k + 1;
            assert(buf@ =~= start + Seq::new(k as nat, |_i: int| 48u8));
        }
    }
    push_dec(buf, n);
    assert(buf@ =~= start + dec_pad10(n as nat));
}

/// Appends `v / 10000` with four decimals.
fn push_fixed4(buf: &mut Vec<u8>, v: u64)
    ensures
        final(buf)@ == old(buf)@ + fixed4(v as nat),
{
    let ghost start = buf@;
    push_dec(buf, v / 10000);
    push_str(buf, ".");
    let f = v % 10000;
    buf.push((48 + f / 1000) as u8);
    buf.push((48 + f / 100 % 10) as u8);
    buf.push((48 + f / 10 % 10) as u8);
    buf.push((48 + f % 10) as u8);
    assert(buf@ =~= start + fixed4(v as nat));
}

/// Size of a sheet of paper in ten-thousandths of a PostScript point (72 points to the inch),
/// rounded to the nearest unit.
pub fn page_size_points_e4(paper: PaperSize, is_portrait: bool) -> (r: (u64, u64))
    ensures
        r.0 == round_div(oriented_tenth_mm(paper, is_portrait).0 as int * 720000, 254),
        r.1 == round_div(oriented_tenth_mm(paper, is_portrait).1 as int * 720000, 254),
{
    let (w, h) = paper.dimensions_mm(is_portrait);
    let pw = (2 * (w as u64 * 720000) + 254) / 508;
    let ph = (2 * (h as u64 * 720000) + 254) / 508;
    (pw, ph)
}

/// Appends object 1, the catalog.
fn push_catalog(buf: &mut Vec<u8>)
    ensures
        final(buf)@ == old(buf)@ + catalog_obj(),
{
    let ghost start = buf@;
    push_dec(buf, 1);
    let ghost mut acc = dec(1);
    assert(buf@ =~= start + acc);
    push_str(buf, " 0 obj\n");
    proof { lemma_extend(start, acc, " 0 obj\n".spec_bytes()); acc = acc + " 0 obj\n".spec_bytes(); }
    push_str(buf, "<< /Type /Catalog /Pages 2 0 R >>\nendobj\n");
    proof { lemma_extend(start, acc, "<< /Type /Catalog /Pages 2 0 R >>\nendobj\n".spec_bytes()); acc = acc + "<< /Type /Catalog /Pages 2 0 R >>\nendobj\n".spec_bytes(); }
    assert(acc == catalog_obj());
}

/// Appends object 2, the page tree of `n` pages.
fn push_pages_obj(buf: &mut Vec<u8>, n: usize)
    requires
        3 * n + 3 <= usize::MAX,
    ensures
        final(buf)@ == old(buf)@ + pages_obj(n as nat),
{
    let ghost start = buf@;
    push_dec(buf, 2);
    let ghost mut acc = dec(2);
    assert(buf@ =~= start + acc);
    push_str(buf, " 0 obj\n");
    proof { lemma_extend(start, acc, " 0 obj\n".spec_bytes()); acc = acc + " 0 obj\n".spec_bytes(); }
    push_str(buf, "<< /Type /Pages /Kids [");
    proof { lemma_extend(start, acc, "<< /Type /Pages /Kids [".spec_bytes()); acc = acc + "<< /Type /Pages /Kids [".spec_bytes(); }
    let ghost pre = buf@;
    let mut i: usize = 0;
    while i < n
        invariant
            0 <= i <= n,
            3 * n + 3 <= usize::MAX,
            buf@ == pre + kids(i as nat),
        decreases n - i,
    {
        if i > 0 {
            push_str(buf, " ");
        }
        push_dec(buf, (3 + 3 * i) as u64);
        push_str(buf, " 0 R");
        i = i + 1;
        assert(buf@ =~= pre + kids(i as nat));
    }
    proof { lemma_extend(start, acc, kids(n as nat)); acc = acc + kids(n as nat); }
    push_str(buf, "] /Count ");
    proof { lemma_extend(start, acc, "] /Count ".spec_bytes()); acc = acc + "] /Count ".spec_bytes(); }
    push_dec(buf, n as u64);
    proof { lemma_extend(start, acc, dec(n as nat)); acc = acc + dec(n as nat); }
    push_str(buf, " >>\nendobj\n");
    proof { lemma_extend(start, acc, " >>\nendobj\n".spec_bytes()); acc = acc + " >>\nendobj\n".spec_bytes(); }
    assert(acc == pages_obj(n as nat));
}

/// Appends the page object of page `i`.
fn push_page_obj(buf: &mut Vec<u8>, i: usize, w: u64, h: u64)
    requires
        3 * i + 5 <= usize::MAX,
    ensures
        final(buf)@ == old(buf)@ + page_obj(i as nat, w as nat, h as nat),
{
    let ghost start = buf@;
    push_dec(buf, (3 + 3 * i) as u64);
    let ghost mut acc = dec((3 + 3 * i) as nat);
    assert(buf@ =~= start + acc);
    push_str(buf, " 0 obj\n");
    proof { lemma_extend(start, acc, " 0 obj\n".spec_bytes()); acc = acc + " 0 obj\n".spec_bytes(); }
    push_str(buf, "<< /Type /Page /Parent 2 0 R /MediaBox [0 0 ");
    proof { lemma_extend(start, acc, "<< /Type /Page /Parent 2 0 R /MediaBox [0 0 ".spec_bytes()); acc = acc + "<< /Type /Page /Parent 2 0 R /MediaBox [0 0 ".spec_bytes(); }
    push_fixed4(buf, w);
    proof { lemma_extend(start, acc, fixed4(w as nat)); acc = acc + fixed4(w as nat); }
    push_str(buf, " ");
    proof { lemma_extend(start, acc, " ".spec_bytes()); acc = acc + " ".spec_bytes(); }
    push_fixed4(buf, h);
    proof { lemma_extend(start, acc, fixed4(h as nat)); acc = acc + fixed4(h as nat); }
    push_str(buf, "] /Resources << /XObject << /Im");
    proof { lemma_extend(start, acc, "] /Resources << /XObject << /Im".spec_bytes()); acc = acc + "] /Resources << /XObject << /Im".spec_bytes(); }
    push_dec(buf, (i + 1) as u64);
    proof { lemma_extend(start, acc, dec((i + 1) as nat)); acc = acc + dec((i + 1) as nat); }
    push_str(buf, " ");
    proof { lemma_extend(start, acc, " ".spec_bytes()); acc = acc + " ".spec_bytes(); }
    push_dec(buf, (5 + 3 * i) as u64);
    proof { lemma_extend(start, acc, dec((5 + 3 * i) as nat)); acc = acc + dec((5 + 3 * i) as nat); }
    push_str(buf, " 0 R >> >> /Contents ");
    proof { lemma_extend(start, acc, " 0 R >> >> /Contents ".spec_bytes()); acc = acc + " 0 R >> >> /Contents ".spec_bytes(); }
    push_dec(buf, (4 + 3 * i) as u64);
    proof { lemma_extend(start, acc, dec((4 + 3 * i) as nat)); acc = acc + dec((4 + 3 * i) as nat); }
    push_str(buf, " 0 R >>\nendobj\n");
    proof { lemma_extend(start, acc, " 0 R >>\nendobj\n".spec_bytes()); acc = acc + " 0 R >>\nendobj\n".spec_bytes(); }
    assert(acc == page_obj(i as nat, w as nat, h as nat));
}

/// Appends the content stream of page `i`.
fn push_content_stream(buf: &mut Vec<u8>, i: usize, w: u64, h: u64)
    requires
        i + 1 <= usize::MAX,
    ensures
        final(buf)@ == old(buf)@ + content_stream(i as nat, w as nat, h as nat),
{
    let ghost start = buf@;
    push_str(buf, "q ");
    let ghost mut acc = "q ".spec_bytes();
    assert(buf@ =~= start + acc);
    push_fixed4(buf, w);
    proof { lemma_extend(start, acc, fixed4(w as nat)); acc = acc + fixed4(w as nat); }
    push_str(buf, " 0 0 ");
    proof { lemma_extend(start, acc, " 0 0 ".spec_bytes()); acc = acc + " 0 0 ".spec_bytes(); }
    push_fixed4(buf, h);
    proof { lemma_extend(start, acc, fixed4(h as nat)); acc = acc + fixed4(h as nat); }
    push_str(buf, " 0 0 cm /Im");
    proof { lemma_extend(start, acc, " 0 0 cm /Im".spec_bytes()); acc = acc + " 0 0 cm /Im".spec_bytes(); }
    push_dec(buf, (i + 1) as u64);
    proof { lemma_extend(start, acc, dec((i + 1) as nat)); acc = acc + dec((i + 1) as nat); }
    push_str(buf, " Do Q");
    proof { lemma_extend(start, acc, " Do Q".spec_bytes()); acc = acc + " Do Q".spec_bytes(); }
    assert(acc == content_stream(i as nat, w as nat, h as nat));
}

/// Appends the content object of page `i`.
fn push_contents_obj(buf: &mut Vec<u8>, i: usize, w: u64, h: u64)
    requires
        3 * i + 5 <= usize::MAX,
    ensures
        final(buf)@ == old(buf)@ + contents_obj(i as nat, w as nat, h as nat),
{
    let mut content: Vec<u8> = Vec::new();
    push_content_stream(&mut content, i, w, h);
    assert(content@ =~= content_stream(i as nat, w as nat, h as nat));
    let ghost start = buf@;
    push_dec(buf, (4 + 3 * i) as u64);
    let ghost mut acc = dec((4 + 3 * i) as nat);
    assert(buf@ =~= start + acc);
    push_str(buf, " 0 obj\n");
    proof { lemma_extend(start, acc, " 0 obj\n".spec_bytes()); acc = acc + " 0 obj\n".spec_bytes(); }
    push_str(buf, "<< /Length ");
    proof { lemma_extend(start, acc, "<< /Length ".spec_bytes()); acc = acc + "<< /Length ".spec_bytes(); }
    push_dec(buf, content.len() as u64);
    proof { lemma_extend(start, acc, dec(content_stream(i as nat, w as nat, h as nat).len())); acc = acc + dec(content_stream(i as nat, w as nat, h as nat).len()); }
    push_str(buf, " >>\nstream\n");
    proof { lemma_extend(start, acc, " >>\nstream\n".spec_bytes()); acc = acc + " >>\nstream\n".spec_bytes(); }
    append_bytes(buf, &content);
    proof { lemma_extend(start, acc, content_stream(i as nat, w as nat, h as nat)); acc = acc + content_stream(i as nat, w as nat, h as nat); }
    push_str(buf, "\nendstream\nendobj\n");
    proof { lemma_extend(start, acc, "\nendstream\nendobj\n".spec_bytes()); acc = acc + "\nendstream\nendobj\n".spec_bytes(); }
    assert(acc == contents_obj(i as nat, w as nat, h as nat));
}

/// Appends the image object of page `i`.
fn push_image_obj(buf: &mut Vec<u8>, i: usize, page: &PdfPage)
    requires
        3 * i + 5 <= usize::MAX,
    ensures
        final(buf)@ == old(buf)@ + image_obj(i as nat, page.width_px as nat, page.height_px as nat, page.jpeg_data@),
{
    let ghost start = buf@;
    push_dec(buf, (5 + 3 * i) as u64);
    let ghost mut acc = dec((5 + 3 * i) as nat);
    assert(buf@ =~= start + acc);
    push_str(buf, " 0 obj\n");
    proof { lemma_extend(start, acc, " 0 obj\n".spec_bytes()); acc = acc + " 0 obj\n".spec_bytes(); }
    push_str(buf, "<< /Type /XObject /Subtype /Image /Width ");
    proof { lemma_extend(start, acc, "<< /Type /XObject /Subtype /Image /Width ".spec_bytes()); acc = acc + "<< /Type /XObject /Subtype /Image /Width ".spec_bytes(); }
    push_dec(buf, page.width_px as u64);
    proof { lemma_extend(start, acc, dec(page.width_px as nat)); acc = acc + dec(page.width_px as nat); }
    push_str(buf, " /Height ");
    proof { lemma_extend(start, acc, " /Height ".spec_bytes()); acc = acc + " /Height ".spec_bytes(); }
    push_dec(buf, page.height_px as u64);
    proof { lemma_extend(start, acc, dec(page.height_px as nat)); acc = acc + dec(page.height_px as nat); }
    push_str(buf, " /ColorSpace /DeviceRGB /BitsPerComponent 8 /Filter /DCTDecode /Length ");
    proof { lemma_extend(start, acc, " /ColorSpace /DeviceRGB /BitsPerComponent 8 /Filter /DCTDecode /Length ".spec_bytes()); acc = acc + " /ColorSpace /DeviceRGB /BitsPerComponent 8 /Filter /DCTDecode /Length ".spec_bytes(); }
    push_dec(buf, page.jpeg_data.len() as u64);
    proof { lemma_extend(start, acc, dec(page.jpeg_data@.len())); acc = acc + dec(page.jpeg_data@.len()); }
    push_str(buf, " >>\nstream\n");
    proof { lemma_extend(start, acc, " >>\nstream\n".spec_bytes()); acc = acc + " >>\nstream\n".spec_bytes(); }
    append_bytes(buf, &page.jpeg_data);
    proof { lemma_extend(start, acc, page.jpeg_data@); acc = acc + page.jpeg_data@; }
    push_str(buf, "\nendstream\nendobj\n");
    proof { lemma_extend(start, acc, "\nendstream\nendobj\n".spec_bytes()); acc = acc + "\nendstream\nendobj\n".spec_bytes(); }
    assert(acc == image_obj(i as nat, page.width_px as nat, page.height_px as nat, page.jpeg_data@));
}

/// `(start + acc) + piece` is `start + (acc + piece)`.
proof fn lemma_extend(start: Seq<u8>, acc: Seq<u8>, piece: Seq<u8>)
    ensures
        (start + acc) + piece == start + (acc + piece),
{
    vstd::seq_lib::lemma_concat_associative(start, acc, piece);
}

/// Appends the header and every object; returns the byte offset of each object.
fn push_body(buf: &mut Vec<u8>, pages: &Vec<PdfPage>, page_w: u64, page_h: u64) -> (offsets: Vec<usize>)
    requires
        old(buf)@.len() == 0,
        3 * pages@.len() + 3 <= usize::MAX,
    ensures
        final(buf)@ == pdf_body(pages@, page_w as nat, page_h as nat),
        offsets@.len() == object_count(pages@.len()),
        forall|k: int| 0 <= k < offsets@.len() ==> #[trigger] offsets@[k] == object_offset(pages@, page_w as nat, page_h as nat, k),
{
    let ghost ps = pages@;
    let ghost w = page_w as nat;
    let ghost h = page_h as nat;
    let n = pages.len();
    push_str(buf, "%PDF-1.4\n%");
    buf.push(0xe2u8);
    buf.push(0xe3u8);
    buf.push(0xcfu8);
    buf.push(0xd3u8);
    push_str(buf, "\n");
    assert(buf@ =~= pdf_header());

    let mut offsets: Vec<usize> = Vec::new();
    offsets.push(buf.len());
    push_catalog(buf);
    proof {
        reveal(pdf_object);
        assert(objects_upto(ps, w, h, 1) =~= objects_upto(ps, w, h, 0) + pdf_object(ps, w, h, 0));
        assert(buf@ =~= pdf_header() + objects_upto(ps, w, h, 1));
    }
    offsets.push(buf.len());
    push_pages_obj(buf, n);
    proof {
        reveal(pdf_object);
        assert(objects_upto(ps, w, h, 2) =~= objects_upto(ps, w, h, 1) + pdf_object(ps, w, h, 1));
        assert(buf@ =~= pdf_header() + objects_upto(ps, w, h, 2));
    }

    let mut i: usize = 0;
    while i < n
        invariant
            0 <= i <= n,
            n == ps.len(),
            3 * n + 3 <= usize::MAX,
            ps == pages@,
            w == page_w,
            h == page_h,
            buf@ == pdf_header() + objects_upto(ps, w, h, 2 + 3 * i),
            offsets@.len() == 2 + 3 * i,
            forall|k: int| 0 <= k < 2 + 3 * i ==> #[trigger] offsets@[k] == object_offset(ps, w, h, k),
        decreases n - i,
    {
        let ghost k0 = 2 + 3 * i;
        proof {
            lemma_pdf_object_kinds(ps, w, h, i as int);
        }
        offsets.push(buf.len());
        push_page_obj(buf, i, page_w, page_h);
        assert(objects_upto(ps, w, h, k0 + 1) =~= objects_upto(ps, w, h, k0) + pdf_object(ps, w, h, k0));
        offsets.push(buf.len());
        push_contents_obj(buf, i, page_w, page_h);
        assert(objects_upto(ps, w, h, k0 + 2) =~= objects_upto(ps, w, h, k0 + 1) + pdf_object(ps, w, h, k0 + 1));
        offsets.push(buf.len());
        push_image_obj(buf, i, &pages[i]);
        assert(objects_upto(ps, w, h, k0 + 3) =~= objects_upto(ps, w, h, k0 + 2) + pdf_object(ps, w, h, k0 + 2));
        assert(buf@ =~= pdf_header() + objects_upto(ps, w, h, k0 + 3));
        i = i + 1;
    }
    offsets
}

/// Appends the cross-reference table for the object offsets `offsets`.
fn push_xref(buf: &mut Vec<u8>, offsets: &Vec<usize>, Ghost(ps): Ghost<Seq<PdfPage>>, Ghost(w): Ghost<nat>, Ghost(h): Ghost<nat>)
    requires
        offsets@.len() == object_count(ps.len()),
        offsets@.len() + 1 <= usize::MAX,
        forall|k: int| 0 <= k < offsets@.len() ==> #[trigger] offsets@[k] == object_offset(ps, w, h, k),
    ensures
        final(buf)@ == old(buf)@ + xref_table(ps, w, h),
{
    let ghost start = buf@;
    let total = offsets.len();
    push_str(buf, "xref\n0 ");
    push_dec(buf, (total + 1) as u64);
    push_str(buf, "\n");
    push_str(buf, "0000000000 65535 f \n");
    let ghost xref_start = buf@;
    let mut k: usize = 0;
    while k < total
        invariant
            0 <= k <= total,
            total == offsets@.len(),
            forall|j: int| 0 <= j < total ==> #[trigger] offsets@[j] == object_offset(ps, w, h, j),
            buf@ == xref_start + xref_entries(ps, w, h, k as int),
        decreases total - k,
    {
        push_dec_pad10(buf, offsets[k] as u64);
        push_str(buf, " 00000 n \n");
        k = k + 1;
        assert(buf@ =~= xref_start + xref_entries(ps, w, h, k as int));
    }
    assert(buf@ =~= start + xref_table(ps, w, h));
}

/// Writes a PDF document with one page per entry of `pages`, each page `page_w` x `page_h`
/// ten-thousandths of a point, showing that page's JPEG image stretched over the whole page.
pub fn create_pdf(pages: &Vec<PdfPage>, page_w: u64, page_h: u64) -> (doc: Vec<u8>)
    requires
        3 * pages@.len() + 3 <= usize::MAX,
    ensures
        doc@ == pdf_spec(pages@, page_w as nat, page_h as nat),
{
    let mut buf: Vec<u8> = Vec::new();
    let offsets = push_body(&mut buf, pages, page_w, page_h);
    let ghost body = buf@;
    let xref_offset = buf.len();
    push_xref(&mut buf, &offsets, Ghost(pages@), Ghost(page_w as nat), Ghost(page_h as nat));
    let ghost with_xref = buf@;
    let total = offsets.len();
    push_str(&mut buf, "trailer\n<< /Size ");
    push_dec(&mut buf, (total + 1) as u64);
    push_str(&mut buf, " /Root 1 0 R >>\nstartxref\n");
    push_dec(&mut buf, xref_offset as u64);
    push_str(&mut buf, "\n%%EOF\n");
    assert(buf@ =~= with_xref + pdf_trailer(pages@, page_w as nat, page_h as nat));
    buf
}

/// Appends all bytes of `src`.
fn append_bytes(buf: &mut Vec<u8>, src: &Vec<u8>)
    ensures
        final(buf)@ == old(buf)@ + src@,
{
    let ghost start = buf@;
    let mut i: usize = 0;
    while i < src.len()
        invariant
            0 <= i <= src@.len(),
            buf@ == start + src@.take(i as int),
        decreases src@.len() - i,
    {
        buf.push(src[i]);
        i = i + 1;
        assert(buf@ =~= start + src@.take(i as int));
    }
    assert(src@.take(src@.len() as int) =~= src@);
}

/// The objects of the document by number: the catalog, the page tree, and the three objects
/// of each page.
pub proof fn lemma_pdf_object_kinds(pages: Seq<PdfPage>, w: nat, h: nat, i: int)
    requires
        0 <= i < pages.len(),
    ensures
        pdf_object(pages, w, h, 0) == catalog_obj(),
        pdf_object(pages, w, h, 1) == pages_obj(pages.len()),
        pdf_object(pages, w, h, 2 + 3 * i) == page_obj(i as nat, w, h),
        pdf_object(pages, w, h, 3 + 3 * i) == contents_obj(i as nat, w, h),
        pdf_object(pages, w, h, 4 + 3 * i) == image_obj(i as nat, pages[i].width_px as nat, pages[i].height_px as nat, pages[i].jpeg_data@),
{
    reveal(pdf_object);
    lemma_object_index(i);
}

/// Objects `2 + 3i`, `3 + 3i` and `4 + 3i` are the page, content and image objects of page `i`.
proof fn lemma_object_index(i: int)
    requires
        i >= 0,
    ensures
        (2 + 3 * i - 2) / 3 == i,
        (2 + 3 * i - 2) % 3 == 0,
        (3 + 3 * i - 2) / 3 == i,
        (3 + 3 * i - 2) % 3 == 1,
        (4 + 3 * i - 2) / 3 == i,
        (4 + 3 * i - 2) % 3 == 2,
{
    lemma_fundamental_div_mod_converse(3 * i, 3, i, 0);
    lemma_fundamental_div_mod_converse(3 * i + 1, 3, i, 1);
    lemma_fundamental_div_mod_converse(3 * i + 2, 3, i, 2);
}

/// Every object begins with its own opening line.
proof fn lemma_object_starts(pages: Seq<PdfPage>, w: nat, h: nat, k: int)
    requires
        0 <= k < object_count(pages.len()),
    ensures
        pdf_object(pages, w, h, k).len() >= obj_start((k + 1) as nat).len(),
        pdf_object(pages, w, h, k).subrange(0, obj_start((k + 1) as nat).len() as int) == obj_start((k + 1) as nat),
{
    let head = obj_start((k + 1) as nat);
    if k == 0 {
        lemma_pdf_object_kinds_head(pages, w, h);
        assert(catalog_obj().subrange(0, head.len() as int) =~= head);
    } else if k == 1 {
        lemma_pdf_object_kinds_head(pages, w, h);
        assert(pages_obj(pages.len()).subrange(0, head.len() as int) =~= head);
    } else {
        let i = (k - 2) / 3;
        lemma_fundamental_div_mod(k - 2, 3);
        assert(0 <= i < pages.len()) by (nonlinear_arith)
            requires k - 2 == 3 * i + (k - 2) % 3, 0 <= (k - 2) % 3 < 3, 2 <= k < 2 + 3 * pages.len();
        lemma_pdf_object_kinds(pages, w, h, i);
        let r = (k - 2) % 3;
        if r == 0 {
            assert(k + 1 == 3 + 3 * i);
            assert(page_obj(i as nat, w, h).subrange(0, head.len() as int) =~= head);
        } else if r == 1 {
            assert(k + 1 == 4 + 3 * i);
            assert(contents_obj(i as nat, w, h).subrange(0, head.len() as int) =~= head);
        } else {
            assert(k + 1 == 5 + 3 * i);
            let p = pages[i];
            assert(image_obj(i as nat, p.width_px as nat, p.height_px as nat, p.jpeg_data@).subrange(0, head.len() as int) =~= head);
        }
    }
}

/// Objects 1 and 2 are the catalog and the page tree.
proof fn lemma_pdf_object_kinds_head(pages: Seq<PdfPage>, w: nat, h: nat)
    ensures
        pdf_object(pages, w, h, 0) == catalog_obj(),
        pdf_object(pages, w, h, 1) == pages_obj(pages.len()),
{
    reveal(pdf_object);
}

/// The first `k` objects are a prefix of the first `m >= k`.
proof fn lemma_objects_prefix(pages: Seq<PdfPage>, w: nat, h: nat, k: int, m: int)
    requires
        0 <= k <= m,
    ensures
        objects_upto(pages, w, h, m).len() >= objects_upto(pages, w, h, k).len(),
        objects_upto(pages, w, h, m).subrange(0, objects_upto(pages, w, h, k).len() as int) == objects_upto(pages, w, h, k),
    decreases m,
{
    let len = objects_upto(pages, w, h, k).len() as int;
    if m > k {
        lemma_objects_prefix(pages, w, h, k, m - 1);
        assert(objects_upto(pages, w, h, m).subrange(0, len) =~= objects_upto(pages, w, h, m - 1).subrange(0, len));
    } else {
        assert(objects_upto(pages, w, h, m).subrange(0, len) =~= objects_upto(pages, w, h, k));
    }
}

/// The cross-reference table is right: entry `k + 1` records the offset `object_offset(k)`,
/// and the file holds the opening line `k + 1 0 obj` of object `k + 1` at exactly that offset.
pub proof fn lemma_xref_offsets_point_at_objects(pages: Seq<PdfPage>, w: nat, h: nat, k: int)
    requires
        0 <= k < object_count(pages.len()),
    ensures
        ({
            let off = object_offset(pages, w, h, k) as int;
            let head = obj_start((k + 1) as nat);
            &&& off + head.len() <= pdf_spec(pages, w, h).len()
            &&& pdf_spec(pages, w, h).subrange(off, off + head.len()) == head
        }),
        xref_entries(pages, w, h, k + 1) == xref_entries(pages, w, h, k) + dec_pad10(object_offset(pages, w, h, k)) + " 00000 n \n".spec_bytes(),
{
    let total = object_count(pages.len()) as int;
    let off = object_offset(pages, w, h, k) as int;
    let head = obj_start((k + 1) as nat);
    let before = objects_upto(pages, w, h, k);
    let obj = pdf_object(pages, w, h, k);
    lemma_objects_prefix(pages, w, h, k + 1, total);
    lemma_object_starts(pages, w, h, k);
    let all = objects_upto(pages, w, h, total);
    assert(objects_upto(pages, w, h, k + 1) == before + obj);
    let doc = pdf_spec(pages, w, h);
    assert forall|j: int| 0 <= j < head.len() implies #[trigger] doc.subrange(off, off + head.len())[j] == head[j] by {
        assert(obj.subrange(0, head.len() as int)[j] == head[j]);
        assert(all.subrange(0, (before + obj).len() as int)[before.len() + j] == (before + obj)[before.len() + j]);
    }
    assert(doc.subrange(off, off + head.len()) =~= head);
}

/// The number after `startxref` is where the cross-reference table begins.
pub proof fn lemma_startxref_points_at_xref(pages: Seq<PdfPage>, w: nat, h: nat)
    ensures
        ({
            let at = pdf_body(pages, w, h).len() as int;
            let tag = "xref\n0 ".spec_bytes();
            &&& at + tag.len() <= pdf_spec(pages, w, h).len()
            &&& pdf_spec(pages, w, h).subrange(at, at + tag.len()) == tag
            &&& pdf_trailer(pages, w, h) == "trailer\n<< /Size ".spec_bytes() + dec(object_count(pages.len()) + 1)
                + " /Root 1 0 R >>\nstartxref\n".spec_bytes() + dec(at as nat) + "\n%%EOF\n".spec_bytes()
        }),
{
    let at = pdf_body(pages, w, h).len() as int;
    let tag = "xref\n0 ".spec_bytes();
    let doc = pdf_spec(pages, w, h);
    assert(doc.subrange(at, at + tag.len()) =~= tag);
}

/// The number that the ASCII decimal digits `s` spell.
pub open spec fn decimal_value(s: Seq<u8>) -> int
    decreases s.len(),
{
    if s.len() == 0 {
        0
    } else {
        decimal_value(s.drop_last()) * 10 + (s.last() - 48)
    }
}

/// `10` to the power `k`.
pub open spec fn pow10(k: nat) -> nat
    decreases k,
{
    if k == 0 { 1 } else { 10 * pow10((k - 1) as nat) }
}

/// The decimal form of `n` is made of digits and reads back as `n`.
proof fn lemma_dec_reads_back(n: nat)
    ensures
        dec(n).len() >= 1,
        decimal_value(dec(n)) == n,
        forall|i: int| 0 <= i < dec(n).len() ==> 48 <= #[trigger] dec(n)[i] <= 57,
    decreases n,
{
    if n >= 10 {
        lemma_dec_reads_back(n / 10);
        assert(dec(n).drop_last() =~= dec(n / 10));
        assert(digit((n % 10) as int) == 48 + n % 10);
        assert(decimal_value(dec(n)) == (n / 10) * 10 + n % 10);
        lemma_fundamental_div_mod(n as int, 10);
        assert((n / 10) * 10 + n % 10 == n) by (nonlinear_arith)
            requires n == 10 * (n / 10) + n % 10;
    } else {
        assert(digit(n as int) == 48 + n);
        assert(dec(n).drop_last() =~= Seq::<u8>::empty());
        assert(decimal_value(Seq::<u8>::empty()) == 0);
        assert(dec(n).last() == 48 + n);
        assert(decimal_value(dec(n)) == decimal_value(dec(n).drop_last()) * 10 + (dec(n).last() - 48));
    }
}

/// A number below `10^k` has at most `k` digits.
proof fn lemma_dec_len_bound(n: nat, k: nat)
    requires
        k >= 1,
        n < pow10(k),
    ensures
        dec(n).len() <= k,
    decreases k,
{
    if n >= 10 {
        if k == 1 {
            assert(pow10(1) == 10 * pow10(0));
        } else {
            assert(pow10(k) == 10 * pow10((k - 1) as nat));
            assert(n / 10 < pow10((k - 1) as nat));
            lemma_dec_len_bound(n / 10, (k - 1) as nat);
        }
    }
}

/// Leading zeros do not change what digits spell.
proof fn lemma_zeros_value(z: nat, d: Seq<u8>)
    ensures
        decimal_value(Seq::new(z, |_i: int| 48u8) + d) == decimal_value(d),
    decreases d.len(), z,
{
    let zeros = Seq::new(z, |_i: int| 48u8);
    if d.len() == 0 {
        assert(zeros + d =~= zeros);
        if z > 0 {
            assert(zeros.drop_last() =~= Seq::new((z - 1) as nat, |_i: int| 48u8));
            lemma_zeros_value((z - 1) as nat, d);
            assert(Seq::new((z - 1) as nat, |_i: int| 48u8) + d =~= Seq::new((z - 1) as nat, |_i: int| 48u8));
        }
    } else {
        assert((zeros + d).drop_last() =~= zeros + d.drop_last());
        lemma_zeros_value(z, d.drop_last());
    }
}

/// Every cross-reference entry is 20 bytes: an offset below `10^10` is written as exactly ten
/// ASCII digits that read back as the offset, followed by ` 00000 n ` and the line end.
pub proof fn lemma_xref_entry_width(n: nat)
    requires
        n < 10_000_000_000,
    ensures
        dec_pad10(n).len() == 10,
        decimal_value(dec_pad10(n)) == n,
        forall|i: int| 0 <= i < 10 ==> 48 <= #[trigger] dec_pad10(n)[i] <= 57,
        (dec_pad10(n) + " 00000 n \n".spec_bytes()).len() == 20,
{
    reveal_with_fuel(pow10, 11);
    assert(pow10(10) == 10_000_000_000);
    lemma_dec_len_bound(n, 10);
    lemma_dec_reads_back(n);
    let pad = 10 - dec(n).len();
    if pad > 0 {
        lemma_zeros_value((10 - dec(n).len()) as nat, dec(n));
        assert forall|i: int| 0 <= i < 10 implies 48 <= #[trigger] dec_pad10(n)[i] <= 57 by {
            if i >= 10 - dec(n).len() {
                assert(dec_pad10(n)[i] == dec(n)[i - (10 - dec(n).len())]);
            }
        }
    }
    reveal_strlit(" 00000 n \n");
    assert(vstd::string::is_ascii(" 00000 n \n"));
    vstd::string::is_ascii_spec_bytes(" 00000 n \n");
}

} // verus!
