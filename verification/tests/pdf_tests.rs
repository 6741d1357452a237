use photo_grid_print::paper::PaperSize;
use photo_grid_print::pdf::{create_pdf, page_size_points_e4, PdfPage};

/// The document the PDF writer is expected to produce, written out with `format!` and
/// page sizes given in points.
fn expected_pdf(pages: &[PdfPage], w_pt: f64, h_pt: f64) -> Vec<u8> {
    let mut out: Vec<u8> = b"%PDF-1.4\n%\xe2\xe3\xcf\xd3\n".to_vec();
    let mut offsets = Vec::new();
    offsets.push(out.len());
    out.extend_from_slice(b"1 0 obj\n<< /Type /Catalog /Pages 2 0 R >>\nendobj\n");
    let kids: Vec<String> = (0..pages.len()).map(|i| format!("{} 0 R", 3 + 3 * i)).collect();
    offsets.push(out.len());
    out.extend_from_slice(
        format!("2 0 obj\n<< /Type /Pages /Kids [{}] /Count {} >>\nendobj\n", kids.join(" "), pages.len()).as_bytes(),
    );
    for (i, p) in pages.iter().enumerate() {
        let (po, co, io) = (3 + 3 * i, 4 + 3 * i, 5 + 3 * i);
        let stream = format!("q {:.4} 0 0 {:.4} 0 0 cm /Im{} Do Q", w_pt, h_pt, i + 1);
        offsets.push(out.len());
        out.extend_from_slice(
            format!(
                "{} 0 obj\n<< /Type /Page /Parent 2 0 R /MediaBox [0 0 {:.4} {:.4}] /Resources << /XObject << /Im{} {} 0 R >> >> /Contents {} 0 R >>\nendobj\n",
                po, w_pt, h_pt, i + 1, io, co
            )
            .as_bytes(),
        );
        offsets.push(out.len());
        out.extend_from_slice(
            format!("{} 0 obj\n<< /Length {} >>\nstream\n{}\nendstream\nendobj\n", co, stream.len(), stream).as_bytes(),
        );
        offsets.push(out.len());
        out.extend_from_slice(
            format!(
                "{} 0 obj\n<< /Type /XObject /Subtype /Image /Width {} /Height {} /ColorSpace /DeviceRGB /BitsPerComponent 8 /Filter /DCTDecode /Length {} >>\nstream\n",
                io, p.width_px, p.height_px, p.jpeg_data.len()
            )
            .as_bytes(),
        );
        out.extend_from_slice(&p.jpeg_data);
        out.extend_from_slice(b"\nendstream\nendobj\n");
    }
    let xref = out.len();
    let total = 2 + 3 * pages.len();
    out.extend_from_slice(format!("xref\n0 {}\n0000000000 65535 f \n", total + 1).as_bytes());
    for o in offsets {
        out.extend_from_slice(format!("{:010} 00000 n \n", o).as_bytes());
    }
    out.extend_from_slice(
        format!("trailer\n<< /Size {} /Root 1 0 R >>\nstartxref\n{}\n%%EOF\n", total + 1, xref).as_bytes(),
    );
    out
}

fn page(data: &[u8], w: u32, h: u32) -> PdfPage {
    PdfPage { jpeg_data: data.to_vec(), width_px: w, height_px: h }
}

#[test]
fn page_size_in_points() {
    assert_eq!(page_size_points_e4(PaperSize::A4, true), (5952756, 8418898));
    assert_eq!(page_size_points_e4(PaperSize::A4, false), (8418898, 5952756));
    assert_eq!(page_size_points_e4(PaperSize::Letter, true), (6120000, 7920000));
    assert_eq!(page_size_points_e4(PaperSize::Photo4x6, true), (2880000, 4320000));
}

#[test]
fn page_size_matches_four_decimal_points() {
    for p in [
        PaperSize::A4,
        PaperSize::A3,
        PaperSize::A5,
        PaperSize::Letter,
        PaperSize::Legal,
        PaperSize::Photo4x6,
        PaperSize::Photo5x7,
    ] {
        let (tw, th) = p.dimensions_mm(true);
        let (w, h) = page_size_points_e4(p, true);
        let fw = format!("{:.4}", tw as f64 / 10.0 / 25.4 * 72.0);
        let fh = format!("{:.4}", th as f64 / 10.0 / 25.4 * 72.0);
        assert_eq!(format!("{}.{:04}", w / 10000, w % 10000), fw);
        assert_eq!(format!("{}.{:04}", h / 10000, h % 10000), fh);
    }
}

#[test]
fn one_page_document() {
    let pages = vec![page(&[0xFF, 0xD8, 1, 2, 3, 0xFF, 0xD9], 3508, 2480)];
    let doc = create_pdf(&pages, 8418898, 5952756);
    assert_eq!(doc, expected_pdf(&pages, 841.8897637795275, 595.2755905511812));
    assert!(doc.starts_with(b"%PDF-1.4\n"));
    assert!(doc.ends_with(b"%%EOF\n"));
}

#[test]
fn three_page_document() {
    let pages = vec![page(b"first", 10, 20), page(b"", 1, 1), page(b"third image", 300, 200)];
    let doc = create_pdf(&pages, 6120000, 7920000);
    assert_eq!(doc, expected_pdf(&pages, 612.0, 792.0));
}

#[test]
fn empty_document() {
    let doc = create_pdf(&vec![], 5952756, 8418898);
    assert_eq!(doc, expected_pdf(&[], 595.2756, 841.8898));
    let text = String::from_utf8_lossy(&doc).to_string();
    assert!(text.contains("/Kids [] /Count 0"));
}

fn find_last(hay: &[u8], needle: &[u8]) -> Option<usize> {
    (0..=hay.len().saturating_sub(needle.len())).rev().find(|&i| hay[i..].starts_with(needle))
}

#[test]
fn xref_offsets_point_at_object_headers() {
    let pages = vec![page(b"abc", 2, 2), page(b"defg", 4, 4)];
    let doc = create_pdf(&pages, 10000, 20000);
    let sx = find_last(&doc, b"startxref\n").unwrap();
    let tail = std::str::from_utf8(&doc[sx + 10..]).unwrap();
    let xref_at: usize = tail.lines().next().unwrap().parse().unwrap();
    let table = std::str::from_utf8(&doc[xref_at..]).unwrap();
    assert!(table.starts_with("xref\n0 9\n"));
    let entries: Vec<&str> = table.lines().skip(3).take(8).collect();
    for (k, e) in entries.iter().enumerate() {
        let off: usize = e[..10].parse().unwrap();
        assert!(doc[off..].starts_with(format!("{} 0 obj\n", k + 1).as_bytes()), "object {}", k + 1);
    }
    assert!(find_last(&doc, b"/MediaBox [0 0 1.0000 2.0000]").is_some());
}
