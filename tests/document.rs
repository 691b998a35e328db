use prspdf::color_spaces::{DeviceN, Lab, NChannel, Separation};
use prspdf::fonts::Font;
use prspdf::functions::{Type0, Type2};
use prspdf::{ColorSpace, Decimal, Doc, MediaBox, Page, Pos, Version};

fn d(mantissa: i64, scale: u32) -> Decimal {
    Decimal::new(mantissa, scale)
}

fn find(hay: &[u8], needle: &[u8]) -> Option<usize> {
    hay.windows(needle.len()).position(|w| w == needle)
}

fn rfind(hay: &[u8], needle: &[u8]) -> Option<usize> {
    hay.windows(needle.len()).rposition(|w| w == needle)
}

/// The offsets of the cross-reference entries, object 1 first, and the declared size.
fn xref_offsets(bytes: &[u8]) -> (Vec<usize>, usize) {
    let start = rfind(bytes, b"\nxref\n").unwrap() + 1;
    let text = String::from_utf8(bytes[start..].to_vec()).unwrap();
    let mut lines = text.lines();
    assert_eq!(lines.next(), Some("xref"));
    let range = lines.next().unwrap();
    let count: usize = range.strip_prefix("0 ").unwrap().parse().unwrap();
    assert_eq!(lines.next(), Some("0000000000 65535 f "));
    let mut offsets = Vec::new();
    for _ in 1..count {
        let line = lines.next().unwrap();
        assert_eq!(line.len(), 19);
        assert!(line.ends_with(" 00000 n "));
        offsets.push(line[..10].parse().unwrap());
    }
    let size_at = text.find("/Size ").unwrap() + 6;
    let size: usize = text[size_at..].lines().next().unwrap().parse().unwrap();
    let sx = text.find("startxref\n").unwrap() + 10;
    let xref_at: usize = text[sx..].lines().next().unwrap().parse().unwrap();
    assert_eq!(xref_at, start);
    assert!(text.ends_with("%%EOF\n"));
    (offsets, size)
}

/// Each entry of the table points at the header of its own object.
fn check_offsets(bytes: &[u8]) -> usize {
    let (offsets, size) = xref_offsets(bytes);
    for (i, off) in offsets.iter().enumerate() {
        let header = format!("{} 0 obj", i + 1);
        assert_eq!(&bytes[*off..*off + header.len()], header.as_bytes());
    }
    assert_eq!(size, offsets.len() + 1);
    offsets.len()
}

fn hello_page() -> Page {
    let mut page = Page::new(MediaBox::Letter);
    page.resources().add_font("F0", Font::new_type1("Arial"));
    page.contents().fill_text("F0", 32, Pos { x: 0, y: 760 }, "Hello");
    page
}

fn devicen_page() -> Page {
    let mut page = Page::new(MediaBox::A4);
    page.resources().add_font("F0", Font::new_type1("Times-Italic"));
    let unit = (d(0, 0), d(1, 0));
    let type0 = Type0::new([unit; 7], [unit; 4], [1; 7], 8, vec![64, 64, 255, 0]);
    let orange = Separation::new(
        "Orange",
        Lab::new_with_white(d(964203, 6), d(1, 0), d(824905, 6)),
        Type2::new([d(100, 0), d(0, 0), d(0, 0)], [d(65, 0), d(58, 0), d(88, 0)], d(1, 0)),
    );
    let green = Separation::new(
        "Green",
        Lab::new_with_white(d(964203, 6), d(1, 0), d(824905, 6)),
        Type2::new([d(100, 0), d(0, 0), d(0, 0)], [d(60, 0), d(-75, 0), d(0, 0)], d(1, 0)),
    );
    let nchannel = NChannel::new(
        vec![("Orange", orange), ("Green", green)],
        vec!["Cyan", "Magenta", "Yellow", "Black"],
    );
    let names = vec!["Cyan", "Magenta", "Yellow", "Black", "Orange", "Green"];
    let devicen = DeviceN::new(names, type0, nchannel).unwrap();
    page.resources().add_color_space("CS0", ColorSpace::DeviceN(devicen));
    page.contents().set_fill_color_space("CS0");
    page.contents().set_fill_color_space_color([d(1, 0), d(0, 0), d(0, 0), d(0, 0), d(0, 0), d(0, 0)]);
    page.contents().fill_rect(0, 700, 50, 50);
    page
}

#[test]
fn it_works() {
    let mut doc = Doc::new(Version::V1_4);
    doc.push_page(hello_page());
    let bytes = doc.to_bytes();
    assert!(bytes.starts_with(b"%PDF-1.4\x80\x80\x80\x80\n1 0 obj\n"));
    assert_eq!(check_offsets(&bytes), 5);
}

#[test]
fn empty_document_scenario() {
    let mut doc = Doc::new(Version::V1_4);
    let bytes = doc.to_bytes();
    let mut expected: Vec<u8> = b"%PDF-1.4\x80\x80\x80\x80\n".to_vec();
    expected.extend_from_slice(b"1 0 obj\n<<\n  /Type /Pages\n  /Count 0\n  /Kids []\n>>\nendobj\n");
    expected.extend_from_slice(b"2 0 obj\n<< /Type /Catalog\n   /Pages 1 0 R\n>>\nendobj\n");
    expected.extend_from_slice(b"xref\n0 3\n0000000000 65535 f \n0000000013 00000 n \n0000000071 00000 n \n");
    expected.extend_from_slice(b"trailer\n<< /Root 2 0 R\n   /Size 3\n>>\nstartxref\n123\n%%EOF\n");
    assert_eq!(bytes, expected);
    assert_eq!(check_offsets(&bytes), 2);
}

#[test]
fn one_page_scenario() {
    let mut doc = Doc::new(Version::V1_7);
    let page = doc.push_page(Page::new(MediaBox::Letter));
    page.resources().add_font("F0", Font::new_type1("Arial"));
    page.contents().fill_text("F0", 32, Pos::new(0, 760), "Hello");
    let bytes = doc.to_bytes();
    let text = String::from_utf8_lossy(&bytes).to_string();
    assert!(text.contains("1 0 obj\n<<\n  /Type /Pages\n  /Count 1\n  /Kids [2 0 R]\n>>\nendobj\n"));
    assert!(text.contains("2 0 obj\n<<\n  /Type /Page\n  /MediaBox [0 0 612 792]\n  /Parent 1 0 R\n  /Resources 3 0 R\n  /Contents 4 0 R\n>>\nendobj\n"));
    let payload = "BT\n  /F0 32 Tf\n  0 760 Td\n  0 Tr\n  (Hello) Tj\nET";
    assert!(text.contains(&format!(
        "4 0 obj\n<<\n  /Length {}\n>>\nstream\n{}\nendstream\nendobj\n",
        payload.len(),
        payload
    )));
    assert!(text.contains("5 0 obj\n<< /Type /Catalog\n   /Pages 1 0 R\n>>\nendobj\n"));
    assert!(text.contains("trailer\n<< /Root 5 0 R\n   /Size 6\n>>\n"));
    assert_eq!(check_offsets(&bytes), 5);
}

#[test]
fn kids_match_page_count() {
    for n in 0..5usize {
        let mut doc = Doc::new(Version::V1_7);
        for _ in 0..n {
            doc.push_page(hello_page());
        }
        let bytes = doc.to_bytes();
        let text = String::from_utf8_lossy(&bytes).to_string();
        assert!(text.contains(&format!("  /Count {}\n", n)));
        let kids_at = text.find("/Kids [").unwrap() + 7;
        let kids = &text[kids_at..kids_at + text[kids_at..].find(']').unwrap()];
        let refs: Vec<&str> = kids.split(' ').filter(|s| *s == "R").collect();
        assert_eq!(refs.len(), n);
        for i in 0..n {
            assert!(kids.contains(&format!("{} 0 R", 2 + 3 * i)));
        }
    }
}

#[test]
fn rebuild_is_identical() {
    let mut doc = Doc::new(Version::V1_7);
    doc.push_page(hello_page());
    doc.push_page(devicen_page());
    let first = doc.to_bytes();
    let second = doc.to_bytes();
    assert_eq!(first, second);
}

#[test]
fn offsets_point_at_objects_devicen() {
    let mut doc = Doc::new(Version::V1_7);
    doc.push_page(devicen_page());
    let bytes = doc.to_bytes();
    // collection, page, resources, colour space, its function, contents, catalog
    assert_eq!(check_offsets(&bytes), 7);
    let text = String::from_utf8_lossy(&bytes).to_string();
    assert!(text.contains("\n  /CS0 4 0 R\n"));
    assert!(text.contains("\n  5 0 R\n"));
    assert!(text.contains("5 0 obj\n<<\n  /FunctionType 0\n"));
    assert!(find(&bytes, b"stream\n\x40\x40\xff\x00\nendstream\nendobj").is_some());
    assert!(text.contains("/Contents 6 0 R"));
}

#[test]
fn size_counts_objects_and_free_entry() {
    let mut doc = Doc::new(Version::V1_7);
    doc.push_page(hello_page());
    doc.push_page(devicen_page());
    let bytes = doc.to_bytes();
    let (offsets, size) = xref_offsets(&bytes);
    // the tree: the collection, 3 for the first page, 5 for the second
    assert_eq!(offsets.len(), 9 + 1);
    assert_eq!(size, 9 + 2);
}

#[test]
fn root_names_page_collection() {
    for n in 0..3usize {
        let mut doc = Doc::new(Version::V1_4);
        for _ in 0..n {
            doc.push_page(hello_page());
        }
        let bytes = doc.to_bytes();
        let text = String::from_utf8_lossy(&bytes).to_string();
        let root = 2 + 3 * n;
        assert!(text.contains(&format!("/Root {} 0 R\n", root)));
        let (offsets, _) = xref_offsets(&bytes);
        let cat = String::from_utf8_lossy(&bytes[offsets[root - 1]..]).to_string();
        assert!(cat.starts_with(&format!("{} 0 obj\n<< /Type /Catalog\n   /Pages 1 0 R\n", root)));
    }
}

#[test]
fn push_page_hands_back_page() {
    let mut doc = Doc::new(Version::V1_7);
    let page = doc.push_page(Page::new(MediaBox::Custom(0, 0, 100, 200)));
    page.contents().fill_rect(1, 2, 3, 4);
    let text = String::from_utf8_lossy(&doc.to_bytes()).to_string();
    assert!(text.contains("/MediaBox [0 0 100 200]"));
    assert!(text.contains("stream\n1 2 3 4 re f\nendstream"));
}

#[test]
fn small_document_fits() {
    let mut doc = Doc::new(Version::V1_7);
    assert!(doc.fits());
    doc.push_page(devicen_page());
    assert!(doc.fits());
}

#[test]
fn devicen_without_components_is_refused() {
    let unit = (d(0, 0), d(1, 0));
    let type0 = Type0::new([unit; 1], [unit; 4], [1; 1], 8, vec![0, 0, 0, 0]);
    let nchannel = NChannel::new(Vec::new(), vec!["Cyan", "Magenta", "Yellow", "Black"]);
    assert!(DeviceN::new(Vec::new(), type0, nchannel).is_none());
}

fn orange() -> Separation {
    Separation::new(
        "Orange",
        Lab::new_with_white(d(964203, 6), d(1, 0), d(824905, 6)),
        Type2::new([d(100, 0), d(0, 0), d(0, 0)], [d(65, 0), d(58, 0), d(88, 0)], d(1, 0)),
    )
}

#[test]
fn nchannel_layout() {
    let nchannel = NChannel::new(vec![("Orange", orange())], vec!["Cyan"]);
    let expected = format!(
        "<<\n  /Subtype /NChannel\n  /Colorants\n  <<\n  /Orange\n{}\n>>\n  /Process\n    <<\n      /ColorSpace /DeviceCMYK\n      /Components [/Cyan]\n    >>\n\n>>",
        orange().to_pdf_string(2)
    );
    assert_eq!(nchannel.to_pdf_string(0), expected);
}
