use prspdf::color_spaces::{DeviceCMYK, DeviceRGB, Lab};
use prspdf::fonts::{Font, Type1};
use prspdf::functions::Type2;
use prspdf::{Contents, Decimal, Id, IdFactory, MediaBox, Pos, Resources, ToPdfString, Version};

fn d(mantissa: i64, scale: u32) -> Decimal {
    Decimal::new(mantissa, scale)
}

#[test]
fn test_device_rgb_to_pdf_string() {
    let device_rgb = DeviceRGB {};
    assert_eq!(device_rgb.to_pdf_string(), "/DeviceRGB");
}

#[test]
fn test_device_cmyk_to_pdf_string() {
    let device_cmyk = DeviceCMYK {};
    assert_eq!(device_cmyk.to_pdf_string(), "/DeviceCMYK");
}

#[test]
fn new() {
    let p = Pos::new(1, 2);
    assert_eq!(p.x, 1);
    assert_eq!(p.y, 2);
}

#[test]
fn base_new() {
    let id = Id::new(112, 2);
    assert_eq!(id.to_string(), "112 2");
    assert_eq!(id.to_ref_string(), "112 2 R");
}

#[test]
fn base_to_string() {
    assert_eq!(Version::V1_4.to_str(), "%PDF-1.4");
    assert_eq!(Version::V1_7.to_str(), "%PDF-1.7");
}

#[test]
fn version_to_bytes() {
    assert_eq!(Version::V1_7.to_bytes(), b"%PDF-1.7".to_vec());
}

#[test]
fn new_custom() {
    let mb = MediaBox::Custom(1, 2, 3, 4);
    assert_eq!(mb.to_string(), "[1 2 3 4]");
}

#[test]
fn media_box_sizes() {
    assert_eq!(MediaBox::Letter.to_string(), "[0 0 612 792]");
    assert_eq!(MediaBox::A4.to_string(), "[0 0 595 842]");
}

#[test]
fn new_0() {
    let id = Id::new_0();
    assert_eq!(id.to_string(), "0 0");
    assert_eq!(id.to_ref_string(), "0 0 R");
}

#[test]
fn new_id() {
    let mut id_factory = IdFactory::new();
    assert_eq!(id_factory.next_id().to_string(), "2 0");
    assert_eq!(id_factory.next_id().to_string(), "3 0");
    assert_eq!(id_factory.next_id().to_string(), "4 0");
}

#[test]
fn page_list_id_is_reserved() {
    let mut id_factory = IdFactory::new();
    assert_eq!(id_factory.page_list_id().to_ref_string(), "1 0 R");
    id_factory.next_id();
    assert_eq!(id_factory.page_list_id().to_ref_string(), "1 0 R");
}

#[test]
fn font_to_string() {
    let f = Font::new("Times-Italic");
    let ok = "<<\n  /Type /Font\n  /Subtype /Type1\n  /BaseFont /Times-Italic\n>>";
    assert_eq!(f.to_string(0), ok);
}

#[test]
fn font_to_string_indented() {
    let f = Font::new_type1("Courier");
    let ok = "  <<\n    /Type /Font\n    /Subtype /Type1\n    /BaseFont /Courier\n  >>";
    assert_eq!(f.to_string(1), ok);
}

#[test]
fn type1_test_to_pdf_string() {
    let f = Type1::new("Alial");
    let ok = "<<\n  /Type /Font\n  /Subtype /Type1\n  /BaseFont /Alial\n>>";
    assert_eq!(f.to_pdf_string(), ok);
}

#[test]
fn resources_test_to_pdf_string() {
    let mut r = Resources::new();
    r.add_font("F0", Font::new_type1("Times-Italic"));

    let ok = "0 0 obj\n<<\n  /Font <<\n    /F0 <<\n      /Type /Font\n      /Subtype /Type1\n      /BaseFont /Times-Italic\n    >>\n  >>\n  /ColorSpace <<\n  >>\n>>\nendobj";
    assert_eq!(r.to_pdf_string(), ok);
}

#[test]
fn resources_font_name_replaced() {
    let mut r = Resources::new();
    r.add_font("F0", Font::new_type1("Times-Italic"));
    r.add_font("F1", Font::new_type1("Courier"));
    r.add_font("F0", Font::new_type1("Helvetica"));
    let s = r.to_pdf_string();
    assert_eq!(s.matches("/F0 ").count(), 1);
    assert!(s.contains("/BaseFont /Helvetica"));
    assert!(!s.contains("Times-Italic"));
    assert!(s.find("/F0 ").unwrap() < s.find("/F1 ").unwrap());
}

#[test]
fn resources_color_space_inline() {
    let mut r = Resources::new();
    r.add_color_space("CS0", prspdf::ColorSpace::DeviceRGB(DeviceRGB {}));
    let ok = "0 0 obj\n<<\n  /Font <<\n  >>\n  /ColorSpace <<\n  /CS0 /DeviceRGB\n  >>\n>>\nendobj";
    assert_eq!(r.to_pdf_string(), ok);
}

#[test]
fn set_stroke_color() {
    let mut c = Contents::new();
    c.set_stroke_color(d(1, 1), d(2, 1), d(3, 1));

    let ok = "0 0 obj\n<<\n  /Length 14\n>>\nstream\n0.1 0.2 0.3 RG\nendstream\nendobj";
    assert_eq!(c.to_string(0), ok);
}

#[test]
fn contents_operators_joined() {
    let mut c = Contents::new();
    c.set_fill_color(d(1, 0), d(0, 0), d(5, 1));
    c.fill_rect(0, 700, 50, 50);
    c.set_fill_cmyk_color(d(0, 0), d(1, 0), d(0, 0), d(25, 2));
    c.set_fill_color_space("CS0");
    c.set_fill_color_space_color([d(1, 0), d(0, 0)]);
    let payload = "1.0 0.0 0.5 rg\n0 700 50 50 re f\n0.0 1.0 0.0 0.25 k\n/CS0 cs\n1.0 0.0 scn";
    let expected = format!(
        "0 0 obj\n<<\n  /Length {}\n>>\nstream\n{}\nendstream\nendobj",
        payload.len(),
        payload
    );
    assert_eq!(c.to_string(0), expected);
}

#[test]
fn contents_dictionary_indented() {
    let mut c = Contents::new();
    c.fill_rect(1, 2, 3, 4);
    let ok = "0 0 obj\n  <<\n    /Length 12\n  >>\nstream\n1 2 3 4 re f\nendstream\nendobj";
    assert_eq!(c.to_string(1), ok);
}

#[test]
fn fill_text_operator() {
    let mut c = Contents::new();
    c.fill_text("F0", 32, Pos::new(0, 760), "Hello");
    let payload = "BT\n  /F0 32 Tf\n  0 760 Td\n  0 Tr\n  (Hello) Tj\nET";
    assert!(c.to_string(0).contains(&format!("/Length {}\n", payload.len())));
    assert!(c.to_string(0).contains(&format!("stream\n{}\nendstream", payload)));
}

#[test]
fn contents_length_counts_bytes() {
    let mut c = Contents::new();
    c.fill_text("F0", 12, Pos::new(1, 2), "h\u{e9}");
    let payload = "BT\n  /F0 12 Tf\n  1 2 Td\n  0 Tr\n  (h\u{e9}) Tj\nET";
    assert_eq!(payload.len(), payload.chars().count() + 1);
    assert!(c.to_string(0).contains(&format!("/Length {}\n", payload.len())));
}

#[test]
fn lab_test_to_bytes() {
    let lab = Lab::new(
        [d(964203, 6), d(10, 1), d(824905, 6)],
        [d(0, 0), d(0, 0), d(0, 0)],
        [d(-100, 0), d(100, 0), d(-100, 0), d(100, 0)],
    );

    let expected = "[\n  /Lab\n  <<\n    /WhitePoint [0.964203 1.0 0.824905]\n    /BlackPoint [0.0 0.0 0.0]\n    /Range [-100.0 100.0 -100.0 100.0]\n  >>\n]";
    assert_eq!(String::from_utf8(lab.to_bytes(0)).unwrap(), expected);
}

#[test]
fn test_to_bytes_2() {
    let lab = Lab::new(
        [d(964203, 6), d(10, 1), d(824905, 6)],
        [d(1, 1), d(2, 1), d(3, 1)],
        [d(-1001, 1), d(1002, 1), d(-1003, 1), d(1004, 1)],
    );

    let expected = "  [\n    /Lab\n    <<\n      /WhitePoint [0.964203 1.0 0.824905]\n      /BlackPoint [0.1 0.2 0.3]\n      /Range [-100.1 100.2 -100.3 100.4]\n    >>\n  ]";
    assert_eq!(String::from_utf8(lab.to_bytes(1)).unwrap(), expected);
}

#[test]
fn lab_new_with_white() {
    let lab = Lab::new_with_white(d(964203, 6), d(1, 0), d(824905, 6));
    let s = lab.to_pdf_string(0);
    assert!(s.contains("/BlackPoint [0.0 0.0 0.0]\n"));
    assert!(s.contains("/Range [-128.0 127.0 -128.0 127.0]\n"));
}

#[test]
fn type2_test_to_bytes() {
    let c0 = [d(100, 0), d(1, 0), d(0, 0)];
    let c1 = [d(65, 0), d(58, 0), d(88, 0)];
    let t2 = Type2::new(c0, c1, d(1, 0));

    let ok = "<<\n  /FunctionType 2\n  /Domain [0.0 1.0]\n  /Range [0.0 100.0 -128.0 127.0 -128.0 127.0]\n  /C0 [100.0 1.0 0.0]\n  /C1 [65.0 58.0 88.0]\n  /N 1.0\n>>";
    assert_eq!(String::from_utf8(t2.to_bytes(0)).unwrap(), ok.to_string());
}
