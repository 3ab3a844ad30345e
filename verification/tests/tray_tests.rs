use loft::tray::{
    base_icon, current_geo, geo_bg, geo_refresh_due, glyph, last_geo_error, paint_cpu_bar, parse_geo,
    record_geo_fetch, render_text_icon, BaseIcon, GeoCache,
    GeoInfo,
};

fn px(buf: &[u8], size: usize, x: usize, y: usize) -> [u8; 4] {
    let i = (y * size + x) * 4;
    [buf[i], buf[i + 1], buf[i + 2], buf[i + 3]]
}

#[test]
fn text_icon_layout_for_one_digit() {
    let bg = (0x10, 0xb9, 0x81);
    let buf = render_text_icon("1", 16, bg);
    assert_eq!(buf.len(), 16 * 16 * 4);
    // outside the rounded square
    assert_eq!(px(&buf, 16, 0, 0), [0, 0, 0, 0]);
    assert_eq!(px(&buf, 16, 1, 1), [0, 0, 0, 0]);
    assert_eq!(px(&buf, 16, 15, 8), [0, 0, 0, 0]);
    // on the square, off the glyph
    assert_eq!(px(&buf, 16, 5, 1), [0x10, 0xb9, 0x81, 255]);
    assert_eq!(px(&buf, 16, 5, 4), [0x10, 0xb9, 0x81, 255]);
    // the top row of "1" is 00100: scale 1, left 5, top 4
    assert_eq!(px(&buf, 16, 7, 4), [255, 255, 255, 255]);
    // the bottom row of "1" is 01110
    assert_eq!(px(&buf, 16, 6, 10), [255, 255, 255, 255]);
    assert_eq!(px(&buf, 16, 8, 10), [255, 255, 255, 255]);
    assert_eq!(px(&buf, 16, 9, 10), [0x10, 0xb9, 0x81, 255]);
}

#[test]
fn text_icon_empty_text_is_plain_square() {
    let buf = render_text_icon("", 8, (1, 2, 3));
    assert_eq!(buf.len(), 8 * 8 * 4);
    for y in 0..8 {
        for x in 0..8 {
            let p = px(&buf, 8, x, y);
            assert!(p == [0, 0, 0, 0] || p == [1, 2, 3, 255]);
        }
    }
    assert_eq!(px(&buf, 8, 4, 4), [1, 2, 3, 255]);
}

#[test]
fn text_icon_keeps_three_chars_and_ignores_case() {
    let a = render_text_icon("cn", 32, (0x0d, 0x94, 0x88));
    let b = render_text_icon("CN", 32, (0x0d, 0x94, 0x88));
    assert_eq!(a, b);
    let c = render_text_icon("1234", 32, (0, 0, 0));
    let d = render_text_icon("123", 32, (0, 0, 0));
    assert_eq!(c, d);
    let white = a.chunks(4).filter(|p| p == &[255, 255, 255, 255]).count();
    assert!(white > 0);
}

#[test]
fn glyph_table() {
    assert_eq!(glyph('A'), glyph('a'));
    assert_eq!(glyph('0'), Some([0b01110, 0b10001, 0b10011, 0b10101, 0b11001, 0b10001, 0b01110]));
    assert_eq!(glyph(' '), Some([0u8; 7]));
    assert_eq!(glyph('#'), None);
    assert_eq!(glyph('%'), Some([0b11000, 0b11001, 0b00010, 0b00100, 0b01000, 0b10011, 0b00011]));
    assert_eq!(glyph('°'), Some([0b01100, 0b10010, 0b10010, 0b01100, 0, 0, 0]));
    assert_eq!(glyph('!'), None);
}

#[test]
fn cpu_bar_over_logo() {
    let base = BaseIcon { width: 10, height: 10, rgba: vec![7u8; 400] };
    let out = paint_cpu_bar(&base, 3, (1, 2, 3));
    assert_eq!(out.len(), 400);
    // bar height round(10 * 0.18) = 2: rows 8 and 9
    assert_eq!(px(&out, 10, 0, 7), [7, 7, 7, 7]);
    assert_eq!(px(&out, 10, 2, 8), [1, 2, 3, 255]);
    assert_eq!(px(&out, 10, 2, 9), [1, 2, 3, 255]);
    assert_eq!(px(&out, 10, 3, 9), [0x1a, 0x1a, 0x1a, 200]);
    assert_eq!(px(&out, 10, 9, 8), [0x1a, 0x1a, 0x1a, 200]);
}

#[test]
fn cpu_bar_empty_and_full() {
    let base = BaseIcon { width: 4, height: 4, rgba: vec![9u8; 64] };
    let empty = paint_cpu_bar(&base, 0, (1, 2, 3));
    // round(4 * 0.18) = 1: the last row only
    assert_eq!(px(&empty, 4, 0, 3), [0x1a, 0x1a, 0x1a, 200]);
    assert_eq!(px(&empty, 4, 0, 2), [9, 9, 9, 9]);
    let full = paint_cpu_bar(&base, 4, (1, 2, 3));
    assert_eq!(px(&full, 4, 3, 3), [1, 2, 3, 255]);
}

#[test]
fn logo_decodes_from_png_bytes() {
    let mut img = image::RgbaImage::new(3, 2);
    img.put_pixel(1, 1, image::Rgba([10, 20, 30, 40]));
    let mut bytes: Vec<u8> = Vec::new();
    img.write_to(&mut std::io::Cursor::new(&mut bytes), image::ImageFormat::Png).unwrap();
    let icon = base_icon(&bytes).expect("decodes");
    assert_eq!((icon.width, icon.height), (3, 2));
    assert_eq!(icon.rgba.len(), 24);
    assert_eq!(&icon.rgba[16..20], &[10, 20, 30, 40]);
    assert!(base_icon(b"not a png").is_none());
}

#[test]
fn geo_from_ipinfo_style_reply() {
    let g = parse_geo(r#" {"ip":"1.2.3.4","country":"cn","city":"Shanghai"} "#).unwrap();
    assert_eq!(g.ip, "1.2.3.4");
    assert_eq!(g.country, "CN");
    assert_eq!(g.city.as_deref(), Some("Shanghai"));
}

#[test]
fn geo_from_ip_api_style_reply() {
    let g = parse_geo(r#"{"status":"success","countryCode":"us","city":"","query":"8.8.8.8"}"#).unwrap();
    assert_eq!(g.ip, "8.8.8.8");
    assert_eq!(g.country, "US");
    assert_eq!(g.city, None);
    let h = parse_geo(r#"{"ip":"9.9.9.9","country_code":"de"}"#).unwrap();
    assert_eq!(h.country, "DE");
}

#[test]
fn geo_rejects_bad_replies() {
    assert!(parse_geo("").is_none());
    assert!(parse_geo("   ").is_none());
    assert!(parse_geo("<html>").is_none());
    assert!(parse_geo(r#"{"status":"fail","query":"1.1.1.1","countryCode":"US"}"#).is_none());
    assert!(parse_geo(r#"{"ip":"1.1.1.1"}"#).is_none());
    assert!(parse_geo(r#"{"country":"CN"}"#).is_none());
    assert!(parse_geo(r#"{"ip":1,"country":"CN"}"#).is_none());
}

#[test]
fn geo_cache_timing() {
    let mut c = GeoCache::new();
    assert!(geo_refresh_due(&c, 0));
    record_geo_fetch(&mut c, 1000, Some(sample_geo()), None);
    assert!(!geo_refresh_due(&c, 1000));
    assert!(!geo_refresh_due(&c, 300_999));
    assert!(geo_refresh_due(&c, 301_000));
    // a clock that runs backwards counts as no time passed
    assert!(!geo_refresh_due(&c, 5));
    let mut f = GeoCache::new();
    record_geo_fetch(&mut f, 1000, None, Some("down".into()));
    assert!(!geo_refresh_due(&f, 30_999));
    assert!(geo_refresh_due(&f, 31_000));
    assert_eq!(last_geo_error(&f).as_deref(), Some("down"));
}

#[test]
fn geo_failure_keeps_location() {
    let mut c = GeoCache::new();
    record_geo_fetch(&mut c, 10, Some(sample_geo()), Some("ignored".into()));
    assert!(last_geo_error(&c).is_none());
    record_geo_fetch(&mut c, 400_000, None, None);
    assert_eq!(current_geo(&c).unwrap().ip, "1.2.3.4");
    assert_eq!(last_geo_error(&c).as_deref(), Some("未知错误"));
    assert_eq!(c.fetched_at_ms, Some(400_000));
}

#[test]
fn geo_icon_colour() {
    assert_eq!(geo_bg(), (0x0d, 0x94, 0x88));
}

#[test]
fn percent_and_degree_draw() {
    let buf = render_text_icon("5%", 16, (1, 2, 3));
    let white = buf.chunks(4).filter(|p| p == &[255, 255, 255, 255]).count();
    let five = render_text_icon("5", 16, (1, 2, 3)).chunks(4).filter(|p| p == &[255, 255, 255, 255]).count();
    assert!(white > 0 && white != five);
}

fn sample_geo() -> GeoInfo {
    GeoInfo { ip: "1.2.3.4".into(), country: "CN".into(), city: None }
}
