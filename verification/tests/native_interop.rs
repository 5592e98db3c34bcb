use usage_monitor::native_interop::{
    colorref, current_module_path, current_module_path_wide, embedded_ex_style, embedded_style,
    wide_str, Color, ModulePathStep,
};
use usage_monitor::utf16::{copy_wide, decode_utf16_lossy, encode_utf16};

#[test]
fn wide_str_is_nul_terminated() {
    let wide = wide_str("ab");
    assert_eq!(wide, vec![b'a' as u16, b'b' as u16, 0]);
    assert_eq!(wide_str(""), vec![0]);
}

#[test]
fn color_from_hex_and_colorref_round_trip() {
    let c = Color::from_hex("#D97757");
    assert_eq!((c.r, c.g, c.b), (0xD9, 0x77, 0x57));
    // COLORREF is 0x00BBGGRR.
    assert_eq!(c.to_colorref(), 0x0057_77D9);
    assert_eq!(colorref(1, 2, 3), 0x0003_0201);
}

#[test]
fn hex_colours_are_read_leniently() {
    assert_eq!(Color::from_hex("##0a0B0ctail"), Color::new(10, 11, 12));
    assert_eq!(Color::from_hex("zz+510"), Color::new(0, 5, 0x10));
    assert_eq!(Color::from_hex("\u{e9}FF01"), Color::new(0, 0xFF, 1));
    for r in [0u8, 1, 9, 10, 0x7F, 0xAB, 0xFF] {
        let c = Color::new(r, r ^ 0x5A, 255 - r);
        let written = format!("#{:02X}{:02X}{:02X}", c.r, c.g, c.b);
        assert_eq!(Color::from_hex(&written), c);
    }
}

#[test]
fn styles_are_those_of_an_embedded_window() {
    assert_eq!(embedded_style(0x8000_0000), 0x4400_0000);
    assert_eq!(embedded_style(0x1000_0001), 0x5400_0001);
    assert_eq!(embedded_ex_style(0x0004_0000), 0x0804_0080);
}

#[test]
fn module_path_buffer_grows_until_the_path_fits() {
    let ask = |attempt| match current_module_path_wide(attempt) {
        ModulePathStep::Ask(units) => units,
        ModulePathStep::Done(_) => 0,
    };
    assert_eq!(ask(None), 260);
    assert_eq!(ask(Some((vec![65; 260], 260))), 520);
    assert_eq!(ask(Some((vec![65; 20_000], 20_000))), 32_768);
    assert!(matches!(
        current_module_path_wide(Some((vec![65; 32_768], 32_768))),
        ModulePathStep::Done(None)
    ));
    assert!(matches!(
        current_module_path_wide(Some((vec![65; 260], 0))),
        ModulePathStep::Done(None)
    ));
    match current_module_path_wide(Some((vec![65; 260], 3))) {
        ModulePathStep::Done(Some(path)) => {
            assert_eq!(path, vec![65, 65, 65, 0]);
            assert_eq!(current_module_path(Some(path)), Some("AAA".to_string()));
        }
        _ => panic!("the path fits"),
    }
    assert_eq!(current_module_path(None), None);
    assert_eq!(
        current_module_path(Some(wide_str("C:\\\u{1F600}.exe"))),
        Some("C:\\\u{1F600}.exe".to_string())
    );
    assert_eq!(current_module_path(Some(vec![66])), Some("B".to_string()));
}

#[test]
fn utf16_agrees_with_std() {
    for s in ["", "abc", "\u{e9}\u{20ac}", "\u{1F600}x\u{10FFFF}", "\u{FFFD}\u{0}"] {
        let units: Vec<u16> = s.encode_utf16().collect();
        assert_eq!(encode_utf16(s), units);
        assert_eq!(decode_utf16_lossy(&units), s);
    }
    for units in [
        vec![0xD800u16],
        vec![0xDC00, 0xD800],
        vec![0xD800, 0x41, 0xDC00],
        vec![0xD83D, 0xD83D, 0xDE00],
        vec![0xDBFF, 0xDFFF],
    ] {
        assert_eq!(decode_utf16_lossy(&units), String::from_utf16_lossy(&units));
    }
}

#[test]
fn copy_wide_fits_short_strings_exactly() {
    let mut buf = [0xFFFFu16; 8];
    copy_wide("abc", &mut buf);
    assert_eq!(&buf[..4], &[b'a' as u16, b'b' as u16, b'c' as u16, 0]);

    let mut small = [0xFFFFu16; 3];
    copy_wide("abcdef", &mut small);
    assert_eq!(small, [b'a' as u16, b'b' as u16, 0]);
}
