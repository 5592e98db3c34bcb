use usage_monitor::badge::{
    badge_spec, codex_fill, create_icon, extract_first_small_icon, icon_render_key,
    interpolated_fill, ExtractStep, Extracted, IconStep,
};
use usage_monitor::binary64::Binary64;
use usage_monitor::drawing::{
    draw_badge_icon, set_alpha, shape_rect, start_drawing, DrawStep, Drawing, Outcome, RoundedRect,
    Shape,
};
use usage_monitor::native_interop::{Color, WM_APP_TRAY};
use usage_monitor::poll_schedule::{mono_mask_bytes, pixel_count};
use usage_monitor::tray_icon::{
    copy_to_tip, handle_message, notify_balloon, notify_icon, plan_sync, remove, remove_all, sync,
    synced, ShellMessage, ShownIcon, ShownIcons, SyncOp, SyncStep, TrayAction, TrayIconData,
    TrayIconKind, IDM_TOGGLE_WIDGET,
};

fn b(x: f64) -> Binary64 {
    Binary64 { bits: x.to_bits() }
}

fn shown(key: Option<u32>, tooltip: &str) -> ShownIcon {
    ShownIcon {
        key,
        tooltip: tooltip.to_string(),
    }
}

#[test]
fn icon_render_key_rounds_and_clamps() {
    let key = |p: Option<f64>| icon_render_key(p.map(b));
    assert_eq!(key(None), None);
    assert_eq!(key(Some(49.4)), Some(49));
    assert_eq!(key(Some(49.6)), Some(50));
    assert_eq!(key(Some(-5.0)), Some(0));
    assert_eq!(key(Some(1e9)), Some(999));
    assert_eq!(key(Some(f64::INFINITY)), Some(999));
    assert_eq!(key(Some(f64::NEG_INFINITY)), Some(0));
    assert_eq!(key(Some(f64::NAN)), Some(0));
}

#[test]
fn icon_render_key_agrees_with_binary64_rounding() {
    let reference = |p: f64| {
        if p.is_nan() {
            0
        } else {
            p.round().clamp(0.0, 999.0) as u32
        }
    };
    let mut p = -2.0;
    while p < 1100.0 {
        assert_eq!(icon_render_key(Some(b(p))), Some(reference(p)), "{p}");
        p += 0.137;
    }
    for p in [0.5, 1.5, 2.5, 998.5, 998.499_999_999, 0.499_999_999_999_999_94, 5e-324] {
        assert_eq!(icon_render_key(Some(b(p))), Some(reference(p)), "{p}");
    }
}

#[test]
fn plan_sync_only_touches_the_shell_when_something_changed() {
    let a = shown(Some(50), "Usage 5h: 50%");
    let b = shown(Some(51), "Usage 5h: 51%");
    let a_other_tip = shown(Some(50), "Usage 5h: 50% | 7d: 1%");

    assert_eq!(plan_sync(None, None), SyncOp::Skip);
    assert_eq!(plan_sync(None, Some(&a)), SyncOp::Add);
    assert_eq!(plan_sync(Some(&a), None), SyncOp::Remove);
    assert_eq!(plan_sync(Some(&a), Some(&a)), SyncOp::Skip);
    assert_eq!(plan_sync(Some(&a), Some(&b)), SyncOp::Modify);
    assert_eq!(plan_sync(Some(&a), Some(&a_other_tip)), SyncOp::Modify);
    // Loading state (None key) to a real value is a modify, not a skip.
    assert_eq!(
        plan_sync(Some(&shown(None, "t")), Some(&shown(Some(0), "t"))),
        SyncOp::Modify
    );
}

#[test]
fn shown_icon_from_data_uses_the_render_key() {
    let data = TrayIconData {
        kind: TrayIconKind::Claude,
        percent: Some(b(49.6)),
        tooltip: "tip".to_string(),
    };
    assert_eq!(ShownIcon::from_data(&data), shown(Some(50), "tip"));
}

#[test]
fn mask_buffer_covers_the_badge_bitmap() {
    // 64 px wide -> 8 bytes per row, 64 rows.
    assert_eq!(mono_mask_bytes(64, 64), 512);
    assert_eq!(pixel_count(64, 64), Some(4096));
}

#[test]
fn fill_colours_never_panic_across_the_percent_range() {
    for tenth in 0..=1_200 {
        let percent = f64::from(tenth) / 10.0;
        let _ = interpolated_fill(b(percent));
        let _ = codex_fill(b(percent));
    }
    let _ = interpolated_fill(b(f64::NAN));
    let _ = interpolated_fill(b(f64::INFINITY));
    let _ = interpolated_fill(b(-1.0));
}

fn reference_fill(percent: f64) -> (u8, u8, u8) {
    let stops = [
        (50.0, [0xD9u8, 0x77, 0x57]),
        (70.0, [0xD0, 0x85, 0x40]),
        (85.0, [0xCC, 0x8C, 0x20]),
        (95.0, [0xC4, 0x50, 0x20]),
        (100.0, [0xB8, 0x20, 0x20]),
    ];
    let pick = |c: [u8; 3]| (c[0], c[1], c[2]);
    if percent <= 50.0 {
        return pick(stops[0].1);
    }
    for pair in stops.windows(2) {
        let ((from, start), (to, end)) = (pair[0], pair[1]);
        if percent <= to {
            let span: f64 = to - from;
            let t = (percent - from) / span.max(f64::EPSILON);
            let channel = |i: usize| {
                let (s, e) = (start[i] as f64, end[i] as f64);
                (s + (e - s) * t.clamp(0.0, 1.0)).round() as u8
            };
            return (channel(0), channel(1), channel(2));
        }
    }
    pick(stops[4].1)
}

#[test]
fn fill_colours_agree_with_binary64_arithmetic() {
    let mut percents = vec![
        -1.0,
        0.0,
        50.0,
        70.0,
        85.0,
        95.0,
        100.0,
        f64::from_bits(50.0f64.to_bits() + 1),
        f64::from_bits(70.0f64.to_bits() - 1),
        f64::from_bits(70.0f64.to_bits() + 1),
        f64::from_bits(64.0f64.to_bits() - 1),
        64.0,
        f64::from_bits(95.0f64.to_bits() + 1),
        f64::from_bits(100.0f64.to_bits() + 1),
        f64::INFINITY,
        f64::NAN,
        1e300,
    ];
    for step in 0..12_000 {
        percents.push(49.0 + f64::from(step) * 0.004_371);
    }
    for percent in percents {
        let c = interpolated_fill(b(percent));
        assert_eq!((c.r, c.g, c.b), reference_fill(percent), "{percent}");
    }
}

#[test]
fn codex_badges_are_reversed_from_ninety_on() {
    let white = Color::new(0xFF, 0xFF, 0xFF);
    let black = Color::new(0x11, 0x11, 0x11);
    assert_eq!(codex_fill(b(89.999)), black);
    assert_eq!(codex_fill(b(90.0)), white);
    assert_eq!(codex_fill(b(f64::NAN)), black);
    let spec = badge_spec(TrayIconKind::Codex, Some(b(95.2)));
    assert_eq!((spec.fill, spec.text_color, spec.outline_color), (white, black, black));
    assert_eq!((spec.text.as_str(), spec.font_height, spec.outline), ("95", -42, 3));
}

#[test]
fn badges_show_the_rendered_percentage() {
    let spec = badge_spec(TrayIconKind::Claude, Some(b(100.0)));
    assert_eq!((spec.text.as_str(), spec.font_height, spec.outline), ("100", -30, 0));
    assert_eq!(spec.fill, Color::new(0xB8, 0x20, 0x20));
    assert_eq!(spec.outline_color, spec.fill);
    assert_eq!(spec.text_color, Color::new(0xFF, 0xFF, 0xFF));
    assert_eq!((spec.size, spec.radius), (64, 2));
    assert_eq!(badge_spec(TrayIconKind::Claude, Some(b(7.2))).font_height, -50);
    let empty = badge_spec(TrayIconKind::Claude, None);
    assert_eq!((empty.text.as_str(), empty.font_height), ("", -30));
    assert_eq!(badge_spec(TrayIconKind::Codex, None).text, "C");
    assert_eq!(badge_spec(TrayIconKind::Claude, Some(b(f64::NAN))).text, "0");
}

#[test]
fn same_key_gives_the_same_badge() {
    for (x, y) in [
        (49.6, 50.4),
        (0.0, -3.0),
        (0.0, f64::NAN),
        (999.0, 1e12),
        (89.6, 90.0),
        (69.5, 70.4),
        (94.51, 95.49),
    ] {
        assert_eq!(icon_render_key(Some(b(x))), icon_render_key(Some(b(y))));
        for kind in [TrayIconKind::Claude, TrayIconKind::Codex] {
            assert_eq!(badge_spec(kind, Some(b(x))), badge_spec(kind, Some(b(y))));
        }
    }
    let below = badge_spec(TrayIconKind::Codex, Some(b(89.4)));
    let above = badge_spec(TrayIconKind::Codex, Some(b(89.6)));
    assert_ne!(below.fill, above.fill);
    let mixed = badge_spec(TrayIconKind::Claude, Some(b(60.2))).fill;
    assert_eq!((mixed.r, mixed.g, mixed.b), reference_fill(60.0));
}

#[test]
fn loading_state_of_claude_is_the_program_icon() {
    let claude = TrayIconKind::Claude;
    assert!(matches!(create_icon(claude, None, None), IconStep::LoadAppIcon));
    assert!(matches!(create_icon(claude, None, Some(true)), IconStep::UseAppIcon));
    assert!(matches!(
        create_icon(claude, None, Some(false)),
        IconStep::Draw(spec) if spec.text.is_empty()
    ));
    assert!(matches!(
        create_icon(claude, Some(b(5.0)), None),
        IconStep::Draw(spec) if spec.text == "5"
    ));
    assert!(matches!(
        create_icon(TrayIconKind::Codex, None, None),
        IconStep::Draw(spec) if spec.text == "C"
    ));
}

#[test]
fn create_icon_handles_extreme_percentages_without_panicking() {
    for percent in [
        None,
        Some(0.0),
        Some(100.0),
        Some(-1.0),
        Some(1e12),
        Some(f64::NAN),
        Some(f64::INFINITY),
        Some(f64::NEG_INFINITY),
    ] {
        let _ = create_icon(TrayIconKind::Claude, percent.map(b), Some(false));
        let _ = create_icon(TrayIconKind::Codex, percent.map(b), None);
    }
}

#[test]
fn extract_first_small_icon_rejects_unterminated_paths() {
    assert_eq!(extract_first_small_icon(&[], None, None), ExtractStep::Nothing);
    assert_eq!(
        extract_first_small_icon(&[b'C' as u16, b':' as u16], None, None),
        ExtractStep::Nothing
    );
}

#[test]
fn large_icon_is_asked_for_only_without_a_small_one() {
    let path = [b'C' as u16, 0];
    let icon = Some(Extracted {
        count: 1,
        valid: true,
    });
    let none = Some(Extracted {
        count: 1,
        valid: false,
    });
    let uncounted = Some(Extracted {
        count: 0,
        valid: true,
    });
    assert_eq!(extract_first_small_icon(&path, None, None), ExtractStep::ExtractSmall);
    assert_eq!(extract_first_small_icon(&path, icon, None), ExtractStep::UseSmall);
    assert_eq!(extract_first_small_icon(&path, none, None), ExtractStep::ExtractLarge);
    assert_eq!(extract_first_small_icon(&path, uncounted, None), ExtractStep::ExtractLarge);
    assert_eq!(extract_first_small_icon(&path, none, icon), ExtractStep::UseLarge);
    assert_eq!(extract_first_small_icon(&path, none, none), ExtractStep::Nothing);
}

/// Carries out a drawing in which the given steps fail, and counts what is made and not
/// given back.
fn run_drawing(text: &str, outline: i32, failing: &[DrawStep], no_pixels: bool) -> (bool, i32) {
    let mut spec = badge_spec(TrayIconKind::Codex, None);
    spec.text = text.to_string();
    spec.outline = outline;
    let mut drawing: Drawing = start_drawing(&spec);
    let mut objects = 0;
    for _ in 0..40 {
        let fails = failing.contains(&drawing.step);
        let mut outcome = if fails { Outcome::Failed } else { Outcome::Done };
        match drawing.step {
            DrawStep::CreateBitmap if no_pixels => {
                outcome = Outcome::WithoutPixels;
                objects += 1;
            }
            DrawStep::GetScreenDc
            | DrawStep::CreateMemoryDc
            | DrawStep::CreateBitmap
            | DrawStep::CreateBrush(_)
            | DrawStep::CreateFont
            | DrawStep::CreateMask => objects += if fails { 0 } else { 1 },
            DrawStep::DiscardBitmap
            | DrawStep::DeleteBrush(_)
            | DrawStep::DeleteFont
            | DrawStep::DeleteMask
            | DrawStep::DeleteBitmap
            | DrawStep::DeleteMemoryDc
            | DrawStep::ReleaseScreenDc => objects -= 1,
            DrawStep::Finished => return (drawing.icon, objects),
            _ => {}
        }
        drawing = draw_badge_icon(&spec, drawing, outcome);
    }
    panic!("drawing does not end")
}

#[test]
fn drawing_gives_everything_back() {
    assert_eq!(run_drawing("12", 3, &[], false), (true, 0));
    assert_eq!(run_drawing("", 0, &[], false), (true, 0));
    assert_eq!(run_drawing("1", 3, &[], true), (false, 0));
    for step in [
        DrawStep::GetScreenDc,
        DrawStep::CreateBrush(Shape::Outline),
        DrawStep::CreateBrush(Shape::Fill),
        DrawStep::CreateFont,
    ] {
        assert_eq!(run_drawing("12", 3, &[step], false), (true, 0), "{step:?}");
    }
    for step in [
        DrawStep::CreateMemoryDc,
        DrawStep::CreateBitmap,
        DrawStep::CreateMask,
        DrawStep::CreateIcon,
    ] {
        assert_eq!(run_drawing("12", 3, &[step], false), (false, 0), "{step:?}");
        assert_eq!(
            run_drawing("12", 3, &[DrawStep::GetScreenDc, step], false),
            (false, 0)
        );
    }
}

#[test]
fn badge_without_pixels_is_not_drawn() {
    let mut spec = badge_spec(TrayIconKind::Claude, None);
    spec.size = 0;
    assert_eq!(start_drawing(&spec).step, DrawStep::Finished);
}

#[test]
fn shapes_have_their_rectangles() {
    let spec = badge_spec(TrayIconKind::Codex, None);
    assert_eq!(
        shape_rect(&spec, Shape::Outline),
        RoundedRect {
            left: 0,
            top: 0,
            right: 65,
            bottom: 65,
            ellipse: 6
        }
    );
    assert_eq!(
        shape_rect(&spec, Shape::Fill),
        RoundedRect {
            left: 3,
            top: 3,
            right: 62,
            bottom: 62,
            ellipse: 2
        }
    );
}

#[test]
fn shapes_of_odd_sizes_have_rectangles_too() {
    let mut spec = badge_spec(TrayIconKind::Codex, None);
    spec.size = 2;
    spec.outline = 5;
    spec.radius = -4;
    let fill = shape_rect(&spec, Shape::Fill);
    assert_eq!(
        fill,
        RoundedRect {
            left: 5,
            top: 5,
            right: -2,
            bottom: -2,
            ellipse: -10
        }
    );
}

#[test]
fn drawn_pixels_become_opaque() {
    let mut pixels = vec![0u32, 1, 0x00AB_CDEF, 0x7F00_0000, 0xFFFF_FFFF];
    set_alpha(&mut pixels);
    assert_eq!(
        pixels,
        vec![0, 0xFF00_0001, 0xFFAB_CDEF, 0xFF00_0000, 0xFFFF_FFFF]
    );
    let once = pixels.clone();
    set_alpha(&mut pixels);
    assert_eq!(pixels, once);
}

#[test]
fn copy_to_tip_truncates_without_splitting_a_surrogate_pair() {
    // U+1F600 is two UTF-16 units; 200 of them is far more than 127 units.
    let text: String = std::iter::repeat('\u{1F600}').take(200).collect();
    let mut tip = [0xFFFFu16; 128];
    copy_to_tip(&text, &mut tip);

    let len = tip.iter().position(|&u| u == 0).expect("NUL terminator");
    assert!(len <= 127);
    assert_eq!(
        len, 126,
        "odd cut point must drop the dangling high surrogate"
    );
    assert!(
        !(0xD800..=0xDBFF).contains(&tip[len - 1]),
        "must not end with a high surrogate"
    );
    assert!((0xDC00..=0xDFFF).contains(&tip[len - 1]));
}

#[test]
fn tray_icon_kinds_map_to_distinct_ids_and_slots() {
    assert_ne!(TrayIconKind::Claude.id(), TrayIconKind::Codex.id());
    assert_ne!(TrayIconKind::Claude.slot(), TrayIconKind::Codex.slot());
    assert!(TrayIconKind::Claude.slot() < 2);
    assert!(TrayIconKind::Codex.slot() < 2);
}

fn data(kind: TrayIconKind, percent: f64, tooltip: &str) -> TrayIconData {
    TrayIconData {
        kind,
        percent: Some(b(percent)),
        tooltip: tooltip.to_string(),
    }
}

#[test]
fn sync_settles_and_recovers() {
    let claude = TrayIconKind::Claude;
    let codex = TrayIconKind::Codex;
    let mut state = ShownIcons::new();
    let icons = vec![data(codex, 3.0, "x"), data(claude, 49.6, "t")];
    assert_eq!(
        sync(&state, &icons, claude),
        SyncStep::Notify {
            at: 1,
            first: ShellMessage::Add,
            fallback: ShellMessage::Modify
        }
    );
    synced(&mut state, &icons, claude, true);
    assert_eq!(sync(&state, &icons, claude), SyncStep::Skip);
    assert_eq!(state.shown_icon(claude), Some(shown(Some(50), "t")));
    assert_eq!(state.shown_icon(codex), None);

    // The same rendered percentage costs nothing.
    let same = vec![data(claude, 50.3, "t")];
    assert_eq!(sync(&state, &same, claude), SyncStep::Skip);
    let other = vec![data(claude, 51.0, "t")];
    assert_eq!(
        sync(&state, &other, claude),
        SyncStep::Notify {
            at: 0,
            first: ShellMessage::Modify,
            fallback: ShellMessage::Add
        }
    );
    // What the shell refuses is added again.
    synced(&mut state, &other, claude, false);
    assert_eq!(state.shown_icon(claude), None);
    assert!(matches!(
        sync(&state, &other, claude),
        SyncStep::Notify {
            first: ShellMessage::Add,
            ..
        }
    ));
    synced(&mut state, &other, claude, true);
    assert_eq!(sync(&state, &[], claude), SyncStep::Remove);
    synced(&mut state, &[], claude, true);
    assert_eq!(sync(&state, &[], claude), SyncStep::Skip);
}

#[test]
fn removed_icons_are_not_shown() {
    let mut state = ShownIcons::new();
    for kind in [TrayIconKind::Claude, TrayIconKind::Codex] {
        state.set_shown_icon(kind, Some(shown(Some(1), "a")));
    }
    remove(&mut state, TrayIconKind::Claude);
    assert_eq!(state.shown_icon(TrayIconKind::Claude), None);
    assert!(state.shown_icon(TrayIconKind::Codex).is_some());
    remove_all(&mut state);
    assert_eq!(state.shown_icon(TrayIconKind::Codex), None);
}

#[test]
fn shell_keeps_its_icon_if_none_could_be_built() {
    let built = notify_icon(TrayIconKind::Codex, true);
    let kept = notify_icon(TrayIconKind::Codex, false);
    assert_eq!((built.id, built.flags), (2, 7));
    assert_eq!((kept.id, kept.flags), (2, 5));
    assert_eq!(kept.callback_message, WM_APP_TRAY);
}

#[test]
fn balloons_carry_their_texts() {
    let balloon = notify_balloon(TrayIconKind::Claude, "Login", &"m".repeat(300));
    assert_eq!((balloon.id, balloon.flags, balloon.info_flags), (1, 16, 2));
    assert_eq!(&balloon.title[..6], &[76, 111, 103, 105, 110, 0]);
    assert_eq!(balloon.message[254], b'm' as u16);
    assert_eq!(balloon.message[255], 0);
}

#[test]
fn mouse_messages_request_actions() {
    assert_eq!(handle_message(514), TrayAction::ToggleWidget);
    assert_eq!(handle_message(517), TrayAction::ShowContextMenu);
    assert_eq!(handle_message(0), TrayAction::Nothing);
    assert_eq!(handle_message(-1), TrayAction::Nothing);
    assert_eq!(handle_message(0x7_0000_0202), TrayAction::ToggleWidget);
    assert_eq!(handle_message(-0x1_0000_0000 + 517), TrayAction::ShowContextMenu);
    assert_eq!(IDM_TOGGLE_WIDGET, 50);
}
