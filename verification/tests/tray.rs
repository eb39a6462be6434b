use ghostscribe_client::tray::id;
use ghostscribe_client::tray::{make_icon_rgba, MenuAction, TrayDisplay, TrayState};

// ── Menu IDs, icon and tints ─────────────────────────────────────────────────

#[test]
fn menu_action_round_trip_covers_all_ids() {
    for s in [
        id::EDIT_CONFIG,
        id::REVEAL_CONFIG,
        id::RELOAD_CONFIG,
        id::SHOW_LOG,
        id::TOGGLE_LOG,
        id::RESTART,
        id::ABOUT,
        id::QUIT,
    ] {
        assert!(MenuAction::from_id(s).is_some(), "missing mapping for {s}");
    }
    assert!(MenuAction::from_id("nope").is_none());
}

#[test]
fn icon_rgba_is_32x32_and_has_alpha() {
    let rgba = make_icon_rgba(TrayState::Recording);
    assert_eq!(rgba.len(), 32 * 32 * 4);
    assert!(rgba.chunks_exact(4).any(|px| px[3] == 255));
    assert!(rgba.chunks_exact(4).any(|px| px[3] == 0));
}

#[test]
fn each_state_has_a_unique_tint() {
    let tints = [
        TrayState::Idle.tint(),
        TrayState::Recording.tint(),
        TrayState::Uploading.tint(),
        TrayState::Error.tint(),
    ];
    for i in 0..tints.len() {
        for j in (i + 1)..tints.len() {
            assert_ne!(tints[i], tints[j], "states {i} and {j} share a tint");
        }
    }
}

#[test]
fn idle_tint_is_green() {
    let [r, g, b, _] = TrayState::Idle.tint();
    assert!(g > r && g > b, "idle tint should be greenish");
}

// ── The same, with other sample IDs and messages ─────────────────────────────

#[test]
fn tray_menu_action_round_trip_covers_all_ids() {
    for s in [
        id::EDIT_CONFIG,
        id::REVEAL_CONFIG,
        id::RELOAD_CONFIG,
        id::SHOW_LOG,
        id::TOGGLE_LOG,
        id::RESTART,
        id::ABOUT,
        id::QUIT,
    ] {
        assert!(MenuAction::from_id(s).is_some(), "missing mapping for {s}");
    }
    assert!(MenuAction::from_id("not-a-real-id").is_none());
}

#[test]
fn tray_icon_rgba_is_32x32_and_has_alpha() {
    let rgba = make_icon_rgba(TrayState::Recording);
    assert_eq!(rgba.len(), 32 * 32 * 4);
    let any_opaque = rgba.chunks_exact(4).any(|px| px[3] == 255);
    let any_transparent = rgba.chunks_exact(4).any(|px| px[3] == 0);
    assert!(any_opaque, "icon should have opaque pixels");
    assert!(any_transparent, "icon should have transparent pixels (circle != rectangle)");
}

#[test]
fn tray_each_state_has_a_unique_tint() {
    let tints = [
        TrayState::Idle.tint(),
        TrayState::Recording.tint(),
        TrayState::Uploading.tint(),
        TrayState::Error.tint(),
    ];
    for i in 0..tints.len() {
        for j in (i + 1)..tints.len() {
            assert_ne!(tints[i], tints[j], "states {i} and {j} share a tint");
        }
    }
}

#[test]
fn tray_idle_tint_is_green() {
    let [r, g, b, _] = TrayState::Idle.tint();
    assert!(g > r && g > b, "idle tint should be greenish");
}

// ── More of the tray ─────────────────────────────────────────────────────────

#[test]
fn each_id_maps_to_its_action() {
    assert_eq!(MenuAction::from_id("edit-config"), Some(MenuAction::EditConfig));
    assert_eq!(MenuAction::from_id("quit"), Some(MenuAction::Quit));
    assert_eq!(MenuAction::from_id("Quit"), None);
}

#[test]
fn icon_centre_is_opaque_tint_and_corner_transparent() {
    for st in [TrayState::Idle, TrayState::Recording, TrayState::Uploading, TrayState::Error] {
        let rgba = make_icon_rgba(st);
        let t = st.tint();
        let centre = (16 * 32 + 16) * 4;
        assert_eq!(&rgba[centre..centre + 4], &[t[0], t[1], t[2], 255]);
        assert_eq!(&rgba[0..4], &[0, 0, 0, 0]);
    }
}

#[test]
fn tooltips_name_the_state() {
    assert_eq!(TrayState::Idle.tooltip(), "GhostScribe — idle");
    assert_eq!(TrayState::Error.tooltip(), "GhostScribe — error (see log)");
}

#[test]
fn display_state_and_suffix() {
    let mut d = TrayDisplay::new();
    assert_eq!(d.state, TrayState::Idle);
    assert!(!d.set_state(TrayState::Idle));
    d.set_tooltip_suffix("hello");
    assert_eq!(d.tooltip, "GhostScribe — idle — hello");
    // Same state again: the suffix stays.
    assert!(!d.set_state(TrayState::Idle));
    assert_eq!(d.tooltip, "GhostScribe — idle — hello");
    // A new state resets the tooltip.
    assert!(d.set_state(TrayState::Recording));
    assert_eq!(d.tooltip, "GhostScribe — recording…");
}
