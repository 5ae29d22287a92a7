use nowayprompt::frontend::wayland::input::{key_action, Key, KeyAction, TouchPoints};
use nowayprompt::frontend::wayland::render::{
    format_hotspots, format_rendered, release_event, HotSpot, HotSpotEffect, Surface,
};
use nowayprompt::frontend::wayland::scale::Scale;
use nowayprompt::frontend::wayland::state::{
    missing_globals, output_scale_update, resolve_display_socket, wayland_mode_step, ExitReason,
    WaylandModeStep,
};
use nowayprompt::frontend::{Event, FrontendError, InterfaceMode};

fn hs(effect: HotSpotEffect, x: u32, y: u32, w: u32, h: u32) -> HotSpot {
    HotSpot {
        effect,
        x,
        y,
        width: w,
        height: h,
    }
}

#[test]
fn hotspot_contains_edges_and_saturates() {
    let h = hs(HotSpotEffect::Accept, 10, 20, 5, 5);
    assert!(h.contains_point(10, 20));
    assert!(h.contains_point(15, 25));
    assert!(!h.contains_point(16, 25));
    assert!(!h.contains_point(9, 20));
    let far = hs(HotSpotEffect::Cancel, u32::MAX - 1, 0, 10, 1);
    assert!(far.contains_point(u32::MAX, 1));
    assert_eq!(h.act(), Event::UserOk);
    assert_eq!(far.act(), Event::UserAbort);
    assert_eq!(hs(HotSpotEffect::NotOk, 0, 0, 1, 1).act(), Event::UserNotOk);
}

#[test]
fn surface_hotspot_lookup_and_info() {
    let mut s = Surface::new();
    assert!(s.info().is_none());
    s.hotspots.push(hs(HotSpotEffect::Accept, 0, 0, 10, 10));
    s.hotspots.push(hs(HotSpotEffect::Cancel, 5, 5, 10, 10));
    assert_eq!(s.hotspot_from_point(7, 7).unwrap().effect, HotSpotEffect::Accept);
    assert_eq!(s.hotspot_from_point(12, 12).unwrap().effect, HotSpotEffect::Cancel);
    assert!(s.hotspot_from_point(30, 30).is_none());
    s.configured = true;
    s.width = 101;
    s.height = 50;
    s.scale = Scale::Fractional(150);
    let info = s.info().unwrap();
    assert_eq!((info.physical_width, info.physical_height), (127, 63));
    assert_eq!(info.hotspots.len(), 2);
    assert_eq!(
        format_rendered(&info),
        "101x50 mode=fractional scale=150 phys=127x63"
    );
    assert_eq!(
        format_hotspots(&info.hotspots),
        "(Ok, 0, 0, 10, 10), (Cancel, 5, 5, 10, 10)"
    );
    assert_eq!(format_hotspots(&[]), "");
    s.width = 0;
    assert!(s.info().is_none());
    s.deinit();
}

#[test]
fn pointer_release_needs_same_hotspot() {
    let a = hs(HotSpotEffect::Accept, 0, 0, 10, 10);
    let c = hs(HotSpotEffect::Cancel, 20, 0, 10, 10);
    assert_eq!(release_event(Some(a), Some(a)), Some(Event::UserOk));
    assert_eq!(release_event(Some(a), Some(c)), None);
    assert_eq!(release_event(None, Some(c)), None);
    assert_eq!(release_event(Some(c), None), None);
}

#[test]
fn key_actions() {
    let pin = InterfaceMode::GetPin;
    let msg = InterfaceMode::Message;
    assert_eq!(key_action(Key::Return, false, msg), KeyAction::Exit(Event::UserOk));
    assert_eq!(key_action(Key::Escape, false, pin), KeyAction::Exit(Event::UserAbort));
    assert_eq!(key_action(Key::BackSpace, false, pin), KeyAction::DeletePin);
    assert_eq!(key_action(Key::BackSpace, false, msg), KeyAction::Ignore);
    assert_eq!(key_action(Key::BackSpace, true, pin), KeyAction::ResetPin);
    assert_eq!(key_action(Key::U, true, pin), KeyAction::ResetPin);
    assert_eq!(key_action(Key::U, true, msg), KeyAction::Ignore);
    assert_eq!(key_action(Key::Return, true, pin), KeyAction::Ignore);
    assert_eq!(key_action(Key::Other, false, pin), KeyAction::AppendText);
    assert_eq!(key_action(Key::W, false, pin), KeyAction::AppendText);
    assert_eq!(key_action(Key::Other, false, msg), KeyAction::Ignore);
    assert_eq!(key_action(Key::Delete, false, pin), KeyAction::Ignore);
    assert_eq!(key_action(Key::NoSymbol, true, pin), KeyAction::Ignore);
}

#[test]
fn touch_points_track_hotspots() {
    let a = hs(HotSpotEffect::Accept, 0, 0, 10, 10);
    let c = hs(HotSpotEffect::Cancel, 20, 0, 10, 10);
    let mut t = TouchPoints::new();
    t.down(1, Some(a));
    t.down(2, None);
    t.down(3, Some(c));
    assert_eq!(t.len(), 2);
    t.motion(1, 50, 50);
    assert_eq!(t.len(), 1);
    assert_eq!(t.up(1), None);
    t.motion(3, 25, 5);
    assert_eq!(t.up(3), Some(Event::UserAbort));
    assert_eq!(t.len(), 0);
    t.down(4, Some(a));
    t.cancel();
    assert_eq!(t.len(), 0);
}

#[test]
fn wayland_state_decisions() {
    assert_eq!(
        wayland_mode_step(InterfaceMode::NoPrompt, InterfaceMode::NoPrompt, false),
        WaylandModeStep::Unchanged
    );
    assert_eq!(
        wayland_mode_step(InterfaceMode::NoPrompt, InterfaceMode::GetPin, true),
        WaylandModeStep::Defer
    );
    assert_eq!(
        wayland_mode_step(InterfaceMode::GetPin, InterfaceMode::NoPrompt, false),
        WaylandModeStep::Switch
    );
    assert!(missing_globals(true, true, true).is_none());
    match missing_globals(true, false, true) {
        Some(FrontendError::Init(m)) => assert_eq!(m, "missing wayland interfaces"),
        _ => panic!("expected an init error"),
    }
    assert_eq!(output_scale_update(0, 2), (2, true));
    assert_eq!(output_scale_update(2, 2), (2, false));
    assert_eq!(output_scale_update(2, -3), (0, true));
    assert!(matches!(ExitReason::UserNotOk.into_result(), Ok(Event::UserNotOk)));
    assert!(matches!(
        ExitReason::Error(FrontendError::Init("x".into())).into_result(),
        Err(FrontendError::Init(_))
    ));
}

#[test]
fn configured_display_takes_precedence() {
    assert_eq!(
        resolve_display_socket(Some("/configured/socket"), Some("environment"), Some("/runtime"))
            .unwrap(),
        "/configured/socket".to_string()
    );
}

#[test]
fn no_display_is_unavailable() {
    assert!(matches!(
        resolve_display_socket(None, None, Some("/runtime")),
        Err(FrontendError::Unavailable(_))
    ));
}

#[test]
fn relative_display_lives_in_runtime_dir() {
    assert_eq!(
        resolve_display_socket(None, Some("wayland-1"), Some("/run/user/1000")).unwrap(),
        "/run/user/1000/wayland-1".to_string()
    );
    assert_eq!(
        resolve_display_socket(Some("wayland-0"), Some("wayland-1"), Some("/run/")).unwrap(),
        "/run/wayland-0".to_string()
    );
}

#[test]
fn relative_display_needs_absolute_runtime_dir() {
    match resolve_display_socket(None, Some("wayland-1"), None) {
        Err(FrontendError::Unavailable(m)) => assert_eq!(m, "XDG_RUNTIME_DIR is not set"),
        _ => panic!("expected unavailable"),
    }
    match resolve_display_socket(None, Some("wayland-1"), Some("run")) {
        Err(FrontendError::Unavailable(m)) => {
            assert_eq!(m, "XDG_RUNTIME_DIR is not an absolute path")
        }
        _ => panic!("expected unavailable"),
    }
}
