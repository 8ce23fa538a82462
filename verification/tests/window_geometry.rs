use salmon_watch::persistence::WindowGeometry;
use salmon_watch::window_geometry::{
    centered, is_applicable, is_normal_window_state, observed_geometry, WindowEvent,
    WindowGeometryManager,
};

fn placement(maximized: bool) -> WindowGeometry {
    WindowGeometry { x: 10, y: 20, width: 800, height: 600, maximized }
}

#[test]
fn maximized_and_fullscreen_bounds_are_not_normal_geometry() {
    assert!(is_normal_window_state(false, false));
    assert!(!is_normal_window_state(true, false));
    assert!(!is_normal_window_state(false, true));
    assert!(!is_normal_window_state(true, true));
}

#[test]
fn saved_placement_is_split_into_normal_bounds_and_display_state() {
    let placement = placement(true);
    let manager = WindowGeometryManager::new(Some(placement));

    assert_eq!(manager.last_normal, Some(placement.as_normal()));
    assert_eq!(manager.pending_show, Some(placement));
}

#[test]
fn bounds_are_seen_only_of_a_normal_window() {
    assert_eq!(
        observed_geometry(false, false, Some((10, 20)), 800, 600),
        Some(placement(false))
    );
    assert_eq!(observed_geometry(true, false, Some((10, 20)), 800, 600), None);
    assert_eq!(observed_geometry(false, true, Some((10, 20)), 800, 600), None);
    assert_eq!(observed_geometry(false, false, None, 800, 600), None);
    assert_eq!(observed_geometry(false, false, Some((10, 20)), 0, 600), None);
    assert!(is_applicable(placement(true)));
    assert!(!is_applicable(WindowGeometry { height: 0, ..placement(false) }));
}

#[test]
fn a_maximized_window_keeps_its_bounds_while_it_is_hidden() {
    let mut manager = WindowGeometryManager::new(Some(placement(false)));
    assert!(manager.awaits_placement());
    assert_eq!(
        manager.handle_event(WindowEvent::RedrawRequested, true, None),
        Some(placement(false))
    );
    let moved = WindowGeometry { x: 50, ..placement(false) };
    assert_eq!(manager.handle_event(WindowEvent::Moved, true, Some(moved)), None);
    let captured = manager.capture_placement(true, false, None);
    assert_eq!(captured, Some(WindowGeometry { maximized: true, ..moved }));
    assert_eq!(manager.unsaved(captured), captured);
    manager.mark_saved(captured.unwrap());
    assert_eq!(manager.unsaved(captured), None);
    assert_eq!(manager.prepare_hiding(captured), Some(moved));
    assert!(manager.awaits_placement());
    // While it waits to be shown, events of the window do not count.
    assert_eq!(manager.handle_event(WindowEvent::Resized, false, Some(placement(false))), None);
    assert_eq!(manager.last_normal, Some(moved));
    assert_eq!(manager.handle_event(WindowEvent::RedrawRequested, true, None), captured);
    assert!(!manager.awaits_placement());
}

#[test]
fn windows_are_centered_or_start_at_the_edge() {
    assert_eq!(centered(-1920, 1920, 600), -1260);
    assert_eq!(centered(100, 500, 600), 100);
}
