use zenith::layout::{PanelKind, PanelMode, UIState, UiEvent};

fn state() -> UIState {
    // cpu, net, disk heights 10; process 8; no sensor panel; 80x50 terminal
    UIState::new(10, 10, 10, 8, 0, 80, 50)
}

fn expanded_count(s: &UIState) -> usize {
    s.panels
        .iter()
        .filter(|p| matches!(p.mode, PanelMode::Expanded))
        .count()
}

#[test]
fn at_most_one_panel_expanded_across_event_sequences() {
    let mut s = state();
    let events = [
        UiEvent::Expand,
        UiEvent::FocusNext,
        UiEvent::Expand, // second expand restores the first panel
        UiEvent::Resize(100, 30),
        UiEvent::FocusNext,
        UiEvent::Expand,
        UiEvent::Minimize,
        UiEvent::Expand,
    ];
    for e in events {
        s.handle_event(e);
        assert!(expanded_count(&s) <= 1);
    }
}

#[test]
fn expanding_a_second_panel_restores_the_first() {
    let mut s = state();
    s.handle_event(UiEvent::Expand); // panel 0 expanded
    assert!(matches!(s.panels[0].mode, PanelMode::Expanded));
    s.handle_event(UiEvent::FocusNext);
    s.handle_event(UiEvent::Expand); // panel 1 expanded, panel 0 back to normal
    assert!(matches!(s.panels[0].mode, PanelMode::Normal));
    assert!(matches!(s.panels[1].mode, PanelMode::Expanded));
}

#[test]
fn expand_twice_toggles_back_to_normal() {
    let mut s = state();
    s.handle_event(UiEvent::Expand);
    s.handle_event(UiEvent::Expand);
    assert!(matches!(s.panels[0].mode, PanelMode::Normal));
}

#[test]
fn focus_cycles_and_wraps() {
    let mut s = state();
    assert_eq!(s.focus, 0);
    for _ in 0..4 {
        s.handle_event(UiEvent::FocusNext);
    }
    assert_eq!(s.focus, 0); // four panels: wrapped around
}

#[test]
fn allocation_fills_the_terminal_when_everything_fits() {
    let s = state(); // bases 10+10+10+8 = 38 <= 50
    let hs = s.allocate_heights();
    assert_eq!(hs.len(), 4);
    let total: u32 = hs.iter().map(|h| *h as u32).sum();
    assert_eq!(total, 50);
    // every panel got at least its configured rows; the process table
    // (no panel expanded) got the spare 12
    assert!(hs[0] >= 10 && hs[1] >= 10 && hs[2] >= 10 && hs[3] >= 8);
    assert_eq!(hs[3], 8 + 12);
}

#[test]
fn spare_rows_go_to_the_expanded_panel() {
    let mut s = state();
    s.handle_event(UiEvent::Expand); // cpu panel
    let hs = s.allocate_heights();
    assert_eq!(hs[0], 10 + 12);
}

#[test]
fn allocation_never_exceeds_a_small_terminal_and_serves_process_first() {
    let mut s = state();
    s.handle_event(UiEvent::Resize(80, 20)); // bases sum to 38 > 20
    let hs = s.allocate_heights();
    let total: u32 = hs.iter().map(|h| *h as u32).sum();
    assert!(total <= 20);
    // the process table keeps its full base: it is truncated last
    assert_eq!(hs[3], 8);
}

#[test]
fn minimized_panel_shrinks_to_a_stub() {
    let mut s = state();
    s.handle_event(UiEvent::Minimize); // cpu panel -> 2-row stub
    let hs = s.allocate_heights();
    assert!(hs[0] >= 2);
    let total: u32 = hs.iter().map(|h| *h as u32).sum();
    assert_eq!(total, 50);
}

#[test]
fn sensor_panel_appears_only_when_given_rows() {
    let without = UIState::new(10, 10, 10, 8, 0, 80, 50);
    assert_eq!(without.panels.len(), 4);
    let with = UIState::new(10, 10, 10, 8, 6, 80, 50);
    assert_eq!(with.panels.len(), 5);
    assert!(matches!(with.panels[4].kind, PanelKind::Sensor));
}
