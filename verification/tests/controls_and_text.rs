use osm_nav::controls::{NavigationState, UiEvent};
use osm_nav::text::{id_label, lowercase_text, strip_suffix_text, text_is, trim_text};
use osm_nav::types::{ClickMode, RouteMode, RoutingOptions};

fn loaded() -> NavigationState {
    let mut s = NavigationState::new();
    s.finish_loading(5);
    s
}

#[test]
fn new_state_is_loading_with_defaults() {
    let s = NavigationState::new();
    assert!(s.is_loading);
    assert_eq!(s.options, RoutingOptions::default());
    assert_eq!(s.click_mode, ClickMode::SelectStart);
    assert_eq!((s.start_node, s.goal_node), (None, None));
    assert!(!s.draw_nodes);
}

#[test]
fn input_is_ignored_while_loading() {
    let mut s = NavigationState::new();
    let before = s;
    assert!(!s.handle_event(UiEvent::ToggleTolls));
    assert!(!s.handle_event(UiEvent::PickNode(3)));
    assert!(!s.handle_event(UiEvent::RouteNow));
    assert_eq!(s, before);
}

#[test]
fn finish_loading_picks_first_and_last_node() {
    let mut s = NavigationState::new();
    assert!(s.finish_loading(5));
    assert!(!s.is_loading);
    assert_eq!((s.start_node, s.goal_node), (Some(0), Some(4)));
    assert_eq!(s.route_endpoints(5), Some((0, 4)));

    let mut one = NavigationState::new();
    assert!(!one.finish_loading(1));
    assert_eq!((one.start_node, one.goal_node), (Some(0), None));
    assert_eq!(one.route_endpoints(1), None);

    let mut none = NavigationState::new();
    assert!(!none.finish_loading(0));
    assert_eq!((none.start_node, none.goal_node), (None, None));
}

#[test]
fn fail_loading_stops_loading_only() {
    let mut s = NavigationState::new();
    s.fail_loading();
    assert!(!s.is_loading);
    assert_eq!((s.start_node, s.goal_node), (None, None));
}

#[test]
fn mode_buttons_set_mode_and_recalculate() {
    let mut s = loaded();
    assert!(s.handle_event(UiEvent::ChooseShortest));
    assert_eq!(s.options.mode, RouteMode::Shortest);
    assert!(s.handle_event(UiEvent::ChooseFastest));
    assert_eq!(s.options.mode, RouteMode::Fastest);
}

#[test]
fn toggles_undo_themselves() {
    for ev in [UiEvent::ToggleTolls, UiEvent::ToggleMotorways, UiEvent::ToggleTraffic, UiEvent::ToggleNodes] {
        let mut s = loaded();
        let before = s;
        let first = s.handle_event(ev);
        assert_ne!(s, before);
        let second = s.handle_event(ev);
        assert_eq!(first, second);
        assert_eq!(s, before);
    }
}

#[test]
fn toggle_nodes_does_not_recalculate() {
    let mut s = loaded();
    assert!(!s.handle_event(UiEvent::ToggleNodes));
    assert!(s.draw_nodes);
}

#[test]
fn picking_nodes_follows_click_mode() {
    let mut s = loaded();
    assert!(s.handle_event(UiEvent::PickNode(2)));
    assert_eq!((s.start_node, s.goal_node), (Some(2), Some(4)));
    assert!(!s.handle_event(UiEvent::ClickSelectsGoal));
    assert_eq!(s.click_mode, ClickMode::SelectGoal);
    assert!(s.handle_event(UiEvent::PickNode(3)));
    assert_eq!((s.start_node, s.goal_node), (Some(2), Some(3)));
    assert!(!s.handle_event(UiEvent::ClickSelectsStart));
    assert_eq!(s.click_mode, ClickMode::SelectStart);
}

#[test]
fn route_now_recalculates_without_change() {
    let mut s = loaded();
    let before = s;
    assert!(s.handle_event(UiEvent::RouteNow));
    assert_eq!(s, before);
}

#[test]
fn route_endpoints_need_both_ends_and_nodes() {
    let s = loaded();
    assert_eq!(s.route_endpoints(5), Some((0, 4)));
    assert_eq!(s.route_endpoints(0), None);
    let mut t = s;
    t.goal_node = None;
    assert_eq!(t.route_endpoints(5), None);
}

#[test]
fn text_helpers() {
    assert!(text_is("abc", "abc"));
    assert!(!text_is("abc", "abd"));
    assert_eq!(trim_text(" \t x y \n"), "x y");
    assert_eq!(trim_text("\u{3000}z\u{a0}"), "z");
    assert_eq!(lowercase_text("MiXeD"), "mixed");
    assert_eq!(strip_suffix_text("30 mph", "mph"), Some("30 "));
    assert_eq!(strip_suffix_text("mph", "30 mph"), None);
    assert_eq!(strip_suffix_text("naïve km/h", " km/h"), Some("naïve"));
    assert_eq!(strip_suffix_text("abc", "abd"), None);
    assert_eq!(id_label("osm:", 0), "osm:0");
    assert_eq!(id_label("osm:", -1234567890123), "osm:-1234567890123");
    assert_eq!(id_label("x", i64::MIN), "x-9223372036854775808");
}

#[test]
fn stripping_a_suffix_undoes_appending_it() {
    for (s, suffix) in [("30 ", "mph"), ("", "km/h"), ("ab", "")] {
        let joined = format!("{}{}", s, suffix);
        let rest = strip_suffix_text(&joined, suffix).unwrap();
        assert_eq!(rest, s);
        assert_eq!(format!("{}{}", rest, suffix), joined);
    }
}
