use keyboard_pipeline::action::{Action, CustomEvent, InterruptPolicy};
use keyboard_pipeline::layout::{KeyState, Layout};
use keyboard_pipeline::matrix::{Coordinate, Dims, Event, EventKind};

const A: u8 = 0x04;
const B: u8 = 0x05;
const C: u8 = 0x06;
const ENTER: u8 = 0x28;
const SPACE: u8 = 0x2C;
const LCTRL: u8 = 0xE0;
const LSHIFT: u8 = 0xE1;

fn at(row: u8, col: u8) -> Coordinate {
    Coordinate { row, col }
}

fn press(row: u8, col: u8) -> Event {
    Event { coord: at(row, col), kind: EventKind::Press }
}

fn release(row: u8, col: u8) -> Event {
    Event { coord: at(row, col), kind: EventKind::Release }
}

fn hold_tap(timeout_ms: u16, policy: InterruptPolicy, hold: Action, tap: Action, interval: u16) -> Action {
    Action::HoldTap {
        timeout_ms,
        interrupt_policy: policy,
        hold_action: Box::new(hold),
        tap_action: Box::new(tap),
        tap_hold_interval_ms: interval,
    }
}

/// A layout of one row, one layer per argument.
fn row_layout(layers: Vec<Vec<Action>>) -> Layout {
    let cols = layers[0].len() as u8;
    Layout::new(Dims { rows: 1, cols }, layers).unwrap()
}

fn keys_after_tick(layout: &mut Layout) -> Vec<u8> {
    layout.tick().0
}

#[test]
fn new_layout_rejects_a_table_without_layers() {
    assert!(Layout::new(Dims { rows: 1, cols: 1 }, vec![]).is_none());
}

#[test]
fn new_layout_rejects_a_layer_of_the_wrong_size() {
    let dims = Dims { rows: 2, cols: 2 };
    let short = vec![vec![Action::NoOp, Action::NoOp, Action::NoOp]];
    assert!(Layout::new(dims, short).is_none());
    let second_long = vec![
        vec![Action::NoOp, Action::NoOp, Action::NoOp, Action::NoOp],
        vec![Action::NoOp, Action::NoOp, Action::NoOp, Action::NoOp, Action::NoOp],
    ];
    assert!(Layout::new(dims, second_long).is_none());
    let good = vec![vec![Action::NoOp, Action::NoOp, Action::NoOp, Action::NoOp]];
    assert!(Layout::new(dims, good).is_some());
}

#[test]
fn new_layout_is_idle() {
    let mut layout = row_layout(vec![vec![Action::KeyCode(A), Action::KeyCode(B)]]);
    assert_eq!(layout.keycodes(), vec![]);
    assert_eq!(layout.active_layers(), vec![]);
    assert_eq!(layout.key_state(at(0, 0)), KeyState::Idle);
    assert_eq!(layout.tick(), (vec![], None));
}

#[test]
fn key_is_active_from_press_to_release() {
    let mut layout = row_layout(vec![vec![Action::KeyCode(A), Action::KeyCode(B)]]);
    layout.handle(press(0, 1));
    assert_eq!(layout.key_state(at(0, 1)), KeyState::Pressed { layer: 0 });
    assert_eq!(keys_after_tick(&mut layout), vec![B]);
    assert_eq!(keys_after_tick(&mut layout), vec![B]);
    layout.handle(press(0, 0));
    assert_eq!(keys_after_tick(&mut layout), vec![A, B]);
    layout.handle(release(0, 1));
    assert_eq!(keys_after_tick(&mut layout), vec![A]);
    layout.handle(release(0, 0));
    assert_eq!(keys_after_tick(&mut layout), vec![]);
}

#[test]
fn active_keys_come_in_row_major_order() {
    let dims = Dims { rows: 2, cols: 2 };
    let layers = vec![vec![
        Action::KeyCode(A),
        Action::KeyCode(B),
        Action::KeyCode(C),
        Action::Modifier(LSHIFT),
    ]];
    let mut layout = Layout::new(dims, layers).unwrap();
    layout.handle(press(1, 1));
    layout.handle(press(1, 0));
    layout.handle(press(0, 1));
    layout.handle(press(0, 0));
    assert_eq!(layout.keycodes(), vec![A, B, C, LSHIFT]);
}

#[test]
fn modifier_and_macro_are_active_while_held() {
    let mut layout = row_layout(vec![vec![
        Action::Modifier(LSHIFT),
        Action::Macro(vec![LCTRL, ENTER, A]),
        Action::NoOp,
    ]]);
    layout.handle(press(0, 1));
    assert_eq!(keys_after_tick(&mut layout), vec![LCTRL, ENTER, A]);
    layout.handle(press(0, 0));
    assert_eq!(keys_after_tick(&mut layout), vec![LSHIFT, LCTRL, ENTER, A]);
    layout.handle(press(0, 2));
    assert_eq!(keys_after_tick(&mut layout), vec![LSHIFT, LCTRL, ENTER, A]);
    layout.handle(release(0, 1));
    assert_eq!(keys_after_tick(&mut layout), vec![LSHIFT]);
    layout.handle(release(0, 0));
    layout.handle(release(0, 2));
    assert_eq!(keys_after_tick(&mut layout), vec![]);
}

#[test]
fn momentary_layer_is_active_while_held() {
    let mut layout = row_layout(vec![
        vec![Action::LayerMomentary(1), Action::KeyCode(A)],
        vec![Action::Transparent, Action::KeyCode(B)],
    ]);
    layout.handle(press(0, 0));
    assert_eq!(layout.active_layers(), vec![1]);
    layout.handle(press(0, 1));
    assert_eq!(keys_after_tick(&mut layout), vec![B]);
    layout.handle(release(0, 0));
    assert_eq!(layout.active_layers(), vec![]);
    assert_eq!(keys_after_tick(&mut layout), vec![B]);
    layout.handle(release(0, 1));
    assert_eq!(keys_after_tick(&mut layout), vec![]);
    layout.handle(press(0, 1));
    assert_eq!(keys_after_tick(&mut layout), vec![A]);
}

#[test]
fn transparent_defers_to_the_next_active_layer_below() {
    let mut layout = row_layout(vec![
        vec![Action::LayerMomentary(1), Action::LayerMomentary(2), Action::KeyCode(A), Action::KeyCode(A)],
        vec![Action::NoOp, Action::Transparent, Action::KeyCode(B), Action::Transparent],
        vec![Action::NoOp, Action::NoOp, Action::Transparent, Action::Transparent],
    ]);
    layout.handle(press(0, 0));
    layout.handle(press(0, 1));
    assert_eq!(layout.active_layers(), vec![1, 2]);
    layout.handle(press(0, 2));
    assert_eq!(layout.key_state(at(0, 2)), KeyState::Pressed { layer: 1 });
    layout.handle(press(0, 3));
    assert_eq!(layout.key_state(at(0, 3)), KeyState::Pressed { layer: 0 });
    assert_eq!(keys_after_tick(&mut layout), vec![B, A]);
}

#[test]
fn transparent_skips_layers_that_are_not_active() {
    let mut layout = row_layout(vec![
        vec![Action::LayerMomentary(2), Action::KeyCode(A)],
        vec![Action::NoOp, Action::KeyCode(B)],
        vec![Action::NoOp, Action::Transparent],
    ]);
    layout.handle(press(0, 0));
    layout.handle(press(0, 1));
    assert_eq!(keys_after_tick(&mut layout), vec![A]);
}

#[test]
fn transparent_on_every_layer_does_nothing() {
    let mut layout = row_layout(vec![
        vec![Action::LayerMomentary(1), Action::Transparent],
        vec![Action::NoOp, Action::Transparent],
    ]);
    layout.handle(press(0, 1));
    assert_eq!(layout.tick(), (vec![], None));
    layout.handle(release(0, 1));
    layout.handle(press(0, 0));
    layout.handle(press(0, 1));
    assert_eq!(layout.tick(), (vec![], None));
    assert_eq!(layout.active_layers(), vec![1]);
    layout.handle(release(0, 1));
    layout.handle(release(0, 0));
    assert_eq!(layout.tick(), (vec![], None));
    assert_eq!(layout.active_layers(), vec![]);
    assert_eq!(layout.key_state(at(0, 1)), KeyState::Idle);
}

#[test]
fn layer_that_the_table_lacks_is_transparent() {
    let mut layout = row_layout(vec![vec![Action::LayerMomentary(7), Action::KeyCode(A)]]);
    layout.handle(press(0, 0));
    assert_eq!(layout.active_layers(), vec![7]);
    layout.handle(press(0, 1));
    assert_eq!(keys_after_tick(&mut layout), vec![A]);
    layout.handle(release(0, 0));
    assert_eq!(layout.active_layers(), vec![]);
}

#[test]
fn key_keeps_the_binding_of_its_press() {
    let mut layout = row_layout(vec![
        vec![Action::LayerMomentary(1), Action::KeyCode(A)],
        vec![Action::Transparent, Action::KeyCode(B)],
    ]);
    layout.handle(press(0, 1));
    layout.handle(press(0, 0));
    assert_eq!(keys_after_tick(&mut layout), vec![A]);
    layout.handle(release(0, 1));
    layout.handle(press(0, 1));
    assert_eq!(keys_after_tick(&mut layout), vec![B]);
    layout.handle(release(0, 0));
    assert_eq!(keys_after_tick(&mut layout), vec![B]);
}

#[test]
fn nested_layers_are_released_in_any_order() {
    let mut layout = row_layout(vec![
        vec![Action::LayerMomentary(1), Action::NoOp, Action::KeyCode(A)],
        vec![Action::Transparent, Action::LayerMomentary(2), Action::KeyCode(B)],
        vec![Action::Transparent, Action::Transparent, Action::KeyCode(C)],
    ]);
    layout.handle(press(0, 0));
    layout.handle(press(0, 1));
    assert_eq!(layout.active_layers(), vec![1, 2]);
    layout.handle(release(0, 1));
    assert_eq!(layout.active_layers(), vec![1]);
    layout.handle(press(0, 1));
    assert_eq!(layout.active_layers(), vec![1, 2]);
    layout.handle(release(0, 0));
    assert_eq!(layout.active_layers(), vec![2]);
    layout.handle(press(0, 2));
    assert_eq!(keys_after_tick(&mut layout), vec![C]);
    layout.handle(release(0, 1));
    assert_eq!(layout.active_layers(), vec![]);
}

#[test]
fn second_press_without_release_changes_nothing() {
    let mut layout = row_layout(vec![
        vec![Action::LayerMomentary(1), Action::KeyCode(A)],
        vec![Action::Transparent, Action::KeyCode(B)],
    ]);
    layout.handle(press(0, 0));
    layout.handle(press(0, 0));
    assert_eq!(layout.active_layers(), vec![1]);
    layout.handle(release(0, 0));
    assert_eq!(layout.active_layers(), vec![]);
}

#[test]
fn release_of_an_idle_switch_changes_nothing() {
    let mut layout = row_layout(vec![vec![Action::KeyCode(A), Action::Custom(3)]]);
    layout.handle(release(0, 0));
    layout.handle(release(0, 1));
    assert_eq!(layout.tick(), (vec![], None));
}

#[test]
fn event_outside_the_matrix_changes_nothing() {
    let mut layout = row_layout(vec![vec![Action::KeyCode(A)]]);
    layout.handle(press(1, 0));
    layout.handle(press(0, 1));
    assert_eq!(layout.tick(), (vec![], None));
    assert_eq!(layout.key_state(at(1, 0)), KeyState::Idle);
}

#[test]
fn custom_key_reports_both_edges() {
    let mut layout = row_layout(vec![vec![Action::Custom(42), Action::KeyCode(A)]]);
    layout.handle(press(0, 0));
    assert_eq!(layout.tick(), (vec![], Some(CustomEvent::Press(42))));
    assert_eq!(layout.tick(), (vec![], None));
    layout.handle(release(0, 0));
    assert_eq!(layout.tick(), (vec![], Some(CustomEvent::Release(42))));
    assert_eq!(layout.tick(), (vec![], None));
}

#[test]
fn last_custom_edge_of_a_period_is_reported() {
    let mut layout = row_layout(vec![vec![Action::Custom(1), Action::Custom(2)]]);
    layout.handle(press(0, 0));
    layout.handle(press(0, 1));
    assert_eq!(layout.tick().1, Some(CustomEvent::Press(2)));
    layout.handle(release(0, 1));
    layout.handle(release(0, 0));
    assert_eq!(layout.tick().1, Some(CustomEvent::Release(1)));
}

#[test]
fn hold_tap_released_early_is_a_tap() {
    let binding = hold_tap(200, InterruptPolicy::Default, Action::LayerMomentary(1), Action::KeyCode(SPACE), 0);
    let mut layout = row_layout(vec![vec![binding, Action::KeyCode(A)], vec![Action::Transparent, Action::KeyCode(B)]]);
    layout.handle(press(0, 0));
    assert_eq!(layout.key_state(at(0, 0)), KeyState::Pending { layer: 0, elapsed: 0 });
    for tick in 0..50u16 {
        assert_eq!(keys_after_tick(&mut layout), vec![]);
        assert_eq!(layout.active_layers(), vec![]);
        assert_eq!(layout.key_state(at(0, 0)), KeyState::Pending { layer: 0, elapsed: tick + 1 });
    }
    layout.handle(release(0, 0));
    assert_eq!(layout.key_state(at(0, 0)), KeyState::Tap { layer: 0, left: 1 });
    assert_eq!(layout.active_layers(), vec![]);
    assert_eq!(keys_after_tick(&mut layout), vec![SPACE]);
    assert_eq!(layout.key_state(at(0, 0)), KeyState::Idle);
    assert_eq!(keys_after_tick(&mut layout), vec![]);
    assert_eq!(layout.active_layers(), vec![]);
}

#[test]
fn hold_tap_released_one_tick_before_the_timeout_is_a_tap() {
    let binding = hold_tap(3, InterruptPolicy::Default, Action::Modifier(LCTRL), Action::KeyCode(ENTER), 0);
    let mut layout = row_layout(vec![vec![binding]]);
    layout.handle(press(0, 0));
    assert_eq!(keys_after_tick(&mut layout), vec![]);
    assert_eq!(keys_after_tick(&mut layout), vec![]);
    layout.handle(release(0, 0));
    assert_eq!(keys_after_tick(&mut layout), vec![ENTER]);
    assert_eq!(keys_after_tick(&mut layout), vec![]);
}

#[test]
fn hold_tap_held_past_the_timeout_is_a_hold() {
    let binding = hold_tap(200, InterruptPolicy::Default, Action::LayerMomentary(1), Action::KeyCode(SPACE), 0);
    let mut layout = row_layout(vec![vec![binding, Action::KeyCode(A)], vec![Action::Transparent, Action::KeyCode(B)]]);
    layout.handle(press(0, 0));
    for _ in 0..199 {
        assert_eq!(keys_after_tick(&mut layout), vec![]);
        assert_eq!(layout.active_layers(), vec![]);
    }
    assert_eq!(keys_after_tick(&mut layout), vec![]);
    assert_eq!(layout.active_layers(), vec![1]);
    assert_eq!(layout.key_state(at(0, 0)), KeyState::Hold { layer: 0 });
    for _ in 200..250 {
        assert_eq!(keys_after_tick(&mut layout), vec![]);
        assert_eq!(layout.active_layers(), vec![1]);
    }
    layout.handle(press(0, 1));
    assert_eq!(keys_after_tick(&mut layout), vec![B]);
    layout.handle(release(0, 0));
    assert_eq!(layout.active_layers(), vec![]);
    assert_eq!(layout.key_state(at(0, 0)), KeyState::Idle);
    assert_eq!(keys_after_tick(&mut layout), vec![B]);
    layout.handle(release(0, 1));
    assert_eq!(keys_after_tick(&mut layout), vec![]);
}

#[test]
fn hold_with_a_key_code_reports_it_until_release() {
    let binding = hold_tap(3, InterruptPolicy::Default, Action::Modifier(LCTRL), Action::KeyCode(ENTER), 0);
    let mut layout = row_layout(vec![vec![binding]]);
    layout.handle(press(0, 0));
    assert_eq!(keys_after_tick(&mut layout), vec![]);
    assert_eq!(keys_after_tick(&mut layout), vec![]);
    assert_eq!(keys_after_tick(&mut layout), vec![LCTRL]);
    for _ in 0..10 {
        assert_eq!(keys_after_tick(&mut layout), vec![LCTRL]);
    }
    layout.handle(release(0, 0));
    assert_eq!(keys_after_tick(&mut layout), vec![]);
}

#[test]
fn default_policy_is_not_decided_by_other_presses() {
    let binding = hold_tap(10, InterruptPolicy::Default, Action::Modifier(LSHIFT), Action::KeyCode(SPACE), 0);
    let mut layout = row_layout(vec![vec![binding, Action::KeyCode(A)]]);
    layout.handle(press(0, 0));
    layout.handle(press(0, 1));
    assert_eq!(layout.key_state(at(0, 0)), KeyState::Pending { layer: 0, elapsed: 0 });
    assert_eq!(keys_after_tick(&mut layout), vec![A]);
    layout.handle(release(0, 1));
    layout.handle(release(0, 0));
    assert_eq!(keys_after_tick(&mut layout), vec![SPACE]);
    assert_eq!(keys_after_tick(&mut layout), vec![]);
}

#[test]
fn hold_on_other_key_press_decides_at_once() {
    let binding = hold_tap(200, InterruptPolicy::HoldOnOtherKeyPress, Action::Modifier(LSHIFT), Action::KeyCode(SPACE), 0);
    let mut layout = row_layout(vec![vec![binding, Action::KeyCode(A)]]);
    layout.handle(press(0, 0));
    layout.handle(press(0, 1));
    assert_eq!(layout.key_state(at(0, 0)), KeyState::Hold { layer: 0 });
    assert_eq!(keys_after_tick(&mut layout), vec![LSHIFT, A]);
    layout.handle(release(0, 1));
    assert_eq!(keys_after_tick(&mut layout), vec![LSHIFT]);
    layout.handle(release(0, 0));
    assert_eq!(keys_after_tick(&mut layout), vec![]);
}

#[test]
fn hold_on_other_key_press_activates_its_layer_for_that_press() {
    let binding = hold_tap(200, InterruptPolicy::HoldOnOtherKeyPress, Action::LayerMomentary(1), Action::KeyCode(SPACE), 0);
    let mut layout = row_layout(vec![vec![binding, Action::KeyCode(A)], vec![Action::Transparent, Action::KeyCode(B)]]);
    layout.handle(press(0, 0));
    layout.handle(press(0, 1));
    assert_eq!(layout.active_layers(), vec![1]);
    assert_eq!(keys_after_tick(&mut layout), vec![B]);
    layout.handle(release(0, 0));
    assert_eq!(layout.active_layers(), vec![]);
}

#[test]
fn hold_on_other_key_press_is_not_decided_by_a_release() {
    let binding = hold_tap(200, InterruptPolicy::HoldOnOtherKeyPress, Action::Modifier(LSHIFT), Action::KeyCode(SPACE), 0);
    let mut layout = row_layout(vec![vec![binding, Action::KeyCode(A)]]);
    layout.handle(press(0, 1));
    layout.handle(press(0, 0));
    layout.handle(release(0, 1));
    assert_eq!(layout.key_state(at(0, 0)), KeyState::Pending { layer: 0, elapsed: 0 });
    assert_eq!(keys_after_tick(&mut layout), vec![]);
    layout.handle(release(0, 0));
    assert_eq!(keys_after_tick(&mut layout), vec![SPACE]);
}

#[test]
fn tap_is_reported_for_its_interval() {
    let binding = hold_tap(200, InterruptPolicy::Default, Action::Modifier(LSHIFT), Action::KeyCode(SPACE), 3);
    let mut layout = row_layout(vec![vec![binding]]);
    layout.handle(press(0, 0));
    assert_eq!(keys_after_tick(&mut layout), vec![]);
    layout.handle(release(0, 0));
    assert_eq!(layout.key_state(at(0, 0)), KeyState::Tap { layer: 0, left: 3 });
    assert_eq!(keys_after_tick(&mut layout), vec![SPACE]);
    assert_eq!(keys_after_tick(&mut layout), vec![SPACE]);
    assert_eq!(keys_after_tick(&mut layout), vec![SPACE]);
    assert_eq!(keys_after_tick(&mut layout), vec![]);
}

#[test]
fn press_during_a_tap_starts_anew() {
    let binding = hold_tap(5, InterruptPolicy::Default, Action::Modifier(LSHIFT), Action::KeyCode(SPACE), 4);
    let mut layout = row_layout(vec![vec![binding]]);
    layout.handle(press(0, 0));
    layout.tick();
    layout.handle(release(0, 0));
    assert_eq!(keys_after_tick(&mut layout), vec![SPACE]);
    layout.handle(press(0, 0));
    assert_eq!(layout.key_state(at(0, 0)), KeyState::Pending { layer: 0, elapsed: 0 });
    assert_eq!(keys_after_tick(&mut layout), vec![]);
}

#[test]
fn timeout_of_zero_is_a_hold_at_the_first_tick() {
    let binding = hold_tap(0, InterruptPolicy::Default, Action::KeyCode(A), Action::KeyCode(B), 0);
    let mut layout = row_layout(vec![vec![binding]]);
    layout.handle(press(0, 0));
    assert_eq!(keys_after_tick(&mut layout), vec![A]);
    layout.handle(release(0, 0));
    assert_eq!(keys_after_tick(&mut layout), vec![]);
    layout.handle(press(0, 0));
    layout.handle(release(0, 0));
    assert_eq!(layout.key_state(at(0, 0)), KeyState::Idle);
    assert_eq!(keys_after_tick(&mut layout), vec![]);
}

#[test]
fn longest_timeout_does_not_overflow() {
    let binding = hold_tap(u16::MAX, InterruptPolicy::Default, Action::KeyCode(A), Action::KeyCode(B), 0);
    let mut layout = row_layout(vec![vec![binding]]);
    layout.handle(press(0, 0));
    for _ in 0..(u16::MAX as u32 - 1) {
        assert!(layout.tick().0.is_empty());
    }
    assert_eq!(keys_after_tick(&mut layout), vec![A]);
    assert_eq!(keys_after_tick(&mut layout), vec![A]);
}

#[test]
fn hold_tap_with_macro_actions() {
    let binding = hold_tap(2, InterruptPolicy::Default, Action::Macro(vec![LCTRL, LSHIFT]), Action::Macro(vec![A, B]), 0);
    let mut layout = row_layout(vec![vec![binding.clone(), binding]]);
    layout.handle(press(0, 0));
    layout.tick();
    layout.handle(release(0, 0));
    layout.handle(press(0, 1));
    assert_eq!(keys_after_tick(&mut layout), vec![A, B]);
    assert_eq!(keys_after_tick(&mut layout), vec![LCTRL, LSHIFT]);
}

#[test]
fn hold_tap_on_an_upper_layer() {
    let binding = hold_tap(2, InterruptPolicy::Default, Action::KeyCode(A), Action::KeyCode(B), 0);
    let mut layout = row_layout(vec![
        vec![Action::LayerMomentary(1), Action::KeyCode(C)],
        vec![Action::Transparent, binding],
    ]);
    layout.handle(press(0, 0));
    layout.handle(press(0, 1));
    assert_eq!(layout.key_state(at(0, 1)), KeyState::Pending { layer: 1, elapsed: 0 });
    layout.handle(release(0, 0));
    assert_eq!(keys_after_tick(&mut layout), vec![]);
    assert_eq!(keys_after_tick(&mut layout), vec![A]);
    layout.handle(release(0, 1));
    assert_eq!(keys_after_tick(&mut layout), vec![]);
}

#[test]
fn cloned_action_equals_its_source() {
    let binding = hold_tap(7, InterruptPolicy::HoldOnOtherKeyPress, Action::LayerMomentary(2), Action::Macro(vec![A, B]), 9);
    assert_eq!(binding.clone(), binding);
    assert_eq!(Action::Custom(5).clone(), Action::Custom(5));
    assert_ne!(Action::KeyCode(A), Action::Modifier(A));
}

#[test]
fn action_accessors() {
    let binding = hold_tap(7, InterruptPolicy::HoldOnOtherKeyPress, Action::LayerMomentary(2), Action::Macro(vec![A, B]), 9);
    assert!(binding.is_hold_tap());
    assert!(!binding.is_transparent());
    assert!(Action::Transparent.is_transparent());
    assert_eq!(binding.hold_timeout(), 7);
    assert_eq!(binding.tap_duration(), 9);
    assert!(binding.holds_on_other_press());
    assert_eq!(binding.hold_layer(), Some(2));
    assert_eq!(binding.momentary_layer(), None);
    assert_eq!(Action::LayerMomentary(3).momentary_layer(), Some(3));
    assert_eq!(Action::Custom(8).custom_payload(), Some(8));
    assert_eq!(Action::KeyCode(A).custom_payload(), None);
    assert_eq!(Action::KeyCode(A).hold_timeout(), 0);
    assert_eq!(Action::KeyCode(A).tap_duration(), 1);
    let mut keys = vec![C];
    binding.push_tap_key_codes(&mut keys);
    assert_eq!(keys, vec![C, A, B]);
    binding.push_hold_key_codes(&mut keys);
    assert_eq!(keys, vec![C, A, B]);
    binding.push_key_codes(&mut keys);
    assert_eq!(keys, vec![C, A, B]);
    Action::Modifier(LSHIFT).push_key_codes(&mut keys);
    assert_eq!(keys, vec![C, A, B, LSHIFT]);
}

#[test]
fn second_press_of_a_pending_key_changes_nothing() {
    let binding = hold_tap(5, InterruptPolicy::Default, Action::Modifier(LSHIFT), Action::KeyCode(SPACE), 0);
    let mut layout = row_layout(vec![vec![binding]]);
    layout.handle(press(0, 0));
    layout.tick();
    layout.tick();
    layout.handle(press(0, 0));
    assert_eq!(layout.key_state(at(0, 0)), KeyState::Pending { layer: 0, elapsed: 2 });
    layout.handle(release(0, 0));
    assert_eq!(keys_after_tick(&mut layout), vec![SPACE]);
    assert_eq!(keys_after_tick(&mut layout), vec![]);
}

#[test]
fn two_switches_may_hold_the_same_layer() {
    let mut layout = row_layout(vec![
        vec![Action::LayerMomentary(1), Action::LayerMomentary(1), Action::KeyCode(A)],
        vec![Action::Transparent, Action::Transparent, Action::KeyCode(B)],
    ]);
    layout.handle(press(0, 0));
    layout.handle(press(0, 1));
    assert_eq!(layout.active_layers(), vec![1, 1]);
    layout.handle(release(0, 0));
    assert_eq!(layout.active_layers(), vec![1]);
    layout.handle(press(0, 2));
    assert_eq!(keys_after_tick(&mut layout), vec![B]);
    layout.handle(release(0, 1));
    assert_eq!(layout.active_layers(), vec![]);
}
