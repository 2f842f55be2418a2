//! What a switch can be bound to.

use vstd::prelude::*;

verus! {

/// Whether a press elsewhere decides a pending tap/hold key.
#[derive(Clone, Copy, Debug, PartialEq, Eq, Structural)]
pub enum InterruptPolicy {
    /// Only the timeout or the key's own release decides.
    Default,
    /// A press of any other switch decides for the hold at once.
    HoldOnOtherKeyPress,
}

/// An edge of a key bound to `Action::Custom`, handed to the host.
#[derive(Clone, Copy, Debug, PartialEq, Eq, Structural)]
pub enum CustomEvent {
    Press(u32),
    Release(u32),
}

/// The binding of one switch on one layer. Key codes are HID usage codes.
#[derive(Debug, PartialEq, Eq)]
pub enum Action {
    /// Does nothing.
    NoOp,
    /// Defers to the next active layer below.
    Transparent,
    /// A single key.
    KeyCode(u8),
    /// A modifier key.
    Modifier(u8),
    /// Several keys pressed and released together.
    Macro(Vec<u8>),
    /// Activates a layer for as long as the switch is held.
    LayerMomentary(usize),
    /// Acts as `tap_action` when released before `timeout_ms` ticks have
    /// passed, and as `hold_action` otherwise. The tap is reported for
    /// `tap_hold_interval_ms` ticks, and for one tick where that is zero.
    /// A hold applies the key codes or the layer of its action; a tap
    /// reports the key codes of its action and nothing else. An action that
    /// has neither (a nested tap/hold key, a custom key) does nothing there.
    HoldTap {
        timeout_ms: u16,
        interrupt_policy: InterruptPolicy,
        hold_action: Box<Action>,
        tap_action: Box<Action>,
        tap_hold_interval_ms: u16,
    },
    /// An opaque payload whose press and release are reported to the host.
    Custom(u32),
}

/// Whether two actions are the same binding: the same variant with the same
/// values, key codes and nested actions.
pub open spec fn alike(first: Action, second: Action) -> bool
    decreases first,
{
    match (first, second) {
        (Action::NoOp, Action::NoOp) => true,
        (Action::Transparent, Action::Transparent) => true,
        (Action::KeyCode(a), Action::KeyCode(b)) => a == b,
        (Action::Modifier(a), Action::Modifier(b)) => a == b,
        (Action::Macro(a), Action::Macro(b)) => a@ == b@,
        (Action::LayerMomentary(a), Action::LayerMomentary(b)) => a == b,
        (
            Action::HoldTap {
                timeout_ms: timeout_a,
                interrupt_policy: policy_a,
                hold_action: hold_a,
                tap_action: tap_a,
                tap_hold_interval_ms: interval_a,
            },
            Action::HoldTap {
                timeout_ms: timeout_b,
                interrupt_policy: policy_b,
                hold_action: hold_b,
                tap_action: tap_b,
                tap_hold_interval_ms: interval_b,
            },
        ) => {
            &&& timeout_a == timeout_b
            &&& policy_a == policy_b
            &&& interval_a == interval_b
            &&& alike(*hold_a, *hold_b)
            &&& alike(*tap_a, *tap_b)
        },
        (Action::Custom(a), Action::Custom(b)) => a == b,
        _ => false,
    }
}

impl Clone for Action {
    /// A copy that is the same binding as the action it was made from.
    fn clone(&self) -> (copy: Action)
        ensures
            alike(*self, copy),
        decreases self,
    {
        match self {
            Action::NoOp => Action::NoOp,
            Action::Transparent => Action::Transparent,
            Action::KeyCode(code) => Action::KeyCode(*code),
            Action::Modifier(code) => Action::Modifier(*code),
            Action::Macro(codes) => {
                let copied = codes.clone();
                assert(copied@ =~= codes@);
                Action::Macro(copied)
            },
            Action::LayerMomentary(layer) => Action::LayerMomentary(*layer),
            Action::HoldTap {
                timeout_ms,
                interrupt_policy,
                hold_action,
                tap_action,
                tap_hold_interval_ms,
            } => Action::HoldTap {
                timeout_ms: *timeout_ms,
                interrupt_policy: *interrupt_policy,
                hold_action: Box::new((**hold_action).clone()),
                tap_action: Box::new((**tap_action).clone()),
                tap_hold_interval_ms: *tap_hold_interval_ms,
            },
            Action::Custom(payload) => Action::Custom(*payload),
        }
    }
}

impl Action {
    /// The key codes that the action contributes to the active keys while it
    /// is applied.
    pub open spec fn key_codes(self) -> Seq<u8> {
        match self {
            Action::KeyCode(code) => seq![code],
            Action::Modifier(code) => seq![code],
            Action::Macro(codes) => codes@,
            _ => Seq::empty(),
        }
    }

    /// The layer that the action activates while it is applied.
    pub open spec fn layer(self) -> Option<usize> {
        match self {
            Action::LayerMomentary(layer) => Some(layer),
            _ => None,
        }
    }

    /// The payload whose edges the action reports to the host.
    pub open spec fn payload(self) -> Option<u32> {
        match self {
            Action::Custom(payload) => Some(payload),
            _ => None,
        }
    }

    /// What a tap/hold key applies once it is resolved as a hold.
    pub open spec fn hold(self) -> Action {
        match self {
            Action::HoldTap { hold_action, .. } => *hold_action,
            _ => Action::NoOp,
        }
    }

    /// What a tap/hold key applies once it is resolved as a tap.
    pub open spec fn tap(self) -> Action {
        match self {
            Action::HoldTap { tap_action, .. } => *tap_action,
            _ => Action::NoOp,
        }
    }

    /// The number of ticks after which a pending tap/hold key becomes a hold.
    pub open spec fn timeout(self) -> u16 {
        match self {
            Action::HoldTap { timeout_ms, .. } => timeout_ms,
            _ => 0,
        }
    }

    /// For how many ticks a tap is reported.
    pub open spec fn tap_ticks(self) -> u16 {
        match self {
            Action::HoldTap { tap_hold_interval_ms, .. } => if tap_hold_interval_ms == 0 {
                1
            } else {
                tap_hold_interval_ms
            },
            _ => 1,
        }
    }

    /// Whether a press elsewhere resolves the pending key as a hold.
    pub open spec fn interruptible(self) -> bool {
        match self {
            Action::HoldTap { interrupt_policy, .. } => interrupt_policy
                == InterruptPolicy::HoldOnOtherKeyPress,
            _ => false,
        }
    }

    /// Whether the action defers to the layer below.
    pub fn is_transparent(&self) -> (transparent: bool)
        ensures
            transparent == (*self is Transparent),
    {
        match self {
            Action::Transparent => true,
            _ => false,
        }
    }

    /// Whether the action is a tap/hold key.
    pub fn is_hold_tap(&self) -> (hold_tap: bool)
        ensures
            hold_tap == (*self is HoldTap),
    {
        match self {
            Action::HoldTap { .. } => true,
            _ => false,
        }
    }

    /// The layer that the action activates while it is applied.
    pub fn momentary_layer(&self) -> (layer: Option<usize>)
        ensures
            layer == self.layer(),
    {
        match self {
            Action::LayerMomentary(layer) => Some(*layer),
            _ => None,
        }
    }

    /// The payload whose edges the action reports to the host.
    pub fn custom_payload(&self) -> (payload: Option<u32>)
        ensures
            payload == self.payload(),
    {
        match self {
            Action::Custom(payload) => Some(*payload),
            _ => None,
        }
    }

    /// The layer that the action activates once it is resolved as a hold.
    pub fn hold_layer(&self) -> (layer: Option<usize>)
        ensures
            layer == self.hold().layer(),
    {
        match self {
            Action::HoldTap { hold_action, .. } => hold_action.momentary_layer(),
            _ => None,
        }
    }

    /// The number of ticks after which a pending tap/hold key becomes a hold.
    pub fn hold_timeout(&self) -> (ticks: u16)
        ensures
            ticks == self.timeout(),
    {
        match self {
            Action::HoldTap { timeout_ms, .. } => *timeout_ms,
            _ => 0,
        }
    }

    /// For how many ticks a tap is reported.
    pub fn tap_duration(&self) -> (ticks: u16)
        ensures
            ticks == self.tap_ticks(),
    {
        match self {
            Action::HoldTap { tap_hold_interval_ms, .. } => if *tap_hold_interval_ms == 0 {
                1
            } else {
                *tap_hold_interval_ms
            },
            _ => 1,
        }
    }

    /// Whether a press elsewhere resolves the pending key as a hold.
    pub fn holds_on_other_press(&self) -> (holds: bool)
        ensures
            holds == self.interruptible(),
    {
        match self {
            Action::HoldTap { interrupt_policy, .. } => match interrupt_policy {
                InterruptPolicy::HoldOnOtherKeyPress => true,
                InterruptPolicy::Default => false,
            },
            _ => false,
        }
    }

    /// Appends to `keys` the key codes that the action contributes once it
    /// is resolved as a hold.
    pub fn push_hold_key_codes(&self, keys: &mut Vec<u8>)
        ensures
            final(keys)@ == old(keys)@ + self.hold().key_codes(),
    {
        match self {
            Action::HoldTap { hold_action, .. } => hold_action.push_key_codes(keys),
            _ => {
                assert(keys@ =~= old(keys)@ + Seq::<u8>::empty());
            },
        }
    }

    /// Appends to `keys` the key codes that the action contributes once it
    /// is resolved as a tap.
    pub fn push_tap_key_codes(&self, keys: &mut Vec<u8>)
        ensures
            final(keys)@ == old(keys)@ + self.tap().key_codes(),
    {
        match self {
            Action::HoldTap { tap_action, .. } => tap_action.push_key_codes(keys),
            _ => {
                assert(keys@ =~= old(keys)@ + Seq::<u8>::empty());
            },
        }
    }

    /// Appends the key codes of the action to `keys`.
    pub fn push_key_codes(&self, keys: &mut Vec<u8>)
        ensures
            final(keys)@ == old(keys)@ + self.key_codes(),
    {
        match self {
            Action::KeyCode(code) => {
                keys.push(*code);
                assert(keys@ =~= old(keys)@ + seq![*code]);
            },
            Action::Modifier(code) => {
                keys.push(*code);
                assert(keys@ =~= old(keys)@ + seq![*code]);
            },
            Action::Macro(codes) => {
                let mut i: usize = 0;
                while i < codes.len()
                    invariant
                        i <= codes@.len(),
                        keys@ == old(keys)@ + codes@.take(i as int),
                    decreases codes@.len() - i,
                {
                    keys.push(codes[i]);
                    assert(codes@.take(i + 1) =~= codes@.take(i as int).push(codes@[i as int]));
                    i += 1;
                    assert(keys@ =~= old(keys)@ + codes@.take(i as int));
                }
                assert(codes@.take(i as int) =~= codes@);
            },
            _ => {
                assert(keys@ =~= old(keys)@ + Seq::<u8>::empty());
            },
        }
    }
}

} // verus!
