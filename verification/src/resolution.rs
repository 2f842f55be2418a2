//! How a tap/hold key is decided, stated over whole runs of the layout
//! engine: sequences of ticks and events applied to a state.

use vstd::prelude::*;
use crate::action::Action;
use crate::layout::{
    action_at, active_keys, aged, expired_key, handled, interrupted, interrupts, key_codes_at,
    occupied, reported, ticked, without, KeyState, LayoutState, Momentary,
};
use crate::matrix::{Coordinate, Dims, Event, EventKind};
use crate::pairing::{
    entries, lemma_handled_keeps_pairing, lemma_ticked_keeps_pairing, owed, paired,
};

verus! {

/// One input to the layout engine.
pub ghost enum Input {
    /// The end of a period.
    Tick,
    /// A confirmed event.
    Event(Event),
}

/// The state after one input.
pub open spec fn step(
    layers: Seq<Seq<Action>>,
    dims: Dims,
    s: LayoutState,
    input: Input,
) -> LayoutState {
    match input {
        Input::Tick => ticked(layers, s),
        Input::Event(event) => handled(layers, dims, s, event),
    }
}

/// The state after a sequence of inputs, in their order.
pub open spec fn run(
    layers: Seq<Seq<Action>>,
    dims: Dims,
    s: LayoutState,
    inputs: Seq<Input>,
) -> LayoutState
    decreases inputs.len(),
{
    if inputs.len() == 0 {
        s
    } else {
        step(layers, dims, run(layers, dims, s, inputs.drop_last()), inputs.last())
    }
}

/// How many of the inputs are ticks.
pub open spec fn ticks(inputs: Seq<Input>) -> nat
    decreases inputs.len(),
{
    if inputs.len() == 0 {
        0
    } else if inputs.last() is Tick {
        1 + ticks(inputs.drop_last())
    } else {
        ticks(inputs.drop_last())
    }
}

/// The state of one key after a tick has passed for it.
pub open spec fn aged_state(layers: Seq<Seq<Action>>, state: KeyState, cell: int) -> KeyState {
    match state {
        KeyState::Pending { layer, elapsed } => if elapsed + 1 >= action_at(
            layers,
            layer as int,
            cell,
        ).timeout() {
            KeyState::Hold { layer }
        } else {
            KeyState::Pending { layer, elapsed: (elapsed + 1) as u16 }
        },
        _ => state,
    }
}

/// Whether `input` leaves the decision on the key at `at`, bound to
/// `action`, to the timeout: it is a tick, or an event of another switch
/// that is a release or to which the key does not yield.
pub open spec fn spares(action: Action, at: Coordinate, input: Input) -> bool {
    match input {
        Input::Tick => true,
        Input::Event(event) => event.coord != at && (event.kind is Release
            || !action.interruptible()),
    }
}

/// A press elsewhere changes the key at `cell` only by resolving it as a
/// hold, and only where the key yields to it.
pub proof fn lemma_interrupted_at(
    layers: Seq<Seq<Action>>,
    s: LayoutState,
    by: int,
    n: nat,
    cell: int,
)
    requires
        n <= s.keys.len(),
        0 <= cell < s.keys.len(),
    ensures
        interrupted(layers, s, by, n).keys.len() == s.keys.len(),
        interrupted(layers, s, by, n).custom == s.custom,
        interrupted(layers, s, by, n).keys[cell] == if cell < n && cell != by && interrupts(
            layers,
            s.keys[cell],
            cell,
        ) {
            KeyState::Hold { layer: s.keys[cell]->Pending_layer }
        } else {
            s.keys[cell]
        },
    decreases n,
{
    if n > 0 {
        lemma_interrupted_at(layers, s, by, (n - 1) as nat, cell);
        lemma_interrupted_at(layers, s, by, (n - 1) as nat, n - 1);
    }
}

/// A tick ages each key by itself.
pub proof fn lemma_aged_at(layers: Seq<Seq<Action>>, s: LayoutState, n: nat, cell: int)
    requires
        n <= s.keys.len(),
        0 <= cell < s.keys.len(),
    ensures
        aged(layers, s, n).keys.len() == s.keys.len(),
        aged(layers, s, n).keys[cell] == if cell < n {
            aged_state(layers, s.keys[cell], cell)
        } else {
            s.keys[cell]
        },
    decreases n,
{
    if n > 0 {
        lemma_aged_at(layers, s, (n - 1) as nat, cell);
        lemma_aged_at(layers, s, (n - 1) as nat, n - 1);
    }
}

/// What one input does to the key at `cell`, seen apart from the others.
pub proof fn lemma_step_at(
    layers: Seq<Seq<Action>>,
    dims: Dims,
    s: LayoutState,
    input: Input,
    at: Coordinate,
)
    requires
        s.keys.len() == dims.cells(),
        dims.contains(at),
    ensures
        step(layers, dims, s, input).keys.len() == s.keys.len(),
        input is Tick ==> step(layers, dims, s, input).keys[dims.cell(at)] == expired_key(
            aged_state(layers, s.keys[dims.cell(at)], dims.cell(at)),
        ),
        input is Event && input->Event_0.coord != at ==> step(layers, dims, s, input).keys[dims.cell(
            at,
        )] == if input->Event_0.kind is Press && dims.contains(input->Event_0.coord) && !occupied(
            s.keys[dims.cell(input->Event_0.coord)],
        ) && interrupts(layers, s.keys[dims.cell(at)], dims.cell(at)) {
            KeyState::Hold { layer: s.keys[dims.cell(at)]->Pending_layer }
        } else {
            s.keys[dims.cell(at)]
        },
{
    let cell = dims.cell(at);
    dims.lemma_cell_of_coordinate(at);
    match input {
        Input::Tick => {
            lemma_aged_at(layers, s, s.keys.len(), cell);
        },
        Input::Event(event) => {
            if dims.contains(event.coord) {
                let other = dims.cell(event.coord);
                dims.lemma_cell_of_coordinate(event.coord);
                lemma_interrupted_at(layers, s, other, s.keys.len(), cell);
                lemma_interrupted_at(layers, s, other, s.keys.len(), other);
            }
        },
    }
}

/// Whether the state of the switch at `cell` fits its binding: only a
/// tap/hold key is ever pending, a hold or a tap, a pending key has not
/// reached its timeout, and a tap has at least one tick and at most its
/// interval left.
pub open spec fn coherent_key(layers: Seq<Seq<Action>>, state: KeyState, cell: int) -> bool {
    match state {
        KeyState::Idle => true,
        KeyState::Pressed { layer } => !(action_at(layers, layer as int, cell) is HoldTap),
        KeyState::Pending { layer, elapsed } => {
            let action = action_at(layers, layer as int, cell);
            action is HoldTap && (elapsed == 0 || elapsed < action.timeout())
        },
        KeyState::Hold { layer } => action_at(layers, layer as int, cell) is HoldTap,
        KeyState::Tap { layer, left } => {
            let action = action_at(layers, layer as int, cell);
            action is HoldTap && 1 <= left <= action.tap_ticks()
        },
    }
}

/// Whether the state of every switch fits its binding.
pub open spec fn coherent(layers: Seq<Seq<Action>>, keys: Seq<KeyState>) -> bool {
    forall|cell: int| 0 <= cell < keys.len() ==> coherent_key(layers, #[trigger] keys[cell], cell)
}

/// An event leaves the state of every switch fitting its binding.
pub proof fn lemma_handled_keeps_coherence(
    layers: Seq<Seq<Action>>,
    dims: Dims,
    s: LayoutState,
    event: Event,
)
    requires
        s.keys.len() == dims.cells(),
        coherent(layers, s.keys),
    ensures
        coherent(layers, handled(layers, dims, s, event).keys),
{
    if dims.contains(event.coord) {
        let by = dims.cell(event.coord);
        dims.lemma_cell_of_coordinate(event.coord);
        let after = handled(layers, dims, s, event);
        lemma_interrupted_at(layers, s, by, s.keys.len(), by);
        assert(after.keys.len() == s.keys.len());
        assert forall|cell: int| 0 <= cell < after.keys.len() implies coherent_key(
            layers,
            #[trigger] after.keys[cell],
            cell,
        ) by {
            lemma_interrupted_at(layers, s, by, s.keys.len(), cell);
            assert(coherent_key(layers, s.keys[cell], cell));
        }
    }
}

/// A tick leaves the state of every switch fitting its binding.
pub proof fn lemma_ticked_keeps_coherence(layers: Seq<Seq<Action>>, s: LayoutState)
    requires
        coherent(layers, s.keys),
    ensures
        coherent(layers, ticked(layers, s).keys),
{
    let after = ticked(layers, s);
    if s.keys.len() > 0 {
        lemma_aged_at(layers, s, s.keys.len(), 0);
    }
    assert(after.keys.len() == s.keys.len());
    assert forall|cell: int| 0 <= cell < after.keys.len() implies coherent_key(
        layers,
        #[trigger] after.keys[cell],
        cell,
    ) by {
        lemma_aged_at(layers, s, s.keys.len(), cell);
        assert(coherent_key(layers, s.keys[cell], cell));
    }
}

/// While the inputs leave the decision to the timeout, a pending key counts
/// the ticks: it stays pending as long as fewer ticks than its timeout have
/// passed since its press, it is a hold from the tick that completes the
/// timeout on, and it stays a hold whatever else happens on other switches.
/// At no point is it a tap.
pub proof fn lemma_timeout_decides(
    layers: Seq<Seq<Action>>,
    dims: Dims,
    s: LayoutState,
    at: Coordinate,
    inputs: Seq<Input>,
)
    requires
        s.keys.len() == dims.cells(),
        dims.contains(at),
        s.keys[dims.cell(at)] is Pending,
        forall|i: int|
            0 <= i < inputs.len() ==> spares(
                action_at(layers, s.keys[dims.cell(at)]->Pending_layer as int, dims.cell(at)),
                at,
                #[trigger] inputs[i],
            ),
    ensures
        run(layers, dims, s, inputs).keys.len() == s.keys.len(),
        ({
            let cell = dims.cell(at);
            let layer = s.keys[cell]->Pending_layer;
            let elapsed = s.keys[cell]->Pending_elapsed;
            let timeout = action_at(layers, layer as int, cell).timeout();
            run(layers, dims, s, inputs).keys[cell] == if ticks(inputs) == 0 || elapsed + ticks(
                inputs,
            ) < timeout {
                KeyState::Pending { layer, elapsed: (elapsed + ticks(inputs)) as u16 }
            } else {
                KeyState::Hold { layer }
            }
        }),
    decreases inputs.len(),
{
    if inputs.len() > 0 {
        let before = inputs.drop_last();
        assert forall|i: int| 0 <= i < before.len() implies spares(
            action_at(layers, s.keys[dims.cell(at)]->Pending_layer as int, dims.cell(at)),
            at,
            #[trigger] before[i],
        ) by {
            assert(before[i] == inputs[i]);
        }
        lemma_timeout_decides(layers, dims, s, at, before);
        assert(spares(
            action_at(layers, s.keys[dims.cell(at)]->Pending_layer as int, dims.cell(at)),
            at,
            inputs[inputs.len() - 1],
        ));
        lemma_step_at(layers, dims, run(layers, dims, s, before), inputs.last(), at);
    }
}

/// Every run keeps the layer stack paired with the switches that are down.
pub proof fn lemma_run_keeps_pairing(
    layers: Seq<Seq<Action>>,
    dims: Dims,
    s: LayoutState,
    inputs: Seq<Input>,
)
    requires
        s.keys.len() == dims.cells(),
        paired(layers, s),
    ensures
        run(layers, dims, s, inputs).keys.len() == s.keys.len(),
        paired(layers, run(layers, dims, s, inputs)),
    decreases inputs.len(),
{
    if inputs.len() > 0 {
        lemma_run_keeps_pairing(layers, dims, s, inputs.drop_last());
        let before = run(layers, dims, s, inputs.drop_last());
        match inputs.last() {
            Input::Tick => lemma_ticked_keeps_pairing(layers, before),
            Input::Event(event) => lemma_handled_keeps_pairing(layers, dims, before, event),
        }
    }
}

/// A hold is applied once: while the inputs leave the decision to the
/// timeout, the key has nothing on the layer stack as long as it is pending,
/// and once it is a hold it has there the one layer that its hold action
/// activates, or nothing where that action activates none. What the key
/// contributes to the active keys is nothing while it is pending and the
/// key codes of its hold action afterwards, never those of its tap action.
pub proof fn lemma_hold_is_applied_once(
    layers: Seq<Seq<Action>>,
    dims: Dims,
    s: LayoutState,
    at: Coordinate,
    inputs: Seq<Input>,
)
    requires
        s.keys.len() == dims.cells(),
        paired(layers, s),
        dims.contains(at),
        s.keys[dims.cell(at)] is Pending,
        forall|i: int|
            0 <= i < inputs.len() ==> spares(
                action_at(layers, s.keys[dims.cell(at)]->Pending_layer as int, dims.cell(at)),
                at,
                #[trigger] inputs[i],
            ),
    ensures
        ({
            let cell = dims.cell(at);
            let action = action_at(layers, s.keys[cell]->Pending_layer as int, cell);
            let after = run(layers, dims, s, inputs);
            &&& after.keys[cell] is Pending || after.keys[cell] is Hold
            &&& after.keys[cell] is Pending ==> entries(after.stack, cell) == 0 && key_codes_at(
                layers,
                after.keys[cell],
                cell,
            ) == Seq::<u8>::empty()
            &&& after.keys[cell] is Hold ==> entries(after.stack, cell) == (if action.hold().layer() is Some {
                1nat
            } else {
                0nat
            }) && key_codes_at(layers, after.keys[cell], cell) == action.hold().key_codes()
        }),
{
    let cell = dims.cell(at);
    dims.lemma_cell_of_coordinate(at);
    lemma_timeout_decides(layers, dims, s, at, inputs);
    lemma_run_keeps_pairing(layers, dims, s, inputs);
    let after = run(layers, dims, s, inputs);
    assert(entries(after.stack, cell) == owed(layers, after.keys[cell], cell));
}

/// A press of another switch that is up resolves a pending key that yields
/// to it as a hold at once, however few ticks have passed, and the layer
/// that the hold activates is on top of the stack when the press is looked
/// up.
pub proof fn lemma_other_press_holds(
    layers: Seq<Seq<Action>>,
    dims: Dims,
    s: LayoutState,
    at: Coordinate,
    other: Coordinate,
)
    requires
        s.keys.len() == dims.cells(),
        dims.contains(at),
        dims.contains(other),
        other != at,
        s.keys[dims.cell(at)] is Pending,
        action_at(
            layers,
            s.keys[dims.cell(at)]->Pending_layer as int,
            dims.cell(at),
        ).interruptible(),
        !occupied(s.keys[dims.cell(other)]),
    ensures
        handled(layers, dims, s, Event { coord: other, kind: EventKind::Press }).keys[dims.cell(at)]
            == (KeyState::Hold { layer: s.keys[dims.cell(at)]->Pending_layer }),
{
    lemma_step_at(
        layers,
        dims,
        s,
        Input::Event(Event { coord: other, kind: EventKind::Press }),
        at,
    );
}

/// The keys that are active when only the switch at `cell` contributes any.
proof fn lemma_active_keys_of_one(layers: Seq<Seq<Action>>, keys: Seq<KeyState>, n: nat, cell: int)
    requires
        n <= keys.len(),
        0 <= cell < keys.len(),
        forall|other: int|
            0 <= other < keys.len() && other != cell ==> key_codes_at(
                layers,
                #[trigger] keys[other],
                other,
            ) == Seq::<u8>::empty(),
    ensures
        active_keys(layers, keys, n) == if cell < n {
            key_codes_at(layers, keys[cell], cell)
        } else {
            Seq::<u8>::empty()
        },
    decreases n,
{
    if n > 0 {
        lemma_active_keys_of_one(layers, keys, (n - 1) as nat, cell);
        let before = active_keys(layers, keys, (n - 1) as nat);
        let last = key_codes_at(layers, keys[n - 1], n - 1);
        if n - 1 == cell {
            assert(Seq::<u8>::empty() + last =~= last);
        } else {
            assert(keys[n - 1] == keys[n - 1]);
            assert(before + Seq::<u8>::empty() =~= before);
        }
    }
}

/// A tap/hold key released before its timeout is a tap: the release applies
/// no hold, leaves the layer stack as it is, and the tick that follows
/// reports the key codes of the tap action for that switch. Where no other
/// switch is down, they are all that the tick reports.
pub proof fn lemma_early_release_taps(
    layers: Seq<Seq<Action>>,
    dims: Dims,
    s: LayoutState,
    at: Coordinate,
)
    requires
        s.keys.len() == dims.cells(),
        dims.contains(at),
        s.keys[dims.cell(at)] is Pending,
        s.keys[dims.cell(at)]->Pending_elapsed < action_at(
            layers,
            s.keys[dims.cell(at)]->Pending_layer as int,
            dims.cell(at),
        ).timeout(),
    ensures
        ({
            let cell = dims.cell(at);
            let layer = s.keys[cell]->Pending_layer;
            let action = action_at(layers, layer as int, cell);
            let after = handled(layers, dims, s, Event { coord: at, kind: EventKind::Release });
            let then = aged(layers, after, after.keys.len());
            &&& after.keys[cell] == (KeyState::Tap { layer, left: action.tap_ticks() })
            &&& after.stack == s.stack
            &&& then.keys[cell] == after.keys[cell]
            &&& key_codes_at(layers, then.keys[cell], cell) == action.tap().key_codes()
            &&& (forall|other: int|
                0 <= other < s.keys.len() && other != cell ==> #[trigger] s.keys[other] is Idle)
                ==> reported(layers, after) == action.tap().key_codes()
        }),
{
    let cell = dims.cell(at);
    dims.lemma_cell_of_coordinate(at);
    let after = handled(layers, dims, s, Event { coord: at, kind: EventKind::Release });
    let then = aged(layers, after, after.keys.len());
    lemma_aged_at(layers, after, after.keys.len(), cell);
    if forall|other: int|
        0 <= other < s.keys.len() && other != cell ==> #[trigger] s.keys[other] is Idle {
        assert forall|other: int| 0 <= other < then.keys.len() && other != cell implies key_codes_at(
            layers,
            #[trigger] then.keys[other],
            other,
        ) == Seq::<u8>::empty() by {
            lemma_aged_at(layers, after, after.keys.len(), other);
            assert(s.keys[other] is Idle);
        }
        lemma_active_keys_of_one(layers, then.keys, then.keys.len(), cell);
    }
}

/// A hold lasts until the release of its switch, which takes back what the
/// hold applied: the switch is idle again, and the layer that the hold
/// activated is off the stack.
pub proof fn lemma_release_ends_hold(
    layers: Seq<Seq<Action>>,
    dims: Dims,
    s: LayoutState,
    at: Coordinate,
)
    requires
        s.keys.len() == dims.cells(),
        dims.contains(at),
        s.keys[dims.cell(at)] is Hold,
    ensures
        ({
            let cell = dims.cell(at);
            let after = handled(layers, dims, s, Event { coord: at, kind: EventKind::Release });
            &&& after.keys[cell] is Idle
            &&& forall|i: int| 0 <= i < after.stack.len() ==> (#[trigger] after.stack[i]).cell != cell
                || action_at(layers, s.keys[cell]->Hold_layer as int, cell).hold().layer() is None
        }),
{
    let cell = dims.cell(at);
    dims.lemma_cell_of_coordinate(at);
    lemma_without_has_none(s.stack, cell);
}

/// Once the layers of `cell` are taken off, the stack holds none of them.
pub proof fn lemma_without_has_none(stack: Seq<Momentary>, cell: int)
    ensures
        forall|i: int|
            0 <= i < without(stack, cell).len() ==> (#[trigger] without(stack, cell)[i]).cell
                != cell,
    decreases stack.len(),
{
    if stack.len() > 0 {
        lemma_without_has_none(stack.drop_last(), cell);
        let below = without(stack.drop_last(), cell);
        assert forall|i: int| 0 <= i < without(stack, cell).len() implies (#[trigger] without(
            stack,
            cell,
        )[i]).cell != cell by {
            if i < below.len() {
                assert(without(stack, cell)[i] == below[i]);
            }
        }
    }
}

} // verus!
