//! The pairing of the layer stack with the switches that are down: every
//! layer on the stack was put there by a switch that still applies it, and
//! every switch that applies a layer has put it there exactly once.

use vstd::prelude::*;
use crate::action::{Action, CustomEvent};
use crate::layout::{
    action_at, activated, aged, deactivated, expired_key, handled, held, initial, interrupted,
    lookup, occupied, pressed, released, ticked, without, KeyState, LayoutState, Momentary,
};
use crate::matrix::{Dims, Event, EventKind};

verus! {

/// The layer that the switch at `cell` applies in `state`.
pub open spec fn holds_layer(
    layers: Seq<Seq<Action>>,
    state: KeyState,
    cell: int,
) -> Option<usize> {
    match state {
        KeyState::Pressed { layer } => action_at(layers, layer as int, cell).layer(),
        KeyState::Hold { layer } => action_at(layers, layer as int, cell).hold().layer(),
        _ => None,
    }
}

/// Whether the switch that put `entry` on the stack still applies its layer.
pub open spec fn backs(layers: Seq<Seq<Action>>, keys: Seq<KeyState>, entry: Momentary) -> bool {
    entry.cell < keys.len() && holds_layer(layers, keys[entry.cell as int], entry.cell as int)
        == Some(entry.layer)
}

/// Whether every entry of the stack is backed by its switch.
pub open spec fn backed(
    layers: Seq<Seq<Action>>,
    keys: Seq<KeyState>,
    stack: Seq<Momentary>,
) -> bool
    decreases stack.len(),
{
    stack.len() == 0 || (backed(layers, keys, stack.drop_last()) && backs(
        layers,
        keys,
        stack.last(),
    ))
}

/// How many entries of the stack the switch at `cell` has put there.
pub open spec fn entries(stack: Seq<Momentary>, cell: int) -> nat
    decreases stack.len(),
{
    if stack.len() == 0 {
        0
    } else if stack.last().cell == cell {
        1 + entries(stack.drop_last(), cell)
    } else {
        entries(stack.drop_last(), cell)
    }
}

/// How many entries the switch at `cell` owes the stack in `state`.
pub open spec fn owed(layers: Seq<Seq<Action>>, state: KeyState, cell: int) -> nat {
    if holds_layer(layers, state, cell) is Some {
        1
    } else {
        0
    }
}

/// Pushes and pops are paired: every entry of the stack is backed by its
/// switch, and every switch has exactly the entries it owes, one where it
/// applies a layer and none where it does not. Cell numbers fit the machine
/// word that the stack records them in.
pub open spec fn paired(layers: Seq<Seq<Action>>, s: LayoutState) -> bool {
    &&& s.keys.len() <= usize::MAX
    &&& backed(layers, s.keys, s.stack)
    &&& forall|cell: int|
        0 <= cell < s.keys.len() ==> #[trigger] entries(s.stack, cell) == owed(
            layers,
            s.keys[cell],
            cell,
        )
}

proof fn lemma_push(
    layers: Seq<Seq<Action>>,
    keys: Seq<KeyState>,
    stack: Seq<Momentary>,
    entry: Momentary,
)
    ensures
        backed(layers, keys, stack.push(entry)) == (backed(layers, keys, stack) && backs(
            layers,
            keys,
            entry,
        )),
        forall|cell: int|
            #[trigger] entries(stack.push(entry), cell) == entries(stack, cell) + if entry.cell
                == cell {
                1nat
            } else {
                0nat
            },
{
    assert(stack.push(entry).drop_last() =~= stack);
    assert(stack.push(entry).last() == entry);
}

proof fn lemma_without(
    layers: Seq<Seq<Action>>,
    keys: Seq<KeyState>,
    stack: Seq<Momentary>,
    gone: int,
)
    ensures
        backed(layers, keys, stack) ==> backed(layers, keys, without(stack, gone)),
        forall|cell: int|
            #[trigger] entries(without(stack, gone), cell) == if cell == gone {
                0
            } else {
                entries(stack, cell)
            },
    decreases stack.len(),
{
    if stack.len() > 0 {
        lemma_without(layers, keys, stack.drop_last(), gone);
        if stack.last().cell != gone {
            lemma_push(layers, keys, without(stack.drop_last(), gone), stack.last());
        }
    }
}

/// The stack stays backed when switches change that hold none of its
/// entries, or change without a change to the layer they apply.
proof fn lemma_backed_by_same_layers(
    layers: Seq<Seq<Action>>,
    keys: Seq<KeyState>,
    changed: Seq<KeyState>,
    stack: Seq<Momentary>,
)
    requires
        keys.len() == changed.len(),
        backed(layers, keys, stack),
        forall|cell: int|
            0 <= cell < keys.len() && entries(stack, cell) > 0 ==> holds_layer(
                layers,
                #[trigger] changed[cell],
                cell,
            ) == holds_layer(layers, keys[cell], cell),
    ensures
        backed(layers, changed, stack),
    decreases stack.len(),
{
    if stack.len() > 0 {
        let below = stack.drop_last();
        assert forall|cell: int| 0 <= cell < keys.len() && entries(below, cell) > 0 implies holds_layer(
            layers,
            #[trigger] changed[cell],
            cell,
        ) == holds_layer(layers, keys[cell], cell) by {
            assert(entries(stack, cell) > 0);
        }
        lemma_backed_by_same_layers(layers, keys, changed, below);
        let top = stack.last();
        assert(entries(stack, top.cell as int) > 0);
        assert(changed[top.cell as int] == changed[top.cell as int]);
    }
}

/// A switch that applies no layer may take on a state and apply the action
/// that goes with it: the stack stays paired.
pub proof fn lemma_applied_keeps_pairing(
    layers: Seq<Seq<Action>>,
    s: LayoutState,
    cell: int,
    state: KeyState,
    action: Action,
    custom: Option<CustomEvent>,
)
    requires
        paired(layers, s),
        0 <= cell < s.keys.len(),
        holds_layer(layers, s.keys[cell], cell) is None,
        holds_layer(layers, state, cell) == action.layer(),
    ensures
        paired(
            layers,
            LayoutState {
                keys: s.keys.update(cell, state),
                stack: activated(s.stack, action, cell),
                custom,
            },
        ),
{
    let keys = s.keys.update(cell, state);
    assert(entries(s.stack, cell) == 0);
    assert forall|other: int| 0 <= other < s.keys.len() && entries(s.stack, other) > 0 implies holds_layer(
        layers,
        #[trigger] keys[other],
        other,
    ) == holds_layer(layers, s.keys[other], other) by {
        assert(other != cell);
    }
    lemma_backed_by_same_layers(layers, s.keys, keys, s.stack);
    match action.layer() {
        Some(layer) => {
            let entry = Momentary { cell: cell as usize, layer };
            lemma_push(layers, keys, s.stack, entry);
            let stack = s.stack.push(entry);
            assert forall|other: int| 0 <= other < keys.len() implies #[trigger] entries(
                stack,
                other,
            ) == owed(layers, keys[other], other) by {
                assert(entries(s.stack, other) == owed(layers, s.keys[other], other));
            }
        },
        None => {
            assert forall|other: int| 0 <= other < keys.len() implies #[trigger] entries(
                s.stack,
                other,
            ) == owed(layers, keys[other], other) by {
                assert(entries(s.stack, other) == owed(layers, s.keys[other], other));
            }
        },
    }
}

/// A switch may take back the action it applies and take on a state in
/// which it applies no layer: the stack stays paired.
pub proof fn lemma_taken_back_keeps_pairing(
    layers: Seq<Seq<Action>>,
    s: LayoutState,
    cell: int,
    state: KeyState,
    action: Action,
    custom: Option<CustomEvent>,
)
    requires
        paired(layers, s),
        0 <= cell < s.keys.len(),
        holds_layer(layers, s.keys[cell], cell) == action.layer(),
        holds_layer(layers, state, cell) is None,
    ensures
        paired(
            layers,
            LayoutState {
                keys: s.keys.update(cell, state),
                stack: deactivated(s.stack, action, cell),
                custom,
            },
        ),
{
    let keys = s.keys.update(cell, state);
    let stack = deactivated(s.stack, action, cell);
    lemma_without(layers, s.keys, s.stack, cell);
    assert(entries(s.stack, cell) == owed(layers, s.keys[cell], cell));
    assert(entries(stack, cell) == 0);
    assert(backed(layers, s.keys, stack));
    assert forall|other: int| 0 <= other < s.keys.len() && entries(stack, other) > 0 implies holds_layer(
        layers,
        #[trigger] keys[other],
        other,
    ) == holds_layer(layers, s.keys[other], other) by {
        assert(other != cell);
    }
    lemma_backed_by_same_layers(layers, s.keys, keys, stack);
    assert forall|other: int| 0 <= other < keys.len() implies #[trigger] entries(stack, other)
        == owed(layers, keys[other], other) by {
        assert(entries(s.stack, other) == owed(layers, s.keys[other], other));
    }
}

/// Resolving a pending key as a hold keeps the stack paired.
pub proof fn lemma_held_keeps_pairing(layers: Seq<Seq<Action>>, s: LayoutState, cell: int)
    requires
        paired(layers, s),
        0 <= cell < s.keys.len(),
    ensures
        paired(layers, held(layers, s, cell)),
        held(layers, s, cell).keys.len() == s.keys.len(),
{
    match s.keys[cell] {
        KeyState::Pending { layer, .. } => {
            lemma_applied_keeps_pairing(
                layers,
                s,
                cell,
                KeyState::Hold { layer },
                action_at(layers, layer as int, cell).hold(),
                s.custom,
            );
        },
        _ => {},
    }
}

proof fn lemma_interrupted_keeps_pairing(layers: Seq<Seq<Action>>, s: LayoutState, by: int, n: nat)
    requires
        paired(layers, s),
        n <= s.keys.len(),
    ensures
        paired(layers, interrupted(layers, s, by, n)),
        interrupted(layers, s, by, n).keys.len() == s.keys.len(),
        0 <= by < s.keys.len() ==> interrupted(layers, s, by, n).keys[by] == s.keys[by],
    decreases n,
{
    if n > 0 {
        lemma_interrupted_keeps_pairing(layers, s, by, (n - 1) as nat);
        lemma_held_keeps_pairing(layers, interrupted(layers, s, by, (n - 1) as nat), n - 1);
    }
}

proof fn lemma_aged_keeps_pairing(layers: Seq<Seq<Action>>, s: LayoutState, n: nat)
    requires
        paired(layers, s),
        n <= s.keys.len(),
    ensures
        paired(layers, aged(layers, s, n)),
        aged(layers, s, n).keys.len() == s.keys.len(),
    decreases n,
{
    if n > 0 {
        lemma_aged_keeps_pairing(layers, s, (n - 1) as nat);
        let before = aged(layers, s, (n - 1) as nat);
        let cell = n - 1;
        lemma_held_keeps_pairing(layers, before, cell);
        match before.keys[cell] {
            KeyState::Pending { layer, elapsed } => {
                lemma_applied_keeps_pairing(
                    layers,
                    before,
                    cell,
                    KeyState::Pending { layer, elapsed: (elapsed + 1) as u16 },
                    Action::NoOp,
                    before.custom,
                );
            },
            _ => {},
        }
    }
}

/// The state in which no switch is down is paired.
pub proof fn lemma_initial_is_paired(layers: Seq<Seq<Action>>, dims: Dims)
    ensures
        paired(layers, initial(dims)),
{
    assert(dims.rows as int * dims.cols as int <= 255 * 255) by (nonlinear_arith)
        requires
            0 <= dims.rows as int <= 255,
            0 <= dims.cols as int <= 255,
    ;
}

/// An event keeps the stack paired: a press pushes at most the layer of its
/// own switch and those of the holds it decides, and a release pops exactly
/// what its switch had pushed.
pub proof fn lemma_handled_keeps_pairing(
    layers: Seq<Seq<Action>>,
    dims: Dims,
    s: LayoutState,
    event: Event,
)
    requires
        paired(layers, s),
        s.keys.len() == dims.cells(),
    ensures
        paired(layers, handled(layers, dims, s, event)),
        handled(layers, dims, s, event).keys.len() == s.keys.len(),
{
    if dims.contains(event.coord) {
        let cell = dims.cell(event.coord);
        dims.lemma_cell_of_coordinate(event.coord);
        match event.kind {
            EventKind::Press => {
                if !occupied(s.keys[cell]) {
                    lemma_interrupted_keeps_pairing(layers, s, cell, s.keys.len());
                    let t = interrupted(layers, s, cell, s.keys.len());
                    let layer = lookup(layers, t.stack, cell);
                    let action = action_at(layers, layer as int, cell);
                    let after = pressed(layers, s, cell);
                    lemma_applied_keeps_pairing(
                        layers,
                        t,
                        cell,
                        after.keys[cell],
                        action,
                        after.custom,
                    );
                    assert(after.keys =~= t.keys.update(cell, after.keys[cell]));
                }
            },
            EventKind::Release => {
                let after = released(layers, s, cell);
                match s.keys[cell] {
                    KeyState::Pressed { layer } => {
                        lemma_taken_back_keeps_pairing(
                            layers,
                            s,
                            cell,
                            KeyState::Idle,
                            action_at(layers, layer as int, cell),
                            after.custom,
                        );
                    },
                    KeyState::Pending { layer, elapsed } => {
                        lemma_applied_keeps_pairing(
                            layers,
                            s,
                            cell,
                            after.keys[cell],
                            Action::NoOp,
                            after.custom,
                        );
                        assert(after.keys =~= s.keys.update(cell, after.keys[cell]));
                    },
                    KeyState::Hold { layer } => {
                        lemma_taken_back_keeps_pairing(
                            layers,
                            s,
                            cell,
                            KeyState::Idle,
                            action_at(layers, layer as int, cell).hold(),
                            after.custom,
                        );
                    },
                    _ => {},
                }
            },
        }
    }
}

/// A tick keeps the stack paired: a hold that it decides pushes its layer
/// once, and the end of a tap changes no layer.
pub proof fn lemma_ticked_keeps_pairing(layers: Seq<Seq<Action>>, s: LayoutState)
    requires
        paired(layers, s),
    ensures
        paired(layers, ticked(layers, s)),
        ticked(layers, s).keys.len() == s.keys.len(),
{
    lemma_aged_keeps_pairing(layers, s, s.keys.len());
    let a = aged(layers, s, s.keys.len());
    let after = ticked(layers, s);
    assert forall|cell: int| 0 <= cell < a.keys.len() implies holds_layer(
        layers,
        #[trigger] after.keys[cell],
        cell,
    ) == holds_layer(layers, a.keys[cell], cell) by {
        assert(after.keys[cell] == expired_key(a.keys[cell]));
    }
    lemma_backed_by_same_layers(layers, a.keys, after.keys, a.stack);
    assert forall|cell: int| 0 <= cell < after.keys.len() implies #[trigger] entries(
        after.stack,
        cell,
    ) == owed(layers, after.keys[cell], cell) by {
        assert(entries(a.stack, cell) == owed(layers, a.keys[cell], cell));
        assert(after.keys[cell] == expired_key(a.keys[cell]));
    }
}

} // verus!
