//! The layout engine: a table of layers, a stack of active layers and one
//! state per switch turn confirmed events and the passing of ticks into the
//! set of active key codes.
//!
//! Each switch goes through `Idle -> Pressed -> Idle`, or, where it is bound
//! to a tap/hold key, through `Idle -> Pending -> {Tap | Hold} -> Idle`.
//! Time is counted per pending key in ticks since its press, so no tick
//! counter can wrap around.
//!
//! Within a period the events are applied first and the tick follows them,
//! so a key that is released in the period in which its timeout would have
//! run out is still a tap. A press elsewhere decides only keys that are
//! pending: a tap that is being reported runs its interval to the end
//! whatever else is pressed, and the interval of one key never delays the
//! decision on another.

use vstd::prelude::*;
use crate::action::{Action, CustomEvent};
use crate::matrix::{Coordinate, Dims, Event, EventKind};
use crate::pairing::{
    lemma_handled_keeps_pairing, lemma_initial_is_paired, lemma_ticked_keeps_pairing, paired,
};
use crate::resolution::{coherent, lemma_handled_keeps_coherence, lemma_ticked_keeps_coherence};

verus! {

/// The state of one switch. `layer` is the layer whose binding the press
/// resolved to.
#[derive(Clone, Copy, Debug, PartialEq, Eq, Structural)]
pub enum KeyState {
    /// Not pressed.
    Idle,
    /// Pressed, with a binding other than a tap/hold key applied.
    Pressed { layer: usize },
    /// A tap/hold key that has been down for `elapsed` ticks, undecided.
    Pending { layer: usize, elapsed: u16 },
    /// A tap/hold key resolved as a hold and still down.
    Hold { layer: usize },
    /// A tap/hold key resolved as a tap, reported for `left` more ticks.
    Tap { layer: usize, left: u16 },
}

/// A layer activated by the switch with cell number `cell`.
#[derive(Clone, Copy, Debug, PartialEq, Eq, Structural)]
pub struct Momentary {
    pub cell: usize,
    pub layer: usize,
}

/// The state of the engine: one state per switch, the momentary layers in
/// the order of their activation (layer 0 lies below them all), and the last
/// custom edge that no tick has reported yet.
pub ghost struct LayoutState {
    pub keys: Seq<KeyState>,
    pub stack: Seq<Momentary>,
    pub custom: Option<CustomEvent>,
}

/// The binding of `cell` on `layer`. A layer or a cell that the table lacks
/// is transparent.
pub open spec fn action_at(layers: Seq<Seq<Action>>, layer: int, cell: int) -> Action {
    if 0 <= layer < layers.len() && 0 <= cell < layers[layer].len() {
        layers[layer][cell]
    } else {
        Action::Transparent
    }
}

/// The layer that a press of `cell` resolves to: the topmost active layer
/// whose binding is not transparent, and layer 0 where there is none.
pub open spec fn lookup(layers: Seq<Seq<Action>>, stack: Seq<Momentary>, cell: int) -> usize
    decreases stack.len(),
{
    if stack.len() == 0 {
        0
    } else if !(action_at(layers, stack.last().layer as int, cell) is Transparent) {
        stack.last().layer
    } else {
        lookup(layers, stack.drop_last(), cell)
    }
}

/// The action that a press of `cell` resolves to. A cell that is transparent
/// on every active layer does nothing.
pub open spec fn resolved(layers: Seq<Seq<Action>>, stack: Seq<Momentary>, cell: int) -> Action {
    let found = action_at(layers, lookup(layers, stack, cell) as int, cell);
    if found is Transparent {
        Action::NoOp
    } else {
        found
    }
}

/// A transparent binding defers to the layers below: where the topmost
/// active layer is transparent at `cell`, a press resolves to what the stack
/// without that layer gives.
pub proof fn lemma_transparent_defers(layers: Seq<Seq<Action>>, stack: Seq<Momentary>, cell: int)
    requires
        stack.len() > 0,
        action_at(layers, stack.last().layer as int, cell) is Transparent,
    ensures
        lookup(layers, stack, cell) == lookup(layers, stack.drop_last(), cell),
        resolved(layers, stack, cell) == resolved(layers, stack.drop_last(), cell),
{
}

/// A press resolves to the topmost active layer that is not transparent at
/// `cell`: the layers above it, all transparent there, are passed over.
pub proof fn lemma_lookup_finds_topmost(
    layers: Seq<Seq<Action>>,
    stack: Seq<Momentary>,
    cell: int,
    depth: int,
)
    requires
        0 <= depth < stack.len(),
        !(action_at(layers, stack[depth].layer as int, cell) is Transparent),
        forall|above: int|
            depth < above < stack.len() ==> action_at(
                layers,
                (#[trigger] stack[above]).layer as int,
                cell,
            ) is Transparent,
    ensures
        lookup(layers, stack, cell) == stack[depth].layer,
        resolved(layers, stack, cell) == action_at(layers, stack[depth].layer as int, cell),
    decreases stack.len(),
{
    if depth < stack.len() - 1 {
        assert(stack[stack.len() - 1] == stack.last());
        let below = stack.drop_last();
        assert(below[depth] == stack[depth]);
        assert forall|above: int| depth < above < below.len() implies action_at(
            layers,
            (#[trigger] below[above]).layer as int,
            cell,
        ) is Transparent by {
            assert(below[above] == stack[above]);
        }
        lemma_lookup_finds_topmost(layers, below, cell, depth);
    }
}

/// Where every active layer is transparent at `cell`, a press resolves to
/// the base layer, and does nothing where the base layer is transparent
/// there too.
pub proof fn lemma_all_transparent_reaches_base(
    layers: Seq<Seq<Action>>,
    stack: Seq<Momentary>,
    cell: int,
)
    requires
        forall|depth: int|
            0 <= depth < stack.len() ==> action_at(
                layers,
                (#[trigger] stack[depth]).layer as int,
                cell,
            ) is Transparent,
    ensures
        lookup(layers, stack, cell) == 0,
        action_at(layers, 0, cell) is Transparent ==> resolved(layers, stack, cell) == Action::NoOp,
    decreases stack.len(),
{
    if stack.len() > 0 {
        assert(stack[stack.len() - 1] == stack.last());
        let below = stack.drop_last();
        assert forall|depth: int| 0 <= depth < below.len() implies action_at(
            layers,
            (#[trigger] below[depth]).layer as int,
            cell,
        ) is Transparent by {
            assert(below[depth] == stack[depth]);
        }
        lemma_all_transparent_reaches_base(layers, below, cell);
    }
}

/// The stack without the layers that `cell` activated.
pub open spec fn without(stack: Seq<Momentary>, cell: int) -> Seq<Momentary>
    decreases stack.len(),
{
    if stack.len() == 0 {
        stack
    } else if stack.last().cell == cell {
        without(stack.drop_last(), cell)
    } else {
        without(stack.drop_last(), cell).push(stack.last())
    }
}

/// The stack after `cell` has applied `action`.
pub open spec fn activated(stack: Seq<Momentary>, action: Action, cell: int) -> Seq<Momentary> {
    match action.layer() {
        Some(layer) => stack.push(Momentary { cell: cell as usize, layer }),
        None => stack,
    }
}

/// The stack after `cell` has taken `action` back.
pub open spec fn deactivated(stack: Seq<Momentary>, action: Action, cell: int) -> Seq<Momentary> {
    match action.layer() {
        Some(_) => without(stack, cell),
        None => stack,
    }
}

/// The state after the pending key at `cell` has been resolved as a hold.
pub open spec fn held(layers: Seq<Seq<Action>>, s: LayoutState, cell: int) -> LayoutState {
    match s.keys[cell] {
        KeyState::Pending { layer, .. } => LayoutState {
            keys: s.keys.update(cell, KeyState::Hold { layer }),
            stack: activated(s.stack, action_at(layers, layer as int, cell).hold(), cell),
            custom: s.custom,
        },
        _ => s,
    }
}

/// Whether a press of another switch resolves the key at `cell` as a hold.
pub open spec fn interrupts(layers: Seq<Seq<Action>>, state: KeyState, cell: int) -> bool {
    match state {
        KeyState::Pending { layer, .. } => action_at(layers, layer as int, cell).interruptible(),
        _ => false,
    }
}

/// The state after a press of `by` has interrupted the pending keys among
/// the first `n` cells, in row-major order.
pub open spec fn interrupted(
    layers: Seq<Seq<Action>>,
    s: LayoutState,
    by: int,
    n: nat,
) -> LayoutState
    decreases n,
{
    if n == 0 {
        s
    } else {
        let before = interrupted(layers, s, by, (n - 1) as nat);
        let cell = n - 1;
        if cell != by && interrupts(layers, before.keys[cell], cell) {
            held(layers, before, cell)
        } else {
            before
        }
    }
}

/// Whether the switch is down, so that a further press of it means nothing.
pub open spec fn occupied(state: KeyState) -> bool {
    state is Pressed || state is Pending || state is Hold
}

/// The state after a press of `cell`: pending keys that yield to a press
/// elsewhere become holds first, so that the layers they activate already
/// count for the new press.
pub open spec fn pressed(layers: Seq<Seq<Action>>, s: LayoutState, cell: int) -> LayoutState {
    if occupied(s.keys[cell]) {
        s
    } else {
        let t = interrupted(layers, s, cell, s.keys.len());
        let layer = lookup(layers, t.stack, cell);
        let action = action_at(layers, layer as int, cell);
        LayoutState {
            keys: t.keys.update(
                cell,
                if action is HoldTap {
                    KeyState::Pending { layer, elapsed: 0 }
                } else {
                    KeyState::Pressed { layer }
                },
            ),
            stack: activated(t.stack, action, cell),
            custom: match action.payload() {
                Some(payload) => Some(CustomEvent::Press(payload)),
                None => t.custom,
            },
        }
    }
}

/// The state after a release of `cell`: what the press applied is taken
/// back, and a pending key released before its timeout becomes a tap.
pub open spec fn released(layers: Seq<Seq<Action>>, s: LayoutState, cell: int) -> LayoutState {
    match s.keys[cell] {
        KeyState::Pressed { layer } => {
            let action = action_at(layers, layer as int, cell);
            LayoutState {
                keys: s.keys.update(cell, KeyState::Idle),
                stack: deactivated(s.stack, action, cell),
                custom: match action.payload() {
                    Some(payload) => Some(CustomEvent::Release(payload)),
                    None => s.custom,
                },
            }
        },
        KeyState::Pending { layer, elapsed } => {
            let action = action_at(layers, layer as int, cell);
            LayoutState {
                keys: s.keys.update(
                    cell,
                    if elapsed < action.timeout() {
                        KeyState::Tap { layer, left: action.tap_ticks() }
                    } else {
                        KeyState::Idle
                    },
                ),
                stack: s.stack,
                custom: s.custom,
            }
        },
        KeyState::Hold { layer } => LayoutState {
            keys: s.keys.update(cell, KeyState::Idle),
            stack: deactivated(s.stack, action_at(layers, layer as int, cell).hold(), cell),
            custom: s.custom,
        },
        _ => s,
    }
}

/// The state after one confirmed event. An event outside the matrix changes
/// nothing.
pub open spec fn handled(
    layers: Seq<Seq<Action>>,
    dims: Dims,
    s: LayoutState,
    event: Event,
) -> LayoutState {
    if dims.contains(event.coord) {
        match event.kind {
            EventKind::Press => pressed(layers, s, dims.cell(event.coord)),
            EventKind::Release => released(layers, s, dims.cell(event.coord)),
        }
    } else {
        s
    }
}

/// The state after a sequence of confirmed events, in their order.
pub open spec fn handled_all(
    layers: Seq<Seq<Action>>,
    dims: Dims,
    s: LayoutState,
    events: Seq<Event>,
) -> LayoutState
    decreases events.len(),
{
    if events.len() == 0 {
        s
    } else {
        handled(layers, dims, handled_all(layers, dims, s, events.drop_last()), events.last())
    }
}

/// The state after one tick has passed for the key at `cell`: a pending key
/// that reaches its timeout becomes a hold.
pub open spec fn aged_key(layers: Seq<Seq<Action>>, s: LayoutState, cell: int) -> LayoutState {
    match s.keys[cell] {
        KeyState::Pending { layer, elapsed } => if elapsed + 1 >= action_at(
            layers,
            layer as int,
            cell,
        ).timeout() {
            held(layers, s, cell)
        } else {
            LayoutState {
                keys: s.keys.update(
                    cell,
                    KeyState::Pending { layer, elapsed: (elapsed + 1) as u16 },
                ),
                stack: s.stack,
                custom: s.custom,
            }
        },
        _ => s,
    }
}

/// The state after one tick has passed for the first `n` cells, in row-major
/// order.
pub open spec fn aged(layers: Seq<Seq<Action>>, s: LayoutState, n: nat) -> LayoutState
    decreases n,
{
    if n == 0 {
        s
    } else {
        aged_key(layers, aged(layers, s, (n - 1) as nat), n - 1)
    }
}

/// The key codes that the switch at `cell` contributes in `state`.
pub open spec fn key_codes_at(layers: Seq<Seq<Action>>, state: KeyState, cell: int) -> Seq<u8> {
    match state {
        KeyState::Pressed { layer } => action_at(layers, layer as int, cell).key_codes(),
        KeyState::Hold { layer } => action_at(layers, layer as int, cell).hold().key_codes(),
        KeyState::Tap { layer, .. } => action_at(layers, layer as int, cell).tap().key_codes(),
        _ => Seq::empty(),
    }
}

/// The key codes that the first `n` cells contribute, in row-major order.
pub open spec fn active_keys(layers: Seq<Seq<Action>>, keys: Seq<KeyState>, n: nat) -> Seq<u8>
    decreases n,
{
    if n == 0 {
        Seq::empty()
    } else {
        active_keys(layers, keys, (n - 1) as nat) + key_codes_at(layers, keys[n - 1], n - 1)
    }
}

/// The state of a switch once a tick has been reported: a tap that has been
/// reported for long enough is over.
pub open spec fn expired_key(state: KeyState) -> KeyState {
    match state {
        KeyState::Tap { layer, left } => if left <= 1 {
            KeyState::Idle
        } else {
            KeyState::Tap { layer, left: (left - 1) as u16 }
        },
        _ => state,
    }
}

/// The key codes that a tick reports: those that are active once the pending
/// keys have aged.
pub open spec fn reported(layers: Seq<Seq<Action>>, s: LayoutState) -> Seq<u8> {
    let a = aged(layers, s, s.keys.len());
    active_keys(layers, a.keys, a.keys.len())
}

/// The state after a tick: pending keys have aged, the taps that the tick
/// reported have moved towards their end, and the custom edge is handed out.
pub open spec fn ticked(layers: Seq<Seq<Action>>, s: LayoutState) -> LayoutState {
    let a = aged(layers, s, s.keys.len());
    LayoutState {
        keys: Seq::new(a.keys.len(), |cell: int| expired_key(a.keys[cell])),
        stack: a.stack,
        custom: None,
    }
}

/// The state in which no switch is down.
pub open spec fn initial(dims: Dims) -> LayoutState {
    LayoutState {
        keys: Seq::new(dims.cells(), |cell: int| KeyState::Idle),
        stack: Seq::empty(),
        custom: None,
    }
}

/// Whether the table has a base layer, and on every layer one binding per
/// switch.
pub open spec fn well_shaped(layers: Seq<Seq<Action>>, dims: Dims) -> bool {
    &&& layers.len() >= 1
    &&& forall|layer: int| 0 <= layer < layers.len() ==> (#[trigger] layers[layer]).len() == dims.cells()
}

/// The layout engine of one keyboard.
#[derive(Debug)]
pub struct Layout {
    dims: Dims,
    layers: Vec<Vec<Action>>,
    transparent: Action,
    keys: Vec<KeyState>,
    stack: Vec<Momentary>,
    custom: Option<CustomEvent>,
}

impl View for Layout {
    type V = LayoutState;

    closed spec fn view(&self) -> LayoutState {
        LayoutState { keys: self.keys@, stack: self.stack@, custom: self.custom }
    }
}

impl Layout {
    /// The size of the matrix.
    pub closed spec fn dims(&self) -> Dims {
        self.dims
    }

    /// The table of bindings: one row-major grid per layer, base layer first.
    pub closed spec fn layers(&self) -> Seq<Seq<Action>> {
        Seq::new(self.layers@.len(), |layer: int| self.layers@[layer]@)
    }

    /// The table is well shaped, and there is exactly one state per switch.
    closed spec fn shaped(&self) -> bool {
        &&& well_shaped(self.layers(), self.dims)
        &&& self.keys@.len() == self.dims.cells()
        &&& self.transparent is Transparent
    }

    /// The engine is well shaped, the state of every switch fits its
    /// binding, and the layers on the stack are paired with the switches
    /// that are down.
    pub closed spec fn wf(&self) -> bool {
        &&& self.shaped()
        &&& coherent(self.layers(), self@.keys)
        &&& paired(self.layers(), self@)
    }

    /// What a well formed engine satisfies, in the terms in which the laws
    /// of the engine are stated.
    pub proof fn lemma_wf(&self)
        requires
            self.wf(),
        ensures
            self@.keys.len() == self.dims().cells(),
            well_shaped(self.layers(), self.dims()),
            coherent(self.layers(), self@.keys),
            paired(self.layers(), self@),
    {
    }

    /// An engine over `layers` in which no switch is down, or `None` where
    /// the table is not well shaped.
    pub fn new(dims: Dims, layers: Vec<Vec<Action>>) -> (made: Option<Layout>)
        ensures
            made.is_some() == well_shaped(
                Seq::new(layers@.len(), |layer: int| layers@[layer]@),
                dims,
            ),
            made.is_some() ==> {
                let layout = made.unwrap();
                &&& layout.wf()
                &&& layout.dims() == dims
                &&& layout.layers() == Seq::new(layers@.len(), |layer: int| layers@[layer]@)
                &&& layout@ == initial(dims)
            },
    {
        let ghost table = Seq::new(layers@.len(), |layer: int| layers@[layer]@);
        let n: usize = dims.cell_count();
        if layers.len() == 0 {
            return None;
        }
        let mut layer: usize = 0;
        while layer < layers.len()
            invariant
                layer <= layers@.len(),
                n == dims.cells(),
                table == Seq::new(layers@.len(), |layer: int| layers@[layer]@),
                forall|l: int| 0 <= l < layer ==> (#[trigger] table[l]).len() == n,
            decreases layers@.len() - layer,
        {
            if layers[layer].len() != n {
                assert(table[layer as int].len() != n);
                return None;
            }
            layer += 1;
        }
        let mut keys: Vec<KeyState> = Vec::new();
        let mut cell: usize = 0;
        while cell < n
            invariant
                cell <= n,
                keys@ == Seq::new(cell as nat, |c: int| KeyState::Idle),
            decreases n - cell,
        {
            keys.push(KeyState::Idle);
            cell += 1;
            assert(keys@ =~= Seq::new(cell as nat, |c: int| KeyState::Idle));
        }
        let layout = Layout {
            dims,
            layers,
            transparent: Action::Transparent,
            keys,
            stack: Vec::new(),
            custom: None,
        };
        assert(layout.layers() == table);
        proof {
            lemma_initial_is_paired(table, dims);
        }
        Some(layout)
    }

    /// The binding of `cell` on `layer`.
    fn binding(&self, layer: usize, cell: usize) -> (action: &Action)
        requires
            self.shaped(),
        ensures
            *action == action_at(self.layers(), layer as int, cell as int),
    {
        if layer < self.layers.len() && cell < self.layers[layer].len() {
            &self.layers[layer][cell]
        } else {
            &self.transparent
        }
    }

    /// The layer that a press of `cell` resolves to.
    fn lookup(&self, cell: usize) -> (layer: usize)
        requires
            self.shaped(),
        ensures
            layer == lookup(self.layers(), self@.stack, cell as int),
    {
        let mut depth: usize = self.stack.len();
        assert(self.stack@.take(depth as int) =~= self.stack@);
        while depth > 0
            invariant
                self.shaped(),
                depth <= self.stack@.len(),
                lookup(self.layers(), self.stack@, cell as int) == lookup(
                    self.layers(),
                    self.stack@.take(depth as int),
                    cell as int,
                ),
            decreases depth,
        {
            let top: usize = self.stack[depth - 1].layer;
            assert(self.stack@.take(depth as int).last() == self.stack@[depth - 1]);
            if !self.binding(top, cell).is_transparent() {
                return top;
            }
            assert(self.stack@.take(depth as int).drop_last() =~= self.stack@.take(depth - 1));
            depth -= 1;
        }
        0
    }

    /// Resolves the pending key at `cell` as a hold.
    fn hold(&mut self, cell: usize, layer: usize)
        requires
            old(self).shaped(),
            cell < old(self)@.keys.len(),
            old(self)@.keys[cell as int] is Pending,
            old(self)@.keys[cell as int]->Pending_layer == layer,
        ensures
            final(self).shaped(),
            final(self).dims() == old(self).dims(),
            final(self).layers() == old(self).layers(),
            final(self)@ == held(old(self).layers(), old(self)@, cell as int),
    {
        let pushes: Option<usize> = self.binding(layer, cell).hold_layer();
        self.keys.set(cell, KeyState::Hold { layer });
        match pushes {
            Some(target) => {
                self.stack.push(Momentary { cell, layer: target });
            },
            None => {},
        }
    }

    /// Resolves as holds the pending keys that yield to a press of `by`.
    fn interrupt(&mut self, by: usize)
        requires
            old(self).shaped(),
        ensures
            final(self).shaped(),
            final(self).dims() == old(self).dims(),
            final(self).layers() == old(self).layers(),
            final(self)@ == interrupted(
                old(self).layers(),
                old(self)@,
                by as int,
                old(self)@.keys.len(),
            ),
    {
        let n: usize = self.keys.len();
        let mut cell: usize = 0;
        while cell < n
            invariant
                cell <= n,
                self.shaped(),
                self.keys@.len() == n,
                old(self).keys@.len() == n,
                self.dims() == old(self).dims(),
                self.layers() == old(self).layers(),
                self@ == interrupted(old(self).layers(), old(self)@, by as int, cell as nat),
            decreases n - cell,
        {
            match self.keys[cell] {
                KeyState::Pending { layer, .. } => {
                    if cell != by && self.binding(layer, cell).holds_on_other_press() {
                        self.hold(cell, layer);
                    }
                },
                _ => {},
            }
            cell += 1;
        }
    }

    /// Takes the layers that `cell` activated off the stack.
    fn deactivate(&mut self, cell: usize)
        requires
            old(self).shaped(),
        ensures
            final(self).shaped(),
            final(self).dims() == old(self).dims(),
            final(self).layers() == old(self).layers(),
            final(self)@ == (LayoutState {
                keys: old(self)@.keys,
                stack: without(old(self)@.stack, cell as int),
                custom: old(self)@.custom,
            }),
    {
        let mut kept: Vec<Momentary> = Vec::new();
        let mut i: usize = 0;
        while i < self.stack.len()
            invariant
                i <= self.stack@.len(),
                kept@ == without(self.stack@.take(i as int), cell as int),
            decreases self.stack@.len() - i,
        {
            let entry: Momentary = self.stack[i];
            assert(self.stack@.take(i + 1).drop_last() =~= self.stack@.take(i as int));
            assert(self.stack@.take(i + 1).last() == entry);
            if entry.cell != cell {
                kept.push(entry);
            }
            i += 1;
        }
        assert(self.stack@.take(i as int) =~= self.stack@);
        self.stack = kept;
    }

    /// Applies a press of the switch with cell number `cell`.
    fn press(&mut self, cell: usize)
        requires
            old(self).shaped(),
            cell < old(self)@.keys.len(),
        ensures
            final(self).shaped(),
            final(self).dims() == old(self).dims(),
            final(self).layers() == old(self).layers(),
            final(self)@ == pressed(old(self).layers(), old(self)@, cell as int),
    {
        match self.keys[cell] {
            KeyState::Pressed { .. } | KeyState::Pending { .. } | KeyState::Hold { .. } => {
                return ;
            },
            _ => {},
        }
        self.interrupt(cell);
        let layer: usize = self.lookup(cell);
        let action = self.binding(layer, cell);
        let hold_tap: bool = action.is_hold_tap();
        let pushes: Option<usize> = action.momentary_layer();
        let payload: Option<u32> = action.custom_payload();
        if hold_tap {
            self.keys.set(cell, KeyState::Pending { layer, elapsed: 0 });
        } else {
            self.keys.set(cell, KeyState::Pressed { layer });
        }
        match pushes {
            Some(target) => {
                self.stack.push(Momentary { cell, layer: target });
            },
            None => {},
        }
        match payload {
            Some(payload) => {
                self.custom = Some(CustomEvent::Press(payload));
            },
            None => {},
        }
    }

    /// Applies a release of the switch with cell number `cell`.
    fn release(&mut self, cell: usize)
        requires
            old(self).shaped(),
            cell < old(self)@.keys.len(),
        ensures
            final(self).shaped(),
            final(self).dims() == old(self).dims(),
            final(self).layers() == old(self).layers(),
            final(self)@ == released(old(self).layers(), old(self)@, cell as int),
    {
        match self.keys[cell] {
            KeyState::Pressed { layer } => {
                let action = self.binding(layer, cell);
                let pushed: Option<usize> = action.momentary_layer();
                let payload: Option<u32> = action.custom_payload();
                self.keys.set(cell, KeyState::Idle);
                if pushed.is_some() {
                    self.deactivate(cell);
                }
                match payload {
                    Some(payload) => {
                        self.custom = Some(CustomEvent::Release(payload));
                    },
                    None => {},
                }
            },
            KeyState::Pending { layer, elapsed } => {
                let action = self.binding(layer, cell);
                if elapsed < action.hold_timeout() {
                    let left: u16 = action.tap_duration();
                    self.keys.set(cell, KeyState::Tap { layer, left });
                } else {
                    self.keys.set(cell, KeyState::Idle);
                }
            },
            KeyState::Hold { layer } => {
                let pushed: Option<usize> = self.binding(layer, cell).hold_layer();
                self.keys.set(cell, KeyState::Idle);
                if pushed.is_some() {
                    self.deactivate(cell);
                }
            },
            _ => {},
        }
    }

    /// Lets one tick pass for every pending key.
    fn age(&mut self)
        requires
            old(self).shaped(),
        ensures
            final(self).shaped(),
            final(self).dims() == old(self).dims(),
            final(self).layers() == old(self).layers(),
            final(self)@ == aged(old(self).layers(), old(self)@, old(self)@.keys.len()),
            final(self)@.keys.len() == old(self)@.keys.len(),
    {
        let n: usize = self.keys.len();
        let mut cell: usize = 0;
        while cell < n
            invariant
                cell <= n,
                self.shaped(),
                self.keys@.len() == n,
                old(self).keys@.len() == n,
                self.dims() == old(self).dims(),
                self.layers() == old(self).layers(),
                self@ == aged(old(self).layers(), old(self)@, cell as nat),
            decreases n - cell,
        {
            match self.keys[cell] {
                KeyState::Pending { layer, elapsed } => {
                    let timeout: u16 = self.binding(layer, cell).hold_timeout();
                    if elapsed >= timeout || timeout - elapsed <= 1 {
                        self.hold(cell, layer);
                    } else {
                        self.keys.set(cell, KeyState::Pending { layer, elapsed: elapsed + 1 });
                    }
                },
                _ => {},
            }
            cell += 1;
        }
    }

    /// Ends the taps that have been reported for long enough.
    fn expire(&mut self)
        requires
            old(self).shaped(),
        ensures
            final(self).shaped(),
            final(self).dims() == old(self).dims(),
            final(self).layers() == old(self).layers(),
            final(self)@ == (LayoutState {
                keys: Seq::new(old(self)@.keys.len(), |cell: int| expired_key(old(self)@.keys[cell])),
                stack: old(self)@.stack,
                custom: old(self)@.custom,
            }),
    {
        let n: usize = self.keys.len();
        let mut cell: usize = 0;
        while cell < n
            invariant
                cell <= n,
                self.shaped(),
                self.keys@.len() == n,
                old(self).keys@.len() == n,
                self.dims() == old(self).dims(),
                self.layers() == old(self).layers(),
                self.stack@ == old(self).stack@,
                self.custom == old(self).custom,
                forall|k: int| 0 <= k < cell ==> self.keys@[k] == expired_key(old(self).keys@[k]),
                forall|k: int| cell <= k < n ==> self.keys@[k] == old(self).keys@[k],
            decreases n - cell,
        {
            match self.keys[cell] {
                KeyState::Tap { layer, left } => {
                    if left <= 1 {
                        self.keys.set(cell, KeyState::Idle);
                    } else {
                        self.keys.set(cell, KeyState::Tap { layer, left: left - 1 });
                    }
                },
                _ => {},
            }
            cell += 1;
        }
        assert(self.keys@ =~= Seq::new(
            old(self)@.keys.len(),
            |cell: int| expired_key(old(self)@.keys[cell]),
        ));
    }

    /// The key codes that are active now, switch by switch in row-major
    /// order.
    pub fn keycodes(&self) -> (keys: Vec<u8>)
        requires
            self.wf(),
        ensures
            keys@ == active_keys(self.layers(), self@.keys, self@.keys.len()),
    {
        self.collect()
    }

    /// Collects the key codes that each switch contributes.
    fn collect(&self) -> (keys: Vec<u8>)
        requires
            self.shaped(),
        ensures
            keys@ == active_keys(self.layers(), self@.keys, self@.keys.len()),
    {
        let n: usize = self.keys.len();
        let mut keys: Vec<u8> = Vec::new();
        let mut cell: usize = 0;
        while cell < n
            invariant
                cell <= n,
                self.shaped(),
                self.keys@.len() == n,
                keys@ == active_keys(self.layers(), self.keys@, cell as nat),
            decreases n - cell,
        {
            match self.keys[cell] {
                KeyState::Pressed { layer } => {
                    self.binding(layer, cell).push_key_codes(&mut keys);
                },
                KeyState::Hold { layer } => {
                    self.binding(layer, cell).push_hold_key_codes(&mut keys);
                },
                KeyState::Tap { layer, .. } => {
                    self.binding(layer, cell).push_tap_key_codes(&mut keys);
                },
                _ => {
                    assert(keys@ + Seq::<u8>::empty() =~= keys@);
                },
            }
            cell += 1;
        }
        keys
    }

    /// The layers that are active above layer 0, in the order of their
    /// activation.
    pub fn active_layers(&self) -> (active: Vec<usize>)
        requires
            self.wf(),
        ensures
            active@ == self@.stack.map_values(|entry: Momentary| entry.layer),
    {
        let mut active: Vec<usize> = Vec::new();
        let mut i: usize = 0;
        while i < self.stack.len()
            invariant
                i <= self.stack@.len(),
                active@ == self.stack@.take(i as int).map_values(|entry: Momentary| entry.layer),
            decreases self.stack@.len() - i,
        {
            active.push(self.stack[i].layer);
            i += 1;
            assert(active@ =~= self.stack@.take(i as int).map_values(
                |entry: Momentary| entry.layer,
            ));
        }
        assert(self.stack@.take(i as int) =~= self.stack@);
        active
    }

    /// The size of the matrix.
    pub fn dimensions(&self) -> (dims: Dims)
        ensures
            dims == self.dims(),
    {
        self.dims
    }

    /// The state of the switch at `at`. A coordinate outside the matrix
    /// reads as idle.
    pub fn key_state(&self, at: Coordinate) -> (state: KeyState)
        requires
            self.wf(),
        ensures
            state == if self.dims().contains(at) {
                self@.keys[self.dims().cell(at)]
            } else {
                KeyState::Idle
            },
    {
        match self.dims.cell_of(at) {
            Some(cell) => self.keys[cell],
            None => KeyState::Idle,
        }
    }

    /// Lets one tick pass. Every pending key ages by one tick, and one that
    /// reaches its timeout becomes a hold. The result holds the key codes
    /// that are active after that, and the last custom edge since the tick
    /// before. A tap is part of as many reports as its binding asks for, and
    /// of one at least.
    pub fn tick(&mut self) -> (out: (Vec<u8>, Option<CustomEvent>))
        requires
            old(self).wf(),
        ensures
            final(self).wf(),
            final(self).dims() == old(self).dims(),
            final(self).layers() == old(self).layers(),
            final(self)@ == ticked(old(self).layers(), old(self)@),
            out.0@ == reported(old(self).layers(), old(self)@),
            out.1 == old(self)@.custom,
    {
        proof {
            lemma_ticked_keeps_pairing(self.layers(), self@);
            lemma_ticked_keeps_coherence(self.layers(), self@);
        }
        let custom: Option<CustomEvent> = self.custom;
        self.age();
        let keys: Vec<u8> = self.collect();
        self.expire();
        self.custom = None;
        (keys, custom)
    }

    /// Applies one confirmed event: a press applies what the switch is bound
    /// to on the topmost active layer that is not transparent there, a
    /// release takes it back. An event outside the matrix, a press of a
    /// switch that is down and a release of one that is up change nothing.
    pub fn handle(&mut self, event: Event)
        requires
            old(self).wf(),
        ensures
            final(self).wf(),
            final(self).dims() == old(self).dims(),
            final(self).layers() == old(self).layers(),
            final(self)@ == handled(old(self).layers(), old(self).dims(), old(self)@, event),
    {
        proof {
            lemma_handled_keeps_pairing(self.layers(), self.dims, self@, event);
            lemma_handled_keeps_coherence(self.layers(), self.dims, self@, event);
        }
        match self.dims.cell_of(event.coord) {
            Some(cell) => match event.kind {
                EventKind::Press => self.press(cell),
                EventKind::Release => self.release(cell),
            },
            None => {},
        }
    }
}

} // verus!
