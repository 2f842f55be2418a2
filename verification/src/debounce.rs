//! The debouncer: one small counter per switch turns noisy samples into
//! confirmed press and release events.
//!
//! A switch changes its confirmed level only after `window` samples in a row
//! have shown the other level. The window is the price paid in latency for
//! the noise that is rejected: at one sample per millisecond a window of five
//! confirms a transition five milliseconds after it began. A window of zero
//! confirms as a window of one does, at the first sample that differs.

use vstd::prelude::*;
use crate::matrix::{Coordinate, Dims, Event, EventKind, Frame};

verus! {

/// The window that suits keyboard switches sampled once a millisecond.
pub const DEFAULT_WINDOW: u16 = 5;

/// The debounce state of one switch: its confirmed level, and how many
/// samples in a row have contradicted it.
#[derive(Clone, Copy, Debug, PartialEq, Eq, Structural)]
pub struct Switch {
    pub confirmed: bool,
    pub streak: u16,
}

/// Whether the sample `raw` completes a run of `window` contradicting
/// samples, so that the switch takes the level `raw`.
pub open spec fn confirms(switch: Switch, raw: bool, window: u16) -> bool {
    raw != switch.confirmed && switch.streak + 1 >= window
}

/// The state of a switch after the sample `raw`.
pub open spec fn sampled(switch: Switch, raw: bool, window: u16) -> Switch {
    if raw == switch.confirmed {
        Switch { confirmed: switch.confirmed, streak: 0 }
    } else if confirms(switch, raw, window) {
        Switch { confirmed: raw, streak: 0 }
    } else {
        Switch { confirmed: switch.confirmed, streak: (switch.streak + 1) as u16 }
    }
}

/// The event that a confirmed change to the level `raw` gives at `coord`.
pub open spec fn transition(coord: Coordinate, raw: bool) -> Event {
    Event { coord, kind: if raw { EventKind::Press } else { EventKind::Release } }
}

/// The state of every switch after one frame.
pub open spec fn frame_sampled(
    switches: Seq<Switch>,
    frame: Seq<bool>,
    window: u16,
) -> Seq<Switch> {
    Seq::new(switches.len(), |cell: int| sampled(switches[cell], frame[cell], window))
}

/// The events that one frame confirms among the first `n` cells, in
/// row-major order.
pub open spec fn frame_events(
    switches: Seq<Switch>,
    frame: Seq<bool>,
    window: u16,
    dims: Dims,
    n: nat,
) -> Seq<Event>
    decreases n,
{
    if n == 0 {
        Seq::empty()
    } else {
        let cell = n - 1;
        let before = frame_events(switches, frame, window, dims, cell as nat);
        if confirms(switches[cell], frame[cell], window) {
            before.push(transition(dims.coordinate(cell), frame[cell]))
        } else {
            before
        }
    }
}

/// The cells among the first `n` whose sample confirms a transition, in
/// ascending order.
pub open spec fn confirmed_cells(
    switches: Seq<Switch>,
    frame: Seq<bool>,
    window: u16,
    n: nat,
) -> Seq<int>
    decreases n,
{
    if n == 0 {
        Seq::empty()
    } else {
        let cell = n - 1;
        let before = confirmed_cells(switches, frame, window, cell as nat);
        if confirms(switches[cell], frame[cell], window) {
            before.push(cell)
        } else {
            before
        }
    }
}

/// A frame gives one event for each switch whose sample confirms a
/// transition and none for any other, and the events come in the row-major
/// order of their switches.
pub proof fn lemma_events_follow_confirmations(
    switches: Seq<Switch>,
    frame: Seq<bool>,
    window: u16,
    dims: Dims,
    n: nat,
)
    ensures
        ({
            let cells = confirmed_cells(switches, frame, window, n);
            let events = frame_events(switches, frame, window, dims, n);
            &&& events.len() == cells.len()
            &&& forall|i: int|
                0 <= i < cells.len() ==> {
                    let cell = #[trigger] cells[i];
                    &&& 0 <= cell < n
                    &&& confirms(switches[cell], frame[cell], window)
                    &&& events[i] == transition(dims.coordinate(cell), frame[cell])
                }
            &&& forall|i: int, j: int|
                0 <= i < j < cells.len() ==> #[trigger] cells[i] < #[trigger] cells[j]
            &&& forall|cell: int|
                0 <= cell < n && confirms(#[trigger] switches[cell], frame[cell], window)
                    ==> cells.contains(cell)
        }),
    decreases n,
{
    if n > 0 {
        let last = n - 1;
        lemma_events_follow_confirmations(switches, frame, window, dims, last as nat);
        let before = confirmed_cells(switches, frame, window, last as nat);
        let cells = confirmed_cells(switches, frame, window, n);
        assert forall|cell: int|
            0 <= cell < n && confirms(
                #[trigger] switches[cell],
                frame[cell],
                window,
            ) implies cells.contains(cell) by {
            if cell < last {
                assert(before.contains(cell));
                let i = choose|i: int| 0 <= i < before.len() && before[i] == cell;
                assert(cells[i] == cell);
            } else {
                assert(cells[cells.len() - 1] == cell);
            }
        }
    }
}

/// The state of one switch after a sequence of samples.
pub open spec fn run(switch: Switch, samples: Seq<bool>, window: u16) -> Switch
    decreases samples.len(),
{
    if samples.len() == 0 {
        switch
    } else {
        sampled(run(switch, samples.drop_last(), window), samples.last(), window)
    }
}

/// The state of every switch after a sequence of frames.
pub open spec fn after_frames(
    switches: Seq<Switch>,
    frames: Seq<Seq<bool>>,
    window: u16,
) -> Seq<Switch>
    decreases frames.len(),
{
    if frames.len() == 0 {
        switches
    } else {
        frame_sampled(after_frames(switches, frames.drop_last(), window), frames.last(), window)
    }
}

/// The samples that a sequence of frames holds for one cell.
pub open spec fn samples_of(frames: Seq<Seq<bool>>, cell: int) -> Seq<bool> {
    Seq::new(frames.len(), |t: int| frames[t][cell])
}

/// Each switch is debounced by itself: its state after a sequence of frames
/// is its state after its own samples, whatever the other switches do.
pub proof fn lemma_switches_run_independently(
    switches: Seq<Switch>,
    frames: Seq<Seq<bool>>,
    window: u16,
    cell: int,
)
    requires
        0 <= cell < switches.len(),
    ensures
        after_frames(switches, frames, window).len() == switches.len(),
        after_frames(switches, frames, window)[cell] == run(
            switches[cell],
            samples_of(frames, cell),
            window,
        ),
    decreases frames.len(),
{
    if frames.len() > 0 {
        lemma_switches_run_independently(switches, frames.drop_last(), window, cell);
        assert(samples_of(frames, cell).drop_last() =~= samples_of(frames.drop_last(), cell));
    }
}

/// How many samples at the end of `samples` differ from `level` without a
/// break.
pub open spec fn unsettled(samples: Seq<bool>, level: bool) -> nat
    decreases samples.len(),
{
    if samples.len() == 0 || samples.last() == level {
        0
    } else {
        1 + unsettled(samples.drop_last(), level)
    }
}

/// The index of the sample that confirms a level held from sample 0 on.
pub open spec fn confirming_sample(window: u16) -> int {
    if window <= 1 {
        0
    } else {
        window - 1
    }
}

proof fn lemma_quiet_prefix(switch: Switch, samples: Seq<bool>, window: u16, k: int)
    requires
        switch.streak == 0,
        0 <= k <= samples.len(),
        forall|j: int|
            0 <= j <= samples.len() ==> unsettled(#[trigger] samples.take(j), switch.confirmed)
                < window,
    ensures
        run(switch, samples.take(k), window) == (Switch {
            confirmed: switch.confirmed,
            streak: unsettled(samples.take(k), switch.confirmed) as u16,
        }),
    decreases k,
{
    if k > 0 {
        lemma_quiet_prefix(switch, samples, window, k - 1);
        assert(samples.take(k).drop_last() =~= samples.take(k - 1));
        assert(samples.take(k).last() == samples[k - 1]);
        assert(unsettled(samples.take(k - 1), switch.confirmed) < window);
        assert(unsettled(samples.take(k), switch.confirmed) < window);
    } else {
        assert(samples.take(0).len() == 0);
    }
}

/// Bounces are filtered: while no `window` samples in a row contradict the
/// confirmed level of a settled switch, that level stays as it is and no
/// sample confirms a transition.
pub proof fn lemma_bounces_are_filtered(switch: Switch, samples: Seq<bool>, window: u16)
    requires
        switch.streak == 0,
        forall|j: int|
            0 <= j <= samples.len() ==> unsettled(#[trigger] samples.take(j), switch.confirmed)
                < window,
    ensures
        forall|k: int|
            0 <= k <= samples.len() ==> (#[trigger] run(switch, samples.take(k), window)).confirmed
                == switch.confirmed,
        forall|k: int|
            0 <= k < samples.len() ==> !confirms(
                #[trigger] run(switch, samples.take(k), window),
                samples[k],
                window,
            ),
{
    assert forall|k: int| 0 <= k <= samples.len() implies (#[trigger] run(
        switch,
        samples.take(k),
        window,
    )).confirmed == switch.confirmed by {
        lemma_quiet_prefix(switch, samples, window, k);
    }
    assert forall|k: int| 0 <= k < samples.len() implies !confirms(
        #[trigger] run(switch, samples.take(k), window),
        samples[k],
        window,
    ) by {
        lemma_quiet_prefix(switch, samples, window, k);
        lemma_quiet_prefix(switch, samples, window, k + 1);
        assert(samples.take(k + 1).drop_last() =~= samples.take(k));
        assert(samples.take(k + 1).last() == samples[k]);
    }
}

/// Fewer samples than the window holds can confirm nothing, whatever they
/// show.
pub proof fn lemma_short_burst_is_filtered(switch: Switch, samples: Seq<bool>, window: u16)
    requires
        switch.streak == 0,
        samples.len() < window,
    ensures
        run(switch, samples, window).confirmed == switch.confirmed,
        forall|k: int|
            0 <= k < samples.len() ==> !confirms(
                #[trigger] run(switch, samples.take(k), window),
                samples[k],
                window,
            ),
{
    assert forall|j: int| 0 <= j <= samples.len() implies unsettled(
        #[trigger] samples.take(j),
        switch.confirmed,
    ) < window by {
        lemma_unsettled_bound(samples.take(j), switch.confirmed);
    }
    lemma_bounces_are_filtered(switch, samples, window);
    assert(samples.take(samples.len() as int) =~= samples);
}

proof fn lemma_unsettled_bound(samples: Seq<bool>, level: bool)
    ensures
        unsettled(samples, level) <= samples.len(),
    decreases samples.len(),
{
    if samples.len() > 0 {
        lemma_unsettled_bound(samples.drop_last(), level);
    }
}

proof fn lemma_steady_prefix(switch: Switch, samples: Seq<bool>, window: u16, k: int)
    requires
        switch.streak == 0,
        0 <= k <= samples.len(),
        forall|i: int| 0 <= i < samples.len() ==> samples[i] != switch.confirmed,
    ensures
        run(switch, samples.take(k), window) == if k <= confirming_sample(window) {
            Switch { confirmed: switch.confirmed, streak: k as u16 }
        } else {
            Switch { confirmed: !switch.confirmed, streak: 0 }
        },
    decreases k,
{
    if k > 0 {
        lemma_steady_prefix(switch, samples, window, k - 1);
        assert(samples.take(k).drop_last() =~= samples.take(k - 1));
        assert(samples.take(k).last() == samples[k - 1]);
    } else {
        assert(samples.take(0).len() == 0);
    }
}

/// A steady level is confirmed once: when a settled switch sees the other
/// level in every sample, the sample that completes the window confirms the
/// transition, and no sample before or after it does.
pub proof fn lemma_steady_level_confirms_once(switch: Switch, samples: Seq<bool>, window: u16)
    requires
        switch.streak == 0,
        forall|i: int| 0 <= i < samples.len() ==> samples[i] != switch.confirmed,
    ensures
        forall|k: int|
            0 <= k < samples.len() ==> (confirms(
                #[trigger] run(switch, samples.take(k), window),
                samples[k],
                window,
            ) <==> k == confirming_sample(window)),
        forall|k: int|
            confirming_sample(window) < k <= samples.len() ==> #[trigger] run(
                switch,
                samples.take(k),
                window,
            ) == (Switch { confirmed: !switch.confirmed, streak: 0 }),
{
    assert forall|k: int| 0 <= k < samples.len() implies (confirms(
        #[trigger] run(switch, samples.take(k), window),
        samples[k],
        window,
    ) <==> k == confirming_sample(window)) by {
        lemma_steady_prefix(switch, samples, window, k);
    }
    assert forall|k: int| confirming_sample(window) < k <= samples.len() implies #[trigger] run(
        switch,
        samples.take(k),
        window,
    ) == (Switch { confirmed: !switch.confirmed, streak: 0 }) by {
        lemma_steady_prefix(switch, samples, window, k);
    }
}

/// The debouncer of a switch matrix.
#[derive(Debug)]
pub struct Debouncer {
    dims: Dims,
    window: u16,
    switches: Vec<Switch>,
}

impl View for Debouncer {
    type V = Seq<Switch>;

    /// The state of each switch, by cell number.
    closed spec fn view(&self) -> Seq<Switch> {
        self.switches@
    }
}

impl Debouncer {
    /// The size of the matrix.
    pub closed spec fn dims(&self) -> Dims {
        self.dims
    }

    /// How many contradicting samples in a row confirm a transition.
    pub closed spec fn window(&self) -> u16 {
        self.window
    }

    /// There is exactly one state for each switch of the matrix.
    pub closed spec fn wf(&self) -> bool {
        self.switches@.len() == self.dims.cells()
    }

    /// A debouncer in which every switch is confirmed open.
    pub fn new(dims: Dims, window: u16) -> (debouncer: Debouncer)
        ensures
            debouncer.wf(),
            debouncer.dims() == dims,
            debouncer.window() == window,
            debouncer@ == Seq::new(
                dims.cells(),
                |cell: int| Switch { confirmed: false, streak: 0 },
            ),
    {
        let n: usize = dims.cell_count();
        let mut switches: Vec<Switch> = Vec::new();
        let mut i: usize = 0;
        while i < n
            invariant
                i <= n,
                switches@ == Seq::new(i as nat, |cell: int| Switch { confirmed: false, streak: 0 }),
            decreases n - i,
        {
            switches.push(Switch { confirmed: false, streak: 0 });
            i += 1;
            assert(switches@ =~= Seq::new(
                i as nat,
                |cell: int| Switch { confirmed: false, streak: 0 },
            ));
        }
        Debouncer { dims, window, switches }
    }

    /// The size of the matrix.
    pub fn dimensions(&self) -> (dims: Dims)
        ensures
            dims == self.dims(),
    {
        self.dims
    }

    /// How many contradicting samples in a row confirm a transition.
    pub fn window_len(&self) -> (window: u16)
        ensures
            window == self.window(),
    {
        self.window
    }

    /// The confirmed level of the switch at `at`. A coordinate outside the
    /// matrix reads as open.
    pub fn is_pressed(&self, at: Coordinate) -> (pressed: bool)
        requires
            self.wf(),
        ensures
            pressed == (self.dims().contains(at) && self@[self.dims().cell(at)].confirmed),
    {
        match self.dims.cell_of(at) {
            Some(cell) => self.switches[cell].confirmed,
            None => false,
        }
    }

    /// Takes one frame in and returns the transitions that it confirms, in
    /// row-major order.
    pub fn update(&mut self, raw: &Frame) -> (events: Vec<Event>)
        requires
            old(self).wf(),
            raw.wf(),
            raw.dims() == old(self).dims(),
        ensures
            final(self).wf(),
            final(self).dims() == old(self).dims(),
            final(self).window() == old(self).window(),
            final(self)@ == frame_sampled(old(self)@, raw@, old(self).window()),
            events@ == frame_events(
                old(self)@,
                raw@,
                old(self).window(),
                old(self).dims(),
                old(self).dims().cells(),
            ),
    {
        let n: usize = self.dims.cell_count();
        let cols: usize = self.dims.cols as usize;
        let window: u16 = self.window;
        let mut events: Vec<Event> = Vec::new();
        let mut cell: usize = 0;
        while cell < n
            invariant
                cell <= n,
                n == self.dims.cells(),
                cols == self.dims.cols,
                window == self.window,
                self.dims == old(self).dims,
                self.window == old(self).window,
                raw.wf(),
                raw.dims() == self.dims,
                self.switches@.len() == n,
                old(self).switches@.len() == n,
                forall|k: int|
                    0 <= k < cell ==> self.switches@[k] == sampled(
                        old(self).switches@[k],
                        raw@[k],
                        window,
                    ),
                forall|k: int| cell <= k < n ==> self.switches@[k] == old(self).switches@[k],
                events@ == frame_events(old(self).switches@, raw@, window, self.dims, cell as nat),
            decreases n - cell,
        {
            let level: bool = raw.sample(cell);
            let switch: Switch = self.switches[cell];
            if level == switch.confirmed {
                self.switches.set(cell, Switch { confirmed: switch.confirmed, streak: 0 });
            } else if window <= 1 || switch.streak >= window - 1 {
                proof {
                    self.dims.lemma_coordinate_of_cell(cell as int);
                }
                let coord = Coordinate { row: (cell / cols) as u8, col: (cell % cols) as u8 };
                let kind = if level {
                    EventKind::Press
                } else {
                    EventKind::Release
                };
                events.push(Event { coord, kind });
                self.switches.set(cell, Switch { confirmed: level, streak: 0 });
            } else {
                self.switches.set(
                    cell,
                    Switch { confirmed: switch.confirmed, streak: switch.streak + 1 },
                );
            }
            cell += 1;
        }
        assert(self.switches@ =~= frame_sampled(old(self).switches@, raw@, window));
        events
    }
}

} // verus!
