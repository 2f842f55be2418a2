//! The pipeline of one period: a raw frame is debounced, the confirmed
//! events go to the layout engine in row-major order, a tick passes, and the
//! active keys become a report.

use vstd::prelude::*;
use crate::action::{Action, CustomEvent};
use crate::debounce::{frame_events, frame_sampled, Debouncer, Switch};
use crate::layout::{handled_all, initial, reported, ticked, well_shaped, Layout, LayoutState};
use crate::matrix::{Dims, Event, Frame};
use crate::report::{report_bytes, Report, ReportBuilder};

verus! {

/// What one period hands to the host side.
#[derive(Clone, Copy, Debug)]
pub struct Output {
    /// The report of the keys that are active at the end of the period.
    pub report: Report,
    /// Whether the report differs from that of the period before.
    pub changed: bool,
    /// The last edge of a custom key in this period, if there was one.
    pub custom: Option<CustomEvent>,
}

/// The state of the whole pipeline.
#[derive(Debug)]
pub struct Keyboard {
    debouncer: Debouncer,
    layout: Layout,
    builder: ReportBuilder,
}

impl Keyboard {
    /// The size of the matrix.
    pub closed spec fn dims(&self) -> Dims {
        self.debouncer.dims()
    }

    /// The debounce window, in samples.
    pub closed spec fn window(&self) -> u16 {
        self.debouncer.window()
    }

    /// The table of bindings.
    pub closed spec fn layers(&self) -> Seq<Seq<Action>> {
        self.layout.layers()
    }

    /// The debounce state of each switch, by cell number.
    pub closed spec fn switches(&self) -> Seq<Switch> {
        self.debouncer@
    }

    /// The state of the layout engine.
    pub closed spec fn layout_state(&self) -> LayoutState {
        self.layout@
    }

    /// The report of the period before.
    pub closed spec fn last_report(&self) -> Report {
        self.builder.last()
    }

    /// The stages are well formed and agree on the size of the matrix.
    pub closed spec fn wf(&self) -> bool {
        &&& self.debouncer.wf()
        &&& self.layout.wf()
        &&& self.layout.dims() == self.debouncer.dims()
    }

    /// A keyboard on which no switch is down, or `None` where the table of
    /// bindings is not well shaped.
    pub fn new(dims: Dims, window: u16, layers: Vec<Vec<Action>>) -> (made: Option<Keyboard>)
        ensures
            made.is_some() == well_shaped(
                Seq::new(layers@.len(), |layer: int| layers@[layer]@),
                dims,
            ),
            made.is_some() ==> {
                let keyboard = made.unwrap();
                &&& keyboard.wf()
                &&& keyboard.dims() == dims
                &&& keyboard.window() == window
                &&& keyboard.layers() == Seq::new(layers@.len(), |layer: int| layers@[layer]@)
                &&& keyboard.switches() == Seq::new(
                    dims.cells(),
                    |cell: int| Switch { confirmed: false, streak: 0 },
                )
                &&& keyboard.layout_state() == initial(dims)
                &&& keyboard.last_report()@ == report_bytes(Seq::empty())
            },
    {
        match Layout::new(dims, layers) {
            Some(layout) => Some(
                Keyboard {
                    debouncer: Debouncer::new(dims, window),
                    layout,
                    builder: ReportBuilder::new(),
                },
            ),
            None => None,
        }
    }

    /// The size of the matrix.
    pub fn dimensions(&self) -> (dims: Dims)
        requires
            self.wf(),
        ensures
            dims == self.dims(),
    {
        self.debouncer.dimensions()
    }

    /// The layout engine, to read its state.
    pub fn layout(&self) -> (layout: &Layout)
        requires
            self.wf(),
        ensures
            layout.wf(),
            layout@ == self.layout_state(),
            layout.dims() == self.dims(),
            layout.layers() == self.layers(),
    {
        &self.layout
    }

    /// The debouncer, to read its state.
    pub fn debouncer(&self) -> (debouncer: &Debouncer)
        requires
            self.wf(),
        ensures
            debouncer.wf(),
            debouncer@ == self.switches(),
            debouncer.dims() == self.dims(),
            debouncer.window() == self.window(),
    {
        &self.debouncer
    }

    /// Runs one period on the frame `raw`: the frame is debounced, the
    /// confirmed events are applied in row-major order, one tick passes, and
    /// the keys that are active then are packed into the report.
    pub fn tick(&mut self, raw: &Frame) -> (out: Output)
        requires
            old(self).wf(),
            raw.wf(),
            raw.dims() == old(self).dims(),
        ensures
            final(self).wf(),
            final(self).dims() == old(self).dims(),
            final(self).window() == old(self).window(),
            final(self).layers() == old(self).layers(),
            final(self).switches() == frame_sampled(old(self).switches(), raw@, old(self).window()),
            ({
                let events = frame_events(
                    old(self).switches(),
                    raw@,
                    old(self).window(),
                    old(self).dims(),
                    old(self).dims().cells(),
                );
                let applied = handled_all(
                    old(self).layers(),
                    old(self).dims(),
                    old(self).layout_state(),
                    events,
                );
                &&& final(self).layout_state() == ticked(old(self).layers(), applied)
                &&& out.report@ == report_bytes(reported(old(self).layers(), applied))
                &&& out.changed == (out.report@ != old(self).last_report()@)
                &&& out.custom == applied.custom
            }),
            final(self).last_report() == out.report,
    {
        let events: Vec<Event> = self.debouncer.update(raw);
        let ghost debounced = self.debouncer;
        let mut i: usize = 0;
        while i < events.len()
            invariant
                i <= events@.len(),
                self.debouncer == debounced,
                self.builder == old(self).builder,
                self.layout.wf(),
                self.layout.dims() == old(self).layout.dims(),
                self.layout.layers() == old(self).layout.layers(),
                self.layout@ == handled_all(
                    old(self).layout.layers(),
                    old(self).layout.dims(),
                    old(self).layout@,
                    events@.take(i as int),
                ),
            decreases events@.len() - i,
        {
            self.layout.handle(events[i]);
            assert(events@.take(i + 1).drop_last() =~= events@.take(i as int));
            assert(events@.take(i + 1).last() == events@[i as int]);
            i += 1;
        }
        assert(events@.take(i as int) =~= events@);
        let (keys, custom) = self.layout.tick();
        let (report, changed) = self.builder.build(&keys);
        Output { report, changed, custom }
    }
}

} // verus!
