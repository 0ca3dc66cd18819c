//! The performance Monitors panel: while the game runs it samples runtime
//! metrics each step and plots the selected metric's history. Sampling only
//! happens during a play session. The sampled values are carried as the
//! caller measures them.

use vstd::prelude::*;

verus! {

/// A runtime metric the Monitors panel can graph.
#[derive(Debug, Clone, Copy, PartialEq, Eq, Structural)]
pub enum Monitor {
    /// Frames per second.
    Fps,
    /// Total memory in use (bytes).
    Memory,
    /// Draw calls per frame.
    DrawCalls,
    /// Physics step time (milliseconds).
    Physics,
}

/// One time step's worth of sampled metrics.
#[derive(Debug, Clone, Copy, PartialEq)]
pub struct MonitorSample<V> {
    /// Frames per second this step.
    pub fps: V,
    /// Memory in use this step.
    pub memory: V,
    /// Draw calls this step.
    pub draw_calls: V,
    /// Physics time this step.
    pub physics: V,
}

/// The value of `monitor` in a sample.
pub open spec fn metric<V>(s: MonitorSample<V>, monitor: Monitor) -> V {
    match monitor {
        Monitor::Fps => s.fps,
        Monitor::Memory => s.memory,
        Monitor::DrawCalls => s.draw_calls,
        Monitor::Physics => s.physics,
    }
}

/// The Monitors panel: the history of each monitor, the selection, and
/// whether a play session is sampling.
#[derive(Debug, Clone)]
pub struct MonitorsPanel<V> {
    fps: Vec<V>,
    memory: Vec<V>,
    draw_calls: Vec<V>,
    physics: Vec<V>,
    selected: Option<Monitor>,
    playing: bool,
}

impl<V: Copy> MonitorsPanel<V> {
    /// The recorded history of `monitor`, oldest first.
    pub closed spec fn history(&self, monitor: Monitor) -> Seq<V> {
        match monitor {
            Monitor::Fps => self.fps@,
            Monitor::Memory => self.memory@,
            Monitor::DrawCalls => self.draw_calls@,
            Monitor::Physics => self.physics@,
        }
    }

    /// The selected monitor, if any.
    pub closed spec fn selection(&self) -> Option<Monitor> {
        self.selected
    }

    /// Whether a play session is sampling.
    pub closed spec fn sampling(&self) -> bool {
        self.playing
    }

    /// Every monitor has the same number of samples.
    pub closed spec fn wf(&self) -> bool {
        &&& self.memory@.len() == self.fps@.len()
        &&& self.draw_calls@.len() == self.fps@.len()
        &&& self.physics@.len() == self.fps@.len()
    }

    /// An empty panel, not sampling, with the FPS monitor selected.
    pub fn new() -> (r: Self)
        ensures
            r.wf(),
            r.selection() == Some(Monitor::Fps),
            !r.sampling(),
            forall|m: Monitor| #[trigger] r.history(m) == Seq::<V>::empty(),
    {
        MonitorsPanel {
            fps: Vec::new(),
            memory: Vec::new(),
            draw_calls: Vec::new(),
            physics: Vec::new(),
            selected: Some(Monitor::Fps),
            playing: false,
        }
    }

    /// The monitors the panel can graph, in display order.
    pub fn monitors() -> (r: [Monitor; 4])
        ensures
            r@ == seq![Monitor::Fps, Monitor::Memory, Monitor::DrawCalls, Monitor::Physics],
    {
        [Monitor::Fps, Monitor::Memory, Monitor::DrawCalls, Monitor::Physics]
    }

    /// Begins a play session: sampling is enabled.
    pub fn start_play(&mut self)
        ensures
            final(self).sampling(),
            final(self).wf() == old(self).wf(),
            final(self).selection() == old(self).selection(),
            forall|m: Monitor| #[trigger] final(self).history(m) == old(self).history(m),
    {
        self.playing = true;
    }

    /// Ends the play session: sampling stops and the history is kept.
    pub fn stop_play(&mut self)
        ensures
            !final(self).sampling(),
            final(self).wf() == old(self).wf(),
            final(self).selection() == old(self).selection(),
            forall|m: Monitor| #[trigger] final(self).history(m) == old(self).history(m),
    {
        self.playing = false;
    }

    /// Whether a play session is sampling.
    pub fn is_playing(&self) -> (r: bool)
        ensures
            r == self.sampling(),
    {
        self.playing
    }

    /// Records one time step of metrics while a play session samples;
    /// outside play nothing changes. Returns whether it was recorded.
    pub fn record(&mut self, sample: MonitorSample<V>) -> (r: bool)
        requires
            old(self).wf(),
        ensures
            final(self).wf(),
            r == old(self).sampling(),
            final(self).sampling() == old(self).sampling(),
            final(self).selection() == old(self).selection(),
            forall|m: Monitor| #[trigger] final(self).history(m)
                == if r { old(self).history(m).push(metric(sample, m)) } else { old(self).history(m) },
    {
        if !self.playing {
            return false;
        }
        self.fps.push(sample.fps);
        self.memory.push(sample.memory);
        self.draw_calls.push(sample.draw_calls);
        self.physics.push(sample.physics);
        true
    }

    /// Selects the monitor the graph plots.
    pub fn select(&mut self, monitor: Monitor)
        ensures
            final(self).selection() == Some(monitor),
            final(self).sampling() == old(self).sampling(),
            final(self).wf() == old(self).wf(),
            forall|m: Monitor| #[trigger] final(self).history(m) == old(self).history(m),
    {
        self.selected = Some(monitor);
    }

    /// The selected monitor, if any.
    pub fn selected(&self) -> (r: Option<Monitor>)
        ensures
            r == self.selection(),
    {
        self.selected
    }

    /// The recorded history of `monitor`, oldest first.
    pub fn series(&self, monitor: Monitor) -> (r: &[V])
        ensures
            r@ == self.history(monitor),
    {
        match monitor {
            Monitor::Fps => self.fps.as_slice(),
            Monitor::Memory => self.memory.as_slice(),
            Monitor::DrawCalls => self.draw_calls.as_slice(),
            Monitor::Physics => self.physics.as_slice(),
        }
    }

    /// The points the graph plots: the selected monitor's history, or none
    /// when nothing is selected.
    pub fn graph_points(&self) -> (r: &[V])
        ensures
            r@ == match self.selection() {
                Some(m) => self.history(m),
                None => Seq::<V>::empty(),
            },
    {
        match self.selected {
            Some(monitor) => self.series(monitor),
            None => &[],
        }
    }

    /// The number of time steps sampled so far.
    pub fn sample_count(&self) -> (r: usize)
        requires
            self.wf(),
        ensures
            forall|m: Monitor| r == #[trigger] self.history(m).len(),
    {
        self.fps.len()
    }
}

impl<V: Copy> Default for MonitorsPanel<V> {
    /// An empty panel, not sampling, with no monitor selected.
    fn default() -> (r: Self)
        ensures
            r.wf(),
            r.selection() is None,
            !r.sampling(),
            forall|m: Monitor| #[trigger] r.history(m) == Seq::<V>::empty(),
    {
        MonitorsPanel {
            fps: Vec::new(),
            memory: Vec::new(),
            draw_calls: Vec::new(),
            physics: Vec::new(),
            selected: None,
            playing: false,
        }
    }
}

} // verus!
