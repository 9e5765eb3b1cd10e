use vstd::prelude::*;
use crate::backend::LayerBackend;
use crate::config::RenderCoreConfig;
use crate::monitor::MonitorSurfaceSpec;
use crate::pause::{gate_step, PauseEdge, PauseGate};
use crate::scheduler::FrameScheduler;
use crate::steam::SteamGameDetector;

verus! {

/// How often the render loop reports the frame count.
pub const FRAME_LOG_EVERY: u64 = 120;

/// What one pass of the render loop did.
#[derive(Clone, Copy, Debug, PartialEq, Eq, Structural)]
pub enum LoopStep {
    /// The pause signal is up: nothing was drawn; the caller sleeps a while.
    Paused { edge: PauseEdge },
    /// One frame was drawn; `log_frame` asks the caller to report `frame`.
    Rendered { edge: PauseEdge, frame: u64, log_frame: bool },
}

/// Drives a backend: bootstraps it, then draws frame after frame, paced to the
/// configured rate and held while a foreground game runs.
pub struct RenderRuntime<B: LayerBackend> {
    config: RenderCoreConfig,
    backend: B,
    surfaces: Vec<MonitorSurfaceSpec>,
    scheduler: FrameScheduler,
    steam_detector: SteamGameDetector,
    pause_gate: PauseGate,
    frame: u64,
}

impl<B: LayerBackend> RenderRuntime<B> {
    pub closed spec fn frame_spec(&self) -> u64 {
        self.frame
    }

    pub closed spec fn max_frames_spec(&self) -> Option<u64> {
        self.config.max_frames
    }

    pub closed spec fn paused_spec(&self) -> bool {
        self.pause_gate.is_paused_spec()
    }

    pub closed spec fn budget_spec(&self) -> int {
        self.scheduler.budget()
    }

    pub closed spec fn detector_spec(&self) -> SteamGameDetector {
        self.steam_detector
    }

    pub closed spec fn backend_spec(&self) -> B {
        self.backend
    }

    pub closed spec fn config_spec(&self) -> RenderCoreConfig {
        self.config
    }

    pub closed spec fn surfaces_spec(&self) -> Seq<MonitorSurfaceSpec> {
        self.surfaces@
    }

    pub closed spec fn scheduler_spec(&self) -> FrameScheduler {
        self.scheduler
    }

    pub fn new(config: RenderCoreConfig, backend: B, steam_detector: SteamGameDetector) -> (r: Self)
        ensures
            r.frame_spec() == 0,
            !r.paused_spec(),
            r.max_frames_spec() == config.max_frames,
            r.budget_spec() == crate::scheduler::budget_for(config.target_fps),
            r.detector_spec() == steam_detector,
            r.config_spec() == config,
            r.backend_spec() == backend,
            r.surfaces_spec().len() == 0,
            r.scheduler_spec().budget() == crate::scheduler::budget_for(config.target_fps),
    {
        let scheduler = FrameScheduler::new(config.target_fps);
        RenderRuntime {
            config,
            backend,
            surfaces: Vec::new(),
            scheduler,
            steam_detector,
            pause_gate: PauseGate::new(),
            frame: 0,
        }
    }

    pub fn config(&self) -> (r: &RenderCoreConfig)
        ensures
            *r == self.config_spec(),
    {
        &self.config
    }

    pub fn backend(&self) -> (r: &B)
        ensures
            *r == self.backend_spec(),
    {
        &self.backend
    }

    pub fn surfaces(&self) -> (r: &Vec<MonitorSurfaceSpec>)
        ensures
            r@ == self.surfaces_spec(),
    {
        &self.surfaces
    }

    pub fn scheduler(&self) -> (r: &FrameScheduler)
        ensures
            *r == self.scheduler_spec(),
    {
        &self.scheduler
    }

    pub fn steam_detector_enabled(&self) -> (r: bool)
        ensures
            r == self.detector_spec().enabled_spec(),
    {
        self.steam_detector.is_enabled()
    }

    pub fn frame_count(&self) -> (r: u64)
        ensures
            r == self.frame_spec(),
    {
        self.frame
    }

    /// Connects the backend, lists the monitors and builds their surfaces,
    /// which it keeps; the first failure is returned as it came, and then the
    /// surfaces are left as they were.
    pub fn bootstrap(&mut self) -> (r: Result<(), String>)
        ensures
            final(self).frame_spec() == old(self).frame_spec(),
            final(self).paused_spec() == old(self).paused_spec(),
            final(self).max_frames_spec() == old(self).max_frames_spec(),
            final(self).config_spec() == old(self).config_spec(),
            final(self).scheduler_spec() == old(self).scheduler_spec(),
            final(self).detector_spec() == old(self).detector_spec(),
            r is Err ==> final(self).surfaces_spec() == old(self).surfaces_spec(),
    {
        match self.backend.bootstrap() {
            Ok(()) => {},
            Err(e) => return Err(e),
        }
        let monitors = match self.backend.discover_monitors() {
            Ok(m) => m,
            Err(e) => return Err(e),
        };
        match self.backend.build_surfaces(monitors.as_slice()) {
            Ok(s) => {
                self.surfaces = s;
                Ok(())
            },
            Err(e) => Err(e),
        }
    }

    /// Whether the loop is done: the configured number of frames was drawn,
    /// or the frame counter is at its end.
    pub fn frame_limit_reached(&self) -> (r: bool)
        ensures
            r == (self.frame_spec() == u64::MAX || match self.max_frames_spec() {
                Some(m) => self.frame_spec() >= m,
                None => false,
            }),
    {
        if self.frame == u64::MAX {
            return true;
        }
        match self.config.max_frames {
            Some(m) => self.frame >= m,
            None => false,
        }
    }

    /// Polls the pause signal at `now`, through the detector's rate limit.
    pub fn steam_game_running<F: FnOnce() -> bool>(&mut self, now: u64, probe: F) -> (r: bool)
        requires
            probe.requires(()),
        ensures
            final(self).frame_spec() == old(self).frame_spec(),
            final(self).paused_spec() == old(self).paused_spec(),
            final(self).max_frames_spec() == old(self).max_frames_spec(),
            final(self).config_spec() == old(self).config_spec(),
            final(self).backend_spec() == old(self).backend_spec(),
            final(self).surfaces_spec() == old(self).surfaces_spec(),
            !old(self).detector_spec().enabled_spec() ==> !r,
            old(self).detector_spec().enabled_spec() && !old(self).detector_spec().probe_due(now)
                ==> r == old(self).detector_spec().last_result_spec(),
            old(self).detector_spec().enabled_spec() && old(self).detector_spec().probe_due(now)
                ==> probe.ensures((), r),
    {
        self.steam_detector.steam_game_running(now, probe)
    }

    /// One pass of the loop, given the pause signal just polled: while it is
    /// up nothing is drawn; otherwise the backend draws one frame and the
    /// counter moves on. The edge to log comes back either way.
    pub fn step(&mut self, game_running: bool) -> (r: Result<LoopStep, String>)
        ensures
            final(self).paused_spec() == gate_step(old(self).paused_spec(), game_running).0,
            final(self).max_frames_spec() == old(self).max_frames_spec(),
            final(self).config_spec() == old(self).config_spec(),
            final(self).surfaces_spec() == old(self).surfaces_spec(),
            final(self).scheduler_spec() == old(self).scheduler_spec(),
            final(self).detector_spec() == old(self).detector_spec(),
            game_running ==> final(self).backend_spec() == old(self).backend_spec(),
            game_running ==> r == Ok::<LoopStep, String>(
                LoopStep::Paused { edge: gate_step(old(self).paused_spec(), game_running).1 },
            ) && final(self).frame_spec() == old(self).frame_spec(),
            !game_running && r is Ok ==> r == Ok::<LoopStep, String>(
                LoopStep::Rendered {
                    edge: gate_step(old(self).paused_spec(), game_running).1,
                    frame: old(self).frame_spec(),
                    log_frame: old(self).frame_spec() % 120 == 0,
                },
            ) && final(self).frame_spec() == if old(self).frame_spec() < u64::MAX {
                (old(self).frame_spec() + 1) as u64
            } else {
                old(self).frame_spec()
            },
            !game_running && r is Err ==> final(self).frame_spec() == old(self).frame_spec(),
    {
        let edge = self.pause_gate.observe(game_running);
        if game_running {
            return Ok(LoopStep::Paused { edge });
        }
        match self.backend.render_frame(self.surfaces.as_slice()) {
            Ok(()) => {},
            Err(e) => return Err(e),
        }
        let frame = self.frame;
        if self.frame < u64::MAX {
            self.frame = self.frame + 1;
        }
        Ok(LoopStep::Rendered { edge, frame, log_frame: frame % FRAME_LOG_EVERY == 0 })
    }
}

} // verus!
