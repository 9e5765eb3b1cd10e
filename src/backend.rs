use vstd::prelude::*;
use crate::monitor::{LayerRole, MonitorInfo, MonitorSurfaceSpec};

verus! {

/// What the render loop needs from a display backend: connect, list the
/// monitors, put a background surface on each, and draw one frame.
pub trait LayerBackend {
    fn name(&self) -> &'static str;

    fn bootstrap(&mut self) -> Result<(), String>;

    fn discover_monitors(&mut self) -> Result<Vec<MonitorInfo>, String>;

    fn build_surfaces(&mut self, monitors: &[MonitorInfo]) -> Result<Vec<MonitorSurfaceSpec>, String>;

    fn render_frame(&mut self, surfaces: &[MonitorSurfaceSpec]) -> Result<(), String>;
}

/// A backend that draws nothing and reports two fixed monitors, for running
/// without a compositor or a GPU.
pub struct WaylandLayerStubBackend {
    bootstrapped: bool,
}

/// The error of a stub used before `bootstrap`.
pub open spec fn not_bootstrapped() -> Seq<char> {
    "backend not bootstrapped"@
}

pub open spec fn same_monitor(a: MonitorInfo, b: MonitorInfo) -> bool {
    a.name@ == b.name@ && a.width == b.width && a.height == b.height && a.refresh_hz == b.refresh_hz
}

impl WaylandLayerStubBackend {
    pub closed spec fn is_bootstrapped(&self) -> bool {
        self.bootstrapped
    }

    pub fn new() -> (r: Self)
        ensures
            !r.is_bootstrapped(),
    {
        WaylandLayerStubBackend { bootstrapped: false }
    }
}

fn fixed_monitor(name: &str) -> (r: MonitorInfo)
    ensures
        r.name@ == name@,
        r.width == 1920,
        r.height == 1080,
        r.refresh_hz == 60,
{
    MonitorInfo { name: name.to_owned(), width: 1920, height: 1080, refresh_hz: 60 }
}

impl LayerBackend for WaylandLayerStubBackend {
    fn name(&self) -> (r: &'static str)
        ensures
            r@ == "wayland-layer-stub"@,
    {
        "wayland-layer-stub"
    }

    fn bootstrap(&mut self) -> (r: Result<(), String>)
        ensures
            r is Ok,
            final(self).is_bootstrapped(),
    {
        self.bootstrapped = true;
        Ok(())
    }

    fn discover_monitors(&mut self) -> (r: Result<Vec<MonitorInfo>, String>)
        ensures
            *final(self) == *old(self),
            !old(self).is_bootstrapped() ==> (r matches Err(e) && e@ == not_bootstrapped()),
            old(self).is_bootstrapped() ==> (r matches Ok(v) && v@.len() == 2 && v@[0].name@
                == "DP-1"@ && v@[1].name@ == "HDMI-A-1"@ && forall|i: int|
                0 <= i < 2 ==> v@[i].width == 1920 && v@[i].height == 1080 && v@[i].refresh_hz
                    == 60),
    {
        if !self.bootstrapped {
            return Err("backend not bootstrapped".to_owned());
        }
        let mut v: Vec<MonitorInfo> = Vec::new();
        v.push(fixed_monitor("DP-1"));
        v.push(fixed_monitor("HDMI-A-1"));
        Ok(v)
    }

    fn build_surfaces(&mut self, monitors: &[MonitorInfo]) -> (r: Result<Vec<MonitorSurfaceSpec>, String>)
        ensures
            *final(self) == *old(self),
            !old(self).is_bootstrapped() ==> (r matches Err(e) && e@ == not_bootstrapped()),
            old(self).is_bootstrapped() ==> (r matches Ok(v) && v@.len() == monitors@.len()
                && forall|i: int|
                0 <= i < v@.len() ==> same_monitor(v@[i].monitor, monitors@[i]) && v@[i].layer
                    == LayerRole::Background),
    {
        if !self.bootstrapped {
            return Err("backend not bootstrapped".to_owned());
        }
        let mut v: Vec<MonitorSurfaceSpec> = Vec::new();
        let mut i: usize = 0;
        while i < monitors.len()
            invariant
                i <= monitors@.len(),
                v@.len() == i,
                forall|k: int|
                    0 <= k < i ==> same_monitor(v@[k].monitor, monitors@[k]) && v@[k].layer
                        == LayerRole::Background,
            decreases monitors@.len() - i,
        {
            v.push(MonitorSurfaceSpec { monitor: monitors[i].duplicate(), layer: LayerRole::Background });
            i = i + 1;
        }
        Ok(v)
    }

    fn render_frame(&mut self, surfaces: &[MonitorSurfaceSpec]) -> (r: Result<(), String>)
        ensures
            *final(self) == *old(self),
            old(self).is_bootstrapped() ==> r is Ok,
            !old(self).is_bootstrapped() ==> (r matches Err(e) && e@ == not_bootstrapped()),
    {
        if !self.bootstrapped {
            return Err("backend not bootstrapped".to_owned());
        }
        Ok(())
    }
}

/// The backend the library itself provides: the stub, until a caller brings
/// a real one.
pub fn create_default_backend() -> (r: WaylandLayerStubBackend)
    ensures
        !r.is_bootstrapped(),
{
    WaylandLayerStubBackend::new()
}

/// What the compositor lacks for background surfaces.
#[derive(Clone, Copy, Debug, PartialEq, Eq, Structural)]
pub enum MissingCapability {
    Compositor,
    LayerShell,
    Outputs,
}

impl MissingCapability {
    pub fn message(&self) -> (r: String)
        ensures
            *self == MissingCapability::Compositor ==> r@ == "wl_compositor is not available"@,
            *self == MissingCapability::LayerShell ==> r@
                == "zwlr_layer_shell_v1 is not available (compositor may not support layer-shell)"@,
            *self == MissingCapability::Outputs ==> r@ == "no wl_output globals discovered"@,
    {
        match self {
            MissingCapability::Compositor => "wl_compositor is not available".to_owned(),
            MissingCapability::LayerShell => "zwlr_layer_shell_v1 is not available (compositor may not support layer-shell)".to_owned(),
            MissingCapability::Outputs => "no wl_output globals discovered".to_owned(),
        }
    }
}

/// The first capability missing after discovery, checked in the order
/// compositor, layer shell, at least one monitor; `None` when all are there.
pub fn missing_capability(has_compositor: bool, has_layer_shell: bool, outputs: usize) -> (r: Option<
    MissingCapability,
>)
    ensures
        !has_compositor ==> r == Some(MissingCapability::Compositor),
        has_compositor && !has_layer_shell ==> r == Some(MissingCapability::LayerShell),
        has_compositor && has_layer_shell && outputs == 0 ==> r == Some(MissingCapability::Outputs),
        has_compositor && has_layer_shell && outputs > 0 ==> r is None,
{
    if !has_compositor {
        Some(MissingCapability::Compositor)
    } else if !has_layer_shell {
        Some(MissingCapability::LayerShell)
    } else if outputs == 0 {
        Some(MissingCapability::Outputs)
    } else {
        None
    }
}

} // verus!
