use vstd::prelude::*;
use crate::text::{append_chars, chars_of, opt_chars, substring};

verus! {

/// A monitor as the render loop sees it.
pub struct MonitorInfo {
    pub name: String,
    pub width: u32,
    pub height: u32,
    pub refresh_hz: u32,
}

/// The layer a monitor's surface lives on.
#[derive(Clone, Copy, Debug, PartialEq, Eq, Structural)]
pub enum LayerRole {
    /// Beneath every application window.
    Background,
}

/// A monitor together with the layer its surface was created on.
pub struct MonitorSurfaceSpec {
    pub monitor: MonitorInfo,
    pub layer: LayerRole,
}

impl MonitorInfo {
    /// A copy with the same name and mode.
    pub fn duplicate(&self) -> (r: Self)
        ensures
            r.name@ == self.name@,
            r.width == self.width,
            r.height == self.height,
            r.refresh_hz == self.refresh_hz,
    {
        MonitorInfo {
            name: self.name.clone(),
            width: self.width,
            height: self.height,
            refresh_hz: self.refresh_hz,
        }
    }
}

/// The decimal digits of `n`.
pub open spec fn decimal(n: nat) -> Seq<char>
    decreases n,
{
    if n < 10 {
        seq![('0' as u8 + n as u8) as char]
    } else {
        decimal(n / 10).push(('0' as u8 + (n % 10) as u8) as char)
    }
}

/// `n` written in decimal, as `u32`'s `Display` writes it.
pub fn decimal_string(n: u32) -> (r: String)
    ensures
        r@ == decimal(n as nat),
{
    let mut digits: Vec<char> = Vec::new();
    let mut m = n;
    // digits of n, least significant first
    loop
        invariant_except_break
            digits@.len() > 0 ==> m > 0,
        invariant
            m <= n,
            decimal(n as nat) == if digits@.len() == 0 {
                decimal(m as nat)
            } else if m == 0 {
                digits@.reverse()
            } else {
                decimal(m as nat) + digits@.reverse()
            },
        ensures
            m == 0,
            digits@.len() > 0,
        decreases m as int + if digits@.len() == 0 { 1int } else { 0int },
    {
        let d = m % 10;
        let c = ('0' as u8 + d as u8) as char;
        let ghost old_digits = digits@;
        let ghost old_m = m;
        digits.push(c);
        m = m / 10;
        proof {
            assert(digits@.reverse() =~= seq![c] + old_digits.reverse());
            if old_m < 10 {
                assert(decimal(old_m as nat) == seq![c]);
            } else {
                assert(decimal(old_m as nat) == decimal(m as nat).push(c));
                assert(decimal(m as nat).push(c) + old_digits.reverse() =~= decimal(m as nat) + (seq![c]
                    + old_digits.reverse()));
            }
        }
        if m == 0 {
            break;
        }
    }
    let mut out: Vec<char> = Vec::new();
    let mut i = digits.len();
    while i > 0
        invariant
            i <= digits@.len(),
            out@ == digits@.subrange(i as int, digits@.len() as int).reverse(),
        decreases i,
    {
        i = i - 1;
        out.push(digits[i]);
        assert(out@ =~= digits@.subrange(i as int, digits@.len() as int).reverse());
    }
    assert(digits@.subrange(0, digits@.len() as int) =~= digits@);
    substring(&out, 0, out.len())
}


/// A monitor's refresh rate in whole hertz from the compositor's millihertz,
/// rounded half away from zero, at least one.
pub open spec fn refresh_hz_of(mhz: i32) -> u32 {
    if mhz < 500 {
        1
    } else {
        ((mhz as int + 500) / 1000) as u32
    }
}

/// The size a monitor's render target gets: its mode, 1920×1080 while it has
/// none, never zero.
pub open spec fn render_size_of(width: Option<u32>, height: Option<u32>) -> (u32, u32) {
    let w = match width { Some(w) => w, None => 1920u32 };
    let h = match height { Some(h) => h, None => 1080u32 };
    (if w == 0 { 1 } else { w }, if h == 0 { 1 } else { h })
}

pub open spec fn output_name_spec(name: Option<Seq<char>>, global_name: u32) -> Seq<char> {
    match name {
        Some(n) => n,
        None => "wl-output-"@ + decimal(global_name as nat),
    }
}

/// What the compositor has announced about one monitor so far.
pub struct OutputInfo {
    /// The compositor's handle of the monitor.
    pub global_name: u32,
    pub name: Option<String>,
    pub width: Option<u32>,
    pub height: Option<u32>,
    pub refresh_hz: Option<u32>,
}


impl OutputInfo {
    /// A monitor just announced: nothing known but its handle.
    pub fn new(global_name: u32) -> (r: Self)
        ensures
            r.global_name == global_name,
            r.name is None && r.width is None && r.height is None && r.refresh_hz is None,
    {
        OutputInfo { global_name, name: None, width: None, height: None, refresh_hz: None }
    }

    /// Applies a mode event; only the monitor's current mode counts.
    pub fn apply_mode(&mut self, current: bool, width: i32, height: i32, refresh_mhz: i32)
        ensures
            final(self).global_name == old(self).global_name,
            opt_chars(final(self).name) == opt_chars(old(self).name),
            current ==> final(self).width == Some(if width < 1 { 1u32 } else { width as u32 })
                && final(self).height == Some(if height < 1 { 1u32 } else { height as u32 })
                && final(self).refresh_hz == Some(refresh_hz_of(refresh_mhz)),
            !current ==> final(self).width == old(self).width && final(self).height == old(
                self,
            ).height && final(self).refresh_hz == old(self).refresh_hz,
    {
        if current {
            self.width = Some(if width < 1 { 1 } else { width as u32 });
            self.height = Some(if height < 1 { 1 } else { height as u32 });
            let hz: u32 = if refresh_mhz < 500 {
                1
            } else {
                ((refresh_mhz as i64 + 500) / 1000) as u32
            };
            self.refresh_hz = Some(hz);
        }
    }

    /// The monitor's name, or `wl-output-<handle>` while it has none.
    pub fn display_name(&self) -> (r: String)
        ensures
            r@ == output_name_spec(opt_chars(self.name), self.global_name),
    {
        match &self.name {
            Some(n) => n.clone(),
            None => {
                let mut out: Vec<char> = chars_of("wl-output-");
                append_chars(&mut out, decimal_string(self.global_name).as_str());
                substring(&out, 0, out.len())
            },
        }
    }

    /// The monitor as the render loop sees it: 1920×1080 at 60 Hz for what
    /// the compositor has not announced.
    pub fn monitor_info(&self) -> (r: MonitorInfo)
        ensures
            r.name@ == output_name_spec(opt_chars(self.name), self.global_name),
            r.width == match self.width { Some(w) => w, None => 1920u32 },
            r.height == match self.height { Some(h) => h, None => 1080u32 },
            r.refresh_hz == match self.refresh_hz { Some(f) => f, None => 60u32 },
    {
        MonitorInfo {
            name: self.display_name(),
            width: match self.width { Some(w) => w, None => 1920 },
            height: match self.height { Some(h) => h, None => 1080 },
            refresh_hz: match self.refresh_hz { Some(f) => f, None => 60 },
        }
    }

    /// The size of the monitor's render target.
    pub fn render_size(&self) -> (r: (u32, u32))
        ensures
            r == render_size_of(self.width, self.height),
    {
        let w = match self.width { Some(w) => w, None => 1920 };
        let h = match self.height { Some(h) => h, None => 1080 };
        (if w == 0 { 1 } else { w }, if h == 0 { 1 } else { h })
    }
}
} // verus!
