use vstd::prelude::*;
use crate::text::{chars_of, lower_seq, parse_u32, parse_unsigned, same_chars, to_ascii_lower};

verus! {

/// The source size a quality preset names, any ASCII case.
pub open spec fn preset_size(name: Seq<char>) -> Option<(u32, u32)> {
    let l = lower_seq(name);
    if l == "low"@ || l == "720p"@ {
        Some((1280u32, 720u32))
    } else if l == "medium"@ || l == "1080p"@ {
        Some((1920u32, 1080u32))
    } else if l == "high"@ || l == "1440p"@ {
        Some((2560u32, 1440u32))
    } else if l == "ultra"@ || l == "4k"@ || l == "2160p"@ {
        Some((3840u32, 2160u32))
    } else {
        None
    }
}

/// The source size a quality preset names.
pub fn quality_preset(name: &str) -> (r: Option<(u32, u32)>)
    ensures
        r == preset_size(name@),
{
    let l = to_ascii_lower(&chars_of(name));
    if same_chars(&l, &chars_of("low")) || same_chars(&l, &chars_of("720p")) {
        Some((1280, 720))
    } else if same_chars(&l, &chars_of("medium")) || same_chars(&l, &chars_of("1080p")) {
        Some((1920, 1080))
    } else if same_chars(&l, &chars_of("high")) || same_chars(&l, &chars_of("1440p")) {
        Some((2560, 1440))
    } else if same_chars(&l, &chars_of("ultra")) || same_chars(&l, &chars_of("4k")) || same_chars(
        &l,
        &chars_of("2160p"),
    ) {
        Some((3840, 2160))
    } else {
        None
    }
}

/// A positive `u32` from a setting, if it holds one.
pub open spec fn positive_setting(v: Option<Seq<char>>) -> Option<u32> {
    match v {
        Some(s) => match parse_unsigned(s, u32::MAX as int) {
            Some(n) => if n > 0 {
                Some(n as u32)
            } else {
                None
            },
            None => None,
        },
        None => None,
    }
}

pub open spec fn opt_seq(v: Option<&str>) -> Option<Seq<char>> {
    match v {
        Some(s) => Some(s@),
        None => None,
    }
}

fn positive_u32(v: Option<&str>) -> (r: Option<u32>)
    ensures
        r == positive_setting(opt_seq(v)),
{
    match v {
        Some(s) => match parse_u32(s) {
            Some(n) => if n > 0 {
                Some(n)
            } else {
                None
            },
            None => None,
        },
        None => None,
    }
}

/// The source size asked for: the quality preset's (960×540 without one),
/// with each dimension replaced by a positive override.
pub open spec fn requested_size(
    quality: Option<Seq<char>>,
    width: Option<Seq<char>>,
    height: Option<Seq<char>>,
) -> (u32, u32) {
    let base = match quality {
        Some(q) => match preset_size(q) {
            Some(p) => p,
            None => (960u32, 540u32),
        },
        None => (960u32, 540u32),
    };
    (
        match positive_setting(width) { Some(w) => w, None => base.0 },
        match positive_setting(height) { Some(h) => h, None => base.1 },
    )
}

/// A source size that the GPU can hold: unchanged when both dimensions fit
/// `max_dim`, else scaled by `max_dim / max(w, h)`, rounded down, at least 1.
pub open spec fn clamped_size(w: u32, h: u32, max_dim: u32) -> (u32, u32) {
    if w <= max_dim && h <= max_dim {
        (w, h)
    } else {
        let d: int = if w >= h { w as int } else { h as int };
        let cw = (w as int * max_dim as int) / d;
        let ch = (h as int * max_dim as int) / d;
        ((if cw < 1 { 1 } else { cw }) as u32, (if ch < 1 { 1 } else { ch }) as u32)
    }
}

/// Fits a requested source size into the GPU's largest texture dimension,
/// keeping its aspect.
pub fn clamp_source_size(w: u32, h: u32, max_dim: u32) -> (r: (u32, u32))
    ensures
        r == clamped_size(w, h, max_dim),
{
    if w <= max_dim && h <= max_dim {
        return (w, h);
    }
    let d: u64 = if w >= h { w as u64 } else { h as u64 };
    proof {
        assert((w as int) * (max_dim as int) <= 0xFFFF_FFFFint * 0xFFFF_FFFFint) by (nonlinear_arith)
            requires
                w <= 0xFFFF_FFFFint,
                max_dim <= 0xFFFF_FFFFint,
        ;
        assert((h as int) * (max_dim as int) <= 0xFFFF_FFFFint * 0xFFFF_FFFFint) by (nonlinear_arith)
            requires
                h <= 0xFFFF_FFFFint,
                max_dim <= 0xFFFF_FFFFint,
        ;
    }
    let cw: u64 = (w as u64) * (max_dim as u64) / d;
    let ch: u64 = (h as u64) * (max_dim as u64) / d;
    proof {
        assert((w as int) * (max_dim as int) / (d as int) <= w as int) by (nonlinear_arith)
            requires
                d >= 1,
                (max_dim as int) < (d as int),
        ;
        assert((h as int) * (max_dim as int) / (d as int) <= h as int) by (nonlinear_arith)
            requires
                d >= 1,
                (max_dim as int) < (d as int),
        ;
    }
    (if cw < 1 { 1 } else { cw as u32 }, if ch < 1 { 1 } else { ch as u32 })
}

/// The fixed size of every monitor's source texture: what the quality preset
/// and the overrides ask for, fitted to the GPU's largest texture dimension.
pub fn choose_source_resolution(
    quality: Option<&str>,
    width: Option<&str>,
    height: Option<&str>,
    max_dim: u32,
) -> (r: (u32, u32))
    ensures
        r == clamped_size(
            requested_size(opt_seq(quality), opt_seq(width), opt_seq(height)).0,
            requested_size(opt_seq(quality), opt_seq(width), opt_seq(height)).1,
            max_dim,
        ),
{
    let base = match quality {
        Some(q) => match quality_preset(q) {
            Some(p) => p,
            None => (960, 540),
        },
        None => (960, 540),
    };
    let w = match positive_u32(width) {
        Some(w) => w,
        None => base.0,
    };
    let h = match positive_u32(height) {
        Some(h) => h,
        None => base.1,
    };
    clamp_source_size(w, h, max_dim)
}

/// A clamped source size fits the GPU, is never empty, and keeps the aspect
/// ratio up to rounding: the cross products `w'·h` and `h'·w` differ by less
/// than `w + h`.
pub proof fn lemma_clamp_fits(w: u32, h: u32, max_dim: u32)
    requires
        w >= 1,
        h >= 1,
        max_dim >= 1,
    ensures
        clamped_size(w, h, max_dim).0 <= max_dim,
        clamped_size(w, h, max_dim).1 <= max_dim,
        clamped_size(w, h, max_dim).0 >= 1,
        clamped_size(w, h, max_dim).1 >= 1,
        w <= max_dim && h <= max_dim ==> clamped_size(w, h, max_dim) == (w, h),
        ({
            let (cw, ch) = clamped_size(w, h, max_dim);
            let diff = cw as int * h as int - ch as int * w as int;
            -(w as int + h as int) < diff < w as int + h as int
        }),
{
    if !(w <= max_dim && h <= max_dim) {
        let d: int = if w >= h { w as int } else { h as int };
        let m = max_dim as int;
        let wi = w as int;
        let hi = h as int;
        let cw = (wi * m) / d;
        let ch = (hi * m) / d;
        assert(cw <= m && ch <= m) by (nonlinear_arith)
            requires
                cw == (wi * m) / d,
                ch == (hi * m) / d,
                wi <= d,
                hi <= d,
                d >= 1,
                m >= 1,
        ;
        let fw: int = if cw < 1 { 1 } else { cw };
        let fh: int = if ch < 1 { 1 } else { ch };
        // each rounded side is within one of the exact scaled side
        assert(fw * d - wi * m > -d && fw * d - wi * m < d) by (nonlinear_arith)
            requires
                cw == (wi * m) / d,
                fw == if cw < 1 { 1 } else { cw },
                d >= 1,
                wi >= 1,
                m >= 1,
                m < d,
        ;
        assert(fh * d - hi * m > -d && fh * d - hi * m < d) by (nonlinear_arith)
            requires
                ch == (hi * m) / d,
                fh == if ch < 1 { 1 } else { ch },
                d >= 1,
                hi >= 1,
                m >= 1,
                m < d,
        ;
        assert(-(wi + hi) < fw * hi - fh * wi < wi + hi) by (nonlinear_arith)
            requires
                fw * d - wi * m > -d,
                fw * d - wi * m < d,
                fh * d - hi * m > -d,
                fh * d - hi * m < d,
                d >= 1,
                wi >= 1,
                hi >= 1,
                wi <= d,
                hi <= d,
        ;
    }
}

/// One RGBA pixel of the placeholder image: diagonal gradients with a 32-pixel
/// checker of slightly brighter squares.
pub open spec fn placeholder_pixel(x: int, y: int, w: int, h: int) -> Seq<u8> {
    let stripe = ((x / 32) + (y / 32)) % 2;
    seq![
        (30 + (150 * x) / w + 40 * stripe) as u8,
        (40 + (170 * y) / h) as u8,
        (80 + (100 * (w - x)) / w + 35 * stripe) as u8,
        255u8,
    ]
}

/// The four bytes of pixel `k` in an RGBA buffer.
pub open spec fn pixel_at(v: Seq<u8>, k: int) -> Seq<u8> {
    v.subrange(4 * k, 4 * k + 4)
}

/// The byte length of one RGBA frame of `width × height` pixels.
pub fn frame_len(width: u32, height: u32) -> (r: usize)
    requires
        width as int * height as int * 4 <= u32::MAX,
    ensures
        r == width as int * height as int * 4,
{
    (width * height * 4) as usize
}

/// The placeholder image shown on a monitor without video, row by row.
pub fn procedural_pixels(width: u32, height: u32) -> (r: Vec<u8>)
    requires
        width as int * height as int * 4 <= u32::MAX,
    ensures
        r@.len() == width as int * height as int * 4,
        forall|k: int|
            0 <= k < width as int * height as int ==> #[trigger] pixel_at(r@, k)
                == placeholder_pixel(k % (width as int), k / (width as int), width as int, height as int),
{
    let n: u32 = width * height;
    let mut pixels: Vec<u8> = Vec::new();
    let mut k: u32 = 0;
    while k < n
        invariant
            k <= n,
            n as int == width as int * height as int,
            n as int * 4 <= u32::MAX,
            pixels@.len() == 4 * k,
            forall|j: int|
                0 <= j < k ==> #[trigger] pixel_at(pixels@, j) == placeholder_pixel(
                    j % (width as int),
                    j / (width as int),
                    width as int,
                    height as int,
                ),
        decreases n - k,
    {
        proof {
            assert(width >= 1 && height >= 1) by (nonlinear_arith)
                requires
                    k < n,
                    n as int == width as int * height as int,
            ;
        }
        let x = k % width;
        let y = k / width;
        proof {
            assert(y < height) by (nonlinear_arith)
                requires
                    y == k / width,
                    k < width as int * height as int,
                    width >= 1,
            ;
        }
        let xw: u64 = x as u64;
        let yw: u64 = y as u64;
        let w64: u64 = width as u64;
        let h64: u64 = height as u64;
        let stripe: u64 = ((xw / 32) + (yw / 32)) % 2;
        proof {
            assert((150 * xw as int) / (w64 as int) <= 150) by (nonlinear_arith)
                requires
                    xw < w64,
                    w64 >= 1,
            ;
            assert((170 * yw as int) / (h64 as int) <= 170) by (nonlinear_arith)
                requires
                    yw < h64,
                    h64 >= 1,
            ;
            assert((100 * (w64 - xw) as int) / (w64 as int) <= 100) by (nonlinear_arith)
                requires
                    xw < w64,
                    w64 >= 1,
            ;
        }
        let r0: u64 = 30 + (150 * xw) / w64 + 40 * stripe;
        let g0: u64 = 40 + (170 * yw) / h64;
        let b0: u64 = 80 + (100 * (w64 - xw)) / w64 + 35 * stripe;
        let ghost before = pixels@;
        pixels.push(r0 as u8);
        pixels.push(g0 as u8);
        pixels.push(b0 as u8);
        pixels.push(255u8);
        proof {
            assert forall|j: int|
                0 <= j < k + 1 implies #[trigger] pixel_at(pixels@, j) == placeholder_pixel(
                j % (width as int),
                j / (width as int),
                width as int,
                height as int,
            ) by {
                if j < k {
                    assert(pixel_at(pixels@, j) =~= pixel_at(before, j));
                } else {
                    assert(pixel_at(pixels@, j) =~= seq![
                        r0 as u8,
                        g0 as u8,
                        b0 as u8,
                        255u8,
                    ]);
                }
            }
        }
        k = k + 1;
    }
    pixels
}

/// Why a presentable image could not be had.
#[derive(Clone, Copy, Debug, PartialEq, Eq, Structural)]
pub enum AcquireFailure {
    Timeout,
    Outdated,
    Lost,
    OutOfMemory,
    Other,
}

/// What the render loop does about it.
#[derive(Clone, Copy, Debug, PartialEq, Eq, Structural)]
pub enum AcquireAction {
    /// Reconfigure the render target and try once more.
    Reconfigure,
    /// Leave the monitor out of this frame.
    Skip,
    /// Stop rendering with an error.
    Fatal,
}

pub open spec fn acquire_action_spec(f: AcquireFailure) -> AcquireAction {
    match f {
        AcquireFailure::Lost | AcquireFailure::Outdated => AcquireAction::Reconfigure,
        AcquireFailure::Timeout | AcquireFailure::Other => AcquireAction::Skip,
        AcquireFailure::OutOfMemory => AcquireAction::Fatal,
    }
}

/// A lost or outdated target is reconfigured and retried, a timeout or an
/// unspecified failure skips the monitor for this frame, and running out of
/// memory is fatal.
pub fn acquire_action(f: AcquireFailure) -> (r: AcquireAction)
    ensures
        r == acquire_action_spec(f),
        (f == AcquireFailure::Lost || f == AcquireFailure::Outdated) <==> r
            == AcquireAction::Reconfigure,
        (f == AcquireFailure::Timeout || f == AcquireFailure::Other) <==> r == AcquireAction::Skip,
        f == AcquireFailure::OutOfMemory <==> r == AcquireAction::Fatal,
{
    match f {
        AcquireFailure::Lost | AcquireFailure::Outdated => AcquireAction::Reconfigure,
        AcquireFailure::Timeout | AcquireFailure::Other => AcquireAction::Skip,
        AcquireFailure::OutOfMemory => AcquireAction::Fatal,
    }
}

/// Whether a render target of size `current` must be reconfigured to follow
/// its monitor, now of size `wanted`.
pub fn needs_reconfigure(current: (u32, u32), wanted: (u32, u32)) -> (r: bool)
    ensures
        r == (current != wanted),
{
    current.0 != wanted.0 || current.1 != wanted.1
}

/// How presented frames are queued.
#[derive(Clone, Copy, Debug, PartialEq, Eq, Structural)]
pub enum PresentChoice {
    /// Replace a waiting frame: no tearing, lowest latency.
    Mailbox,
    /// Queue behind vertical sync; every surface supports it.
    Fifo,
}

/// Mailbox where the surface supports it, else FIFO.
pub fn choose_present_mode(mailbox_supported: bool) -> (r: PresentChoice)
    ensures
        mailbox_supported <==> r == PresentChoice::Mailbox,
{
    if mailbox_supported {
        PresentChoice::Mailbox
    } else {
        PresentChoice::Fifo
    }
}

} // verus!
