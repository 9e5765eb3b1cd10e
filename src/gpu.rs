use vstd::prelude::*;
use crate::render::{acquire_action, acquire_action_spec, AcquireAction, AcquireFailure};

verus! {

/// `wgpu::SurfaceError`, whose five variants carry no data.
#[verifier::external_type_specification]
pub struct ExSurfaceError(wgpu::SurfaceError);

/// `wgpu::TextureFormat`, with its variants visible.
#[verifier::external_type_specification]
pub struct ExTextureFormat(wgpu::TextureFormat);

/// `wgpu::AstcBlock`, the block size of an ASTC format.
#[verifier::external_type_specification]
pub struct ExAstcBlock(wgpu::AstcBlock);

/// `wgpu::AstcChannel`, the channel type of an ASTC format.
#[verifier::external_type_specification]
pub struct ExAstcChannel(wgpu::AstcChannel);

/// The formats that store sRGB-encoded colour: those that
/// `TextureFormat::remove_srgb_suffix` changes.
pub open spec fn srgb_format(f: wgpu::TextureFormat) -> bool {
    ||| f matches wgpu::TextureFormat::Rgba8UnormSrgb
    ||| f matches wgpu::TextureFormat::Bgra8UnormSrgb
    ||| f matches wgpu::TextureFormat::Bc1RgbaUnormSrgb
    ||| f matches wgpu::TextureFormat::Bc2RgbaUnormSrgb
    ||| f matches wgpu::TextureFormat::Bc3RgbaUnormSrgb
    ||| f matches wgpu::TextureFormat::Bc7RgbaUnormSrgb
    ||| f matches wgpu::TextureFormat::Etc2Rgb8UnormSrgb
    ||| f matches wgpu::TextureFormat::Etc2Rgb8A1UnormSrgb
    ||| f matches wgpu::TextureFormat::Etc2Rgba8UnormSrgb
    ||| f matches wgpu::TextureFormat::Astc { channel: wgpu::AstcChannel::UnormSrgb, .. }
}

/// The library's name for each of `wgpu::SurfaceError`'s variants.
pub open spec fn failure_spec(e: wgpu::SurfaceError) -> AcquireFailure {
    match e {
        wgpu::SurfaceError::Timeout => AcquireFailure::Timeout,
        wgpu::SurfaceError::Outdated => AcquireFailure::Outdated,
        wgpu::SurfaceError::Lost => AcquireFailure::Lost,
        wgpu::SurfaceError::OutOfMemory => AcquireFailure::OutOfMemory,
        wgpu::SurfaceError::Other => AcquireFailure::Other,
    }
}

fn failure_of(e: &wgpu::SurfaceError) -> (r: AcquireFailure)
    ensures
        r == failure_spec(*e),
{
    match e {
        wgpu::SurfaceError::Timeout => AcquireFailure::Timeout,
        wgpu::SurfaceError::Outdated => AcquireFailure::Outdated,
        wgpu::SurfaceError::Lost => AcquireFailure::Lost,
        wgpu::SurfaceError::OutOfMemory => AcquireFailure::OutOfMemory,
        wgpu::SurfaceError::Other => AcquireFailure::Other,
    }
}

/// Relies on `wgpu::TextureFormat::is_srgb`: true exactly when
/// `remove_srgb_suffix` changes the format, which it does for the sRGB
/// variants and for ASTC with the `UnormSrgb` channel.
#[verifier::external_body]
fn format_is_srgb(f: &wgpu::TextureFormat) -> (r: bool)
    ensures
        r == srgb_format(*f),
{
    f.is_srgb()
}

/// What to do when a presentable image could not be acquired: reconfigure
/// and retry on `Lost` or `Outdated`, skip the monitor on `Timeout` or
/// `Other`, give up on `OutOfMemory`.
pub fn acquire_recovery(e: &wgpu::SurfaceError) -> (r: AcquireAction)
    ensures
        r == acquire_action_spec(failure_spec(*e)),
{
    let f = failure_of(e);
    acquire_action(f)
}

/// The position of the first `true` in `srgb`, else 0 when it is not empty:
/// how a surface format (the first sRGB one) and an alpha mode (automatic if
/// offered) are chosen among those a surface supports.
pub fn pick_format_index(srgb: &Vec<bool>) -> (r: Option<usize>)
    ensures
        srgb@.len() == 0 <==> r is None,
        r matches Some(i) ==> i < srgb@.len(),
        (exists|k: int| 0 <= k < srgb@.len() && srgb@[k]) ==> (r matches Some(i) && srgb@[i as int]
            && forall|k: int| 0 <= k < i ==> !srgb@[k]),
        (forall|k: int| 0 <= k < srgb@.len() ==> !srgb@[k]) && srgb@.len() > 0 ==> r == Some(
            0usize,
        ),
{
    let mut i: usize = 0;
    while i < srgb.len()
        invariant
            i <= srgb@.len(),
            forall|k: int| 0 <= k < i ==> !srgb@[k],
        decreases srgb@.len() - i,
    {
        if srgb[i] {
            return Some(i);
        }
        i = i + 1;
    }
    if srgb.len() == 0 {
        None
    } else {
        Some(0)
    }
}

/// The render target's format among those the surface supports: the first
/// sRGB one, else the first; `None` when it supports none.
pub fn choose_surface_format(formats: &Vec<wgpu::TextureFormat>) -> (r: Option<usize>)
    ensures
        formats@.len() == 0 <==> r is None,
        r matches Some(i) ==> i < formats@.len(),
        (exists|k: int| 0 <= k < formats@.len() && srgb_format(formats@[k])) ==> (r matches Some(i)
            && srgb_format(formats@[i as int]) && forall|k: int|
            0 <= k < i ==> !srgb_format(formats@[k])),
        (forall|k: int| 0 <= k < formats@.len() ==> !srgb_format(formats@[k])) && formats@.len() > 0
            ==> r == Some(0usize),
{
    let mut srgb: Vec<bool> = Vec::new();
    let mut i: usize = 0;
    while i < formats.len()
        invariant
            i <= formats@.len(),
            srgb@.len() == i,
            forall|k: int| 0 <= k < i ==> srgb@[k] == srgb_format(formats@[k]),
        decreases formats@.len() - i,
    {
        srgb.push(format_is_srgb(&formats[i]));
        i = i + 1;
    }
    let r = pick_format_index(&srgb);
    proof {
        if exists|k: int| 0 <= k < formats@.len() && srgb_format(formats@[k]) {
            let k = choose|k: int| 0 <= k < formats@.len() && srgb_format(formats@[k]);
            assert(srgb@[k]);
            let i = r->0;
            assert(srgb@[i as int] == srgb_format(formats@[i as int]));
            assert forall|m: int| 0 <= m < i implies !srgb_format(formats@[m]) by {
                assert(srgb@[m] == srgb_format(formats@[m]));
            }
        }
        if forall|k: int| 0 <= k < formats@.len() ==> !srgb_format(formats@[k]) {
            assert forall|k: int| 0 <= k < srgb@.len() implies !srgb@[k] by {
                assert(srgb@[k] == srgb_format(formats@[k]));
            }
        }
    }
    r
}

} // verus!
