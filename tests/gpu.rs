use kitsune_rendercore::gpu::{acquire_recovery, choose_surface_format, pick_format_index};
use kitsune_rendercore::render::AcquireAction;

#[test]
fn surface_errors_map_to_actions() {
    assert_eq!(acquire_recovery(&wgpu::SurfaceError::Lost), AcquireAction::Reconfigure);
    assert_eq!(acquire_recovery(&wgpu::SurfaceError::Outdated), AcquireAction::Reconfigure);
    assert_eq!(acquire_recovery(&wgpu::SurfaceError::Timeout), AcquireAction::Skip);
    assert_eq!(acquire_recovery(&wgpu::SurfaceError::Other), AcquireAction::Skip);
    assert_eq!(acquire_recovery(&wgpu::SurfaceError::OutOfMemory), AcquireAction::Fatal);
}

#[test]
fn first_srgb_format_is_preferred() {
    let formats = vec![
        wgpu::TextureFormat::Rgba8Unorm,
        wgpu::TextureFormat::Bgra8UnormSrgb,
        wgpu::TextureFormat::Rgba8UnormSrgb,
    ];
    assert_eq!(choose_surface_format(&formats), Some(1));
    assert_eq!(choose_surface_format(&vec![wgpu::TextureFormat::Rgba16Float]), Some(0));
    assert_eq!(choose_surface_format(&vec![]), None);
}

#[test]
fn format_index_from_flags() {
    assert_eq!(pick_format_index(&vec![false, false, true, true]), Some(2));
    assert_eq!(pick_format_index(&vec![false, false]), Some(0));
    assert_eq!(pick_format_index(&vec![]), None);
}
