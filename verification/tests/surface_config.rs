use voxel_render::surface::{
    choose_present_mode, choose_surface_format, clamp_extent, swapchain_image_count, SurfaceCaps,
    SurfaceFormat,
};

fn caps() -> SurfaceCaps {
    SurfaceCaps {
        min_image_count: 2,
        max_image_count: 8,
        min_width: 100,
        max_width: 2000,
        min_height: 50,
        max_height: 1000,
    }
}

#[test]
fn preferred_format_picked_when_reported() {
    let formats = vec![
        SurfaceFormat { format: 44, color_space: 0 },
        SurfaceFormat { format: 50, color_space: 0 },
        SurfaceFormat { format: 50, color_space: 1 },
    ];
    let chosen = choose_surface_format(&formats);
    assert_eq!(chosen, SurfaceFormat { format: 50, color_space: 0 });
}

#[test]
fn first_format_is_fallback() {
    let formats = vec![
        SurfaceFormat { format: 44, color_space: 0 },
        SurfaceFormat { format: 37, color_space: 1 },
    ];
    let chosen = choose_surface_format(&formats);
    assert_eq!(chosen, SurfaceFormat { format: 44, color_space: 0 });
}

#[test]
fn mailbox_mode_picked_when_reported() {
    assert_eq!(choose_present_mode(&vec![0, 2, 1]), 1);
}

#[test]
fn fifo_mode_is_fallback() {
    assert_eq!(choose_present_mode(&vec![0, 2, 3]), 2);
    assert_eq!(choose_present_mode(&vec![]), 2);
}

#[test]
fn extent_clamped_to_caps() {
    assert_eq!(clamp_extent(800, 600, &caps()), (800, 600));
    assert_eq!(clamp_extent(10, 5000, &caps()), (100, 1000));
    assert_eq!(clamp_extent(5000, 10, &caps()), (2000, 50));
}

#[test]
fn image_count_is_min_plus_one_capped() {
    assert_eq!(swapchain_image_count(&caps()), 3);
    let tight = SurfaceCaps { min_image_count: 2, max_image_count: 2, ..caps() };
    assert_eq!(swapchain_image_count(&tight), 2);
}
