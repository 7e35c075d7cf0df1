use ffgl_sources::align::{h_placement, text_h_placement, v_placement, Placement};
use ffgl_sources::dot_grid::{plan_grid, DotGridRenderer, DotGridState, ALIGN_LEFT, ALIGN_RIGHT, NUM_PARAMS, VALIGN_BOTTOM, VALIGN_TOP};
use ffgl_sources::text_render::{draw_passes, DrawPass, TextRenderer};

#[test]
fn text_alignment_codes() {
    assert_eq!(text_h_placement(0), Placement::Start);
    assert_eq!(text_h_placement(1), Placement::Center);
    assert_eq!(text_h_placement(2), Placement::End);
    assert_eq!(text_h_placement(3), Placement::Start);
    assert_eq!(text_h_placement(9), Placement::Center);
    assert_eq!(Placement::Start.halves(), 0);
    assert_eq!(Placement::Center.halves(), 1);
    assert_eq!(Placement::End.halves(), 2);
}

#[test]
fn vertical_codes_are_bottom_up() {
    assert_eq!(v_placement(0), Placement::End);
    assert_eq!(v_placement(1), Placement::Center);
    assert_eq!(v_placement(2), Placement::Start);
    assert_eq!(v_placement(7), Placement::Center);
    assert_eq!(h_placement(0), Placement::Start);
    assert_eq!(h_placement(2), Placement::End);
    assert_eq!(h_placement(5), Placement::Center);
}

#[test]
fn grid_plan_clamps_and_flips_rows() {
    let g = plan_grid(0, 0, ALIGN_LEFT, VALIGN_TOP);
    assert_eq!((g.columns, g.rows), (1, 1));
    assert_eq!(g.x, Placement::Start);
    assert_eq!(g.y, Placement::End);
    let g = plan_grid(4, 3, ALIGN_RIGHT, VALIGN_BOTTOM);
    assert_eq!((g.columns, g.rows), (4, 3));
    assert_eq!(g.x, Placement::End);
    assert_eq!(g.y, Placement::Start);
    assert_eq!(g.cell(0, 0), (0, 2));
    assert_eq!(g.cell(2, 3), (3, 0));
    let mut seen = std::collections::HashSet::new();
    for row in 0..3 {
        for col in 0..4 {
            assert!(seen.insert(g.cell(row, col)));
        }
    }
    assert_eq!(seen.len(), 12);
    assert_eq!(NUM_PARAMS, 13);
}

#[test]
fn grid_state_redraws_on_resize_and_change() {
    let mut s = DotGridState::new();
    assert!(!s.take_render(0, 0));
    assert!(s.take_render(640, 480));
    assert!(!s.take_render(640, 480));
    assert!(s.take_render(800, 480));
    assert!(!s.take_render(800, 480));
    s.param_changed();
    assert!(s.is_dirty());
    assert!(!s.take_render(0, 480));
    assert!(s.is_dirty());
    assert!(s.take_render(800, 480));
    assert!(!s.is_dirty());
}

#[test]
fn transparent_bitmap_is_all_zero() {
    let r = TextRenderer::transparent(3, 2);
    assert_eq!((r.width, r.height), (3, 2));
    assert_eq!(r.pixels, vec![0u8; 24]);
    let r = TextRenderer::transparent(0, 5);
    assert!(r.pixels.is_empty());
    let d = DotGridRenderer { width: 1, height: 1, pixels: vec![1, 2, 3, 4] };
    assert_eq!(d.pixels.len(), 4);
}

#[test]
fn pass_order_for_each_stroke_position() {
    assert_eq!(draw_passes(false, false, 0), vec![DrawPass::Fill]);
    assert_eq!(draw_passes(true, false, 0), vec![DrawPass::Shadow, DrawPass::Fill]);
    assert_eq!(
        draw_passes(false, true, 0),
        vec![DrawPass::Stroke { width_factor: 1, inside_only: false }, DrawPass::Fill]
    );
    assert_eq!(
        draw_passes(true, true, 1),
        vec![DrawPass::Shadow, DrawPass::Stroke { width_factor: 2, inside_only: false }, DrawPass::Fill]
    );
    assert_eq!(
        draw_passes(false, true, 2),
        vec![DrawPass::Fill, DrawPass::Stroke { width_factor: 2, inside_only: true }]
    );
    assert_eq!(draw_passes(true, true, 9), vec![DrawPass::Shadow, DrawPass::Fill]);
}
