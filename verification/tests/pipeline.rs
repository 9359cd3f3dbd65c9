use rasterizer::color::Color;
use rasterizer::framebuffer::Framebuffer;
use rasterizer::shader::{fragment_intensity, vertex_shader};
use rasterizer::triangle::triangle;
use rasterizer::uniforms::{render, Mat4, Uniforms};
use rasterizer::vertex::{Fx3, TransformedVertex, Vertex};

const FX: i64 = 1024;

fn identity_matrix() -> Mat4 {
    Mat4 {
        m00: FX, m01: 0, m02: 0, m03: 0,
        m10: 0, m11: FX, m12: 0, m13: 0,
        m20: 0, m21: 0, m22: FX, m23: 0,
        m30: 0, m31: 0, m32: 0, m33: FX,
    }
}

fn tv(x: i64, y: i64, color: Color) -> TransformedVertex {
    TransformedVertex { x, y, z: 0, normal: Fx3 { x: 0, y: 0, z: FX }, color }
}

fn white() -> Color {
    Color { r: 255, g: 255, b: 255 }
}

fn uniforms_toward_camera() -> Uniforms {
    Uniforms { model_matrix: identity_matrix(), light_dir: Fx3 { x: 0, y: 0, z: FX } }
}

#[test]
fn framebuffer_new_is_black() {
    let fb = Framebuffer::new(4, 3);
    assert_eq!(fb.width, 4);
    assert_eq!(fb.height, 3);
    let buf = fb.get_buffer();
    assert_eq!(buf.len(), 12);
    assert!(buf.iter().all(|&p| p == 0));
}

#[test]
fn clear_fills_background() {
    let mut fb = Framebuffer::new(5, 4);
    fb.set_background_color(0x123456);
    fb.clear();
    for &p in fb.get_buffer() {
        assert_eq!(p, 0x123456);
    }
}

#[test]
fn point_writes_current_color_in_bounds() {
    let mut fb = Framebuffer::new(8, 8);
    fb.set_current_color(0xABCDEF);
    fb.point(3, 2);
    assert_eq!(fb.get_buffer()[2 * 8 + 3], 0xABCDEF);
    assert_eq!(fb.get_buffer().iter().filter(|&&p| p != 0).count(), 1);
}

#[test]
fn point_out_of_range_is_dropped() {
    let mut fb = Framebuffer::new(8, 8);
    fb.set_current_color(0xABCDEF);
    fb.point(8, 0);
    fb.point(0, 8);
    fb.point(usize::MAX, 1);
    fb.point(1, usize::MAX);
    assert!(fb.get_buffer().iter().all(|&p| p == 0));
}

#[test]
fn color_packs_exactly() {
    let c = Color { r: 255, g: 128, b: 64 };
    assert_eq!(c.to_packed(), 0x00FF8040);
}

#[test]
fn color_scales_channelwise() {
    let c = Color { r: 255, g: 100, b: 0 };
    let half = c.scaled(512);
    assert_eq!(half.r, 127);
    assert_eq!(half.g, 50);
    assert_eq!(half.b, 0);
    let full = c.scaled(1024);
    assert_eq!(full, c);
}

#[test]
fn intensity_parallel_is_full() {
    let l = Fx3 { x: 0, y: 0, z: FX };
    assert_eq!(fragment_intensity(l, l), FX);
}

#[test]
fn intensity_opposite_is_zero() {
    let n = Fx3 { x: 0, y: 0, z: -FX };
    let l = Fx3 { x: 0, y: 0, z: FX };
    assert_eq!(fragment_intensity(n, l), 0);
}

#[test]
fn intensity_oblique_light_extremes() {
    let l = Fx3 { x: 300, y: -400, z: 866 };
    let opposite = Fx3 { x: -300, y: 400, z: -866 };
    assert_eq!(fragment_intensity(l, l), FX);
    assert_eq!(fragment_intensity(opposite, l), 0);
}

#[test]
fn degenerate_triangle_paints_nothing() {
    let mut fb = Framebuffer::new(16, 16);
    let u = uniforms_toward_camera();
    // collinear vertices
    triangle(tv(0, 0, white()), tv(5, 5, white()), tv(10, 10, white()), &u, &mut fb);
    // coincident vertices
    triangle(tv(3, 3, white()), tv(3, 3, white()), tv(3, 3, white()), &u, &mut fb);
    assert!(fb.get_buffer().iter().all(|&p| p == 0));
}

#[test]
fn offscreen_triangle_paints_nothing() {
    let mut fb = Framebuffer::new(16, 16);
    let u = uniforms_toward_camera();
    triangle(tv(-30, -30, white()), tv(-20, -30, white()), tv(-30, -20, white()), &u, &mut fb);
    assert!(fb.get_buffer().iter().all(|&p| p == 0));
}

#[test]
fn unit_triangle_end_to_end() {
    let mut fb = Framebuffer::new(16, 16);
    fb.clear();
    let m = identity_matrix();
    let u = Uniforms { model_matrix: m, light_dir: Fx3 { x: 0, y: 0, z: FX } };
    let n = Fx3 { x: 0, y: 0, z: FX };
    let verts = vec![
        Vertex { position: Fx3 { x: 0, y: 0, z: 0 }, normal: n, color: white() },
        Vertex { position: Fx3 { x: 10 * FX, y: 0, z: 0 }, normal: n, color: white() },
        Vertex { position: Fx3 { x: 0, y: 10 * FX, z: 0 }, normal: n, color: white() },
    ];
    render(&mut fb, &u, &verts);
    let buf = fb.get_buffer();
    for y in 0..16i64 {
        for x in 0..16i64 {
            let p = buf[(y * 16 + x) as usize];
            if x + y < 10 {
                assert_eq!(p, 0x00FFFFFF, "pixel ({}, {}) should be white", x, y);
            } else {
                assert_eq!(p, 0, "pixel ({}, {}) should be background", x, y);
            }
        }
    }
}

#[test]
fn shared_edge_no_seam_no_double_draw() {
    let mut fb = Framebuffer::new(16, 16);
    let u = uniforms_toward_camera();
    let blue = Color { r: 0, g: 0, b: 255 };
    // two triangles tiling the square [0,10]x[0,10] along the diagonal
    triangle(tv(0, 0, white()), tv(10, 0, white()), tv(0, 10, white()), &u, &mut fb);
    triangle(tv(10, 0, blue), tv(10, 10, blue), tv(0, 10, blue), &u, &mut fb);
    let buf = fb.get_buffer();
    for y in 0..16i64 {
        for x in 0..16i64 {
            let p = buf[(y * 16 + x) as usize];
            if x >= 10 || y >= 10 {
                assert_eq!(p, 0, "pixel ({}, {}) outside the tiled square", x, y);
            } else if x + y < 10 {
                assert_eq!(p, 0x00FFFFFF, "pixel ({}, {}) belongs to the first triangle", x, y);
            } else {
                assert_eq!(p, 0x000000FF, "pixel ({}, {}) belongs to the second triangle", x, y);
            }
        }
    }
}

#[test]
fn later_triangle_overwrites_earlier() {
    let mut fb = Framebuffer::new(16, 16);
    let u = uniforms_toward_camera();
    let red = Color { r: 255, g: 0, b: 0 };
    triangle(tv(0, 0, white()), tv(10, 0, white()), tv(0, 10, white()), &u, &mut fb);
    triangle(tv(0, 0, red), tv(10, 0, red), tv(0, 10, red), &u, &mut fb);
    let buf = fb.get_buffer();
    assert_eq!(buf[0], 0x00FF0000);
    assert_eq!(buf[3 * 16 + 3], 0x00FF0000);
}

#[test]
fn clockwise_winding_is_filled_too() {
    let mut fb = Framebuffer::new(16, 16);
    let u = uniforms_toward_camera();
    // same triangle as the end-to-end case but with the opposite winding
    triangle(tv(0, 0, white()), tv(0, 10, white()), tv(10, 0, white()), &u, &mut fb);
    let buf = fb.get_buffer();
    assert_eq!(buf[3 * 16 + 3], 0x00FFFFFF);
    assert_eq!(buf[0], 0x00FFFFFF);
}

#[test]
fn vertex_shader_translates_and_rounds() {
    let mut m = identity_matrix();
    m.m03 = 5 * FX + 512;  // translate x by 5.5
    m.m13 = 2 * FX;  // translate y by 2
    let u = Uniforms { model_matrix: m, light_dir: Fx3 { x: 0, y: 0, z: FX } };
    let v = Vertex {
        position: Fx3 { x: 3 * FX, y: 0, z: 0 },
        normal: Fx3 { x: 0, y: 0, z: FX },
        color: white(),
    };
    let t = vertex_shader(&v, &u);
    // 3 + 5.5 rounds to 9 under round-half-up
    assert_eq!(t.x, 9);
    assert_eq!(t.y, 2);
    assert_eq!(t.normal, Fx3 { x: 0, y: 0, z: FX });
    assert_eq!(t.color, white());
}

#[test]
fn vertex_shader_scales_position_and_normal() {
    let mut m = identity_matrix();
    m.m00 = 2 * FX;
    m.m11 = 2 * FX;
    m.m22 = 2 * FX;
    let u = Uniforms { model_matrix: m, light_dir: Fx3 { x: 0, y: 0, z: FX } };
    let v = Vertex {
        position: Fx3 { x: 3 * FX, y: 4 * FX, z: 0 },
        normal: Fx3 { x: 0, y: 0, z: FX },
        color: white(),
    };
    let t = vertex_shader(&v, &u);
    assert_eq!(t.x, 6);
    assert_eq!(t.y, 8);
    // the 3x3 part scales the normal as well: a documented simplification
    assert_eq!(t.normal, Fx3 { x: 0, y: 0, z: 2 * FX });
}

#[test]
fn long_normals_do_not_gate_coverage() {
    // coverage depends on positions alone: a triangle whose transformed
    // normals are far longer than unit scale still paints exactly the
    // pixels that pass the edge tests, at full intensity
    let mut fb = Framebuffer::new(16, 16);
    let u = uniforms_toward_camera();
    let long = Fx3 { x: 0, y: 0, z: 100000 };
    let v = |x: i64, y: i64| TransformedVertex {
        x,
        y,
        z: 0,
        normal: long,
        color: white(),
    };
    triangle(v(0, 0), v(10, 0), v(0, 10), &u, &mut fb);
    let buf = fb.get_buffer();
    assert_eq!(buf[1 * 16 + 3], 0x00FFFFFF);
    for y in 0..16i64 {
        for x in 0..16i64 {
            let p = buf[(y * 16 + x) as usize];
            if x + y < 10 {
                assert_eq!(p, 0x00FFFFFF, "pixel ({}, {}) should be white", x, y);
            } else {
                assert_eq!(p, 0, "pixel ({}, {}) should be background", x, y);
            }
        }
    }
}

#[test]
fn long_normals_shared_edge_has_no_seam() {
    let mut fb = Framebuffer::new(16, 16);
    let u = uniforms_toward_camera();
    let long = Fx3 { x: 0, y: 0, z: 100000 };
    let v = |x: i64, y: i64, c: Color| TransformedVertex { x, y, z: 0, normal: long, color: c };
    let blue = Color { r: 0, g: 0, b: 255 };
    triangle(v(0, 0, white()), v(10, 0, white()), v(0, 10, white()), &u, &mut fb);
    triangle(v(10, 0, blue), v(10, 10, blue), v(0, 10, blue), &u, &mut fb);
    let buf = fb.get_buffer();
    // the shared-edge pixel is painted exactly once, by its owner
    assert_eq!(buf[5 * 16 + 5], 0x000000FF);
    for y in 0..10i64 {
        for x in 0..10i64 {
            let p = buf[(y * 16 + x) as usize];
            assert_ne!(p, 0, "pixel ({}, {}) must not be a seam", x, y);
        }
    }
}

#[test]
fn far_offscreen_vertex_still_covers_screen() {
    // a vertex millions of pixels off screen: the clamped scan box still
    // paints the on-screen part of the triangle
    let mut fb = Framebuffer::new(16, 16);
    let u = uniforms_toward_camera();
    triangle(
        tv(0, 0, white()),
        tv(3000000, 0, white()),
        tv(0, 3000000, white()),
        &u,
        &mut fb,
    );
    let buf = fb.get_buffer();
    for y in 0..16i64 {
        for x in 0..16i64 {
            assert_eq!(buf[(y * 16 + x) as usize], 0x00FFFFFF);
        }
    }
}

#[test]
fn render_ignores_trailing_partial_group() {
    let mut fb = Framebuffer::new(16, 16);
    let u = uniforms_toward_camera();
    let n = Fx3 { x: 0, y: 0, z: FX };
    let verts = vec![
        Vertex { position: Fx3 { x: 0, y: 0, z: 0 }, normal: n, color: white() },
        Vertex { position: Fx3 { x: 5 * FX, y: 0, z: 0 }, normal: n, color: white() },
    ];
    render(&mut fb, &u, &verts);
    assert!(fb.get_buffer().iter().all(|&p| p == 0));
}
