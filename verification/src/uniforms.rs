use vstd::prelude::*;
use crate::fixed::{FX_LIMIT, LIGHT_LIMIT};
use crate::framebuffer::Framebuffer;
use crate::shader::{vertex_shader, vs_spec};
use crate::triangle::{covers_px, shaded, triangle, lemma_flat_index, lemma_pixel_index_bounds};
use crate::vertex::{Fx3, fx3_within, Vertex, vertex_ok};

verus! {

/// A 4x4 homogeneous transform in fixed point, row major: `mRC` is row `R`,
/// column `C`, and a position transforms as `x' = m00*x + m01*y + m02*z + m03*w`.
#[derive(Clone, Copy, PartialEq, Eq, Structural, Debug)]
pub struct Mat4 {
    pub m00: i64, pub m01: i64, pub m02: i64, pub m03: i64,
    pub m10: i64, pub m11: i64, pub m12: i64, pub m13: i64,
    pub m20: i64, pub m21: i64, pub m22: i64, pub m23: i64,
    pub m30: i64, pub m31: i64, pub m32: i64, pub m33: i64,
}

/// All sixteen entries within `lim` in magnitude.
pub open spec fn mat4_within(m: Mat4, lim: int) -> bool {
    &&& -lim <= m.m00 <= lim && -lim <= m.m01 <= lim && -lim <= m.m02 <= lim && -lim <= m.m03
        <= lim
    &&& -lim <= m.m10 <= lim && -lim <= m.m11 <= lim && -lim <= m.m12 <= lim && -lim <= m.m13
        <= lim
    &&& -lim <= m.m20 <= lim && -lim <= m.m21 <= lim && -lim <= m.m22 <= lim && -lim <= m.m23
        <= lim
    &&& -lim <= m.m30 <= lim && -lim <= m.m31 <= lim && -lim <= m.m32 <= lim && -lim <= m.m33
        <= lim
}

/// The per-frame invariant bundle: model transform and directional light.
#[derive(Clone, Copy, PartialEq, Eq, Structural, Debug)]
pub struct Uniforms {
    pub model_matrix: Mat4,
    pub light_dir: Fx3,
}

/// Input bounds under which the whole pipeline's arithmetic stays exact.
pub open spec fn uniforms_ok(u: Uniforms) -> bool {
    &&& mat4_within(u.model_matrix, FX_LIMIT as int)
    &&& fx3_within(u.light_dir, LIGHT_LIMIT as int)
}

/// The color of pixel `(qx, qy)` after the first `k` triangles of the
/// vertex array have been drawn over an original value `orig`: the last
/// triangle (in mesh order) that covers the pixel wins, exactly the
/// painter's-algorithm overwrite rule.
pub open spec fn pixel_after(
    verts: Seq<Vertex>,
    u: Uniforms,
    k: int,
    qx: int,
    qy: int,
    orig: u32,
) -> u32
    decreases k,
{
    if k <= 0 {
        orig
    } else {
        let t0 = vs_spec(verts[3 * (k - 1)], u);
        let t1 = vs_spec(verts[3 * (k - 1) + 1], u);
        let t2 = vs_spec(verts[3 * (k - 1) + 2], u);
        if covers_px(t0, t1, t2, qx, qy) {
            shaded(t0, t1, t2, u.light_dir, qx, qy)
        } else {
            pixel_after(verts, u, k - 1, qx, qy, orig)
        }
    }
}

/// The final color of a pixel after a whole frame: every complete triangle
/// of the vertex array drawn in order over the original framebuffer contents.
pub open spec fn rendered_pixel(
    fb_old: Framebuffer,
    verts: Seq<Vertex>,
    u: Uniforms,
    qx: int,
    qy: int,
) -> u32 {
    pixel_after(verts, u, verts.len() as int / 3, qx, qy, fb_old.buffer@[qy * fb_old.width + qx])
}

/// The per-frame driver: shades the vertex array in groups of three and
/// rasterizes each resulting triangle, in mesh order. A trailing group of
/// fewer than three vertices is ignored.
pub fn render(framebuffer: &mut Framebuffer, uniforms: &Uniforms, vertices: &Vec<Vertex>)
    requires
        old(framebuffer).wf(),
        uniforms_ok(*uniforms),
        forall|i: int| 0 <= i < vertices@.len() ==> vertex_ok(#[trigger] vertices@[i]),
    ensures
        final(framebuffer).wf(),
        final(framebuffer).width == old(framebuffer).width,
        final(framebuffer).height == old(framebuffer).height,
        final(framebuffer).background_color == old(framebuffer).background_color,
        final(framebuffer).current_color == old(framebuffer).current_color,
        final(framebuffer).buffer@.len() == old(framebuffer).buffer@.len(),
        forall|qx: int, qy: int|
            0 <= qx < old(framebuffer).width && 0 <= qy < old(framebuffer).height
                ==> final(framebuffer).buffer@[qy * old(framebuffer).width + qx]
                == #[trigger] rendered_pixel(*old(framebuffer), vertices@, *uniforms, qx, qy),
{
    let ghost orig = *framebuffer;
    let ghost wi_int = old(framebuffer).width as int;
    let n: usize = vertices.len();
    let n_tris: usize = n / 3;
    let mut k: usize = 0;
    while k < n_tris
        invariant
            framebuffer.wf(),
            *framebuffer == (Framebuffer { buffer: framebuffer.buffer, ..orig }),
            framebuffer.buffer@.len() == orig.buffer@.len(),
            orig.wf(),
            orig == *old(framebuffer),
            wi_int == orig.width as int,
            uniforms_ok(*uniforms),
            forall|i: int| 0 <= i < vertices@.len() ==> vertex_ok(#[trigger] vertices@[i]),
            n == vertices@.len(),
            n_tris == n as int / 3,
            k <= n_tris,
            3 * k + 2 < n || k == n_tris,
            forall|i: int|
                0 <= i < orig.buffer@.len() ==> framebuffer.buffer@[i] == pixel_after(
                    vertices@,
                    *uniforms,
                    k as int,
                    i % wi_int,
                    i / wi_int,
                    orig.buffer@[i],
                ),
        decreases n_tris - k,
    {
        let ghost pre = *framebuffer;
        let base: usize = 3 * k;
        let t0 = vertex_shader(&vertices[base], uniforms);
        let t1 = vertex_shader(&vertices[base + 1], uniforms);
        let t2 = vertex_shader(&vertices[base + 2], uniforms);
        triangle(t0, t1, t2, uniforms, framebuffer);
        proof {
            assert forall|i: int| 0 <= i < orig.buffer@.len() implies framebuffer.buffer@[i]
                == pixel_after(
                vertices@,
                *uniforms,
                k + 1,
                i % wi_int,
                i / wi_int,
                orig.buffer@[i],
            ) by {
                assert(orig.buffer@.len() == wi_int * orig.height) by (nonlinear_arith)
                    requires
                        orig.buffer@.len() == orig.width * orig.height,
                        wi_int == orig.width as int,
                ;
                assert(wi_int > 0) by (nonlinear_arith)
                    requires
                        0 <= i < wi_int * orig.height,
                ;
                vstd::arithmetic::div_mod::lemma_fundamental_div_mod(i, wi_int);
                vstd::arithmetic::mul::lemma_mul_is_commutative(wi_int, i / wi_int);
                let qx = i % wi_int;
                let qy = i / wi_int;
                assert(0 <= qx < wi_int) by (nonlinear_arith)
                    requires
                        wi_int > 0,
                        qx == i % wi_int,
                ;
                assert(0 <= qy < orig.height) by (nonlinear_arith)
                    requires
                        wi_int > 0,
                        0 <= i < wi_int * orig.height,
                        i == wi_int * qy + qx,
                        0 <= qx < wi_int,
                ;
                assert(framebuffer.buffer@[qy * framebuffer.width + qx] == (if covers_px(
                    t0, t1, t2, qx, qy,
                ) {
                    shaded(t0, t1, t2, uniforms.light_dir, qx, qy)
                } else {
                    pre.buffer@[qy * framebuffer.width + qx]
                }));
                assert(pre.buffer@[i] == pixel_after(
                    vertices@,
                    *uniforms,
                    k as int,
                    qx,
                    qy,
                    orig.buffer@[i],
                ));
            }
        }
        k = k + 1;
    }
    proof {
        assert forall|qx: int, qy: int|
            0 <= qx < old(framebuffer).width && 0 <= qy < old(framebuffer).height
                implies framebuffer.buffer@[qy * old(framebuffer).width + qx]
                == #[trigger] rendered_pixel(*old(framebuffer), vertices@, *uniforms, qx, qy) by {
            lemma_flat_index(wi_int, qx, qy);
            lemma_pixel_index_bounds(wi_int, orig.height as int, qx, qy);
            let i = qy * wi_int + qx;
            assert(framebuffer.buffer@[i] == pixel_after(
                vertices@,
                *uniforms,
                n_tris as int,
                i % wi_int,
                i / wi_int,
                orig.buffer@[i],
            ));
        }
    }
}

} // verus!
