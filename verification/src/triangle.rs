use vstd::prelude::*;
use crate::color::pack_spec;
use crate::fixed::{
    div_floor, lemma_div_le_multiple, lemma_div_magnitude_bound, COORD_LIMIT, FX_ONE,
    LIGHT_LIMIT,
};
use crate::framebuffer::Framebuffer;
use crate::shader::{intensity_of, shade_fragment, unit_normal, unit_normal_spec, Fragment};
use crate::uniforms::Uniforms;
use crate::vertex::{fx3_within, Fx3, TransformedVertex};

verus! {

/// The signed-area edge function: twice the signed area of the triangle
/// `(a, b, p)`. Positive when `p` lies to the left of the directed edge
/// `a -> b`, zero when `p` lies on its line.
pub open spec fn edge_fn(ax: int, ay: int, bx: int, by: int, px: int, py: int) -> int {
    (bx - ax) * (py - ay) - (by - ay) * (px - ax)
}

/// The fill rule's tie break: a directed edge owns the pixels on its line
/// exactly when it points toward decreasing `y`, or is horizontal and points
/// toward increasing `x`. The two directions of one segment make opposite
/// choices, so a pixel on an edge shared by two consistently wound triangles
/// is owned by exactly one of them.
pub open spec fn edge_owns_boundary(ax: int, ay: int, bx: int, by: int) -> bool {
    by < ay || (by == ay && bx > ax)
}

/// Whether the half-plane test of the directed edge `a -> b` accepts pixel
/// `(px, py)`: strictly inside, or on the line of an edge that owns its
/// boundary.
pub open spec fn edge_accepts(ax: int, ay: int, bx: int, by: int, px: int, py: int) -> bool {
    let w = edge_fn(ax, ay, bx, by, px, py);
    w > 0 || (w == 0 && edge_owns_boundary(ax, ay, bx, by))
}

/// Twice the signed area of the triangle.
pub open spec fn tri_area(v0: TransformedVertex, v1: TransformedVertex, v2: TransformedVertex) -> int {
    edge_fn(v0.x as int, v0.y as int, v1.x as int, v1.y as int, v2.x as int, v2.y as int)
}

/// The rasterizer's inside test for a counter-oriented (positive-area)
/// triangle: all three directed edges accept the pixel center.
pub open spec fn covers(
    v0: TransformedVertex,
    v1: TransformedVertex,
    v2: TransformedVertex,
    px: int,
    py: int,
) -> bool {
    &&& edge_accepts(v1.x as int, v1.y as int, v2.x as int, v2.y as int, px, py)
    &&& edge_accepts(v2.x as int, v2.y as int, v0.x as int, v0.y as int, px, py)
    &&& edge_accepts(v0.x as int, v0.y as int, v1.x as int, v1.y as int, px, py)
}

/// Coordinate bounds under which rasterization arithmetic is exact in
/// `i64`. Only the screen position matters here: whether a pixel is covered
/// never depends on the vertex normals.
pub open spec fn vertex_in_range(v: TransformedVertex) -> bool {
    &&& -COORD_LIMIT <= v.x <= COORD_LIMIT
    &&& -COORD_LIMIT <= v.y <= COORD_LIMIT
}

pub open spec fn tri_in_range(
    v0: TransformedVertex,
    v1: TransformedVertex,
    v2: TransformedVertex,
) -> bool {
    vertex_in_range(v0) && vertex_in_range(v1) && vertex_in_range(v2)
}

/// Whether the triangle produces fragments at all: its geometry is within
/// the supported range and it is not degenerate. Either winding is filled;
/// a clockwise triple is rewound before scanning.
pub open spec fn tri_paints(
    v0: TransformedVertex,
    v1: TransformedVertex,
    v2: TransformedVertex,
) -> bool {
    tri_in_range(v0, v1, v2) && tri_area(v0, v1, v2) != 0
}

/// The full inside test for an arbitrary triple: rewinds a clockwise
/// triangle, rejects degenerate or out-of-range ones.
pub open spec fn covers_px(
    v0: TransformedVertex,
    v1: TransformedVertex,
    v2: TransformedVertex,
    px: int,
    py: int,
) -> bool {
    &&& tri_paints(v0, v1, v2)
    &&& if tri_area(v0, v1, v2) > 0 {
        covers(v0, v1, v2, px, py)
    } else {
        covers(v0, v2, v1, px, py)
    }
}

/// Barycentric interpolation of one attribute: the weighted sum of the
/// three vertex values, divided by the triangle's area.
pub open spec fn interp3(w0: int, w1: int, w2: int, a0: int, a1: int, a2: int, area: int) -> int {
    (w0 * a0 + w1 * a1 + w2 * a2) / area
}

/// The color a covered pixel of a positive-area triangle is shaded with:
/// each vertex normal is brought to unit fixed-point scale, then normal and
/// base color are interpolated barycentrically, the Lambert intensity is
/// computed, and the scaled channels are packed.
pub open spec fn frag_color(
    v0: TransformedVertex,
    v1: TransformedVertex,
    v2: TransformedVertex,
    light: Fx3,
    px: int,
    py: int,
) -> int {
    let area = tri_area(v0, v1, v2);
    let w0 = edge_fn(v1.x as int, v1.y as int, v2.x as int, v2.y as int, px, py);
    let w1 = edge_fn(v2.x as int, v2.y as int, v0.x as int, v0.y as int, px, py);
    let w2 = edge_fn(v0.x as int, v0.y as int, v1.x as int, v1.y as int, px, py);
    let (u0x, u0y, u0z) = unit_normal_spec(v0.normal);
    let (u1x, u1y, u1z) = unit_normal_spec(v1.normal);
    let (u2x, u2y, u2z) = unit_normal_spec(v2.normal);
    let nx = interp3(w0, w1, w2, u0x, u1x, u2x, area);
    let ny = interp3(w0, w1, w2, u0y, u1y, u2y, area);
    let nz = interp3(w0, w1, w2, u0z, u1z, u2z, area);
    let cr = interp3(w0, w1, w2, v0.color.r as int, v1.color.r as int, v2.color.r as int, area);
    let cg = interp3(w0, w1, w2, v0.color.g as int, v1.color.g as int, v2.color.g as int, area);
    let cb = interp3(w0, w1, w2, v0.color.b as int, v1.color.b as int, v2.color.b as int, area);
    let i = intensity_of(nx, ny, nz, light.x as int, light.y as int, light.z as int);
    pack_spec(cr * i / (FX_ONE as int), cg * i / (FX_ONE as int), cb * i / (FX_ONE as int))
}

/// The packed color written at a pixel covered by an arbitrary triple:
/// dispatches on winding as `covers_px` does.
pub open spec fn shaded(
    v0: TransformedVertex,
    v1: TransformedVertex,
    v2: TransformedVertex,
    light: Fx3,
    px: int,
    py: int,
) -> u32 {
    if tri_area(v0, v1, v2) > 0 {
        frag_color(v0, v1, v2, light, px, py) as u32
    } else {
        frag_color(v0, v2, v1, light, px, py) as u32
    }
}

/// A degenerate triangle (zero area: collinear or coincident vertices)
/// covers no pixel at all, so rasterizing it changes nothing.
pub proof fn lemma_degenerate(v0: TransformedVertex, v1: TransformedVertex, v2: TransformedVertex)
    requires
        tri_area(v0, v1, v2) == 0,
    ensures
        forall|px: int, py: int| !covers_px(v0, v1, v2, px, py),
{
}

/// The shared-edge law. Two positive-area triangles that share the segment
/// `a-b` with consistent winding (`a -> b` in the first, `b -> a` in the
/// second) never both cover one pixel; and a pixel on the shared line that
/// passes the four remaining edge tests is covered by exactly one of them:
/// no seam and no double draw along a shared edge.
pub proof fn lemma_shared_edge(
    va: TransformedVertex,
    vb: TransformedVertex,
    vc: TransformedVertex,
    vd: TransformedVertex,
    px: int,
    py: int,
)
    requires
        tri_area(va, vb, vc) > 0,
        tri_area(vb, va, vd) > 0,
    ensures
        !(covers(va, vb, vc, px, py) && covers(vb, va, vd, px, py)),
        (edge_fn(va.x as int, va.y as int, vb.x as int, vb.y as int, px, py) == 0 && (va.x
            != vb.x || va.y != vb.y) && edge_accepts(
            vb.x as int, vb.y as int, vc.x as int, vc.y as int, px, py,
        ) && edge_accepts(vc.x as int, vc.y as int, va.x as int, va.y as int, px, py)
            && edge_accepts(va.x as int, va.y as int, vd.x as int, vd.y as int, px, py)
            && edge_accepts(vd.x as int, vd.y as int, vb.x as int, vb.y as int, px, py)) ==> (
        covers(va, vb, vc, px, py) <==> !covers(vb, va, vd, px, py)),
{
    lemma_edge_antisym(va.x as int, va.y as int, vb.x as int, vb.y as int, px, py);
}

/// The cross product of two plane vectors.
pub open spec fn cross(ux: int, uy: int, vx: int, vy: int) -> int {
    ux * vy - uy * vx
}

/// An edge function is the cross product of the two vertices taken relative
/// to the queried point.
pub proof fn lemma_edge_rel(ax: int, ay: int, bx: int, by: int, px: int, py: int)
    ensures
        edge_fn(ax, ay, bx, by, px, py) == cross(ax - px, ay - py, bx - px, by - py),
{
    assert((bx - ax) * (py - ay) - (by - ay) * (px - ax) == (ax - px) * (by - py) - (ay - py)
        * (bx - px)) by (nonlinear_arith);
}

/// The three edge functions of a triangle sum to its area, for every point.
pub proof fn lemma_edge_sum(
    x0: int, y0: int, x1: int, y1: int, x2: int, y2: int, px: int, py: int,
)
    ensures
        edge_fn(x1, y1, x2, y2, px, py) + edge_fn(x2, y2, x0, y0, px, py) + edge_fn(
            x0, y0, x1, y1, px, py,
        ) == edge_fn(x0, y0, x1, y1, x2, y2),
{
    let u0x = x0 - px;
    let u0y = y0 - py;
    let u1x = x1 - px;
    let u1y = y1 - py;
    let u2x = x2 - px;
    let u2y = y2 - py;
    lemma_edge_rel(x1, y1, x2, y2, px, py);
    lemma_edge_rel(x2, y2, x0, y0, px, py);
    lemma_edge_rel(x0, y0, x1, y1, px, py);
    lemma_edge_rel(x0, y0, x1, y1, x2, y2);
    assert((x0 - x2) * (y1 - y2) - (y0 - y2) * (x1 - x2) == (u1x * u2y - u1y * u2x) + (u2x
        * u0y - u2y * u0x) + (u0x * u1y - u0y * u1x)) by (nonlinear_arith)
        requires
            u0x == x0 - px && u0y == y0 - py && u1x == x1 - px && u1y == y1 - py && u2x == x2
                - px && u2y == y2 - py,
    ;
}

/// The barycentric position identity: edge weights recombine the vertex
/// coordinates into `area` times the point.
pub proof fn lemma_barycentric(
    x0: int, y0: int, x1: int, y1: int, x2: int, y2: int, px: int, py: int,
)
    ensures
        edge_fn(x1, y1, x2, y2, px, py) * x0 + edge_fn(x2, y2, x0, y0, px, py) * x1 + edge_fn(
            x0, y0, x1, y1, px, py,
        ) * x2 == edge_fn(x0, y0, x1, y1, x2, y2) * px,
        edge_fn(x1, y1, x2, y2, px, py) * y0 + edge_fn(x2, y2, x0, y0, px, py) * y1 + edge_fn(
            x0, y0, x1, y1, px, py,
        ) * y2 == edge_fn(x0, y0, x1, y1, x2, y2) * py,
{
    let u0x = x0 - px;
    let u0y = y0 - py;
    let u1x = x1 - px;
    let u1y = y1 - py;
    let u2x = x2 - px;
    let u2y = y2 - py;
    let w0 = edge_fn(x1, y1, x2, y2, px, py);
    let w1 = edge_fn(x2, y2, x0, y0, px, py);
    let w2 = edge_fn(x0, y0, x1, y1, px, py);
    lemma_edge_sum(x0, y0, x1, y1, x2, y2, px, py);
    lemma_edge_rel(x1, y1, x2, y2, px, py);
    lemma_edge_rel(x2, y2, x0, y0, px, py);
    lemma_edge_rel(x0, y0, x1, y1, px, py);
    // weighted relative coordinates cancel exactly
    assert((u1x * u2y - u1y * u2x) * u0x + (u2x * u0y - u2y * u0x) * u1x + (u0x * u1y - u0y
        * u1x) * u2x == 0) by (nonlinear_arith);
    assert((u1x * u2y - u1y * u2x) * u0y + (u2x * u0y - u2y * u0x) * u1y + (u0x * u1y - u0y
        * u1x) * u2y == 0) by (nonlinear_arith);
    // translate back: w_i * x_i == w_i * u_ix + w_i * px
    assert(w0 * x0 == w0 * u0x + w0 * px && w1 * x1 == w1 * u1x + w1 * px && w2 * x2 == w2
        * u2x + w2 * px) by (nonlinear_arith)
        requires
            x0 == u0x + px && x1 == u1x + px && x2 == u2x + px,
    ;
    assert(w0 * y0 == w0 * u0y + w0 * py && w1 * y1 == w1 * u1y + w1 * py && w2 * y2 == w2
        * u2y + w2 * py) by (nonlinear_arith)
        requires
            y0 == u0y + py && y1 == u1y + py && y2 == u2y + py,
    ;
    assert((w0 + w1 + w2) * px == w0 * px + w1 * px + w2 * px) by (nonlinear_arith);
    assert((w0 + w1 + w2) * py == w0 * py + w1 * py + w2 * py) by (nonlinear_arith);
}

/// Swapping two vertices negates the area.
pub proof fn lemma_area_swap(
    v0: TransformedVertex,
    v1: TransformedVertex,
    v2: TransformedVertex,
)
    ensures
        tri_area(v0, v2, v1) == -tri_area(v0, v1, v2),
{
    let x0 = v0.x as int;
    let y0 = v0.y as int;
    let x1 = v1.x as int;
    let y1 = v1.y as int;
    let x2 = v2.x as int;
    let y2 = v2.y as int;
    assert((x2 - x0) * (y1 - y0) - (y2 - y0) * (x1 - x0) == -((x1 - x0) * (y2 - y0) - (y1
        - y0) * (x2 - x0))) by (nonlinear_arith);
}

/// Reversing a directed edge negates its edge function everywhere.
pub proof fn lemma_edge_antisym(ax: int, ay: int, bx: int, by: int, px: int, py: int)
    ensures
        edge_fn(bx, by, ax, ay, px, py) == -edge_fn(ax, ay, bx, by, px, py),
{
    assert((ax - bx) * (py - by) - (ay - by) * (px - bx) == -((bx - ax) * (py - ay) - (by
        - ay) * (px - ax))) by (nonlinear_arith);
}

/// A pixel accepted by all three edges of a positive-area triangle lies
/// within the triangle's coordinate bounding box.
pub proof fn lemma_cover_in_bbox(
    v0: TransformedVertex,
    v1: TransformedVertex,
    v2: TransformedVertex,
    px: int,
    py: int,
)
    requires
        tri_area(v0, v1, v2) > 0,
        covers(v0, v1, v2, px, py),
    ensures
        v0.x <= px || v1.x <= px || v2.x <= px,
        px <= v0.x || px <= v1.x || px <= v2.x,
        v0.y <= py || v1.y <= py || v2.y <= py,
        py <= v0.y || py <= v1.y || py <= v2.y,
{
    let x0 = v0.x as int;
    let y0 = v0.y as int;
    let x1 = v1.x as int;
    let y1 = v1.y as int;
    let x2 = v2.x as int;
    let y2 = v2.y as int;
    let area = edge_fn(x0, y0, x1, y1, x2, y2);
    let w0 = edge_fn(x1, y1, x2, y2, px, py);
    let w1 = edge_fn(x2, y2, x0, y0, px, py);
    let w2 = edge_fn(x0, y0, x1, y1, px, py);
    lemma_edge_sum(x0, y0, x1, y1, x2, y2, px, py);
    lemma_barycentric(x0, y0, x1, y1, x2, y2, px, py);
    assert(px <= x0 || px <= x1 || px <= x2) by (nonlinear_arith)
        requires
            w0 >= 0,
            w1 >= 0,
            w2 >= 0,
            area > 0,
            w0 + w1 + w2 == area,
            w0 * x0 + w1 * x1 + w2 * x2 == area * px,
    ;
    assert(x0 <= px || x1 <= px || x2 <= px) by (nonlinear_arith)
        requires
            w0 >= 0,
            w1 >= 0,
            w2 >= 0,
            area > 0,
            w0 + w1 + w2 == area,
            w0 * x0 + w1 * x1 + w2 * x2 == area * px,
    ;
    assert(py <= y0 || py <= y1 || py <= y2) by (nonlinear_arith)
        requires
            w0 >= 0,
            w1 >= 0,
            w2 >= 0,
            area > 0,
            w0 + w1 + w2 == area,
            w0 * y0 + w1 * y1 + w2 * y2 == area * py,
    ;
    assert(y0 <= py || y1 <= py || y2 <= py) by (nonlinear_arith)
        requires
            w0 >= 0,
            w1 >= 0,
            w2 >= 0,
            area > 0,
            w0 + w1 + w2 == area,
            w0 * y0 + w1 * y1 + w2 * y2 == area * py,
    ;
}

/// A pixel's row-major index lies within the surface.
pub proof fn lemma_pixel_index_bounds(w: int, h: int, x: int, y: int)
    requires
        0 <= x < w,
        0 <= y < h,
    ensures
        0 <= y * w + x < w * h,
{
    assert(0 <= y * w + x < w * h) by (nonlinear_arith)
        requires
            0 <= x < w,
            0 <= y < h,
    ;
}

/// A flat row-major index decomposes back into its pixel coordinates.
pub proof fn lemma_flat_index(w: int, qx: int, qy: int)
    requires
        w > 0,
        0 <= qx < w,
        0 <= qy,
    ensures
        (qy * w + qx) % w == qx,
        (qy * w + qx) / w == qy,
{
    vstd::arithmetic::div_mod::lemma_fundamental_div_mod_converse(qy * w + qx, w, qy, qx);
}

/// The signed-area edge function on machine integers.
fn edge_i64(ax: i64, ay: i64, bx: i64, by: i64, px: i64, py: i64) -> (w: i64)
    requires
        -0x1000000 <= ax <= 0x1000000,
        -0x1000000 <= ay <= 0x1000000,
        -0x1000000 <= bx <= 0x1000000,
        -0x1000000 <= by <= 0x1000000,
        -0x1000000 <= px <= 0x1000000,
        -0x1000000 <= py <= 0x1000000,
    ensures
        w == edge_fn(ax as int, ay as int, bx as int, by as int, px as int, py as int),
        -0x8000000000000 <= w <= 0x8000000000000,
{
    proof {
        assert(-0x4000000000000 <= (bx - ax) * (py - ay) <= 0x4000000000000
            && -0x4000000000000 <= (by - ay) * (px - ax) <= 0x4000000000000)
            by (nonlinear_arith)
            requires
                -0x2000000 <= bx - ax <= 0x2000000,
                -0x2000000 <= py - ay <= 0x2000000,
                -0x2000000 <= by - ay <= 0x2000000,
                -0x2000000 <= px - ax <= 0x2000000,
        ;
    }
    (bx - ax) * (py - ay) - (by - ay) * (px - ax)
}

/// Rasterizes and shades one triangle: scans the clamped bounding box and,
/// for exactly the pixels accepted by the fill rule, writes the shaded
/// fragment color. Every other pixel of the framebuffer is untouched;
/// degenerate, out-of-range or off-screen triangles paint nothing.
#[verifier::rlimit(100)]
pub fn triangle(
    v0: TransformedVertex,
    v1: TransformedVertex,
    v2: TransformedVertex,
    uniforms: &Uniforms,
    framebuffer: &mut Framebuffer,
)
    requires
        old(framebuffer).wf(),
        fx3_within(uniforms.light_dir, LIGHT_LIMIT as int),
    ensures
        final(framebuffer).wf(),
        final(framebuffer).width == old(framebuffer).width,
        final(framebuffer).height == old(framebuffer).height,
        final(framebuffer).background_color == old(framebuffer).background_color,
        final(framebuffer).current_color == old(framebuffer).current_color,
        final(framebuffer).buffer@.len() == old(framebuffer).buffer@.len(),
        forall|qx: int, qy: int|
            0 <= qx < old(framebuffer).width && 0 <= qy < old(framebuffer).height
                ==> final(framebuffer).buffer@[qy * old(framebuffer).width + qx] == (if covers_px(
                v0, v1, v2, qx, qy,
            ) {
                shaded(v0, v1, v2, uniforms.light_dir, qx, qy)
            } else {
                old(framebuffer).buffer@[qy * old(framebuffer).width + qx]
            }),
{
    let in_range = |v: TransformedVertex| -> (r: bool)
        ensures
            r == vertex_in_range(v),
        {
            -COORD_LIMIT <= v.x && v.x <= COORD_LIMIT && -COORD_LIMIT <= v.y && v.y
                <= COORD_LIMIT
        };
    if !in_range(v0) || !in_range(v1) || !in_range(v2) {
        return ;
    }
    let area0: i64 = edge_i64(v0.x, v0.y, v1.x, v1.y, v2.x, v2.y);
    if area0 == 0 {
        return ;
    }
    let swapped: bool = area0 < 0;
    let a: TransformedVertex = v0;
    let b: TransformedVertex = if swapped { v2 } else { v1 };
    let c: TransformedVertex = if swapped { v1 } else { v2 };
    proof {
        lemma_area_swap(v0, v1, v2);
    }
    let area: i64 = edge_i64(a.x, a.y, b.x, b.y, c.x, c.y);
    let ghost light: Fx3 = uniforms.light_dir;
    let ua: Fx3 = unit_normal(a.normal);
    let ub: Fx3 = unit_normal(b.normal);
    let uc: Fx3 = unit_normal(c.normal);

    let wi: i64 = framebuffer.width as i64;
    let hi: i64 = framebuffer.height as i64;
    let mut min_x: i64 = a.x;
    if b.x < min_x {
        min_x = b.x;
    }
    if c.x < min_x {
        min_x = c.x;
    }
    let mut max_x: i64 = a.x;
    if b.x > max_x {
        max_x = b.x;
    }
    if c.x > max_x {
        max_x = c.x;
    }
    let mut min_y: i64 = a.y;
    if b.y < min_y {
        min_y = b.y;
    }
    if c.y < min_y {
        min_y = c.y;
    }
    let mut max_y: i64 = a.y;
    if b.y > max_y {
        max_y = b.y;
    }
    if c.y > max_y {
        max_y = c.y;
    }
    if min_x < 0 {
        min_x = 0;
    }
    if max_x > wi - 1 {
        max_x = wi - 1;
    }
    if min_y < 0 {
        min_y = 0;
    }
    if max_y > hi - 1 {
        max_y = hi - 1;
    }
    if min_x > max_x || min_y > max_y {
        proof {
            assert forall|qx: int, qy: int|
                0 <= qx < framebuffer.width && 0 <= qy < framebuffer.height implies !covers(
                a, b, c, qx, qy,
            ) by {
                if covers(a, b, c, qx, qy) {
                    lemma_cover_in_bbox(a, b, c, qx, qy);
                }
            }
        }
        return ;
    }

    let ghost orig = *framebuffer;
    let width_px: usize = framebuffer.width;
    let ghost wi_int = width_px as int;
    let mut py: i64 = min_y;
    while py <= max_y
        invariant
            framebuffer.wf(),
            *framebuffer == (Framebuffer { buffer: framebuffer.buffer, ..orig }),
            framebuffer.buffer@.len() == orig.buffer@.len(),
            orig.wf(),
            width_px == orig.width,
            wi_int == width_px as int,
            min_y <= py <= max_y + 1,
            0 <= min_x <= max_x < orig.width,
            0 <= min_y <= max_y < orig.height,
            orig.width <= 0x100000,
            orig.height <= 0x100000,
            vertex_in_range(a) && vertex_in_range(b) && vertex_in_range(c),
            (ua.x as int, ua.y as int, ua.z as int) == unit_normal_spec(a.normal),
            (ub.x as int, ub.y as int, ub.z as int) == unit_normal_spec(b.normal),
            (uc.x as int, uc.y as int, uc.z as int) == unit_normal_spec(c.normal),
            fx3_within(ua, FX_ONE as int),
            fx3_within(ub, FX_ONE as int),
            fx3_within(uc, FX_ONE as int),
            area == tri_area(a, b, c),
            area > 0,
            light == uniforms.light_dir,
            fx3_within(light, LIGHT_LIMIT as int),
            forall|i: int|
                0 <= i < orig.buffer@.len() ==> framebuffer.buffer@[i] == (if min_x <= i
                    % wi_int <= max_x && min_y <= i / wi_int && i / wi_int < py && covers(
                    a, b, c, i % wi_int, i / wi_int,
                ) {
                    shaded_canon(a, b, c, light, i % wi_int, i / wi_int)
                } else {
                    orig.buffer@[i]
                }),
        decreases max_y + 1 - py,
    {
        let mut px: i64 = min_x;
        while px <= max_x
            invariant
                framebuffer.wf(),
                *framebuffer == (Framebuffer { buffer: framebuffer.buffer, ..orig }),
                framebuffer.buffer@.len() == orig.buffer@.len(),
                orig.wf(),
                width_px == orig.width,
                wi_int == width_px as int,
                min_y <= py <= max_y,
                min_x <= px <= max_x + 1,
                0 <= min_x <= max_x < orig.width,
                0 <= min_y <= max_y < orig.height,
                orig.width <= 0x100000,
                orig.height <= 0x100000,
                vertex_in_range(a) && vertex_in_range(b) && vertex_in_range(c),
                (ua.x as int, ua.y as int, ua.z as int) == unit_normal_spec(a.normal),
                (ub.x as int, ub.y as int, ub.z as int) == unit_normal_spec(b.normal),
                (uc.x as int, uc.y as int, uc.z as int) == unit_normal_spec(c.normal),
                fx3_within(ua, FX_ONE as int),
                fx3_within(ub, FX_ONE as int),
                fx3_within(uc, FX_ONE as int),
                area == tri_area(a, b, c),
                area > 0,
                light == uniforms.light_dir,
                fx3_within(light, LIGHT_LIMIT as int),
                forall|i: int|
                    0 <= i < orig.buffer@.len() ==> framebuffer.buffer@[i] == (if min_x <= i
                        % wi_int <= max_x && min_y <= i / wi_int && (i / wi_int < py || (i
                        / wi_int == py && i % wi_int < px)) && covers(
                        a, b, c, i % wi_int, i / wi_int,
                    ) {
                        shaded_canon(a, b, c, light, i % wi_int, i / wi_int)
                    } else {
                        orig.buffer@[i]
                    }),
            decreases max_x + 1 - px,
        {
            let ghost pre = *framebuffer;
            proof {
                lemma_flat_index(wi_int, px as int, py as int);
                lemma_pixel_index_bounds(wi_int, orig.height as int, px as int, py as int);
            }
            let w0: i64 = edge_i64(b.x, b.y, c.x, c.y, px, py);
            let w1: i64 = edge_i64(c.x, c.y, a.x, a.y, px, py);
            let w2: i64 = edge_i64(a.x, a.y, b.x, b.y, px, py);
            let acc0: bool = w0 > 0 || (w0 == 0 && (c.y < b.y || (c.y == b.y && c.x > b.x)));
            let acc1: bool = w1 > 0 || (w1 == 0 && (a.y < c.y || (a.y == c.y && a.x > c.x)));
            let acc2: bool = w2 > 0 || (w2 == 0 && (b.y < a.y || (b.y == a.y && b.x > a.x)));
            if acc0 && acc1 && acc2 {
                proof {
                    lemma_edge_sum(
                        a.x as int,
                        a.y as int,
                        b.x as int,
                        b.y as int,
                        c.x as int,
                        c.y as int,
                        px as int,
                        py as int,
                    );
                    assert(-(w0 * 1024) <= w0 * ua.x <= w0 * 1024 && -(w0 * 1024) <= w0
                        * ua.y <= w0 * 1024 && -(w0 * 1024) <= w0 * ua.z <= w0 * 1024 && 0
                        <= w0 * a.color.r <= w0 * 255 && 0 <= w0 * a.color.g <= w0 * 255 && 0
                        <= w0 * a.color.b <= w0 * 255) by (nonlinear_arith)
                        requires
                            w0 >= 0,
                            -1024 <= ua.x <= 1024,
                            -1024 <= ua.y <= 1024,
                            -1024 <= ua.z <= 1024,
                            0 <= a.color.r <= 255,
                            0 <= a.color.g <= 255,
                            0 <= a.color.b <= 255,
                    ;
                    assert(-(w1 * 1024) <= w1 * ub.x <= w1 * 1024 && -(w1 * 1024) <= w1
                        * ub.y <= w1 * 1024 && -(w1 * 1024) <= w1 * ub.z <= w1 * 1024 && 0
                        <= w1 * b.color.r <= w1 * 255 && 0 <= w1 * b.color.g <= w1 * 255 && 0
                        <= w1 * b.color.b <= w1 * 255) by (nonlinear_arith)
                        requires
                            w1 >= 0,
                            -1024 <= ub.x <= 1024,
                            -1024 <= ub.y <= 1024,
                            -1024 <= ub.z <= 1024,
                            0 <= b.color.r <= 255,
                            0 <= b.color.g <= 255,
                            0 <= b.color.b <= 255,
                    ;
                    assert(-(w2 * 1024) <= w2 * uc.x <= w2 * 1024 && -(w2 * 1024) <= w2
                        * uc.y <= w2 * 1024 && -(w2 * 1024) <= w2 * uc.z <= w2 * 1024 && 0
                        <= w2 * c.color.r <= w2 * 255 && 0 <= w2 * c.color.g <= w2 * 255 && 0
                        <= w2 * c.color.b <= w2 * 255) by (nonlinear_arith)
                        requires
                            w2 >= 0,
                            -1024 <= uc.x <= 1024,
                            -1024 <= uc.y <= 1024,
                            -1024 <= uc.z <= 1024,
                            0 <= c.color.r <= 255,
                            0 <= c.color.g <= 255,
                            0 <= c.color.b <= 255,
                    ;
                }
                let nsx: i64 = w0 * ua.x + w1 * ub.x + w2 * uc.x;
                let nsy: i64 = w0 * ua.y + w1 * ub.y + w2 * uc.y;
                let nsz: i64 = w0 * ua.z + w1 * ub.z + w2 * uc.z;
                let csr: i64 = w0 * (a.color.r as i64) + w1 * (b.color.r as i64) + w2
                    * (c.color.r as i64);
                let csg: i64 = w0 * (a.color.g as i64) + w1 * (b.color.g as i64) + w2
                    * (c.color.g as i64);
                let csb: i64 = w0 * (a.color.b as i64) + w1 * (b.color.b as i64) + w2
                    * (c.color.b as i64);
                proof {
                    lemma_div_magnitude_bound(nsx as int, area as int, 1024);
                    lemma_div_magnitude_bound(nsy as int, area as int, 1024);
                    lemma_div_magnitude_bound(nsz as int, area as int, 1024);
                    lemma_div_le_multiple(csr as int, area as int, 255);
                    lemma_div_le_multiple(csg as int, area as int, 255);
                    lemma_div_le_multiple(csb as int, area as int, 255);
                }
                let nx: i64 = div_floor(nsx, area);
                let ny: i64 = div_floor(nsy, area);
                let nz: i64 = div_floor(nsz, area);
                let cr: i64 = div_floor(csr, area);
                let cg: i64 = div_floor(csg, area);
                let cb: i64 = div_floor(csb, area);
                let frag = Fragment {
                    x: px,
                    y: py,
                    normal: Fx3 { x: nx, y: ny, z: nz },
                    color: crate::color::Color { r: cr as u8, g: cg as u8, b: cb as u8 },
                };
                let col = shade_fragment(&frag, uniforms.light_dir);
                let packed: u32 = col.to_packed();
                framebuffer.put_pixel(px as usize, py as usize, packed);
                proof {
                    assert(packed == frag_color(a, b, c, light, px as int, py as int));
                    assert(covers(a, b, c, px as int, py as int));
                }
            } else {
                proof {
                    assert(!covers(a, b, c, px as int, py as int));
                }
            }
            proof {
                let ghost idx = py as int * wi_int + px as int;
                assert forall|i: int| 0 <= i < orig.buffer@.len() implies framebuffer.buffer@[i]
                    == (if min_x <= i % wi_int <= max_x && min_y <= i / wi_int && (i / wi_int
                    < py || (i / wi_int == py && i % wi_int < px + 1)) && covers(
                    a, b, c, i % wi_int, i / wi_int,
                ) {
                    shaded_canon(a, b, c, light, i % wi_int, i / wi_int)
                } else {
                    orig.buffer@[i]
                }) by {
                    vstd::arithmetic::div_mod::lemma_fundamental_div_mod(i, wi_int);
                    vstd::arithmetic::mul::lemma_mul_is_commutative(wi_int, i / wi_int);
                    assert(pre.buffer@[i] == (if min_x <= i % wi_int <= max_x && min_y <= i
                        / wi_int && (i / wi_int < py || (i / wi_int == py && i % wi_int < px))
                        && covers(a, b, c, i % wi_int, i / wi_int) {
                        shaded_canon(a, b, c, light, i % wi_int, i / wi_int)
                    } else {
                        orig.buffer@[i]
                    }));
                    if i != idx {
                        assert(framebuffer.buffer@[i] == pre.buffer@[i]);
                    }
                }
            }
            px = px + 1;
        }
        proof {
            assert forall|i: int| 0 <= i < orig.buffer@.len() implies framebuffer.buffer@[i]
                == (if min_x <= i % wi_int <= max_x && min_y <= i / wi_int && i / wi_int < py
                + 1 && covers(a, b, c, i % wi_int, i / wi_int) {
                shaded_canon(a, b, c, light, i % wi_int, i / wi_int)
            } else {
                orig.buffer@[i]
            }) by {
                assert(framebuffer.buffer@[i] == (if min_x <= i % wi_int <= max_x && min_y <= i
                    / wi_int && (i / wi_int < py || (i / wi_int == py && i % wi_int < max_x
                    + 1)) && covers(a, b, c, i % wi_int, i / wi_int) {
                    shaded_canon(a, b, c, light, i % wi_int, i / wi_int)
                } else {
                    orig.buffer@[i]
                }));
            }
        }
        py = py + 1;
    }
    proof {
        assert forall|qx: int, qy: int|
            0 <= qx < framebuffer.width && 0 <= qy < framebuffer.height
                implies framebuffer.buffer@[qy * framebuffer.width + qx] == (if covers_px(
            v0, v1, v2, qx, qy,
        ) {
            shaded(v0, v1, v2, light, qx, qy)
        } else {
            old(framebuffer).buffer@[qy * framebuffer.width + qx]
        }) by {
            lemma_flat_index(wi_int, qx, qy);
            lemma_pixel_index_bounds(wi_int, orig.height as int, qx, qy);
            let i = qy * wi_int + qx;
            assert(framebuffer.buffer@[i] == (if min_x <= qx <= max_x && min_y <= qy < py
                && covers(a, b, c, qx, qy) {
                shaded_canon(a, b, c, light, qx, qy)
            } else {
                orig.buffer@[i]
            }));
            if covers(a, b, c, qx, qy) {
                lemma_cover_in_bbox(a, b, c, qx, qy);
            }
        }
    }
}

/// The color written for a covered pixel of an already-canonical
/// (positive-area) triple.
pub open spec fn shaded_canon(
    a: TransformedVertex,
    b: TransformedVertex,
    c: TransformedVertex,
    light: Fx3,
    px: int,
    py: int,
) -> u32 {
    frag_color(a, b, c, light, px, py) as u32
}

} // verus!
