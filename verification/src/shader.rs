use vstd::prelude::*;
use vstd::arithmetic::div_mod::lemma_div_pos_is_pos;
use crate::color::Color;
use crate::fixed::{
    div_floor, fx_mul, is_sqrt_floor, isqrt, sqrt_floor, lemma_div_magnitude_bound, FX_HALF,
    FX_LIMIT, FX_ONE, LIGHT_LIMIT, NORMAL_LIMIT,
};
use crate::uniforms::{Uniforms, uniforms_ok};
use crate::vertex::{fx3_within, Fx3, TransformedVertex, Vertex, vertex_ok};

verus! {

/// One row of the homogeneous transform applied to a position: three
/// fixed-point products, rescaled, plus the translation entry (the input's
/// `w` component is 1.0).
pub open spec fn row_apply(m0: int, m1: int, m2: int, m3: int, p: Fx3) -> int {
    (m0 * p.x) / (FX_ONE as int) + (m1 * p.y) / (FX_ONE as int) + (m2 * p.z) / (FX_ONE as int)
        + m3
}

/// One row of the rotational 3x3 part applied to a normal: no translation.
pub open spec fn rot_apply(m0: int, m1: int, m2: int, n: Fx3) -> int {
    (m0 * n.x) / (FX_ONE as int) + (m1 * n.y) / (FX_ONE as int) + (m2 * n.z) / (FX_ONE as int)
}

/// Perspective division: a coordinate is divided by a positive `w` other
/// than 1.0. Without a projection matrix `w` stays 1.0 and this is the
/// identity; a nonpositive `w` (degenerate input) is also left undivided
/// rather than faulting.
pub open spec fn persp(c: int, w: int) -> int {
    if w > 0 && w != FX_ONE {
        c * FX_ONE / w
    } else {
        c
    }
}

/// Round a fixed-point coordinate to the nearest whole pixel.
pub open spec fn fx_round(a: int) -> int {
    (a + FX_HALF) / (FX_ONE as int)
}

/// The vertex stage as a function: model-space vertex and uniforms in,
/// screen-space vertex out.
pub open spec fn vs_spec(v: Vertex, u: Uniforms) -> TransformedVertex {
    let m = u.model_matrix;
    let xh = row_apply(m.m00 as int, m.m01 as int, m.m02 as int, m.m03 as int, v.position);
    let yh = row_apply(m.m10 as int, m.m11 as int, m.m12 as int, m.m13 as int, v.position);
    let zh = row_apply(m.m20 as int, m.m21 as int, m.m22 as int, m.m23 as int, v.position);
    let wh = row_apply(m.m30 as int, m.m31 as int, m.m32 as int, m.m33 as int, v.position);
    TransformedVertex {
        x: fx_round(persp(xh, wh)) as i64,
        y: fx_round(persp(yh, wh)) as i64,
        z: persp(zh, wh) as i64,
        normal: Fx3 {
            x: rot_apply(m.m00 as int, m.m01 as int, m.m02 as int, v.normal) as i64,
            y: rot_apply(m.m10 as int, m.m11 as int, m.m12 as int, v.normal) as i64,
            z: rot_apply(m.m20 as int, m.m21 as int, m.m22 as int, v.normal) as i64,
        },
        color: v.color,
    }
}

/// Perspective division on machine integers.
fn persp_exec(c: i64, w: i64) -> (r: i64)
    requires
        -0x10000000000000 <= c <= 0x10000000000000,
    ensures
        r == persp(c as int, w as int),
        -0x4000000000000000 <= r <= 0x4000000000000000,
{
    if w > 0 && w != FX_ONE {
        let p: i64 = c * FX_ONE;
        proof {
            assert(-(w * 0x4000000000000000) <= p && p <= w * 0x4000000000000000)
                by (nonlinear_arith)
                requires
                    w >= 1,
                    -0x4000000000000000 <= p <= 0x4000000000000000,
            ;
            lemma_div_magnitude_bound(p as int, w as int, 0x4000000000000000);
        }
        div_floor(p, w)
    } else {
        c
    }
}

/// Applies the model transform to the position (homogeneous, with
/// perspective division when `w` differs from 1.0) and its rotational part
/// to the normal, and rounds the position to whole pixels.
pub fn vertex_shader(v: &Vertex, u: &Uniforms) -> (tv: TransformedVertex)
    requires
        vertex_ok(*v),
        uniforms_ok(*u),
    ensures
        tv == vs_spec(*v, *u),
{
    let m = u.model_matrix;
    let p = v.position;
    let n = v.normal;

    let xh: i64 = fx_mul(m.m00, p.x) + fx_mul(m.m01, p.y) + fx_mul(m.m02, p.z) + m.m03;
    let yh: i64 = fx_mul(m.m10, p.x) + fx_mul(m.m11, p.y) + fx_mul(m.m12, p.z) + m.m13;
    let zh: i64 = fx_mul(m.m20, p.x) + fx_mul(m.m21, p.y) + fx_mul(m.m22, p.z) + m.m23;
    let wh: i64 = fx_mul(m.m30, p.x) + fx_mul(m.m31, p.y) + fx_mul(m.m32, p.z) + m.m33;

    let xs: i64 = persp_exec(xh, wh);
    let ys: i64 = persp_exec(yh, wh);
    let zs: i64 = persp_exec(zh, wh);

    let x: i64 = div_floor(xs + FX_HALF, FX_ONE);
    let y: i64 = div_floor(ys + FX_HALF, FX_ONE);

    let nx: i64 = fx_mul(m.m00, n.x) + fx_mul(m.m01, n.y) + fx_mul(m.m02, n.z);
    let ny: i64 = fx_mul(m.m10, n.x) + fx_mul(m.m11, n.y) + fx_mul(m.m12, n.z);
    let nz: i64 = fx_mul(m.m20, n.x) + fx_mul(m.m21, n.y) + fx_mul(m.m22, n.z);

    TransformedVertex { x, y, z: zs, normal: Fx3 { x: nx, y: ny, z: nz }, color: v.color }
}

/// Lambert light intensity in fixed point: the dot product of the
/// renormalized normal and the renormalized light direction, clamped to
/// `[0, FX_ONE]`. A surface facing away from the light, or a vector too
/// short to renormalize, gets intensity zero.
pub open spec fn intensity_of(nx: int, ny: int, nz: int, lx: int, ly: int, lz: int) -> int {
    let d = nx * lx + ny * ly + nz * lz;
    let mn = sqrt_floor(nx * nx + ny * ny + nz * nz);
    let ml = sqrt_floor(lx * lx + ly * ly + lz * lz);
    if d <= 0 || mn == 0 || ml == 0 {
        0
    } else {
        let q = d * FX_ONE / (mn * ml);
        if q > FX_ONE {
            FX_ONE as int
        } else {
            q
        }
    }
}

/// Computes `intensity_of` on machine integers.
pub fn fragment_intensity(n: Fx3, l: Fx3) -> (i: i64)
    requires
        fx3_within(n, NORMAL_LIMIT as int),
        fx3_within(l, LIGHT_LIMIT as int),
    ensures
        i == intensity_of(n.x as int, n.y as int, n.z as int, l.x as int, l.y as int, l.z as int),
        0 <= i <= FX_ONE,
{
    proof {
        assert(0 <= n.x * n.x <= 0x1000000 && 0 <= n.y * n.y <= 0x1000000 && 0 <= n.z * n.z
            <= 0x1000000) by (nonlinear_arith)
            requires
                -4096 <= n.x <= 4096,
                -4096 <= n.y <= 4096,
                -4096 <= n.z <= 4096,
        ;
        assert(0 <= l.x * l.x <= 0x10000000000 && 0 <= l.y * l.y <= 0x10000000000 && 0 <= l.z
            * l.z <= 0x10000000000) by (nonlinear_arith)
            requires
                -0x100000 <= l.x <= 0x100000,
                -0x100000 <= l.y <= 0x100000,
                -0x100000 <= l.z <= 0x100000,
        ;
        assert(-0x100000000000 <= n.x * l.x <= 0x100000000000 && -0x100000000000 <= n.y * l.y
            <= 0x100000000000 && -0x100000000000 <= n.z * l.z <= 0x100000000000)
            by (nonlinear_arith)
            requires
                -4096 <= n.x <= 4096,
                -4096 <= n.y <= 4096,
                -4096 <= n.z <= 4096,
                -0x100000 <= l.x <= 0x100000,
                -0x100000 <= l.y <= 0x100000,
                -0x100000 <= l.z <= 0x100000,
        ;
    }
    let d: i64 = n.x * l.x + n.y * l.y + n.z * l.z;
    let n2: i64 = n.x * n.x + n.y * n.y + n.z * n.z;
    let l2: i64 = l.x * l.x + l.y * l.y + l.z * l.z;
    let mn: u64 = isqrt(n2 as u64);
    let ml: u64 = isqrt(l2 as u64);
    if d <= 0 || mn == 0 || ml == 0 {
        0
    } else {
        proof {
            assert(mn * mn <= n2 && ml * ml <= l2);
            assert(mn <= 0x2000) by (nonlinear_arith)
                requires
                    mn * mn <= 0x3000000,
            ;
            assert(ml <= 0x200000) by (nonlinear_arith)
                requires
                    ml * ml <= 0x30000000000,
            ;
            assert(mn * ml <= 0x400000000) by (nonlinear_arith)
                requires
                    mn <= 0x2000,
                    ml <= 0x200000,
            ;
            assert(mn * ml >= 1) by (nonlinear_arith)
                requires
                    mn >= 1,
                    ml >= 1,
            ;
        }
        let denom: i64 = (mn * ml) as i64;
        let q: i64 = div_floor(d * FX_ONE, denom);
        proof {
            lemma_div_pos_is_pos(d * FX_ONE, denom as int);
        }
        if q > FX_ONE {
            FX_ONE
        } else {
            q
        }
    }
}

/// The lighting law at its extremes: a normal exactly parallel to the light
/// direction shades at full intensity, and one exactly opposite the light
/// shades at zero.
pub proof fn lemma_intensity_extremes(l: Fx3)
    requires
        l.x != 0 || l.y != 0 || l.z != 0,
    ensures
        intensity_of(l.x as int, l.y as int, l.z as int, l.x as int, l.y as int, l.z as int)
            == FX_ONE,
        intensity_of(
            -(l.x as int), -(l.y as int), -(l.z as int), l.x as int, l.y as int, l.z as int,
        ) == 0,
{
    let d = l.x * l.x + l.y * l.y + l.z * l.z;
    let gx = -(l.x as int);
    let gy = -(l.y as int);
    let gz = -(l.z as int);
    assert(d > 0 && gx * l.x + gy * l.y + gz * l.z == -d && gx * gx + gy * gy + gz * gz == d)
        by (nonlinear_arith)
        requires
            l.x != 0 || l.y != 0 || l.z != 0,
            d == l.x * l.x + l.y * l.y + l.z * l.z,
            gx == -(l.x as int),
            gy == -(l.y as int),
            gz == -(l.z as int),
    ;
    crate::fixed::lemma_sqrt_floor_exists(d);
    let m = sqrt_floor(d);
    assert(m >= 1);
    assert(m * m * FX_ONE <= d * FX_ONE && m * m >= 1) by (nonlinear_arith)
        requires
            m * m <= d,
            m >= 1,
    ;
    vstd::arithmetic::div_mod::lemma_div_is_ordered(m * m * FX_ONE, d * FX_ONE, m * m);
    vstd::arithmetic::div_mod::lemma_div_multiples_vanish(FX_ONE as int, m * m);
    assert((m * m) * FX_ONE == m * m * FX_ONE) by (nonlinear_arith);
    assert(d * FX_ONE / (m * m) >= FX_ONE);
}

/// Saturates a value into `[-lim, lim]`.
pub open spec fn clamp_to(c: int, lim: int) -> int {
    if c < -lim {
        -lim
    } else if c > lim {
        lim
    } else {
        c
    }
}

/// A normal brought to unit fixed-point scale: components are first
/// saturated into the supported range (a machine limit), then divided by the
/// vector's integer length so that every component lies within `FX_ONE`.
/// The zero vector stays zero. Only the shaded color ever depends on this;
/// pixel coverage never does.
pub open spec fn unit_normal_spec(n: Fx3) -> (int, int, int) {
    let cx = clamp_to(n.x as int, FX_LIMIT as int);
    let cy = clamp_to(n.y as int, FX_LIMIT as int);
    let cz = clamp_to(n.z as int, FX_LIMIT as int);
    let m = sqrt_floor(cx * cx + cy * cy + cz * cz);
    if m == 0 {
        (cx, cy, cz)
    } else {
        (cx * FX_ONE / m, cy * FX_ONE / m, cz * FX_ONE / m)
    }
}

/// Computes `unit_normal_spec` on machine integers.
pub fn unit_normal(n: Fx3) -> (r: Fx3)
    ensures
        (r.x as int, r.y as int, r.z as int) == unit_normal_spec(n),
        fx3_within(r, FX_ONE as int),
{
    let cx: i64 = if n.x < -FX_LIMIT {
        -FX_LIMIT
    } else if n.x > FX_LIMIT {
        FX_LIMIT
    } else {
        n.x
    };
    let cy: i64 = if n.y < -FX_LIMIT {
        -FX_LIMIT
    } else if n.y > FX_LIMIT {
        FX_LIMIT
    } else {
        n.y
    };
    let cz: i64 = if n.z < -FX_LIMIT {
        -FX_LIMIT
    } else if n.z > FX_LIMIT {
        FX_LIMIT
    } else {
        n.z
    };
    proof {
        assert(0 <= cx * cx <= 0x1000000000000000 && 0 <= cy * cy <= 0x1000000000000000 && 0
            <= cz * cz <= 0x1000000000000000) by (nonlinear_arith)
            requires
                -0x40000000 <= cx <= 0x40000000,
                -0x40000000 <= cy <= 0x40000000,
                -0x40000000 <= cz <= 0x40000000,
        ;
    }
    let n2: i64 = cx * cx + cy * cy + cz * cz;
    let m: u64 = isqrt(n2 as u64);
    if m == 0 {
        proof {
            assert(is_sqrt_floor(n2 as int, 0));
            assert((0 + 1) * (0 + 1) == 1) by (nonlinear_arith);
            assert(n2 < 1);
            assert(cx == 0 && cy == 0 && cz == 0) by (nonlinear_arith)
                requires
                    cx * cx + cy * cy + cz * cz == n2,
                    n2 < 1,
                    cx * cx >= 0,
                    cy * cy >= 0,
                    cz * cz >= 0,
            ;
        }
        Fx3 { x: cx, y: cy, z: cz }
    } else {
        proof {
            assert(m <= 0x80000000) by (nonlinear_arith)
                requires
                    m * m <= 0x3000000000000000,
            ;
            assert(-(m as int) <= cx <= m as int && -(m as int) <= cy <= m as int && -(
            m as int) <= cz <= m as int) by (nonlinear_arith)
                requires
                    cx * cx <= n2 && cy * cy <= n2 && cz * cz <= n2,
                    n2 < (m + 1) * (m + 1),
                    m >= 0,
            ;
            lemma_div_magnitude_bound(cx * FX_ONE, m as int, FX_ONE as int);
            lemma_div_magnitude_bound(cy * FX_ONE, m as int, FX_ONE as int);
            lemma_div_magnitude_bound(cz * FX_ONE, m as int, FX_ONE as int);
        }
        let ux: i64 = div_floor(cx * FX_ONE, m as i64);
        let uy: i64 = div_floor(cy * FX_ONE, m as i64);
        let uz: i64 = div_floor(cz * FX_ONE, m as i64);
        Fx3 { x: ux, y: uy, z: uz }
    }
}

/// A candidate pixel write: position, interpolated normal, interpolated
/// base color. Produced by the rasterizer and consumed immediately.
#[derive(Clone, Copy, PartialEq, Eq, Structural, Debug)]
pub struct Fragment {
    pub x: i64,
    pub y: i64,
    pub normal: Fx3,
    pub color: Color,
}

/// The fragment stage: scales the fragment's base color channel-wise by the
/// Lambert intensity of its normal under the given light direction.
pub fn shade_fragment(f: &Fragment, light: Fx3) -> (c: Color)
    requires
        fx3_within(f.normal, NORMAL_LIMIT as int),
        fx3_within(light, LIGHT_LIMIT as int),
    ensures
        ({
            let i = intensity_of(
                f.normal.x as int,
                f.normal.y as int,
                f.normal.z as int,
                light.x as int,
                light.y as int,
                light.z as int,
            );
            &&& c.r == f.color.r * i / (FX_ONE as int)
            &&& c.g == f.color.g * i / (FX_ONE as int)
            &&& c.b == f.color.b * i / (FX_ONE as int)
        }),
{
    let i: i64 = fragment_intensity(f.normal, light);
    f.color.scaled(i)
}

} // verus!
