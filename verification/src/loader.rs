//! The chunk-loading policy: given a fixed-point focus position
//! and an integer load radius, the set of chunk coordinates that must exist —
//! every integer offset `(dx, dz)` with `dx^2 + dz^2 < radius^2` around the
//! cell containing the focus. The footprint is circular, not square. The
//! policy holds no state: it is evaluated freshly from the focus and radius
//! it is given.

use vstd::prelude::*;

verus! {

use crate::fixed::{div_floor, ONE};
use crate::heightmap::ChunkCoord;
use vstd::arithmetic::div_mod::lemma_div_is_ordered;

/// Largest load radius the policy accepts.
pub const RADIUS_MAX: i32 = 1024;

/// Largest focus-coordinate magnitude the policy accepts (fixed point).
pub const FOCUS_MAX: i64 = 0x4000_0000_0000_0000;

/// Whether the chunk at `(cx, cz)` lies in the circular load footprint of
/// radius `radius` around the fixed-point focus `(fx, fz)`: the offset from
/// the cell containing the focus has squared length below `radius^2`.
pub open spec fn in_range_spec(fx: int, fz: int, radius: int, cx: int, cz: int) -> bool {
    let bx = fx / (ONE as int);
    let bz = fz / (ONE as int);
    let dx = cx - bx;
    let dz = cz - bz;
    dx * dx + dz * dz < radius * radius
}

/// An offset pair whose squared length is below `r^2` has both components
/// strictly between `-r` and `r`.
proof fn lemma_sq_bound(dx: int, dz: int, r: int)
    requires
        dx * dx + dz * dz < r * r,
        r >= 0,
    ensures
        -r < dx < r,
        -r < dz < r,
{
    assert(-r < dx < r && -r < dz < r) by (nonlinear_arith)
        requires dx * dx + dz * dz < r * r, r >= 0,
    ;
}

/// Pushing onto a sequence adds exactly one member.
proof fn lemma_push_contains(s: Seq<ChunkCoord>, c: ChunkCoord, x: ChunkCoord)
    ensures
        s.push(c).contains(x) <==> (s.contains(x) || x == c),
{
    if s.contains(x) {
        let i = choose|i: int| 0 <= i < s.len() && s[i] == x;
        assert(s.push(c)[i] == x);
    }
    assert(s.push(c)[s.len() as int] == c);
    if s.push(c).contains(x) && x != c {
        let i = choose|i: int| 0 <= i < s.push(c).len() && s.push(c)[i] == x;
        if i < s.len() {
            assert(s[i] == x);
        }
    }
}

/// The set of chunk coordinates inside the circular load footprint of
/// `radius` around the focus: exactly those `c` with `in_range_spec`, each
/// listed once.
pub fn chunks_in_range(focus_x: i64, focus_z: i64, radius: i32) -> (v: Vec<ChunkCoord>)
    requires
        -(FOCUS_MAX as int) <= focus_x <= FOCUS_MAX as int,
        -(FOCUS_MAX as int) <= focus_z <= FOCUS_MAX as int,
        0 <= radius <= RADIUS_MAX as int,
    ensures
        forall|c: ChunkCoord| #[trigger]
            v@.contains(c) <==> in_range_spec(
                focus_x as int,
                focus_z as int,
                radius as int,
                c.x as int,
                c.z as int,
            ),
        forall|i: int, j: int| 0 <= i < j < v@.len() ==> v@[i] != v@[j],
{
    let bx: i64 = div_floor(focus_x, ONE);
    let bz: i64 = div_floor(focus_z, ONE);
    proof {
        lemma_div_is_ordered(-(FOCUS_MAX as int), focus_x as int, ONE as int);
        lemma_div_is_ordered(focus_x as int, FOCUS_MAX as int, ONE as int);
        lemma_div_is_ordered(-(FOCUS_MAX as int), focus_z as int, ONE as int);
        lemma_div_is_ordered(focus_z as int, FOCUS_MAX as int, ONE as int);
    }
    let r: i64 = radius as i64;
    let ghost fxi = focus_x as int;
    let ghost fzi = focus_z as int;
    let ghost ri = radius as int;
    let mut v: Vec<ChunkCoord> = Vec::new();
    let mut dx: i64 = -r;
    proof {
        assert forall|c: ChunkCoord| #[trigger]
            v@.contains(c) <==> (in_range_spec(fxi, fzi, ri, c.x as int, c.z as int) && (
            c.x as int) - (bx as int) < dx) by {
            if in_range_spec(fxi, fzi, ri, c.x as int, c.z as int) {
                lemma_sq_bound((c.x as int) - (bx as int), (c.z as int) - (bz as int), ri);
            }
        }
    }
    while dx <= r
        invariant
            0 <= r <= RADIUS_MAX as int,
            -(0x4000_0000_0000) <= bx <= 0x4000_0000_0000,
            -(0x4000_0000_0000) <= bz <= 0x4000_0000_0000,
            bx == fxi / (ONE as int),
            bz == fzi / (ONE as int),
            ri == r,
            -r <= dx <= r + 1,
            forall|c: ChunkCoord| #[trigger]
                v@.contains(c) <==> (in_range_spec(fxi, fzi, ri, c.x as int, c.z as int) && (
                c.x as int) - (bx as int) < dx),
            forall|i: int, j: int| 0 <= i < j < v@.len() ==> v@[i] != v@[j],
        decreases r + 1 - dx,
    {
        let mut dz: i64 = -r;
        proof {
            assert forall|c: ChunkCoord| #[trigger]
                v@.contains(c) <==> (in_range_spec(fxi, fzi, ri, c.x as int, c.z as int) && ((
                c.x as int) - (bx as int) < dx || ((c.x as int) - (bx as int) == dx && (
                c.z as int) - (bz as int) < dz))) by {
                if in_range_spec(fxi, fzi, ri, c.x as int, c.z as int) {
                    lemma_sq_bound((c.x as int) - (bx as int), (c.z as int) - (bz as int), ri);
                }
            }
        }
        while dz <= r
            invariant
                0 <= r <= RADIUS_MAX as int,
                -(0x4000_0000_0000) <= bx <= 0x4000_0000_0000,
                -(0x4000_0000_0000) <= bz <= 0x4000_0000_0000,
                bx == fxi / (ONE as int),
                bz == fzi / (ONE as int),
                ri == r,
                -r <= dx <= r,
                -r <= dz <= r + 1,
                forall|c: ChunkCoord| #[trigger]
                    v@.contains(c) <==> (in_range_spec(fxi, fzi, ri, c.x as int, c.z as int) && ((
                    c.x as int) - (bx as int) < dx || ((c.x as int) - (bx as int) == dx && (
                    c.z as int) - (bz as int) < dz))),
                forall|i: int, j: int| 0 <= i < j < v@.len() ==> v@[i] != v@[j],
            decreases r + 1 - dz,
        {
            proof {
                assert(0 <= dx * dx <= 0x10_0000 && 0 <= dz * dz <= 0x10_0000 && 0 <= r * r
                    <= 0x10_0000) by (nonlinear_arith)
                    requires
                        -(RADIUS_MAX as int) <= dx <= RADIUS_MAX as int,
                        -(RADIUS_MAX as int) <= dz <= RADIUS_MAX as int,
                        0 <= r <= RADIUS_MAX as int,
                ;
            }
            if dx * dx + dz * dz < r * r {
                let c = ChunkCoord { x: bx + dx, z: bz + dz };
                proof {
                    let ghost old_v = v@;
                    if old_v.contains(c) {
                        assert((c.x as int) - (bx as int) == dx && (c.z as int) - (bz as int)
                            == dz);
                        assert(false);
                    }
                }
                let ghost old_v = v@;
                v.push(c);
                proof {
                    assert forall|w: ChunkCoord| #[trigger]
                        v@.contains(w) <==> (in_range_spec(fxi, fzi, ri, w.x as int, w.z as int)
                            && ((w.x as int) - (bx as int) < dx || ((w.x as int) - (bx as int)
                            == dx && (w.z as int) - (bz as int) < dz + 1))) by {
                        lemma_push_contains(old_v, c, w);
                    }
                    assert forall|i: int, j: int| 0 <= i < j < v@.len() implies v@[i] != v@[j] by {
                        if j == v@.len() - 1 {
                            assert(old_v[i] == v@[i]);
                            if v@[i] == c {
                                assert(old_v.contains(c));
                                assert(false);
                            }
                        } else {
                            assert(old_v[i] == v@[i] && old_v[j] == v@[j]);
                        }
                    }
                }
            } else {
                proof {
                    assert forall|w: ChunkCoord| #[trigger]
                        v@.contains(w) <==> (in_range_spec(fxi, fzi, ri, w.x as int, w.z as int)
                            && ((w.x as int) - (bx as int) < dx || ((w.x as int) - (bx as int)
                            == dx && (w.z as int) - (bz as int) < dz + 1))) by {
                        if in_range_spec(fxi, fzi, ri, w.x as int, w.z as int) {
                            let wx = (w.x as int) - (bx as int);
                            let wz = (w.z as int) - (bz as int);
                            lemma_sq_bound(wx, wz, ri);
                        }
                    }
                }
            }
            dz = dz + 1;
        }
        proof {
            assert forall|w: ChunkCoord| #[trigger]
                v@.contains(w) <==> (in_range_spec(fxi, fzi, ri, w.x as int, w.z as int) && (
                w.x as int) - (bx as int) < dx + 1) by {
                if in_range_spec(fxi, fzi, ri, w.x as int, w.z as int) {
                    let wx = (w.x as int) - (bx as int);
                    let wz = (w.z as int) - (bz as int);
                    lemma_sq_bound(wx, wz, ri);
                }
            }
        }
        dx = dx + 1;
    }
    proof {
        assert forall|c: ChunkCoord| #[trigger]
            v@.contains(c) <==> in_range_spec(fxi, fzi, ri, c.x as int, c.z as int) by {
            if in_range_spec(fxi, fzi, ri, c.x as int, c.z as int) {
                let wx = (c.x as int) - (bx as int);
                let wz = (c.z as int) - (bz as int);
                lemma_sq_bound(wx, wz, ri);
            }
        }
    }
    v
}

} // verus!
