//! The work items that a dispatch launches, as output coordinates.
use vstd::prelude::*;
use crate::settings::U32x3;

verus! {

/// Whether `(x, y)` is launched by `dispatch` groups of `workgroup` items and lies inside an
/// `m × n` output.
pub open spec fn in_launch(workgroup: U32x3, dispatch: U32x3, m: u32, n: u32, x: int, y: int) -> bool {
    &&& 0 <= x < m
    &&& 0 <= y < n
    &&& x < dispatch.x * workgroup.x
    &&& y < dispatch.y * workgroup.y
}

/// Whether the sequence holds the coordinate `(x, y)`.
pub open spec fn holds(s: Seq<(u32, u32)>, x: int, y: int) -> bool {
    exists|i: int| 0 <= i < s.len() && s[i].0 == x && s[i].1 == y
}

/// Whether a dispatch of this shape names coordinates that fit a `u32`.
pub open spec fn launch_fits(workgroup: U32x3, dispatch: U32x3) -> bool {
    &&& workgroup.x > 0
    &&& workgroup.y > 0
    &&& dispatch.x * workgroup.x <= u32::MAX + 1
    &&& dispatch.y * workgroup.y <= u32::MAX + 1
}

proof fn lemma_holds_push(s: Seq<(u32, u32)>, e: (u32, u32), x: int, y: int)
    requires
        holds(s, x, y) || (e.0 == x && e.1 == y),
    ensures
        holds(s.push(e), x, y),
{
    if holds(s, x, y) {
        let i = choose|i: int| 0 <= i < s.len() && s[i].0 == x && s[i].1 == y;
        assert(s.push(e)[i] == s[i]);
    } else {
        assert(s.push(e)[s.len() as int] == e);
    }
}

proof fn lemma_div_mod_split(x: int, w: int)
    requires
        x >= 0,
        w > 0,
    ensures
        x == (x / w) * w + x % w,
        0 <= x % w < w,
        x / w >= 0,
{
    vstd::arithmetic::div_mod::lemma_fundamental_div_mod(x, w);
    vstd::arithmetic::div_mod::lemma_mod_bound(x, w);
    vstd::arithmetic::div_mod::lemma_div_pos_is_pos(x, w);
    assert(w * (x / w) == (x / w) * w) by (nonlinear_arith);
}

proof fn lemma_div_below(x: int, w: int, d: int)
    requires
        0 <= x < d * w,
        w > 0,
    ensures
        x / w < d,
{
    lemma_div_mod_split(x, w);
    let q = x / w;
    assert(q < d) by (nonlinear_arith)
        requires x == q * w + x % w, x % w >= 0, x < d * w, w > 0;
}

/// Every `(x, y)` that the dispatch launches inside the `m × n` output, group by group, in the
/// order a sequential walk of the grid visits them.
pub fn launch_coordinates(workgroup: U32x3, dispatch: U32x3, m: u32, n: u32) -> (r: Vec<(u32, u32)>)
    requires
        launch_fits(workgroup, dispatch),
    ensures
        forall|i: int|
            0 <= i < r.len() ==> in_launch(workgroup, dispatch, m, n, #[trigger] r[i].0 as int, r[i].1 as int),
        forall|x: int, y: int|
            #[trigger] in_launch(workgroup, dispatch, m, n, x, y) ==> holds(r@, x, y),
{
    let wx = workgroup.x;
    let wy = workgroup.y;
    let mut out: Vec<(u32, u32)> = Vec::new();
    let mut gwx: u32 = 0;
    while gwx < dispatch.x
        invariant
            launch_fits(workgroup, dispatch),
            wx == workgroup.x,
            wy == workgroup.y,
            gwx <= dispatch.x,
            forall|i: int|
                0 <= i < out.len() ==> in_launch(workgroup, dispatch, m, n, #[trigger] out[i].0 as int, out[i].1 as int),
            forall|x: int, y: int|
                #[trigger] in_launch(workgroup, dispatch, m, n, x, y) && (x / wx as int) < gwx ==> holds(out@, x, y),
        decreases dispatch.x - gwx,
    {
        let mut gwy: u32 = 0;
        while gwy < dispatch.y
            invariant
                launch_fits(workgroup, dispatch),
                wx == workgroup.x,
                wy == workgroup.y,
                gwx < dispatch.x,
                gwy <= dispatch.y,
                forall|i: int|
                    0 <= i < out.len() ==> in_launch(workgroup, dispatch, m, n, #[trigger] out[i].0 as int, out[i].1 as int),
                forall|x: int, y: int|
                    #[trigger] in_launch(workgroup, dispatch, m, n, x, y) && (x / wx as int) < gwx
                        ==> holds(out@, x, y),
                forall|x: int, y: int|
                    #[trigger] in_launch(workgroup, dispatch, m, n, x, y) && x / wx as int == gwx
                        && (y / wy as int) < gwy ==> holds(out@, x, y),
            decreases dispatch.y - gwy,
        {
            let mut lx: u32 = 0;
            while lx < wx
                invariant
                    launch_fits(workgroup, dispatch),
                    wx == workgroup.x,
                    wy == workgroup.y,
                    gwx < dispatch.x,
                    gwy < dispatch.y,
                    lx <= wx,
                    forall|i: int|
                        0 <= i < out.len() ==> in_launch(workgroup, dispatch, m, n, #[trigger] out[i].0 as int, out[i].1 as int),
                    forall|x: int, y: int|
                        #[trigger] in_launch(workgroup, dispatch, m, n, x, y) && (x / wx as int) < gwx
                            ==> holds(out@, x, y),
                    forall|x: int, y: int|
                        #[trigger] in_launch(workgroup, dispatch, m, n, x, y) && x / wx as int == gwx
                            && (y / wy as int) < gwy ==> holds(out@, x, y),
                    forall|x: int, y: int|
                        #[trigger] in_launch(workgroup, dispatch, m, n, x, y) && x / wx as int == gwx
                            && y / wy as int == gwy && (x % wx as int) < lx ==> holds(out@, x, y),
                decreases wx - lx,
            {
                let mut ly: u32 = 0;
                while ly < wy
                    invariant
                        launch_fits(workgroup, dispatch),
                        wx == workgroup.x,
                        wy == workgroup.y,
                        gwx < dispatch.x,
                        gwy < dispatch.y,
                        lx < wx,
                        ly <= wy,
                        forall|i: int|
                            0 <= i < out.len() ==> in_launch(workgroup, dispatch, m, n, #[trigger] out[i].0 as int, out[i].1 as int),
                        forall|x: int, y: int|
                            #[trigger] in_launch(workgroup, dispatch, m, n, x, y) && (x / wx as int) < gwx
                                ==> holds(out@, x, y),
                        forall|x: int, y: int|
                            #[trigger] in_launch(workgroup, dispatch, m, n, x, y) && x / wx as int == gwx
                                && (y / wy as int) < gwy ==> holds(out@, x, y),
                        forall|x: int, y: int|
                            #[trigger] in_launch(workgroup, dispatch, m, n, x, y) && x / wx as int == gwx
                                && y / wy as int == gwy && (x % wx as int) < lx ==> holds(out@, x, y),
                        forall|x: int, y: int|
                            #[trigger] in_launch(workgroup, dispatch, m, n, x, y) && x / wx as int == gwx
                                && y / wy as int == gwy && x % wx as int == lx && (y % wy as int) < ly
                                ==> holds(out@, x, y),
                    decreases wy - ly,
                {
                    proof {
                        assert(gwx * wx + lx < dispatch.x * wx) by (nonlinear_arith)
                            requires gwx < dispatch.x, lx < wx;
                        assert(gwy * wy + ly < dispatch.y * wy) by (nonlinear_arith)
                            requires gwy < dispatch.y, ly < wy;
                    }
                    let x = gwx * wx + lx;
                    let y = gwy * wy + ly;
                    let ghost old_out = out@;
                    if x < m && y < n {
                        out.push((x, y));
                    }
                    proof {
                        assert forall|xx: int, yy: int|
                            #[trigger] in_launch(workgroup, dispatch, m, n, xx, yy) && (xx / wx as int) < gwx
                                implies holds(out@, xx, yy) by {
                            if in_launch(workgroup, dispatch, m, n, xx, yy) && (xx / wx as int) < gwx {
                                lemma_holds_push(old_out, (x, y), xx, yy);
                            }
                        }
                        assert forall|xx: int, yy: int|
                            #[trigger] in_launch(workgroup, dispatch, m, n, xx, yy) && xx / wx as int == gwx
                                && (yy / wy as int) < gwy implies holds(out@, xx, yy) by {
                            if in_launch(workgroup, dispatch, m, n, xx, yy) && xx / wx as int == gwx
                                && (yy / wy as int) < gwy {
                                lemma_holds_push(old_out, (x, y), xx, yy);
                            }
                        }
                        assert forall|xx: int, yy: int|
                            #[trigger] in_launch(workgroup, dispatch, m, n, xx, yy) && xx / wx as int == gwx
                                && yy / wy as int == gwy && (xx % wx as int) < lx implies holds(out@, xx, yy) by {
                            if in_launch(workgroup, dispatch, m, n, xx, yy) && xx / wx as int == gwx
                                && yy / wy as int == gwy && (xx % wx as int) < lx {
                                lemma_holds_push(old_out, (x, y), xx, yy);
                            }
                        }
                        assert forall|xx: int, yy: int|
                            #[trigger] in_launch(workgroup, dispatch, m, n, xx, yy) && xx / wx as int == gwx
                                && yy / wy as int == gwy && xx % wx as int == lx && (yy % wy as int) < ly + 1
                                implies holds(out@, xx, yy) by {
                            if in_launch(workgroup, dispatch, m, n, xx, yy) && xx / wx as int == gwx
                                && yy / wy as int == gwy && xx % wx as int == lx && (yy % wy as int) < ly + 1 {
                                if (yy % wy as int) < ly {
                                    lemma_holds_push(old_out, (x, y), xx, yy);
                                } else {
                                    lemma_div_mod_split(xx, wx as int);
                                    lemma_div_mod_split(yy, wy as int);
                                    lemma_holds_push(old_out, (x, y), xx, yy);
                                }
                            }
                        }
                    }
                    ly = ly + 1;
                }
                proof {
                    assert forall|xx: int, yy: int|
                        #[trigger] in_launch(workgroup, dispatch, m, n, xx, yy) && xx / wx as int == gwx
                            && yy / wy as int == gwy && (xx % wx as int) < lx + 1 implies holds(out@, xx, yy) by {
                        if in_launch(workgroup, dispatch, m, n, xx, yy) {
                            lemma_div_mod_split(yy, wy as int);
                        }
                    }
                }
                lx = lx + 1;
            }
            proof {
                assert forall|xx: int, yy: int|
                    #[trigger] in_launch(workgroup, dispatch, m, n, xx, yy) && xx / wx as int == gwx
                        && (yy / wy as int) < gwy + 1 implies holds(out@, xx, yy) by {
                    if in_launch(workgroup, dispatch, m, n, xx, yy) {
                        lemma_div_mod_split(xx, wx as int);
                    }
                }
            }
            gwy = gwy + 1;
        }
        proof {
            assert forall|xx: int, yy: int|
                #[trigger] in_launch(workgroup, dispatch, m, n, xx, yy) && (xx / wx as int) < gwx + 1
                    implies holds(out@, xx, yy) by {
                if in_launch(workgroup, dispatch, m, n, xx, yy) {
                    lemma_div_below(yy, wy as int, dispatch.y as int);
                }
            }
        }
        gwx = gwx + 1;
    }
    proof {
        assert forall|xx: int, yy: int|
            #[trigger] in_launch(workgroup, dispatch, m, n, xx, yy) implies holds(out@, xx, yy) by {
            lemma_div_below(xx, wx as int, dispatch.x as int);
        }
    }
    out
}

} // verus!
