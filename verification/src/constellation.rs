//! The slot layout of a synthetic Walker-delta constellation: which orbital
//! plane and which slot within it each generated satellite occupies. The
//! orbital angles of each slot (right ascension, mean anomaly) are computed
//! from this layout in floating point outside this crate.

use vstd::prelude::*;

verus! {

/// Satellites per plane: `total / planes`, rounded up.
pub open spec fn slots_per_plane(total: nat, planes: nat) -> nat
    recommends
        planes > 0,
{
    ((total + planes - 1) as int / planes as int) as nat
}

/// The (plane, slot) of each of the `total` satellites: planes are filled in
/// order, `per_plane` slots each, the last plane possibly left short.
pub open spec fn walker_layout(total: nat, planes: nat) -> Seq<(usize, usize)> {
    Seq::new(
        total,
        |k: int| ((k / slots_per_plane(total, planes) as int) as usize, (k % slots_per_plane(total, planes) as int) as usize),
    )
}

proof fn lemma_per_plane_covers(total: nat, planes: nat)
    requires
        planes > 0,
    ensures
        slots_per_plane(total, planes) * planes >= total,
        slots_per_plane(total, planes) <= total,
        total > 0 ==> slots_per_plane(total, planes) > 0,
{
    let pp = slots_per_plane(total, planes);
    let x = (total + planes - 1) as int;
    vstd::arithmetic::div_mod::lemma_fundamental_div_mod(x, planes as int);
    vstd::arithmetic::div_mod::lemma_mod_pos_bound(x, planes as int);
    let r = x % (planes as int);
    assert(pp * planes >= total && pp <= total) by (nonlinear_arith)
        requires
            x == planes * pp + r,
            0 <= r < planes,
            x == total + planes - 1,
            planes > 0,
    ;
    if total > 0 {
        assert(pp > 0) by (nonlinear_arith)
            requires
                x == planes * pp + r,
                0 <= r < planes,
                x >= planes,
        ;
    }
}

/// Lay out `total` satellites over `planes` orbital planes: satellite `k`
/// goes to plane `k / per_plane`, slot `k % per_plane`, where `per_plane` is
/// `total / planes` rounded up. Exactly `total` satellites are placed.
pub fn walker_slots(total: usize, planes: usize) -> (slots: Vec<(usize, usize)>)
    requires
        planes > 0,
    ensures
        slots@ == walker_layout(total as nat, planes as nat),
        slots@.len() == total,
{
    proof {
        vstd::arithmetic::div_mod::lemma_fundamental_div_mod(total as int, planes as int);
        vstd::arithmetic::div_mod::lemma_fundamental_div_mod(
            (total + planes - 1) as int,
            planes as int,
        );
        lemma_ceil_div(total as int, planes as int);
        lemma_per_plane_covers(total as nat, planes as nat);
    }
    let per_plane: usize = total / planes + if total % planes != 0 {
        1
    } else {
        0
    };
    assert(per_plane == slots_per_plane(total as nat, planes as nat));
    let ghost layout = walker_layout(total as nat, planes as nat);
    let mut slots: Vec<(usize, usize)> = Vec::new();
    let mut count: usize = 0;
    let mut p: usize = 0;
    let ghost mut base: int = 0;
    while p < planes
        invariant
            p <= planes,
            per_plane == slots_per_plane(total as nat, planes as nat),
            per_plane <= total,
            base == p * per_plane,
            count == if base <= total {
                base
            } else {
                total as int
            },
            count <= total,
            slots@ == layout.take(count as int),
            layout == walker_layout(total as nat, planes as nat),
        decreases planes - p,
    {
        let mut s: usize = 0;
        while s < per_plane
            invariant
                s <= per_plane,
                p < planes,
                per_plane == slots_per_plane(total as nat, planes as nat),
                per_plane <= total,
                base == p * per_plane,
                count == if base + s <= total {
                    base + s
                } else {
                    total as int
                },
                count <= total,
                slots@ == layout.take(count as int),
                layout == walker_layout(total as nat, planes as nat),
            ensures
                count == if base + per_plane <= total {
                    base + per_plane
                } else {
                    total as int
                },
                count <= total,
                slots@ == layout.take(count as int),
            decreases per_plane - s,
        {
            if count >= total {
                break;
            }
            proof {
                assert(count == p * per_plane + s);
                assert((count as int) / (per_plane as int) == p && (count as int) % (
                per_plane as int) == s) by {
                    vstd::arithmetic::div_mod::lemma_fundamental_div_mod_converse(
                        count as int,
                        per_plane as int,
                        p as int,
                        s as int,
                    );
                }
            }
            slots.push((p, s));
            count = count + 1;
            s = s + 1;
            assert(slots@ =~= layout.take(count as int));
        }
        proof {
            assert((p + 1) * per_plane == p * per_plane + per_plane) by (nonlinear_arith);
            base = base + per_plane;
        }
        p = p + 1;
    }
    proof {
        assert(planes * per_plane >= total) by (nonlinear_arith)
            requires
                per_plane * planes >= total,
        ;
    }
    assert(slots@ =~= layout);
    slots
}

proof fn lemma_ceil_div(total: int, planes: int)
    requires
        total >= 0,
        planes > 0,
    ensures
        (total + planes - 1) / planes == total / planes + if total % planes != 0 {
            1int
        } else {
            0int
        },
{
    vstd::arithmetic::div_mod::lemma_fundamental_div_mod(total, planes);
    vstd::arithmetic::div_mod::lemma_mod_pos_bound(total, planes);
    let q = total / planes;
    let r = total % planes;
    if r == 0 {
        assert(total + planes - 1 == q * planes + (planes - 1)) by (nonlinear_arith)
            requires
                total == planes * q + r,
                r == 0,
        ;
        vstd::arithmetic::div_mod::lemma_fundamental_div_mod_converse(
            total + planes - 1,
            planes,
            q,
            planes - 1,
        );
    } else {
        assert(total + planes - 1 == (q + 1) * planes + (r - 1)) by (nonlinear_arith)
            requires
                total == planes * q + r,
        ;
        vstd::arithmetic::div_mod::lemma_fundamental_div_mod_converse(
            total + planes - 1,
            planes,
            q + 1,
            r - 1,
        );
    }
}

/// Law: the layout places exactly `total` satellites, every slot index is
/// below `per_plane`, every plane index is below `planes`, and no two
/// satellites share a (plane, slot).
pub proof fn lemma_layout_well_formed(total: nat, planes: nat)
    requires
        planes > 0,
        total <= usize::MAX,
    ensures
        walker_layout(total, planes).len() == total,
        forall|k: int|
            0 <= k < total ==> (#[trigger] walker_layout(total, planes)[k]).0 < planes
                && walker_layout(total, planes)[k].1 < slots_per_plane(total, planes),
        forall|j: int, k: int|
            0 <= j < k < total ==> #[trigger] walker_layout(total, planes)[j]
                != #[trigger] walker_layout(total, planes)[k],
{
    let pp = slots_per_plane(total, planes);
    lemma_per_plane_covers(total, planes);
    assert forall|k: int| 0 <= k < total implies (#[trigger] walker_layout(total, planes)[k]).0
        < planes && walker_layout(total, planes)[k].1 < pp by {
        vstd::arithmetic::div_mod::lemma_fundamental_div_mod(k, pp as int);
        assert(k / (pp as int) < planes) by (nonlinear_arith)
            requires
                k < total,
                pp * planes >= total,
                pp > 0,
                k == pp * (k / (pp as int)) + k % (pp as int),
                0 <= k % (pp as int),
                0 <= k,
        ;
    }
    assert forall|j: int, k: int| 0 <= j < k < total implies #[trigger] walker_layout(
        total,
        planes,
    )[j] != #[trigger] walker_layout(total, planes)[k] by {
        vstd::arithmetic::div_mod::lemma_fundamental_div_mod(j, pp as int);
        vstd::arithmetic::div_mod::lemma_fundamental_div_mod(k, pp as int);
        vstd::arithmetic::div_mod::lemma_mod_pos_bound(j, pp as int);
        vstd::arithmetic::div_mod::lemma_mod_pos_bound(k, pp as int);
        vstd::arithmetic::div_mod::lemma_div_is_ordered(j, k, pp as int);
        vstd::arithmetic::div_mod::lemma_div_is_ordered(0, k, pp as int);
        vstd::arithmetic::div_mod::lemma_div_is_ordered_by_denominator(k, 1, pp as int);
    }
}

/// Law (fill order): `per_plane` is the least number of slots per plane that
/// holds every satellite; the first satellite sits in slot 0 of plane 0, and
/// each following satellite takes the next slot of the same plane, or slot 0
/// of the next plane once a plane's `per_plane` slots are taken.
pub proof fn lemma_layout_fill_order(total: nat, planes: nat)
    requires
        planes > 0,
        total <= usize::MAX,
    ensures
        slots_per_plane(total, planes) * planes >= total,
        total > 0 ==> (slots_per_plane(total, planes) - 1) * planes < total,
        total > 0 ==> walker_layout(total, planes)[0] == (0usize, 0usize),
        forall|k: int|
            0 <= k && k + 1 < total ==> #[trigger] walker_layout(total, planes)[k + 1] == (if walker_layout(
                total,
                planes,
            )[k].1 + 1 < slots_per_plane(total, planes) {
                (walker_layout(total, planes)[k].0, (walker_layout(total, planes)[k].1 + 1) as usize)
            } else {
                ((walker_layout(total, planes)[k].0 + 1) as usize, 0usize)
            }),
{
    let pp = slots_per_plane(total, planes);
    lemma_per_plane_covers(total, planes);
    lemma_layout_well_formed(total, planes);
    let x = (total + planes - 1) as int;
    vstd::arithmetic::div_mod::lemma_fundamental_div_mod(x, planes as int);
    vstd::arithmetic::div_mod::lemma_mod_pos_bound(x, planes as int);
    if total > 0 {
        let r = x % (planes as int);
        assert((pp - 1) * planes < total) by (nonlinear_arith)
            requires
                x == planes * pp + r,
                0 <= r,
                x == total + planes - 1,
        ;
        assert(0int / (pp as int) == 0 && 0int % (pp as int) == 0) by {
            vstd::arithmetic::div_mod::lemma_small_mod(0, pp);
        }
    }
    assert forall|k: int| 0 <= k && k + 1 < total implies #[trigger] walker_layout(total, planes)[k
        + 1] == (if walker_layout(total, planes)[k].1 + 1 < pp {
        (walker_layout(total, planes)[k].0, (walker_layout(total, planes)[k].1 + 1) as usize)
    } else {
        ((walker_layout(total, planes)[k].0 + 1) as usize, 0usize)
    }) by {
        let q = k / (pp as int);
        let r = k % (pp as int);
        vstd::arithmetic::div_mod::lemma_fundamental_div_mod(k, pp as int);
        vstd::arithmetic::div_mod::lemma_mod_pos_bound(k, pp as int);
        assert(walker_layout(total, planes)[k + 1].0 < planes);
        assert(walker_layout(total, planes)[k].0 < planes);
        if r + 1 < pp {
            vstd::arithmetic::div_mod::lemma_fundamental_div_mod_converse(k + 1, pp as int, q, r + 1);
        } else {
            assert(k + 1 == (q + 1) * pp + 0) by (nonlinear_arith)
                requires
                    k == pp * q + r,
                    r + 1 == pp,
            ;
            vstd::arithmetic::div_mod::lemma_fundamental_div_mod_converse(k + 1, pp as int, q + 1, 0);
        }
    }
}

/// The catalog number of synthetic satellite `index`: `90000 + index`,
/// truncated to 32 bits.
pub fn synthetic_catalog_number(index: usize) -> (n: u32)
    requires
        index <= usize::MAX - 90000,
    ensures
        n == (90000 + index) as u32,
{
    (90000 + index) as u32
}

} // verus!
