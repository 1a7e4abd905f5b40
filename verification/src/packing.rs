//! Rectangle packing: a deterministic shelf layout inside one bin, and an
//! adaptive growth loop that doubles the bin (clamped to a maximum) until the
//! requests fit or both dimensions are at the maximum.
//!
//! The layout is specified first as a mathematical function of the request
//! sizes (`shelf_prefix`, `shelf_pack`, `grow_pack`); the executable packers
//! are proved to return exactly that function's value.  Every property of the
//! produced placements — no overlap, containment, dimension fidelity,
//! determinism — is proved of the specification and carries over.

use vstd::prelude::*;

use crate::rect::Rect;

verus! {

/// Requested sizes, as unbounded integers: the mathematical model of a
/// request list.
pub open spec fn valid_sizes(sizes: Seq<(int, int)>) -> bool {
    forall|k: int|
        0 <= k < sizes.len() ==> 1 <= (#[trigger] sizes[k]).0 && 1 <= sizes[k].1
}

/// The model of an executable request list.
pub open spec fn size_models(sizes: Seq<(u32, u32)>) -> Seq<(int, int)> {
    sizes.map_values(|p: (u32, u32)| (p.0 as int, p.1 as int))
}

/// One shelf placement step.  The packer keeps a cursor `(cx, cy)` and the
/// height `rh` of the currently open row of placements.  A request of size
/// `(w, h)` is placed at the cursor when it fits there, else at the start of
/// a fresh row directly below the current one, else the step fails.
pub open spec fn shelf_step(st: (int, int, int), w: int, h: int, bin_w: int, bin_h: int) -> Option<
    ((int, int), (int, int, int)),
> {
    let (cx, cy, rh) = st;
    if cx + w <= bin_w && cy + h <= bin_h {
        Some(((cx, cy), (cx + w, cy, if h > rh { h } else { rh })))
    } else if w <= bin_w && cy + rh + h <= bin_h {
        Some(((0, cy + rh), (w, cy + rh, h)))
    } else {
        None
    }
}

/// Positions assigned to the first `n` requests, together with the packer
/// state after them, or `None` when some of those requests does not fit.
pub open spec fn shelf_prefix(sizes: Seq<(int, int)>, bin_w: int, bin_h: int, n: int) -> Option<
    (Seq<(int, int)>, (int, int, int)),
>
    decreases n,
{
    if n <= 0 {
        Some((Seq::empty(), (0, 0, 0)))
    } else {
        match shelf_prefix(sizes, bin_w, bin_h, n - 1) {
            None => None,
            Some((ps, st)) => match shelf_step(st, sizes[n - 1].0, sizes[n - 1].1, bin_w, bin_h) {
                None => None,
                Some((pos, st2)) => Some((ps.push(pos), st2)),
            },
        }
    }
}

/// The complete shelf layout of `sizes` in a `bin_w` by `bin_h` bin:
/// the position of every request, or `None` when they do not all fit.
/// Placement is all-or-nothing: there is no partial layout.
pub open spec fn shelf_pack(sizes: Seq<(int, int)>, bin_w: int, bin_h: int) -> Option<
    Seq<(int, int)>,
> {
    match shelf_prefix(sizes, bin_w, bin_h, sizes.len() as int) {
        None => None,
        Some((ps, st)) => Some(ps),
    }
}

/// The adaptive growth loop: pack into the current bin; on failure double
/// each dimension, clamped to the maximum, and retry.  The attempt fails for
/// good only when the bin already had both dimensions at the maximum.
/// Returns the positions and the bin size finally used.
pub open spec fn grow_pack(
    sizes: Seq<(int, int)>,
    cur_w: int,
    cur_h: int,
    max_w: int,
    max_h: int,
) -> Option<(Seq<(int, int)>, int, int)>
    decreases (max_w - cur_w) + (max_h - cur_h)
        when 1 <= cur_w <= max_w && 1 <= cur_h <= max_h
{
    match shelf_pack(sizes, cur_w, cur_h) {
        Some(ps) => Some((ps, cur_w, cur_h)),
        None => if cur_w == max_w && cur_h == max_h {
            None
        } else {
            grow_pack(
                sizes,
                if 2 * cur_w > max_w { max_w } else { 2 * cur_w },
                if 2 * cur_h > max_h { max_h } else { 2 * cur_h },
                max_w,
                max_h,
            )
        },
    }
}

/// The positions of a sequence of placed rectangles.
pub open spec fn positions_of(rects: Seq<Rect>) -> Seq<(int, int)> {
    rects.map_values(|r: Rect| (r.x as int, r.y as int))
}

/// Placement `k` lies fully inside the bin and keeps the requested size.
pub open spec fn placement_within(
    sizes: Seq<(int, int)>,
    ps: Seq<(int, int)>,
    k: int,
    bin_w: int,
    bin_h: int,
) -> bool {
    &&& 0 <= ps[k].0
    &&& 0 <= ps[k].1
    &&& ps[k].0 + sizes[k].0 <= bin_w
    &&& ps[k].1 + sizes[k].1 <= bin_h
}

/// Placements `j` and `k` do not overlap.
pub open spec fn placements_disjoint(
    sizes: Seq<(int, int)>,
    ps: Seq<(int, int)>,
    j: int,
    k: int,
) -> bool {
    ||| ps[j].0 + sizes[j].0 <= ps[k].0
    ||| ps[k].0 + sizes[k].0 <= ps[j].0
    ||| ps[j].1 + sizes[j].1 <= ps[k].1
    ||| ps[k].1 + sizes[k].1 <= ps[j].1
}

/// Total area of the first `n` requested rectangles.
pub open spec fn area_of_first(sizes: Seq<(int, int)>, n: int) -> int
    decreases n,
{
    if n <= 0 {
        0
    } else {
        area_of_first(sizes, n - 1) + sizes[n - 1].0 * sizes[n - 1].1
    }
}

/// The shelf invariant: after any successfully placed prefix, the placements
/// are inside the bin, pairwise disjoint, below or inside the open row, and
/// their total area is bounded by the area swept by the cursor.
pub proof fn lemma_shelf_prefix_props(sizes: Seq<(int, int)>, bin_w: int, bin_h: int, n: int)
    requires
        valid_sizes(sizes),
        0 <= n <= sizes.len(),
        0 <= bin_w,
        0 <= bin_h,
        shelf_prefix(sizes, bin_w, bin_h, n) is Some,
    ensures
        ({
            let (ps, st) = shelf_prefix(sizes, bin_w, bin_h, n).unwrap();
            &&& ps.len() == n
            &&& 0 <= st.0 <= bin_w
            &&& 0 <= st.1
            &&& 0 <= st.2
            &&& st.1 + st.2 <= bin_h
            &&& forall|k: int| 0 <= k < n ==> #[trigger] placement_within(sizes, ps, k, bin_w, bin_h)
            &&& forall|k: int|
                0 <= k < n ==> (#[trigger] ps[k]).1 + sizes[k].1 <= st.1 || (ps[k].1 == st.1
                    && ps[k].0 + sizes[k].0 <= st.0 && sizes[k].1 <= st.2)
            &&& forall|j: int, k: int|
                0 <= j < k < n ==> #[trigger] placements_disjoint(sizes, ps, j, k)
            &&& area_of_first(sizes, n) <= bin_w * st.1 + st.0 * st.2
        }),
    decreases n,
{
    if n > 0 {
        lemma_shelf_prefix_props(sizes, bin_w, bin_h, n - 1);
        let (ps0, st0) = shelf_prefix(sizes, bin_w, bin_h, n - 1).unwrap();
        let (cx, cy, rh) = st0;
        let (w, h) = sizes[n - 1];
        assert(1 <= w && 1 <= h);
        let (ps, st) = shelf_prefix(sizes, bin_w, bin_h, n).unwrap();
        let a0 = area_of_first(sizes, n - 1);
        if cx + w <= bin_w && cy + h <= bin_h {
            let mx = if h > rh { h } else { rh };
            assert(ps == ps0.push((cx, cy)) && st == (cx + w, cy, mx));
            assert forall|k: int| 0 <= k < n implies #[trigger] placement_within(
                sizes,
                ps,
                k,
                bin_w,
                bin_h,
            ) by {
                if k < n - 1 {
                    assert(placement_within(sizes, ps0, k, bin_w, bin_h));
                }
            }
            assert forall|j: int, k: int| 0 <= j < k < n implies #[trigger] placements_disjoint(
                sizes,
                ps,
                j,
                k,
            ) by {
                if k < n - 1 {
                    assert(placements_disjoint(sizes, ps0, j, k));
                } else {
                    assert(ps0[j].1 + sizes[j].1 <= cy || (ps0[j].1 == cy && ps0[j].0 + sizes[j].0
                        <= cx && sizes[j].1 <= rh));
                }
            }
            assert(a0 + w * h <= bin_w * cy + (cx + w) * mx) by (nonlinear_arith)
                requires
                    a0 <= bin_w * cy + cx * rh,
                    mx >= rh,
                    mx >= h,
                    cx >= 0,
                    w >= 0,
                    h >= 0,
                    rh >= 0,
            ;
        } else if w <= bin_w && cy + rh + h <= bin_h {
            assert(ps == ps0.push((0, cy + rh)) && st == (w, cy + rh, h));
            assert forall|k: int| 0 <= k < n implies #[trigger] placement_within(
                sizes,
                ps,
                k,
                bin_w,
                bin_h,
            ) by {
                if k < n - 1 {
                    assert(placement_within(sizes, ps0, k, bin_w, bin_h));
                }
            }
            assert forall|k: int|
                0 <= k < n implies (#[trigger] ps[k]).1 + sizes[k].1 <= st.1 || (ps[k].1 == st.1
                && ps[k].0 + sizes[k].0 <= st.0 && sizes[k].1 <= st.2) by {
                if k < n - 1 {
                    assert(ps0[k].1 + sizes[k].1 <= cy || (ps0[k].1 == cy && ps0[k].0 + sizes[k].0
                        <= cx && sizes[k].1 <= rh));
                }
            }
            assert forall|j: int, k: int| 0 <= j < k < n implies #[trigger] placements_disjoint(
                sizes,
                ps,
                j,
                k,
            ) by {
                if k < n - 1 {
                    assert(placements_disjoint(sizes, ps0, j, k));
                } else {
                    assert(ps0[j].1 + sizes[j].1 <= cy || (ps0[j].1 == cy && ps0[j].0 + sizes[j].0
                        <= cx && sizes[j].1 <= rh));
                }
            }
            assert(a0 + w * h <= bin_w * (cy + rh) + w * h) by (nonlinear_arith)
                requires
                    a0 <= bin_w * cy + cx * rh,
                    cx <= bin_w,
                    rh >= 0,
            ;
        } else {
            assert(false);
        }
    }
}

/// A successful shelf layout places every request inside the bin, with no
/// two placements overlapping.
pub proof fn lemma_shelf_pack_props(sizes: Seq<(int, int)>, bin_w: int, bin_h: int)
    requires
        valid_sizes(sizes),
        0 <= bin_w,
        0 <= bin_h,
        shelf_pack(sizes, bin_w, bin_h) is Some,
    ensures
        ({
            let ps = shelf_pack(sizes, bin_w, bin_h).unwrap();
            &&& ps.len() == sizes.len()
            &&& forall|k: int|
                0 <= k < ps.len() ==> #[trigger] placement_within(sizes, ps, k, bin_w, bin_h)
            &&& forall|j: int, k: int|
                0 <= j < k < ps.len() ==> #[trigger] placements_disjoint(sizes, ps, j, k)
        }),
{
    lemma_shelf_prefix_props(sizes, bin_w, bin_h, sizes.len() as int);
}

/// Disjoint placements inside the bin cannot exceed its area: a successful
/// layout needs a bin at least as large as the requests together.
pub proof fn lemma_shelf_pack_area(sizes: Seq<(int, int)>, bin_w: int, bin_h: int)
    requires
        valid_sizes(sizes),
        0 <= bin_w,
        0 <= bin_h,
        shelf_pack(sizes, bin_w, bin_h) is Some,
    ensures
        area_of_first(sizes, sizes.len() as int) <= bin_w * bin_h,
{
    lemma_shelf_prefix_props(sizes, bin_w, bin_h, sizes.len() as int);
    let (ps, st) = shelf_prefix(sizes, bin_w, bin_h, sizes.len() as int).unwrap();
    assert(area_of_first(sizes, sizes.len() as int) <= bin_w * bin_h) by (nonlinear_arith)
        requires
            area_of_first(sizes, sizes.len() as int) <= bin_w * st.1 + st.0 * st.2,
            0 <= st.0 <= bin_w,
            0 <= st.1,
            0 <= st.2,
            st.1 + st.2 <= bin_h,
            0 <= bin_w,
    ;
}

/// A single request wider or taller than the bin makes the layout fail.
pub proof fn lemma_shelf_pack_oversize(sizes: Seq<(int, int)>, bin_w: int, bin_h: int, k: int)
    requires
        valid_sizes(sizes),
        0 <= bin_w,
        0 <= bin_h,
        0 <= k < sizes.len(),
        sizes[k].0 > bin_w || sizes[k].1 > bin_h,
    ensures
        shelf_pack(sizes, bin_w, bin_h) is None,
{
    if shelf_pack(sizes, bin_w, bin_h) is Some {
        if shelf_prefix(sizes, bin_w, bin_h, k + 1) is None {
            lemma_shelf_prefix_none_mono(sizes, bin_w, bin_h, k + 1, sizes.len() as int);
        }
        lemma_shelf_prefix_props(sizes, bin_w, bin_h, k);
        let (ps, st) = shelf_prefix(sizes, bin_w, bin_h, k).unwrap();
        assert(shelf_step(st, sizes[k].0, sizes[k].1, bin_w, bin_h) is Some);
        assert(false);
    }
}

/// Once a prefix fails to fit, every longer prefix fails too.
pub proof fn lemma_shelf_prefix_none_mono(
    sizes: Seq<(int, int)>,
    bin_w: int,
    bin_h: int,
    n: int,
    m: int,
)
    requires
        0 <= n <= m,
        shelf_prefix(sizes, bin_w, bin_h, n) is None,
    ensures
        shelf_prefix(sizes, bin_w, bin_h, m) is None,
    decreases m - n,
{
    if m > n {
        lemma_shelf_prefix_none_mono(sizes, bin_w, bin_h, n, m - 1);
    }
}

/// One unfolding of the growth loop: success at the current bin keeps it,
/// failure either gives up (both dimensions at the maximum) or doubles and
/// clamps.
pub proof fn lemma_grow_pack_step(
    sizes: Seq<(int, int)>,
    cur_w: int,
    cur_h: int,
    max_w: int,
    max_h: int,
)
    requires
        1 <= cur_w <= max_w,
        1 <= cur_h <= max_h,
    ensures
        shelf_pack(sizes, cur_w, cur_h) is Some ==> grow_pack(sizes, cur_w, cur_h, max_w, max_h)
            == Some((shelf_pack(sizes, cur_w, cur_h).unwrap(), cur_w, cur_h)),
        shelf_pack(sizes, cur_w, cur_h) is None && cur_w == max_w && cur_h == max_h ==> grow_pack(
            sizes,
            cur_w,
            cur_h,
            max_w,
            max_h,
        ) is None,
        shelf_pack(sizes, cur_w, cur_h) is None && !(cur_w == max_w && cur_h == max_h)
            ==> grow_pack(sizes, cur_w, cur_h, max_w, max_h) == grow_pack(
            sizes,
            if 2 * cur_w > max_w { max_w } else { 2 * cur_w },
            if 2 * cur_h > max_h { max_h } else { 2 * cur_h },
            max_w,
            max_h,
        ),
{
}

/// The growth loop settles on a bin between the starting and the maximum
/// size, and the positions it returns are the shelf layout for that bin.
pub proof fn lemma_grow_pack_success(
    sizes: Seq<(int, int)>,
    cur_w: int,
    cur_h: int,
    max_w: int,
    max_h: int,
)
    requires
        valid_sizes(sizes),
        1 <= cur_w <= max_w,
        1 <= cur_h <= max_h,
        grow_pack(sizes, cur_w, cur_h, max_w, max_h) is Some,
    ensures
        ({
            let (ps, bw, bh) = grow_pack(sizes, cur_w, cur_h, max_w, max_h).unwrap();
            &&& cur_w <= bw <= max_w
            &&& cur_h <= bh <= max_h
            &&& shelf_pack(sizes, bw, bh) == Some(ps)
        }),
    decreases (max_w - cur_w) + (max_h - cur_h),
{
    if shelf_pack(sizes, cur_w, cur_h) is Some {
    } else if !(cur_w == max_w && cur_h == max_h) {
        lemma_grow_pack_success(
            sizes,
            if 2 * cur_w > max_w { max_w } else { 2 * cur_w },
            if 2 * cur_h > max_h { max_h } else { 2 * cur_h },
            max_w,
            max_h,
        );
    }
}

/// Requests whose total area exceeds the area of the maximum bin can never
/// be packed: the growth loop fails.
pub proof fn lemma_grow_pack_area_infeasible(
    sizes: Seq<(int, int)>,
    cur_w: int,
    cur_h: int,
    max_w: int,
    max_h: int,
)
    requires
        valid_sizes(sizes),
        1 <= cur_w <= max_w,
        1 <= cur_h <= max_h,
        area_of_first(sizes, sizes.len() as int) > max_w * max_h,
    ensures
        grow_pack(sizes, cur_w, cur_h, max_w, max_h) is None,
    decreases (max_w - cur_w) + (max_h - cur_h),
{
    if shelf_pack(sizes, cur_w, cur_h) is Some {
        lemma_shelf_pack_area(sizes, cur_w, cur_h);
        assert(cur_w * cur_h <= max_w * max_h) by (nonlinear_arith)
            requires
                1 <= cur_w <= max_w,
                1 <= cur_h <= max_h,
        ;
        assert(false);
    } else if !(cur_w == max_w && cur_h == max_h) {
        lemma_grow_pack_area_infeasible(
            sizes,
            if 2 * cur_w > max_w { max_w } else { 2 * cur_w },
            if 2 * cur_h > max_h { max_h } else { 2 * cur_h },
            max_w,
            max_h,
        );
    }
}

/// A single request wider or taller than the maximum bin makes the growth
/// loop fail outright.
pub proof fn lemma_grow_pack_oversize(
    sizes: Seq<(int, int)>,
    cur_w: int,
    cur_h: int,
    max_w: int,
    max_h: int,
    k: int,
)
    requires
        valid_sizes(sizes),
        1 <= cur_w <= max_w,
        1 <= cur_h <= max_h,
        0 <= k < sizes.len(),
        sizes[k].0 > max_w || sizes[k].1 > max_h,
    ensures
        grow_pack(sizes, cur_w, cur_h, max_w, max_h) is None,
    decreases (max_w - cur_w) + (max_h - cur_h),
{
    lemma_shelf_pack_oversize(sizes, cur_w, cur_h, k);
    if !(cur_w == max_w && cur_h == max_h) {
        lemma_grow_pack_oversize(
            sizes,
            if 2 * cur_w > max_w { max_w } else { 2 * cur_w },
            if 2 * cur_h > max_h { max_h } else { 2 * cur_h },
            max_w,
            max_h,
            k,
        );
    }
}

/// `n` requests of one pixel each.
pub open spec fn unit_sizes(n: int) -> Seq<(int, int)> {
    Seq::new(n as nat, |i: int| (1int, 1int))
}

/// Unit requests fill a bin row by row: after `i` of them the cursor stands
/// right behind cell `i - 1`, in row-major order.
proof fn lemma_unit_prefix(bin_w: int, bin_h: int, n: int, i: int)
    requires
        1 <= bin_w,
        1 <= bin_h,
        0 <= i <= n <= bin_w * bin_h,
    ensures
        shelf_prefix(unit_sizes(n), bin_w, bin_h, i) is Some,
        i > 0 ==> shelf_prefix(unit_sizes(n), bin_w, bin_h, i).unwrap().1 == (
            ((i - 1) % bin_w) + 1,
            (i - 1) / bin_w,
            1int,
        ),
    decreases i,
{
    if i == 1 {
        lemma_unit_prefix(bin_w, bin_h, n, 0);
        vstd::arithmetic::div_mod::lemma_fundamental_div_mod_converse(0, bin_w, 0, 0);
    } else if i >= 2 {
        lemma_unit_prefix(bin_w, bin_h, n, i - 1);
        vstd::arithmetic::div_mod::lemma_mod_bound(i - 2, bin_w);
        vstd::arithmetic::div_mod::lemma_fundamental_div_mod(i - 2, bin_w);
        let c = (i - 2) % bin_w;
        let q = (i - 2) / bin_w;
        if c + 1 < bin_w {
            assert(q + 1 <= bin_h) by (nonlinear_arith)
                requires
                    bin_w * q + c == i - 2,
                    0 <= c,
                    i - 2 <= bin_w * bin_h - 2,
                    1 <= bin_w,
                    1 <= bin_h,
            ;
            vstd::arithmetic::div_mod::lemma_fundamental_div_mod_converse(i - 1, bin_w, q, c + 1);
        } else {
            assert(q + 2 <= bin_h) by (nonlinear_arith)
                requires
                    bin_w * q + c == i - 2,
                    c == bin_w - 1,
                    i - 1 <= bin_w * bin_h - 1,
                    1 <= bin_w,
                    1 <= bin_h,
            ;
            assert(i - 1 == (q + 1) * bin_w + 0) by (nonlinear_arith)
                requires
                    bin_w * q + c == i - 2,
                    c == bin_w - 1,
            ;
            vstd::arithmetic::div_mod::lemma_fundamental_div_mod_converse(i - 1, bin_w, q + 1, 0);
        }
    }
}

/// A bin of `bin_w` by `bin_h` pixels holds up to `bin_w * bin_h` one-pixel
/// requests.
pub proof fn lemma_unit_requests_fit(bin_w: int, bin_h: int, n: int)
    requires
        1 <= bin_w,
        1 <= bin_h,
        0 <= n <= bin_w * bin_h,
    ensures
        valid_sizes(unit_sizes(n)),
        shelf_pack(unit_sizes(n), bin_w, bin_h) is Some,
{
    lemma_unit_prefix(bin_w, bin_h, n, n);
}

/// Few enough one-pixel requests succeed at the starting bin size already:
/// the growth loop never has to grow.
pub proof fn lemma_grow_pack_units_at_start(
    start_w: int,
    start_h: int,
    max_w: int,
    max_h: int,
    n: int,
)
    requires
        1 <= start_w <= max_w,
        1 <= start_h <= max_h,
        0 <= n <= start_w * start_h,
    ensures
        ({
            let r = grow_pack(unit_sizes(n), start_w, start_h, max_w, max_h);
            &&& r is Some
            &&& r.unwrap().1 == start_w
            &&& r.unwrap().2 == start_h
        }),
{
    lemma_unit_requests_fit(start_w, start_h, n);
}

/// Pack the requests into the smallest bin the growth policy reaches, or
/// report that even the maximum bin cannot hold them.  The result is exactly
/// what `grow_pack` describes for the returned bin size.
pub fn pack_with_growth(
    sizes: &Vec<(u32, u32)>,
    start_w: u32,
    start_h: u32,
    max_w: u32,
    max_h: u32,
) -> (r: Option<(Vec<Rect>, u32, u32)>)
    requires
        valid_sizes(size_models(sizes@)),
        1 <= start_w <= max_w,
        1 <= start_h <= max_h,
    ensures
        match r {
            Some((rects, bin_w, bin_h)) => {
                &&& grow_pack(
                    size_models(sizes@),
                    start_w as int,
                    start_h as int,
                    max_w as int,
                    max_h as int,
                ) == Some((positions_of(rects@), bin_w as int, bin_h as int))
                &&& start_w <= bin_w <= max_w
                &&& start_h <= bin_h <= max_h
                &&& rects@.len() == sizes@.len()
                &&& forall|k: int|
                    0 <= k < sizes@.len() ==> (#[trigger] rects@[k]).width == sizes@[k].0
                        && rects@[k].height == sizes@[k].1
            },
            None => grow_pack(
                size_models(sizes@),
                start_w as int,
                start_h as int,
                max_w as int,
                max_h as int,
            ) is None,
        },
{
    let ghost models = size_models(sizes@);
    let mut cur_w = start_w;
    let mut cur_h = start_h;
    loop
        invariant
            models == size_models(sizes@),
            valid_sizes(models),
            1 <= start_w <= cur_w <= max_w,
            1 <= start_h <= cur_h <= max_h,
            grow_pack(models, start_w as int, start_h as int, max_w as int, max_h as int)
                == grow_pack(models, cur_w as int, cur_h as int, max_w as int, max_h as int),
        decreases (max_w - cur_w) + (max_h - cur_h),
    {
        match pack_into_bin(sizes, cur_w, cur_h) {
            Some(rects) => {
                proof {
                    lemma_grow_pack_step(
                        models,
                        cur_w as int,
                        cur_h as int,
                        max_w as int,
                        max_h as int,
                    );
                }
                return Some((rects, cur_w, cur_h));
            },
            None => {
                if cur_w == max_w && cur_h == max_h {
                    return None;
                }
                let next_w = if cur_w > max_w / 2 {
                    max_w
                } else {
                    cur_w * 2
                };
                let next_h = if cur_h > max_h / 2 {
                    max_h
                } else {
                    cur_h * 2
                };
                proof {
                    assert(next_w as int == if 2 * (cur_w as int) > max_w as int {
                        max_w as int
                    } else {
                        2 * (cur_w as int)
                    });
                    assert(next_h as int == if 2 * (cur_h as int) > max_h as int {
                        max_h as int
                    } else {
                        2 * (cur_h as int)
                    });
                    lemma_grow_pack_step(
                        models,
                        cur_w as int,
                        cur_h as int,
                        max_w as int,
                        max_h as int,
                    );
                }
                cur_w = next_w;
                cur_h = next_h;
            },
        }
    }
}

/// Place all requests into one bin of the given size, or report that they do
/// not fit.  The result is exactly the shelf layout `shelf_pack` describes:
/// the rectangle of request `k` stands at the computed position and keeps the
/// requested width and height.
pub fn pack_into_bin(sizes: &Vec<(u32, u32)>, bin_w: u32, bin_h: u32) -> (r: Option<Vec<Rect>>)
    requires
        valid_sizes(size_models(sizes@)),
    ensures
        match r {
            Some(rects) => {
                &&& shelf_pack(size_models(sizes@), bin_w as int, bin_h as int) == Some(
                    positions_of(rects@),
                )
                &&& rects@.len() == sizes@.len()
                &&& forall|k: int|
                    0 <= k < sizes@.len() ==> (#[trigger] rects@[k]).width == sizes@[k].0
                        && rects@[k].height == sizes@[k].1
            },
            None => shelf_pack(size_models(sizes@), bin_w as int, bin_h as int) is None,
        },
{
    let ghost models = size_models(sizes@);
    let mut rects: Vec<Rect> = Vec::new();
    let mut cx: u32 = 0;
    let mut cy: u32 = 0;
    let mut rh: u32 = 0;
    let n = sizes.len();
    let mut i: usize = 0;
    while i < n
        invariant
            n == sizes@.len(),
            0 <= i <= n,
            models == size_models(sizes@),
            valid_sizes(models),
            rects@.len() == i,
            cx <= bin_w,
            cy + rh <= bin_h,
            shelf_prefix(models, bin_w as int, bin_h as int, i as int) == Some(
                (positions_of(rects@), (cx as int, cy as int, rh as int)),
            ),
            forall|k: int|
                0 <= k < i ==> (#[trigger] rects@[k]).width == sizes@[k].0 && rects@[k].height
                    == sizes@[k].1,
        decreases n - i,
    {
        let (w, h) = sizes[i];
        proof {
            assert(models[i as int] == (w as int, h as int));
        }
        let ghost prev_rects = rects@;
        if w <= bin_w - cx && h <= bin_h - cy {
            rects.push(Rect { x: cx, y: cy, width: w, height: h });
            cx = cx + w;
            if h > rh {
                rh = h;
            }
            proof {
                assert(positions_of(rects@) =~= positions_of(prev_rects).push(
                    (rects@[i as int].x as int, rects@[i as int].y as int),
                ));
            }
        } else if w <= bin_w && h <= (bin_h - cy) - rh {
            rects.push(Rect { x: 0, y: cy + rh, width: w, height: h });
            cx = w;
            cy = cy + rh;
            rh = h;
            proof {
                assert(positions_of(rects@) =~= positions_of(prev_rects).push(
                    (rects@[i as int].x as int, rects@[i as int].y as int),
                ));
            }
        } else {
            proof {
                assert(shelf_prefix(models, bin_w as int, bin_h as int, i + 1) is None);
                lemma_shelf_prefix_none_mono(
                    models,
                    bin_w as int,
                    bin_h as int,
                    i + 1,
                    models.len() as int,
                );
            }
            return None;
        }
        i = i + 1;
    }
    Some(rects)
}

} // verus!
