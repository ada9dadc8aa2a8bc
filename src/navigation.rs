use vstd::arithmetic::div_mod::{lemma_div_by_multiple, lemma_div_is_ordered};
use vstd::prelude::*;

use crate::components::{Follow, Pos};
use crate::ecs::{lists, Ecs};

verus! {

/// World units that a follower travels per second.
pub const FOLLOW_SPEED_PER_S: u64 = 500;

/// The distance travelled in `delta_ms` milliseconds.
pub open spec fn frame_travel(delta_ms: int) -> int {
    FOLLOW_SPEED_PER_S * delta_ms / 1000
}

/// The square of the distance from `a` to `b`.
pub open spec fn dist_sq(a: Pos, b: Pos) -> int {
    (b.x - a.x) * (b.x - a.x) + (b.y - a.y) * (b.y - a.y)
}

/// Whether `r` is the integer square root of `n`, rounded down.
pub open spec fn is_floor_sqrt(r: int, n: int) -> bool {
    0 <= r && r * r <= n < (r + 1) * (r + 1)
}

/// The integer square root of `n`, rounded down.
pub open spec fn floor_sqrt(n: int) -> int {
    choose|r: int| is_floor_sqrt(r, n)
}

/// Whether a follower at `a` is close enough to `b` to snap onto it in a frame
/// in which it travels `travel`: closer than one and a half times that
/// distance, or already there.
pub open spec fn near_enough(a: Pos, b: Pos, travel: int) -> bool {
    dist_sq(a, b) == 0 || 4 * dist_sq(a, b) < 9 * travel * travel
}

/// The share of `travel` along an axis on which the target lies `d` away,
/// when the whole distance is `dist`, rounded towards zero.
pub open spec fn axis_step(d: int, travel: int, dist: int) -> int {
    if d >= 0 {
        d * travel / dist
    } else {
        -((-d) * travel / dist)
    }
}

/// Where a follower at `a` chasing `b` stands after a frame in which it
/// travels `travel`: on `b` when near enough, else `travel` units closer
/// along the straight line (each axis rounded towards zero).
pub open spec fn follow_pos(a: Pos, b: Pos, travel: int) -> Pos {
    if near_enough(a, b, travel) {
        b
    } else {
        let dist = floor_sqrt(dist_sq(a, b));
        Pos {
            x: (a.x + axis_step(b.x - a.x, travel, dist)) as i32,
            y: (a.y + axis_step(b.y - a.y, travel, dist)) as i32,
        }
    }
}

/// The rounded-down square root is unique.
pub proof fn lemma_floor_sqrt_unique(r: int, n: int)
    requires
        is_floor_sqrt(r, n),
    ensures
        floor_sqrt(n) == r,
{
    let s = floor_sqrt(n);
    assert(is_floor_sqrt(s, n));
    if s < r {
        assert((s + 1) * (s + 1) <= r * r) by (nonlinear_arith)
            requires
                0 <= s < r,
        ;
    } else if r < s {
        assert((r + 1) * (r + 1) <= s * s) by (nonlinear_arith)
            requires
                0 <= r < s,
        ;
    }
}

/// The integer square root of `n`, rounded down.
fn isqrt(n: u128) -> (r: u128)
    requires
        n < 0x40000000000000000,
    ensures
        is_floor_sqrt(r as int, n as int),
        r < 0x400000000,
{
    let mut lo: u128 = 0;
    let mut hi: u128 = 0x400000000;
    assert(n < hi * hi);
    while lo + 1 < hi
        invariant
            lo < hi <= 0x400000000,
            lo * lo <= n,
            n < hi * hi,
        decreases hi - lo,
    {
        let mid = lo + (hi - lo) / 2;
        assert(mid * mid <= 0x400000000 * 0x400000000) by (nonlinear_arith)
            requires
                mid <= 0x400000000,
        ;
        if mid * mid <= n {
            lo = mid;
        } else {
            hi = mid;
        }
    }
    lo
}

proof fn lemma_step_bounded(a: int, travel: int, dist: int)
    requires
        a >= 0,
        0 <= travel <= dist,
        dist > 0,
    ensures
        0 <= a * travel / dist <= a,
{
    assert(a * travel <= a * dist) by (nonlinear_arith)
        requires
            a >= 0,
            travel <= dist,
    ;
    assert(0 <= a * travel) by (nonlinear_arith)
        requires
            a >= 0,
            travel >= 0,
    ;
    lemma_div_is_ordered(a * travel, a * dist, dist);
    lemma_div_is_ordered(0, a * travel, dist);
    lemma_div_by_multiple(a, dist);
}

fn axis_step_exec(d: i64, travel: u64, dist: u128) -> (r: i64)
    requires
        -0x100000000 < d < 0x100000000,
        travel <= dist,
        dist > 0,
    ensures
        r == axis_step(d as int, travel as int, dist as int),
        d >= 0 ==> 0 <= r <= d,
        d < 0 ==> d <= r <= 0,
{
    if d >= 0 {
        proof {
            lemma_step_bounded(d as int, travel as int, dist as int);
        }
        assert((d as u128) * (travel as u128) < 0x100000000 * 0x10000000000000000) by (nonlinear_arith)
            requires
                0 <= d < 0x100000000,
                travel < 0x10000000000000000,
        ;
        ((d as u128) * (travel as u128) / dist) as i64
    } else {
        let m: i64 = -d;
        proof {
            lemma_step_bounded(m as int, travel as int, dist as int);
        }
        assert((m as u128) * (travel as u128) < 0x100000000 * 0x10000000000000000) by (nonlinear_arith)
            requires
                0 <= m < 0x100000000,
                travel < 0x10000000000000000,
        ;
        let q = ((m as u128) * (travel as u128) / dist) as i64;
        -q
    }
}

/// Where a follower at `pos` chasing `target` stands after travelling
/// `travel`, and whether it arrived.
pub fn follow_step(pos: Pos, target: Pos, travel: u64) -> (r: (Pos, bool))
    ensures
        r.0 == follow_pos(pos, target, travel as int),
        r.1 == near_enough(pos, target, travel as int),
{
    let dx: i64 = target.x as i64 - pos.x as i64;
    let dy: i64 = target.y as i64 - pos.y as i64;
    let ghost gdx = dx as int;
    let ghost gdy = dy as int;
    assert(0 <= gdx * gdx < 0x10000000000000000 && 0 <= gdy * gdy < 0x10000000000000000) by (nonlinear_arith)
        requires
            -0x100000000 < gdx < 0x100000000,
            -0x100000000 < gdy < 0x100000000,
    ;
    let d2: u128 = (dx as i128 * dx as i128) as u128 + (dy as i128 * dy as i128) as u128;
    assert(d2 == dist_sq(pos, target));
    let near = if d2 == 0 {
        true
    } else if travel >= 0x400000000 {
        assert(9 * travel * travel >= 9 * 0x400000000 * 0x400000000) by (nonlinear_arith)
            requires
                travel >= 0x400000000,
        ;
        true
    } else {
        assert(9 * (travel as int) * (travel as int) < 9 * 0x400000000 * 0x400000000) by (nonlinear_arith)
            requires
                0 <= travel < 0x400000000,
        ;
        4 * d2 < 9 * (travel as u128) * (travel as u128)
    };
    if near {
        (target, true)
    } else {
        let dist = isqrt(d2);
        proof {
            lemma_floor_sqrt_unique(dist as int, d2 as int);
            let t = travel as int;
            let s = dist as int;
            assert(t <= s) by (nonlinear_arith)
                requires
                    4 * (d2 as int) >= 9 * t * t,
                    (d2 as int) < (s + 1) * (s + 1),
                    s >= 0,
                    t >= 0,
            ;
            assert(s > 0) by (nonlinear_arith)
                requires
                    (d2 as int) < (s + 1) * (s + 1),
                    d2 > 0,
                    s >= 0,
            ;
        }
        let sx = axis_step_exec(dx, travel, dist);
        let sy = axis_step_exec(dy, travel, dist);
        let x = (pos.x as i64 + sx) as i32;
        let y = (pos.y as i64 + sy) as i32;
        (Pos { x, y }, false)
    }
}

/// The position of the target of follower `e` in `prev`.
pub open spec fn target_pos(prev: &Ecs, e: usize) -> Pos {
    prev.pos_view()[prev.follow_view()[e].target_entity]
}

/// Whether follower `e` of `prev` reaches its target this frame and stops
/// following it.
pub open spec fn stops(prev: &Ecs, e: usize, travel: int) -> bool {
    &&& prev.follow_view().contains_key(e)
    &&& prev.follow_view()[e].stop_after_arriving
    &&& near_enough(prev.pos_view()[e], target_pos(prev, e), travel)
}

/// Follower `e` of `prev` and its target have positions, and `next` has a
/// position for it and, where it may stop, its `Follow`.
pub open spec fn follower_ready(prev: &Ecs, next: &Ecs, e: usize) -> bool {
    follower_ready_in(prev, next.pos_view(), next.follow_view(), e)
}

/// `follower_ready`, with the positions and `Follow`s of `next` given as maps.
pub open spec fn follower_ready_in(prev: &Ecs, pos: Map<usize, Pos>, follow: Map<usize, Follow>, e: usize) -> bool {
    &&& prev.pos_view().contains_key(e)
    &&& prev.pos_view().contains_key(prev.follow_view()[e].target_entity)
    &&& pos.contains_key(e)
    &&& prev.follow_view()[e].stop_after_arriving ==> follow.contains_key(e)
}

/// Every follower of `prev` is ready to move.
pub open spec fn followers_ready_in(prev: &Ecs, pos: Map<usize, Pos>, follow: Map<usize, Follow>) -> bool {
    forall|e: usize| #[trigger] prev.follow_view().contains_key(e) ==> follower_ready_in(prev, pos, follow, e)
}

/// The positions `pos` of `next` after the follow system: each follower of
/// `prev` moves towards its target, the others stay.
pub open spec fn followed_pos(prev: &Ecs, pos: Map<usize, Pos>, delta_ms: u64) -> Map<usize, Pos> {
    Map::new(
        |e: usize| pos.contains_key(e),
        |e: usize|
            if prev.follow_view().contains_key(e) {
                follow_pos(prev.pos_view()[e], target_pos(prev, e), frame_travel(delta_ms as int))
            } else {
                pos[e]
            },
    )
}

/// The `Follow`s `follow` of `next` after the follow system: those of the
/// followers that stop are gone.
pub open spec fn followed_follow(prev: &Ecs, follow: Map<usize, Follow>, delta_ms: u64) -> Map<usize, Follow> {
    Map::new(
        |e: usize| follow.contains_key(e) && !stops(prev, e, frame_travel(delta_ms as int)),
        |e: usize| follow[e],
    )
}

/// Moves each follower of `prev` towards its target's position in `prev`,
/// writing its new position into `next`. A follower that arrives is placed
/// on its target and, if it stops after arriving, loses its `Follow` in
/// `next`.
pub fn update_and_render(delta_ms: u64, prev: &Ecs, next: &mut Ecs)
    requires
        prev.wf(),
        old(next).wf(),
        forall|e: usize| #[trigger] prev.follow_view().contains_key(e) ==> follower_ready(prev, old(next), e),
    ensures
        final(next).wf(),
        final(next).num_entities() == old(next).num_entities(),
        final(next).debug_view() == old(next).debug_view(),
        final(next).sprite_anims_view() == old(next).sprite_anims_view(),
        final(next).terrain_view() == old(next).terrain_view(),
        final(next).pos_view().dom() == old(next).pos_view().dom(),
        forall|e: usize| #[trigger] old(next).pos_view().contains_key(e) ==> final(next).pos_view()[e] == (
            if prev.follow_view().contains_key(e) {
                follow_pos(prev.pos_view()[e], target_pos(prev, e), frame_travel(delta_ms as int))
            } else {
                old(next).pos_view()[e]
            }),
        forall|e: usize| #[trigger] final(next).follow_view().contains_key(e) <==> (old(next).follow_view().contains_key(e)
            && !stops(prev, e, frame_travel(delta_ms as int))),
        forall|e: usize| #[trigger] final(next).follow_view().contains_key(e) ==> final(next).follow_view()[e]
            == old(next).follow_view()[e],
{
    let travel: u64 = ((FOLLOW_SPEED_PER_S as u128) * (delta_ms as u128) / 1000) as u64;
    let ghost t = frame_travel(delta_ms as int);
    assert(travel == t);
    let items = prev.follow_iter();
    let ghost next0 = *next;
    let ghost mut done: Set<usize> = Set::empty();
    let mut i: usize = 0;
    while i < items.len()
        invariant
            prev.wf(),
            next.wf(),
            travel == t,
            lists(items@, prev.follow_view()),
            forall|e: usize| #[trigger] prev.follow_view().contains_key(e) ==> follower_ready(prev, &next0, e),
            0 <= i <= items@.len(),
            next.num_entities() == next0.num_entities(),
            next.debug_view() == next0.debug_view(),
            next.sprite_anims_view() == next0.sprite_anims_view(),
            next.terrain_view() == next0.terrain_view(),
            forall|j: int| 0 <= j < i ==> done.contains(#[trigger] items@[j].0),
            forall|x: usize| #[trigger] done.contains(x) ==> prev.follow_view().contains_key(x),
            forall|j: int| i <= j < items@.len() ==> !done.contains(#[trigger] items@[j].0),
            next.pos_view().dom() == next0.pos_view().dom(),
            forall|x: usize| #[trigger] next0.pos_view().contains_key(x) ==> next.pos_view()[x] == (
                if done.contains(x) {
                    follow_pos(prev.pos_view()[x], target_pos(prev, x), t)
                } else {
                    next0.pos_view()[x]
                }),
            forall|x: usize| #[trigger] next.follow_view().contains_key(x) <==> (next0.follow_view().contains_key(x)
                && !(done.contains(x) && stops(prev, x, t))),
            forall|x: usize| #[trigger] next.follow_view().contains_key(x) ==> next.follow_view()[x]
                == next0.follow_view()[x],
        decreases items@.len() - i,
    {
        let (e, f) = items[i];
        assert(prev.follow_view().contains_key(e));
        assert(follower_ready(prev, &next0, e));
        let p = prev.pos_for_unchecked(e);
        let tp = prev.pos_for_unchecked(f.target_entity);
        let (np, arrived) = follow_step(p, tp, travel);
        let ghost before = *next;
        if arrived && f.stop_after_arriving {
            assert(!done.contains(e));
            next.unset_follow_for(e);
        }
        assert(next.pos_view().contains_key(e));
        next.set_pos_for(e, np);
        proof {
            assert forall|j: int| i + 1 <= j < items@.len() implies !done.insert(e).contains(
                #[trigger] items@[j].0,
            ) by {
                assert(items@[i as int].0 != items@[j].0);
            }
            done = done.insert(e);
        }
        i = i + 1;
    }
    proof {
        assert forall|x: usize| prev.follow_view().contains_key(x) implies done.contains(x) by {
            let j = choose|j: int| 0 <= j < items@.len() && #[trigger] items@[j].0 == x;
        }
    }
}

} // verus!
