//! Step resolution: the player's resting height is set by the tallest
//! obstacle whose footprint the step probe touches.
use vstd::prelude::*;

use crate::geometry::{all_wf, circle_overlaps, in_world, overlaps, Obstacle, Point2, COORD_LIMIT};

verus! {

/// The highest top among the obstacles whose footprint a circle of radius `r`
/// at `p` touches or overlaps; `None` when it touches none.
pub open spec fn highest_top(p: (int, int), r: int, obstacles: Seq<Obstacle>) -> Option<int>
    decreases obstacles.len(),
{
    if obstacles.len() == 0 {
        None
    } else {
        let rest = highest_top(p, r, obstacles.drop_last());
        let o = obstacles.last();
        if overlaps(p, r, o) {
            match rest {
                None => Some(o.top()),
                Some(t) => Some(if o.top() > t { o.top() } else { t }),
            }
        } else {
            rest
        }
    }
}

/// The eye height of a player resting at `p`: on the highest touched top, or
/// on the baseline when the probe touches nothing.
pub open spec fn rest_height(
    p: (int, int),
    r: int,
    baseline: int,
    eye_height: int,
    obstacles: Seq<Obstacle>,
) -> int {
    match highest_top(p, r, obstacles) {
        Some(t) => t + eye_height,
        None => baseline + eye_height,
    }
}

/// The vertical position of a player at `position`: `eye_height` above the
/// highest top of the obstacles that a probe circle of radius `probe_radius`
/// touches, or above `baseline` when it touches none.
pub fn resolve_height(
    position: Point2,
    probe_radius: i64,
    baseline: i64,
    eye_height: i64,
    obstacles: &[Obstacle],
) -> (h: i64)
    requires
        in_world(position@),
        0 <= probe_radius <= COORD_LIMIT,
        -COORD_LIMIT <= baseline <= COORD_LIMIT,
        -COORD_LIMIT <= eye_height <= COORD_LIMIT,
        all_wf(obstacles@),
    ensures
        h == rest_height(position@, probe_radius as int, baseline as int, eye_height as int, obstacles@),
{
    let mut highest: Option<i64> = None;
    let mut i: usize = 0;
    while i < obstacles.len()
        invariant
            0 <= i <= obstacles@.len(),
            in_world(position@),
            0 <= probe_radius <= COORD_LIMIT,
            all_wf(obstacles@),
            highest matches Some(t) ==> -2 * COORD_LIMIT <= t <= 2 * COORD_LIMIT,
            match highest {
                None => highest_top(position@, probe_radius as int, obstacles@.subrange(0, i as int)) is None,
                Some(t) => highest_top(position@, probe_radius as int, obstacles@.subrange(0, i as int))
                    == Some(t as int),
            },
        decreases obstacles@.len() - i,
    {
        proof {
            let next = obstacles@.subrange(0, i + 1);
            assert(next.drop_last() =~= obstacles@.subrange(0, i as int));
            assert(next.last() == obstacles@[i as int]);
            assert(obstacles@[i as int].wf());
        }
        let o = &obstacles[i];
        if circle_overlaps(position, probe_radius, o) {
            let top = o.top_y();
            highest = match highest {
                None => Some(top),
                Some(t) => Some(if top > t { top } else { t }),
            };
        }
        i = i + 1;
    }
    assert(obstacles@.subrange(0, obstacles@.len() as int) =~= obstacles@);
    match highest {
        Some(t) => t + eye_height,
        None => baseline + eye_height,
    }
}

/// The highest touched top is the top of a touched obstacle, and no touched
/// obstacle is higher; there is none exactly when no obstacle is touched.
pub proof fn lemma_highest_top_is_maximum(p: (int, int), r: int, obstacles: Seq<Obstacle>)
    ensures
        highest_top(p, r, obstacles) is None <==> forall|i: int|
            0 <= i < obstacles.len() ==> !overlaps(p, r, #[trigger] obstacles[i]),
        highest_top(p, r, obstacles) matches Some(t) ==> {
            &&& exists|i: int|
                0 <= i < obstacles.len() && overlaps(p, r, #[trigger] obstacles[i])
                    && obstacles[i].top() == t
            &&& forall|i: int|
                0 <= i < obstacles.len() && overlaps(p, r, #[trigger] obstacles[i])
                    ==> obstacles[i].top() <= t
        },
    decreases obstacles.len(),
{
    if obstacles.len() > 0 {
        let init = obstacles.drop_last();
        let n = obstacles.len() - 1;
        lemma_highest_top_is_maximum(p, r, init);
        assert forall|i: int| 0 <= i < init.len() implies init[i] == obstacles[i] by {}
        assert(obstacles.last() == obstacles[n]);
        match highest_top(p, r, obstacles) {
            None => {
                assert forall|i: int| 0 <= i < obstacles.len() implies !overlaps(
                    p,
                    r,
                    #[trigger] obstacles[i],
                ) by {
                    if i < n {
                        assert(init[i] == obstacles[i]);
                    }
                }
            },
            Some(t) => {
                if overlaps(p, r, obstacles[n]) {
                    if obstacles[n].top() == t {
                        assert(overlaps(p, r, obstacles[n]) && obstacles[n].top() == t);
                    } else {
                        let j = choose|j: int|
                            0 <= j < init.len() && overlaps(p, r, #[trigger] init[j])
                                && init[j].top() == t;
                        assert(overlaps(p, r, obstacles[j]) && obstacles[j].top() == t);
                    }
                } else {
                    let j = choose|j: int|
                        0 <= j < init.len() && overlaps(p, r, #[trigger] init[j]) && init[j].top()
                            == t;
                    assert(overlaps(p, r, obstacles[j]) && obstacles[j].top() == t);
                }
                assert forall|i: int|
                    0 <= i < obstacles.len() && overlaps(
                        p,
                        r,
                        #[trigger] obstacles[i],
                    ) implies obstacles[i].top() <= t by {
                    if i < n {
                        assert(init[i] == obstacles[i]);
                    }
                }
            },
        }
        if forall|i: int| 0 <= i < obstacles.len() ==> !overlaps(p, r, #[trigger] obstacles[i]) {
            assert(!overlaps(p, r, obstacles[n]));
            assert forall|i: int| 0 <= i < init.len() implies !overlaps(p, r, #[trigger] init[i]) by {
                assert(init[i] == obstacles[i]);
            }
        }
    }
}

/// With no obstacles the player rests at the baseline.
pub proof fn lemma_rest_height_without_obstacles(
    p: (int, int),
    r: int,
    baseline: int,
    eye_height: int,
)
    ensures
        rest_height(p, r, baseline, eye_height, Seq::empty()) == baseline + eye_height,
{
}

} // verus!
