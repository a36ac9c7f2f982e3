//! The executor that runs the library's background work, and the decisions
//! of the loops that drive windows: when to render, when the next frame is
//! due, how long to sleep, and which keys are held down.
//!
//! Instants are nanoseconds on one monotonic clock.

use vstd::prelude::*;

verus! {

/// Whether `after` is what installing an executor from `create` into
/// `before` leaves: `before` where an executor is already installed, and one
/// that `create` makes otherwise.
pub open spec fn installs<E, F: FnOnce() -> E>(before: Option<E>, after: Option<E>, create: F) -> bool {
    &&& before is Some ==> after == before
    &&& before is None ==> (after matches Some(executor) && create.ensures((), executor))
}

/// Installs in `pool` the executor that `create` makes, unless an executor is
/// already installed; `create` is then not called.
pub fn initialize<E, F: FnOnce() -> E>(pool: &mut Option<E>, create: F)
    requires
        *old(pool) is None ==> create.requires(()),
    ensures
        *old(pool) is Some ==> *final(pool) == *old(pool),
        *old(pool) is None ==> (*final(pool) matches Some(executor) && create.ensures((), executor)),
        installs(*old(pool), *final(pool), create),
{
    if pool.is_some() {
        return;
    }
    let executor = create();
    *pool = Some(executor);
}

/// Initializing installs an executor, and initializing again changes
/// nothing: a second call keeps the executor of the first.
pub proof fn lemma_initialize_idempotent<E, F: FnOnce() -> E, G: FnOnce() -> E>(
    first: Option<E>,
    second: Option<E>,
    third: Option<E>,
    create: F,
    create_again: G,
)
    requires
        installs(first, second, create),
        installs(second, third, create_again),
    ensures
        second is Some,
        third == second,
{
}

/// The time between two frames, in nanoseconds: a rate of 144 frames a
/// second.
pub const FRAME_DURATION: u64 = 6_944_444;

/// Whether a window whose next frame is due at `next_frame_target` renders
/// in a pass of its loop that starts at `frame_start`: once that time has
/// passed.
pub fn window_frame_due(next_frame_target: u64, frame_start: u64) -> (r: bool)
    ensures
        r == (frame_start > next_frame_target),
{
    frame_start > next_frame_target
}

/// The larger of two instants.
pub open spec fn later(a: u64, b: u64) -> u64 {
    if a < b {
        b
    } else {
        a
    }
}

/// `duration` after `instant`, or `instant` itself where that cannot be
/// represented.
pub open spec fn after_or_at(instant: u64, duration: u64) -> u64 {
    if instant + duration <= u64::MAX {
        (instant + duration) as u64
    } else {
        instant
    }
}

/// How late a frame finished at `now` is against its target, in
/// nanoseconds, as the window loop counts it: zero when early, and taken as
/// a signed 64-bit number.
pub open spec fn lateness(next_frame_target: u64, now: u64) -> i64 {
    (later(now, next_frame_target) - next_frame_target) as u64 as i64
}

/// The next target of a window after a frame finished at `now`: a frame
/// duration after the later of the old target and `now`.
pub open spec fn window_next_target(next_frame_target: u64, now: u64, frame_duration: u64) -> u64 {
    after_or_at(later(next_frame_target, now), frame_duration)
}

/// The time a window sleeps after a frame finished at `now`: the frame
/// duration less the lateness, or nothing where that is negative.
pub open spec fn window_sleep(next_frame_target: u64, now: u64, frame_duration: u64) -> u64 {
    vstd::math::max((frame_duration as i64) - lateness(next_frame_target, now), 0) as u64
}

/// Paces a window after a frame that was due at `next_frame_target` finished
/// at `now`: returns the next target and the nanoseconds to sleep.
pub fn window_pace(next_frame_target: u64, now: u64, frame_duration: u64) -> (r: (u64, u64))
    requires
        i64::MIN <= (frame_duration as i64) - lateness(next_frame_target, now) <= i64::MAX,
    ensures
        r.0 == window_next_target(next_frame_target, now, frame_duration),
        r.1 == window_sleep(next_frame_target, now, frame_duration),
{
    let elapsed: u64 = if now > next_frame_target {
        now - next_frame_target
    } else {
        0
    };
    let elapsed_signed = elapsed as i64;
    let base = if next_frame_target < now {
        now
    } else {
        next_frame_target
    };
    let next = match base.checked_add(frame_duration) {
        Some(next) => next,
        None => base,
    };
    let left = frame_duration as i64 - elapsed_signed;
    let sleep = if left > 0 {
        left as u64
    } else {
        0
    };
    (next, sleep)
}

/// The next target of the application loop at `now`: `None` where no frame
/// is rendered, because no more than a frame duration has passed since the
/// target; otherwise a frame duration after `now`.
pub open spec fn runtime_next_target(next_frame_target: u64, now: u64, frame_duration: u64) -> Option<u64> {
    if now <= next_frame_target + frame_duration {
        None
    } else {
        Some(after_or_at(now, frame_duration))
    }
}

/// Decides whether the application loop renders all windows at `now`, and
/// if so, when the next frame is due.
pub fn runtime_pace(next_frame_target: u64, now: u64, frame_duration: u64) -> (r: Option<u64>)
    ensures
        r == runtime_next_target(next_frame_target, now, frame_duration),
{
    let late: u64 = if now > next_frame_target {
        now - next_frame_target
    } else {
        0
    };
    if late <= frame_duration {
        return None;
    }
    let mut next = match next_frame_target.checked_add(frame_duration) {
        Some(next) => next,
        None => next_frame_target,
    };
    if next < now {
        next = match now.checked_add(frame_duration) {
            Some(next) => next,
            None => now,
        };
    }
    Some(next)
}

/// Records that `key` was pressed or, where `pressed` is false, released,
/// in `keys`, the keys held down, each held once.
pub fn update_pressed_keys(keys: &mut Vec<u32>, key: u32, pressed: bool)
    requires
        old(keys)@.no_duplicates(),
    ensures
        final(keys)@.no_duplicates(),
        forall|k: u32|
            #[trigger] final(keys)@.contains(k) <==> if pressed {
                old(keys)@.contains(k) || k == key
            } else {
                old(keys)@.contains(k) && k != key
            },
{
    let mut i: usize = 0;
    while i < keys.len() && keys[i] != key
        invariant
            i <= keys.len(),
            keys@ == old(keys)@,
            forall|j: int| 0 <= j < i ==> keys@[j] != key,
        decreases keys.len() - i,
    {
        i = i + 1;
    }
    if i < keys.len() {
        if !pressed {
            let ghost before = keys@;
            keys.remove(i);
            proof {
                assert forall|k: u32| #[trigger] keys@.contains(k) <==> (before.contains(k) && k != key) by {
                    if keys@.contains(k) {
                        let w = choose|w: int| 0 <= w < keys@.len() && keys@[w] == k;
                        if w < i {
                            assert(before[w] == k);
                        } else {
                            assert(before[w + 1] == k);
                        }
                    }
                    if before.contains(k) && k != key {
                        let w = choose|w: int| 0 <= w < before.len() && before[w] == k;
                        assert(before[i as int] == key);
                        if w < i {
                            assert(keys@[w] == k);
                        } else {
                            assert(w != i);
                            assert(keys@[w - 1] == k);
                        }
                    }
                }
            }
        }
    } else if pressed {
        let ghost before = keys@;
        keys.push(key);
        proof {
            assert forall|k: u32| #[trigger] keys@.contains(k) <==> (before.contains(k) || k == key) by {
                if keys@.contains(k) {
                    let w = choose|w: int| 0 <= w < keys@.len() && keys@[w] == k;
                    if w < before.len() {
                        assert(before[w] == k);
                    }
                }
                if before.contains(k) {
                    let w = choose|w: int| 0 <= w < before.len() && before[w] == k;
                    assert(keys@[w] == k);
                }
                if k == key {
                    assert(keys@[before.len() as int] == k);
                }
            }
        }
    }
}

} // verus!
