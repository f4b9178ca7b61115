use vstd::prelude::*;
use crate::position::{position_of, Fix, Position};

verus! {

/// Smallest change of a coordinate, in ten-millionths of a degree, that
/// counts as movement: one ten-thousandth of a degree.
pub const THRESHOLD: i32 = 1_000;

/// Distance between two coordinates along one axis.
pub open spec fn axis_delta(a: i32, b: i32) -> int {
    if a >= b {
        a - b
    } else {
        b - a
    }
}

/// A new position is suppressed when either axis moved by less than the
/// threshold, even if the other axis moved a long way.
pub open spec fn too_close(last: Position, p: Position) -> bool {
    axis_delta(p.latitude, last.latitude) < THRESHOLD as int
        || axis_delta(p.longitude, last.longitude) < THRESHOLD as int
}

/// Whether a position is accepted after `last` was the last accepted one.
pub open spec fn accepts(last: Option<Position>, p: Position) -> bool {
    match last {
        None => true,
        Some(l) => !too_close(l, p),
    }
}

/// Whether a fix is accepted: it needs both coordinates and must have moved.
pub open spec fn admits(last: Option<Position>, fix: Fix) -> bool {
    match position_of(fix) {
        Some(p) => accepts(last, p),
        None => false,
    }
}

/// The last accepted position once `fix` has been offered.
pub open spec fn after(last: Option<Position>, fix: Fix) -> Option<Position> {
    if admits(last, fix) {
        position_of(fix)
    } else {
        last
    }
}

/// The last accepted position once every fix of `fixes` has been offered in
/// order, starting from `last`.
pub open spec fn replay(last: Option<Position>, fixes: Seq<Fix>) -> Option<Position>
    decreases fixes.len(),
{
    if fixes.len() == 0 {
        last
    } else {
        after(replay(last, fixes.drop_last()), fixes.last())
    }
}

/// Whether the fix at index `i` of `fixes` is accepted when the fixes are
/// offered in order, starting from `start`.
pub open spec fn accepted_at(start: Option<Position>, fixes: Seq<Fix>, i: int) -> bool {
    admits(replay(start, fixes.take(i)), fixes[i])
}

/// What the movement filter remembers: the coordinates of the last accepted
/// fix. The state holds a position only when both coordinates are present.
#[derive(Clone, Copy, Debug, PartialEq, Eq, Structural)]
pub struct FilterState {
    pub last_latitude: Option<i32>,
    pub last_longitude: Option<i32>,
}

impl View for FilterState {
    type V = Option<Position>;

    open spec fn view(&self) -> Option<Position> {
        position_of(Fix { latitude: self.last_latitude, longitude: self.last_longitude })
    }
}

fn axis_moved(a: i32, b: i32) -> (r: bool)
    ensures
        r == (axis_delta(a, b) >= THRESHOLD as int),
{
    let d: i64 = a as i64 - b as i64;
    let d: i64 = if d < 0 { -d } else { d };
    d >= THRESHOLD as i64
}

impl FilterState {
    /// A cold start: nothing has been accepted yet.
    pub fn new() -> (r: FilterState)
        ensures
            r@ == None::<Position>,
    {
        FilterState { last_latitude: None, last_longitude: None }
    }

    /// A warm start from the fix recovered out of the journal, if any. The
    /// state is seeded only when that fix carries both coordinates.
    pub fn restore(recovered: Option<Fix>) -> (r: FilterState)
        ensures
            r@ == match recovered {
                Some(f) => position_of(f),
                None => None,
            },
    {
        match recovered {
            Some(f) => match f.position() {
                Some(p) => FilterState {
                    last_latitude: Some(p.latitude),
                    last_longitude: Some(p.longitude),
                },
                None => FilterState::new(),
            },
            None => FilterState::new(),
        }
    }

    /// The last accepted position, if any.
    pub fn last_position(&self) -> (r: Option<Position>)
        ensures
            r == self@,
    {
        Fix { latitude: self.last_latitude, longitude: self.last_longitude }.position()
    }

    /// Decides whether `fix` is movement worth recording. A fix without both
    /// coordinates is dropped; with no earlier position the fix is accepted;
    /// otherwise it is rejected when either axis moved by less than
    /// `THRESHOLD`. On acceptance the state becomes the fix's position; on
    /// rejection nothing changes.
    pub fn offer(&mut self, fix: Fix) -> (r: bool)
        ensures
            r == admits(old(self)@, fix),
            final(self)@ == after(old(self)@, fix),
            !r ==> *final(self) == *old(self),
    {
        let p = match fix.position() {
            Some(p) => p,
            None => return false,
        };
        match self.last_position() {
            Some(l) => {
                if !(axis_moved(p.latitude, l.latitude) && axis_moved(p.longitude, l.longitude)) {
                    return false;
                }
            },
            None => {},
        }
        self.last_latitude = Some(p.latitude);
        self.last_longitude = Some(p.longitude);
        true
    }
}

proof fn lemma_replay_step(start: Option<Position>, fixes: Seq<Fix>, k: int)
    requires
        0 <= k < fixes.len(),
    ensures
        replay(start, fixes.take(k + 1)) == after(replay(start, fixes.take(k)), fixes[k]),
{
    assert(fixes.take(k + 1).drop_last() =~= fixes.take(k));
}

proof fn lemma_replay_empty_before(fixes: Seq<Fix>, k: int)
    requires
        0 <= k <= fixes.len(),
        forall|m: int| 0 <= m < k ==> position_of(#[trigger] fixes[m]) is None,
    ensures
        replay(None, fixes.take(k)) == None::<Position>,
    decreases k,
{
    if k == 0 {
        assert(fixes.take(0) =~= Seq::<Fix>::empty());
    } else {
        lemma_replay_empty_before(fixes, k - 1);
        lemma_replay_step(None, fixes, k - 1);
    }
}

proof fn lemma_replay_keeps_some(start: Option<Position>, fixes: Seq<Fix>, m: int, k: int)
    requires
        0 <= m <= k <= fixes.len(),
        replay(start, fixes.take(m)) is Some,
    ensures
        replay(start, fixes.take(k)) is Some,
    decreases k - m,
{
    if k > m {
        lemma_replay_keeps_some(start, fixes, m, k - 1);
        lemma_replay_step(start, fixes, k - 1);
    }
}

proof fn lemma_replay_unchanged(start: Option<Position>, fixes: Seq<Fix>, m: int, k: int)
    requires
        0 <= m <= k <= fixes.len(),
        forall|x: int| m <= x < k ==> !accepted_at(start, fixes, x),
    ensures
        replay(start, fixes.take(k)) == replay(start, fixes.take(m)),
    decreases k - m,
{
    if k > m {
        lemma_replay_unchanged(start, fixes, m, k - 1);
        lemma_replay_step(start, fixes, k - 1);
        assert(!accepted_at(start, fixes, k - 1));
    }
}

/// From a cold start, fixes without both coordinates are never accepted and
/// leave the state empty, so the first fix that has both coordinates is
/// accepted whatever it holds; every later fix with both coordinates is then
/// judged by the threshold rule against the last accepted position, which
/// from then on always exists.
pub proof fn lemma_cold_start(fixes: Seq<Fix>, i: int)
    requires
        0 <= i < fixes.len(),
        position_of(fixes[i]) is Some,
        forall|m: int| 0 <= m < i ==> position_of(#[trigger] fixes[m]) is None,
    ensures
        forall|k: int| 0 <= k < fixes.len() && position_of(#[trigger] fixes[k]) is None
            ==> !accepted_at(None, fixes, k),
        accepted_at(None, fixes, i),
        replay(None, fixes.take(i + 1)) == position_of(fixes[i]),
        forall|k: int| i < k < fixes.len() && position_of(#[trigger] fixes[k]) is Some
            ==> replay(None, fixes.take(k)) is Some && accepted_at(None, fixes, k) == !too_close(
                replay(None, fixes.take(k))->0,
                position_of(fixes[k])->0,
            ),
{
    lemma_replay_empty_before(fixes, i);
    lemma_replay_step(None, fixes, i);
    assert forall|k: int| i < k < fixes.len() && position_of(#[trigger] fixes[k]) is Some
        implies replay(None, fixes.take(k)) is Some && accepted_at(None, fixes, k) == !too_close(
            replay(None, fixes.take(k))->0,
            position_of(fixes[k])->0,
        ) by {
        lemma_replay_keeps_some(None, fixes, i + 1, k);
    }
}

/// Two fixes accepted one after the other, with none accepted between them,
/// are at least `THRESHOLD` apart on some axis; because a fix is suppressed
/// when either axis moved too little, they are in fact that far apart on
/// both axes.
pub proof fn lemma_consecutive_accepted(start: Option<Position>, fixes: Seq<Fix>, i: int, j: int)
    requires
        0 <= i < j < fixes.len(),
        accepted_at(start, fixes, i),
        accepted_at(start, fixes, j),
        forall|k: int| i < k < j ==> !accepted_at(start, fixes, k),
    ensures
        position_of(fixes[i]) is Some,
        position_of(fixes[j]) is Some,
        axis_delta(position_of(fixes[j])->0.latitude, position_of(fixes[i])->0.latitude)
            >= THRESHOLD as int || axis_delta(
            position_of(fixes[j])->0.longitude,
            position_of(fixes[i])->0.longitude,
        ) >= THRESHOLD as int,
        axis_delta(position_of(fixes[j])->0.latitude, position_of(fixes[i])->0.latitude)
            >= THRESHOLD as int,
        axis_delta(position_of(fixes[j])->0.longitude, position_of(fixes[i])->0.longitude)
            >= THRESHOLD as int,
{
    lemma_replay_step(start, fixes, i);
    lemma_replay_unchanged(start, fixes, i + 1, j);
}

} // verus!
