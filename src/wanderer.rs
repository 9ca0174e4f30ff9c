//! A finite, restartable walk of integer pixel coordinates from a start
//! point to a destination, one coordinate per call.

use vstd::prelude::*;

verus! {

/// Distance of `s` from `d` along one axis.
pub open spec fn abs_diff(s: int, d: int) -> nat {
    if d >= s {
        (d - s) as nat
    } else {
        (s - d) as nat
    }
}

/// Chebyshev distance between `(sx, sy)` and `(dx, dy)`: the number of
/// king-moves on a grid between the two points.
pub open spec fn chebyshev(sx: int, sy: int, dx: int, dy: int) -> nat {
    if abs_diff(sx, dx) >= abs_diff(sy, dy) {
        abs_diff(sx, dx)
    } else {
        abs_diff(sy, dy)
    }
}

/// The coordinate on one axis after `k` of `n` steps from `s` toward `d`:
/// `s + (k / n) * (d - s)`, rounded toward zero.
pub open spec fn toward(s: int, d: int, k: int, n: int) -> int {
    if d >= s {
        s + (k * (d - s)) / n
    } else {
        s - (k * (s - d)) / n
    }
}

/// The abstract state of a walk.
pub struct WalkState {
    pub sx: int,
    pub sy: int,
    pub dx: int,
    pub dy: int,
    pub steps: nat,
    pub progress: nat,
}

/// The state of a walk that was just created.
pub open spec fn initial(sx: int, sy: int, dx: int, dy: int) -> WalkState {
    WalkState { sx, sy, dx, dy, steps: chebyshev(sx, sy, dx, dy), progress: 0 }
}

/// The walk yields nothing more: its endpoints are equal, or it has taken
/// all of its steps.
pub open spec fn is_exhausted(s: WalkState) -> bool {
    (s.sx == s.dx && s.sy == s.dy) || s.progress >= s.steps
}

/// The coordinate reached after the `k`-th step.
pub open spec fn point_at(s: WalkState, k: int) -> (int, int) {
    (toward(s.sx, s.dx, k, s.steps as int), toward(s.sy, s.dy, k, s.steps as int))
}

/// One call of `next`: the state after it and the coordinate it yields.
pub open spec fn step(s: WalkState) -> (WalkState, Option<(int, int)>) {
    if is_exhausted(s) {
        (s, None)
    } else {
        (
            WalkState { progress: s.progress + 1, ..s },
            Some(point_at(s, s.progress + 1int)),
        )
    }
}

/// The coordinates that successive calls of `next` yield from state `s`
/// until the walk is exhausted.
pub open spec fn yields(s: WalkState) -> Seq<(int, int)>
    decreases s.steps - s.progress,
{
    if is_exhausted(s) {
        Seq::empty()
    } else {
        seq![point_at(s, s.progress + 1int)] + yields(step(s).0)
    }
}

/// A walk of integer pixel coordinates from a start point to a destination.
#[derive(Debug)]
pub struct Wanderer {
    start_x: i32,
    start_y: i32,
    dest_x: i32,
    dest_y: i32,
    steps: u32,
    progress: u32,
}

impl View for Wanderer {
    type V = WalkState;

    closed spec fn view(&self) -> WalkState {
        WalkState {
            sx: self.start_x as int,
            sy: self.start_y as int,
            dx: self.dest_x as int,
            dy: self.dest_y as int,
            steps: self.steps as nat,
            progress: self.progress as nat,
        }
    }
}

/// A state that a walk between two `i32` points can be in.
pub open spec fn is_walk(s: WalkState) -> bool {
    &&& i32::MIN <= s.sx <= i32::MAX
    &&& i32::MIN <= s.sy <= i32::MAX
    &&& i32::MIN <= s.dx <= i32::MAX
    &&& i32::MIN <= s.dy <= i32::MAX
    &&& s.steps == chebyshev(s.sx, s.sy, s.dx, s.dy)
    &&& s.progress <= s.steps
}

/// `|d - s|` for two `i32` values, computed without overflow.
fn distance(s: i32, d: i32) -> (r: u64)
    ensures
        r as int == abs_diff(s as int, d as int),
{
    if d >= s {
        (d as i64 - s as i64) as u64
    } else {
        (s as i64 - d as i64) as u64
    }
}

/// Proof that `(k * a) / n` stays within `[0, a]` when `0 <= k <= n`.
proof fn lemma_scaled_within(k: int, a: int, n: int)
    requires
        0 <= k <= n,
        0 < n,
        0 <= a,
    ensures
        0 <= (k * a) / n <= a,
{
    assert(0 <= k * a <= n * a) by (nonlinear_arith)
        requires
            0 <= k <= n,
            0 <= a,
    ;
    vstd::arithmetic::div_mod::lemma_div_is_ordered(k * a, n * a, n);
    vstd::arithmetic::div_mod::lemma_div_multiples_vanish(a, n);
    vstd::arithmetic::div_mod::lemma_div_pos_is_pos(k * a, n);
}

/// The coordinate on one axis after `k` of `n` steps from `s` toward `d`.
fn along(s: i32, d: i32, k: u32, n: u32) -> (r: i32)
    requires
        0 < k <= n,
        abs_diff(s as int, d as int) <= n,
    ensures
        r as int == toward(s as int, d as int, k as int, n as int),
{
    let a = distance(s, d);
    proof {
        lemma_scaled_within(k as int, a as int, n as int);
    }
    assert(k as int * a as int <= u64::MAX) by (nonlinear_arith)
        requires
            k <= u32::MAX,
            a <= u32::MAX,
    ;
    let q = (k as u64 * a) / n as u64;
    if d >= s {
        (s as i64 + q as i64) as i32
    } else {
        (s as i64 - q as i64) as i32
    }
}

/// The state after `n` calls of `next` from state `s`.
pub open spec fn after(s: WalkState, n: nat) -> WalkState
    decreases n,
{
    if n == 0 {
        s
    } else {
        after(step(s).0, (n - 1) as nat)
    }
}

/// The coordinates still to come, written out by index.
proof fn lemma_yields_by_index(s: WalkState)
    requires
        s.progress <= s.steps,
        !(s.sx == s.dx && s.sy == s.dy),
    ensures
        yields(s) == Seq::new(
            (s.steps - s.progress) as nat,
            |i: int| point_at(s, s.progress + i + 1),
        ),
    decreases s.steps - s.progress,
{
    let expected = Seq::new((s.steps - s.progress) as nat, |i: int| point_at(s, s.progress + i + 1));
    if s.progress < s.steps {
        let t = step(s).0;
        lemma_yields_by_index(t);
        assert(yields(s) =~= expected);
    } else {
        assert(yields(s) =~= expected);
    }
}

/// After all `n` of `n` steps the walk stands on the destination.
proof fn lemma_toward_end(s: int, d: int, n: int)
    requires
        n > 0,
        abs_diff(s, d) <= n,
    ensures
        toward(s, d, n, n) == d,
{
    if d >= s {
        vstd::arithmetic::div_mod::lemma_div_multiples_vanish(d - s, n);
        assert(n * (d - s) == (d - s) * n) by (nonlinear_arith);
    } else {
        vstd::arithmetic::div_mod::lemma_div_multiples_vanish(s - d, n);
        assert(n * (s - d) == (s - d) * n) by (nonlinear_arith);
    }
}

/// Along an axis whose distance is the step count, each step moves one pixel.
proof fn lemma_toward_unit(s: int, d: int, k: int)
    requires
        abs_diff(s, d) > 0,
    ensures
        toward(s, d, k, abs_diff(s, d) as int) == if d >= s { s + k } else { s - k },
{
    let a = abs_diff(s, d) as int;
    vstd::arithmetic::div_mod::lemma_div_multiples_vanish(k, a);
    assert(k * a == a * k) by (nonlinear_arith);
}

/// Every step stays between the start and the destination.
proof fn lemma_toward_between(s: int, d: int, k: int, n: int)
    requires
        0 <= k <= n,
        0 < n,
    ensures
        s <= d ==> s <= toward(s, d, k, n) <= d,
        d < s ==> d <= toward(s, d, k, n) <= s,
{
    if d >= s {
        lemma_scaled_within(k, d - s, n);
    } else {
        lemma_scaled_within(k, s - d, n);
    }
}

/// A walk yields no coordinate when its endpoints are equal, and otherwise
/// exactly as many as the Chebyshev distance between them.
pub proof fn lemma_walk_length(sx: int, sy: int, dx: int, dy: int)
    ensures
        yields(initial(sx, sy, dx, dy)).len() == if sx == dx && sy == dy {
            0
        } else {
            chebyshev(sx, sy, dx, dy)
        },
{
    let s = initial(sx, sy, dx, dy);
    if !(sx == dx && sy == dy) {
        lemma_yields_by_index(s);
    }
}

/// The last coordinate a walk yields, if it yields any, is its destination.
pub proof fn lemma_walk_ends_at_destination(sx: int, sy: int, dx: int, dy: int)
    ensures
        yields(initial(sx, sy, dx, dy)).len() > 0 ==> yields(initial(sx, sy, dx, dy)).last() == (
        dx,
        dy,
        ),
{
    let s = initial(sx, sy, dx, dy);
    if !(sx == dx && sy == dy) {
        lemma_yields_by_index(s);
        let n = s.steps as int;
        lemma_toward_end(sx, dx, n);
        lemma_toward_end(sy, dy, n);
    }
}

/// On the dominant axis a walk moves by exactly one pixel per step, toward
/// the destination: along x when `|dx - sx| >= |dy - sy|`, otherwise along y.
pub proof fn lemma_walk_dominant_axis(sx: int, sy: int, dx: int, dy: int)
    ensures
        ({
            let w = yields(initial(sx, sy, dx, dy));
            let ux = if dx >= sx { 1int } else { -1int };
            let uy = if dy >= sy { 1int } else { -1int };
            &&& abs_diff(sx, dx) >= abs_diff(sy, dy) ==> {
                &&& w.len() > 0 ==> w[0].0 == sx + ux
                &&& forall|i: int| 0 <= i < w.len() - 1 ==> #[trigger] w[i + 1].0 == w[i].0 + ux
            }
            &&& abs_diff(sy, dy) > abs_diff(sx, dx) ==> {
                &&& w.len() > 0 ==> w[0].1 == sy + uy
                &&& forall|i: int| 0 <= i < w.len() - 1 ==> #[trigger] w[i + 1].1 == w[i].1 + uy
            }
        }),
{
    let s = initial(sx, sy, dx, dy);
    if !(sx == dx && sy == dy) {
        lemma_yields_by_index(s);
        let w = yields(s);
        if abs_diff(sx, dx) >= abs_diff(sy, dy) {
            assert forall|i: int| 0 <= i < w.len() implies #[trigger] w[i].0 == if dx >= sx {
                sx + i + 1
            } else {
                sx - (i + 1)
            } by {
                lemma_toward_unit(sx, dx, i + 1);
            }
        } else {
            assert forall|i: int| 0 <= i < w.len() implies #[trigger] w[i].1 == if dy >= sy {
                sy + i + 1
            } else {
                sy - (i + 1)
            } by {
                lemma_toward_unit(sy, dy, i + 1);
            }
        }
    }
}

/// Every coordinate a walk yields lies in the bounding box of its start and
/// its destination, edges included.
pub proof fn lemma_walk_within_box(sx: int, sy: int, dx: int, dy: int)
    ensures
        forall|i: int|
            0 <= i < yields(initial(sx, sy, dx, dy)).len() ==> {
                let p = #[trigger] yields(initial(sx, sy, dx, dy))[i];
                &&& (sx <= dx ==> sx <= p.0 <= dx)
                &&& (dx < sx ==> dx <= p.0 <= sx)
                &&& (sy <= dy ==> sy <= p.1 <= dy)
                &&& (dy < sy ==> dy <= p.1 <= sy)
            },
{
    let s = initial(sx, sy, dx, dy);
    if !(sx == dx && sy == dy) {
        lemma_yields_by_index(s);
        let n = s.steps as int;
        assert forall|i: int| 0 <= i < yields(s).len() implies {
            let p = #[trigger] yields(s)[i];
            &&& (sx <= dx ==> sx <= p.0 <= dx)
            &&& (dx < sx ==> dx <= p.0 <= sx)
            &&& (sy <= dy ==> sy <= p.1 <= dy)
            &&& (dy < sy ==> dy <= p.1 <= sy)
        } by {
            lemma_toward_between(sx, dx, i + 1, n);
            lemma_toward_between(sy, dy, i + 1, n);
        }
    }
}

/// Once `next` has returned `None`, every later call returns `None` too and
/// leaves the walk as it is.
pub proof fn lemma_exhaustion_is_final(s: WalkState, n: nat)
    requires
        step(s).1 is None,
    ensures
        after(step(s).0, n) == s,
        step(after(step(s).0, n)).1 is None,
    decreases n,
{
    if n > 0 {
        lemma_exhaustion_is_final(s, (n - 1) as nat);
    }
}

/// Two walks created with the same endpoints yield the same coordinates,
/// call for call.
pub proof fn lemma_restart_independent(a: Wanderer, b: Wanderer, sx: int, sy: int, dx: int, dy: int, n: nat)
    requires
        a@ == initial(sx, sy, dx, dy),
        b@ == initial(sx, sy, dx, dy),
    ensures
        yields(a@) == yields(b@),
        step(after(a@, n)) == step(after(b@, n)),
{
}

/// The coordinate a call of `next` yielded, as integers.
pub open spec fn widen(r: Option<(i32, i32)>) -> Option<(int, int)> {
    match r {
        Some(p) => Some((p.0 as int, p.1 as int)),
        None => None,
    }
}

impl Wanderer {
    /// Well-formedness: the step count is the Chebyshev distance of the
    /// endpoints and the progress never exceeds it.
    pub closed spec fn wf(&self) -> bool {
        is_walk(self@)
    }

    /// A fresh walk from `(start_x, start_y)` to `(dest_x, dest_y)`.
    pub fn new(start_x: i32, start_y: i32, dest_x: i32, dest_y: i32) -> (r: Self)
        ensures
            r.wf(),
            r@ == initial(start_x as int, start_y as int, dest_x as int, dest_y as int),
    {
        let ax = distance(start_x, dest_x);
        let ay = distance(start_y, dest_y);
        let steps: u64 = if ax >= ay { ax } else { ay };
        Wanderer { start_x, start_y, dest_x, dest_y, steps: steps as u32, progress: 0 }
    }

    /// Advances the walk by one step and returns the coordinate reached, or
    /// `None` once the walk is exhausted.
    pub fn next(&mut self) -> (r: Option<(i32, i32)>)
        requires
            old(self).wf(),
        ensures
            final(self).wf(),
            final(self)@ == step(old(self)@).0,
            widen(r) == step(old(self)@).1,
    {
        if self.start_x == self.dest_x && self.start_y == self.dest_y {
            return None;
        }
        if self.progress == self.steps {
            return None;
        }
        self.progress = self.progress + 1;
        let x = along(self.start_x, self.dest_x, self.progress, self.steps);
        let y = along(self.start_y, self.dest_y, self.progress, self.steps);
        Some((x, y))
    }
}

} // verus!
