//! The order in which a queue of tasks is served.
//!
//! A queue is served in rounds. Round `0` resumes every task once, in queue
//! order. Each later round resumes, in the same order, the tasks that have
//! not finished yet. [`trace`] is the sequence of resumptions that results,
//! and the laws below say what the run loop's rotation of the queue amounts
//! to: the length of the trace, where in it each resumption of each task
//! stands, that two waiting tasks alternate, and that nothing is resumed
//! after it has finished.

use vstd::prelude::*;
use crate::poll::Poll;

verus! {

/// One resumption: the number of the task that was resumed, and its answer.
#[derive(Clone, Copy, Debug, PartialEq, Eq, Structural)]
pub struct Turn {
    pub id: usize,
    pub outcome: Poll,
}

/// What the schedule depends on in a queued task: its number, and how many
/// resumptions it takes to finish, where its computation says so.
pub struct Slot {
    pub id: usize,
    pub left: Option<nat>,
}

impl Slot {
    /// The number of turns that the schedule gives to the task: as many as it
    /// says it needs. A task that does not say has no place in a schedule
    /// that is known in advance, and counts as needing none.
    pub open spec fn turns(self) -> nat {
        match self.left {
            Some(n) => n,
            None => 0,
        }
    }

    /// Whether the task is still unfinished when round `r` begins, so that
    /// round `r` resumes it.
    pub open spec fn in_round(self, r: nat) -> bool {
        r < self.turns()
    }

    /// The resumption of the task in round `r`: it answers `Ready` in its
    /// last round and `Pending` in every round before.
    pub open spec fn turn(self, r: nat) -> Turn {
        Turn {
            id: self.id,
            outcome: if r + 1 == self.turns() {
                Poll::Ready
            } else {
                Poll::Pending
            },
        }
    }

    /// The task after one resumption.
    pub open spec fn resumed(self) -> Slot {
        Slot { id: self.id, left: Some((self.turns() - 1) as nat) }
    }
}

/// The resumptions of round `r`: one for each task of the queue that is
/// unfinished when the round begins, in queue order.
pub open spec fn round(q: Seq<Slot>, r: nat) -> Seq<Turn>
    decreases q.len(),
{
    if q.len() == 0 {
        Seq::empty()
    } else if q.last().in_round(r) {
        round(q.drop_last(), r).push(q.last().turn(r))
    } else {
        round(q.drop_last(), r)
    }
}

/// The resumptions of the first `n` rounds, one round after the other.
pub open spec fn rounds(q: Seq<Slot>, n: nat) -> Seq<Turn>
    decreases n,
{
    if n == 0 {
        Seq::empty()
    } else {
        rounds(q, (n - 1) as nat) + round(q, (n - 1) as nat)
    }
}

/// The number of rounds after which every task of the queue has finished:
/// the largest number of turns that any of them takes.
pub open spec fn depth(q: Seq<Slot>) -> nat
    decreases q.len(),
{
    if q.len() == 0 {
        0
    } else if q.last().turns() > depth(q.drop_last()) {
        q.last().turns()
    } else {
        depth(q.drop_last())
    }
}

/// The number of turns that the tasks of the queue take together.
pub open spec fn total(q: Seq<Slot>) -> nat
    decreases q.len(),
{
    if q.len() == 0 {
        0
    } else {
        total(q.drop_last()) + q.last().turns()
    }
}

/// The resumptions by which the queue is served until every task has
/// finished: all its rounds, in order.
pub open spec fn trace(q: Seq<Slot>) -> Seq<Turn> {
    rounds(q, depth(q))
}

/// Where in the trace the resumption of the task at place `i` of the queue
/// in round `r` stands: behind the rounds before `r`, and behind the
/// resumptions that round `r` gives to the tasks in front of it.
pub open spec fn position(q: Seq<Slot>, i: int, r: nat) -> int {
    (rounds(q, r).len() + round(q.take(i), r).len()) as int
}

/// Whether no two tasks of the queue have the same number.
pub open spec fn distinct_ids(q: Seq<Slot>) -> bool {
    forall|i: int, j: int| 0 <= i < j < q.len() ==> q[i].id != q[j].id
}

proof fn lemma_round_push(q: Seq<Slot>, x: Slot, r: nat)
    ensures
        round(q.push(x), r) == if x.in_round(r) {
            round(q, r).push(x.turn(r))
        } else {
            round(q, r)
        },
{
    assert(q.push(x).drop_last() == q);
}

proof fn lemma_round_concat(a: Seq<Slot>, b: Seq<Slot>, r: nat)
    ensures
        round(a + b, r) == round(a, r) + round(b, r),
    decreases b.len(),
{
    if b.len() == 0 {
        assert(a + b == a);
        assert(round(a, r) + round(b, r) == round(a, r));
    } else {
        lemma_round_concat(a, b.drop_last(), r);
        assert((a + b).drop_last() == a + b.drop_last());
        assert((a + b).last() == b.last());
        if b.last().in_round(r) {
            assert((round(a, r) + round(b.drop_last(), r)).push(b.last().turn(r)) == round(a, r)
                + round(b.drop_last(), r).push(b.last().turn(r)));
        }
    }
}

proof fn lemma_round_single(x: Slot, r: nat)
    ensures
        round(seq![x], r) == if x.in_round(r) {
            seq![x.turn(r)]
        } else {
            Seq::<Turn>::empty()
        },
{
    assert(seq![x].drop_last() == Seq::<Slot>::empty());
    assert(round(Seq::<Slot>::empty(), r) == Seq::<Turn>::empty());
    if x.in_round(r) {
        assert(Seq::<Turn>::empty().push(x.turn(r)) == seq![x.turn(r)]);
    }
}

proof fn lemma_turns_within_depth(q: Seq<Slot>, i: int)
    requires
        0 <= i < q.len(),
    ensures
        q[i].turns() <= depth(q),
    decreases q.len(),
{
    if i < q.len() - 1 {
        lemma_turns_within_depth(q.drop_last(), i);
    }
}

proof fn lemma_round_beyond_depth(q: Seq<Slot>, r: nat)
    requires
        depth(q) <= r,
    ensures
        round(q, r) == Seq::<Turn>::empty(),
    decreases q.len(),
{
    if q.len() > 0 {
        lemma_round_beyond_depth(q.drop_last(), r);
    }
}

proof fn lemma_rounds_beyond_depth(q: Seq<Slot>, n: nat)
    requires
        depth(q) <= n,
    ensures
        rounds(q, n) == trace(q),
    decreases n,
{
    if n > depth(q) {
        lemma_rounds_beyond_depth(q, (n - 1) as nat);
        lemma_round_beyond_depth(q, (n - 1) as nat);
        assert(rounds(q, (n - 1) as nat) + Seq::<Turn>::empty() == rounds(q, (n - 1) as nat));
    }
}

proof fn lemma_rounds_prefix(q: Seq<Slot>, n: nat, m: nat)
    requires
        n <= m,
    ensures
        rounds(q, n).len() <= rounds(q, m).len(),
        rounds(q, m).take(rounds(q, n).len() as int) == rounds(q, n),
    decreases m,
{
    if n < m {
        lemma_rounds_prefix(q, n, (m - 1) as nat);
        let shorter = rounds(q, (m - 1) as nat);
        assert(rounds(q, m).take(rounds(q, n).len() as int) == shorter.take(
            rounds(q, n).len() as int,
        ));
    } else {
        assert(rounds(q, m).take(rounds(q, m).len() as int) == rounds(q, m));
    }
}

proof fn lemma_rounds_push_len(q: Seq<Slot>, x: Slot, n: nat)
    ensures
        rounds(q.push(x), n).len() == rounds(q, n).len() + if x.turns() < n {
            x.turns()
        } else {
            n
        },
    decreases n,
{
    if n > 0 {
        lemma_rounds_push_len(q, x, (n - 1) as nat);
        lemma_round_push(q, x, (n - 1) as nat);
    }
}

/// The trace is as long as the turns of all tasks together: serving a queue
/// takes exactly the sum of the resumptions that its tasks need, each taken
/// alone.
pub proof fn lemma_trace_len(q: Seq<Slot>)
    ensures
        trace(q).len() == total(q),
    decreases q.len(),
{
    if q.len() > 0 {
        let front = q.drop_last();
        let x = q.last();
        assert(front.push(x) == q);
        lemma_trace_len(front);
        lemma_rounds_push_len(front, x, depth(q));
        lemma_rounds_beyond_depth(front, depth(q));
    }
}

/// The resumption that round `r` gives to the first task of a queue, if it
/// gives it one.
spec fn head_turn(h: Slot, r: nat) -> Seq<Turn> {
    if h.in_round(r) {
        seq![h.turn(r)]
    } else {
        Seq::empty()
    }
}

proof fn lemma_round_head(q: Seq<Slot>, r: nat)
    requires
        q.len() > 0,
    ensures
        round(q, r) == head_turn(q[0], r) + round(q.drop_first(), r),
{
    assert(q == seq![q[0]] + q.drop_first());
    lemma_round_concat(seq![q[0]], q.drop_first(), r);
    lemma_round_single(q[0], r);
}

proof fn lemma_rounds_rotate(q: Seq<Slot>, n: nat)
    requires
        q.len() > 0,
        q[0].turns() >= 1,
    ensures
        head_turn(q[0], 0) + rounds(q.drop_first().push(q[0].resumed()), n) == rounds(q, n)
            + head_turn(q[0], n),
    decreases n,
{
    let h = q[0];
    let rest = q.drop_first();
    let rotated = rest.push(h.resumed());
    if n == 0 {
        assert(head_turn(h, 0) + Seq::<Turn>::empty() == Seq::<Turn>::empty() + head_turn(h, 0));
    } else {
        let m = (n - 1) as nat;
        lemma_rounds_rotate(q, m);
        lemma_round_push(rest, h.resumed(), m);
        lemma_round_head(q, m);
        assert(round(rotated, m) == round(rest, m) + head_turn(h, n));
        assert(head_turn(h, 0) + (rounds(rotated, m) + round(rotated, m)) == (head_turn(h, 0)
            + rounds(rotated, m)) + round(rotated, m));
        assert((rounds(q, m) + head_turn(h, m)) + (round(rest, m) + head_turn(h, n)) == (rounds(
            q,
            m,
        ) + (head_turn(h, m) + round(rest, m))) + head_turn(h, n));
    }
}

proof fn lemma_rounds_drop_idle(q: Seq<Slot>, x: Slot, n: nat)
    requires
        x.turns() == 0,
    ensures
        rounds(q.push(x), n) == rounds(q, n),
        rounds(seq![x] + q, n) == rounds(q, n),
    decreases n,
{
    if n > 0 {
        let m = (n - 1) as nat;
        lemma_rounds_drop_idle(q, x, m);
        lemma_round_push(q, x, m);
        lemma_round_concat(seq![x], q, m);
        lemma_round_single(x, m);
        assert(Seq::<Turn>::empty() + round(q, m) == round(q, m));
    }
}

/// Serving a queue comes to what the run loop does: the task at the head is
/// resumed once; if that was not its last resumption it goes to the tail,
/// one resumption nearer to its end, and else it leaves; then the queue that
/// results is served.
pub proof fn lemma_trace_unfolds(q: Seq<Slot>)
    requires
        q.len() > 0,
    ensures
        q[0].turns() == 0 ==> trace(q) == trace(q.drop_first()),
        q[0].turns() == 1 ==> trace(q) == seq![q[0].turn(0)] + trace(q.drop_first()),
        q[0].turns() >= 2 ==> trace(q) == seq![q[0].turn(0)] + trace(
            q.drop_first().push(q[0].resumed()),
        ),
{
    let h = q[0];
    let rest = q.drop_first();
    let rotated = rest.push(h.resumed());
    let n = depth(q) + depth(rest) + depth(rotated);
    lemma_rounds_beyond_depth(q, n);
    lemma_rounds_beyond_depth(rest, n);
    lemma_rounds_beyond_depth(rotated, n);
    lemma_turns_within_depth(q, 0);
    assert(q == seq![h] + rest);
    if h.turns() == 0 {
        lemma_rounds_drop_idle(rest, h, n);
    } else {
        lemma_rounds_rotate(q, n);
        assert(rounds(q, n) + head_turn(h, n) == rounds(q, n));
        if h.turns() == 1 {
            lemma_rounds_drop_idle(rest, h.resumed(), n);
        }
    }
}

proof fn lemma_round_split(q: Seq<Slot>, i: int, r: nat)
    requires
        0 <= i < q.len(),
    ensures
        round(q, r) == round(q.take(i), r) + head_turn(q[i], r) + round(q.skip(i + 1), r),
        round(q.take(i + 1), r) == round(q.take(i), r) + head_turn(q[i], r),
{
    assert(q == q.take(i + 1) + q.skip(i + 1));
    assert(q.take(i + 1) == q.take(i).push(q[i]));
    lemma_round_concat(q.take(i + 1), q.skip(i + 1), r);
    lemma_round_push(q.take(i), q[i], r);
    if q[i].in_round(r) {
        assert(round(q.take(i), r).push(q[i].turn(r)) == round(q.take(i), r) + head_turn(q[i], r));
    } else {
        assert(round(q.take(i), r) == round(q.take(i), r) + head_turn(q[i], r));
    }
}

proof fn lemma_round_take_grows(q: Seq<Slot>, i: int, j: int, r: nat)
    requires
        0 <= i <= j <= q.len(),
    ensures
        round(q.take(i), r).len() <= round(q.take(j), r).len(),
    decreases j - i,
{
    if i < j {
        lemma_round_take_grows(q, i, j - 1, r);
        lemma_round_split(q, j - 1, r);
    }
}

/// Where each resumption stands. A task that is unfinished when round `r`
/// begins is resumed in that round, and its resumption stands at its
/// `position` in the trace.
pub proof fn lemma_turn_at(q: Seq<Slot>, i: int, r: nat)
    requires
        0 <= i < q.len(),
        q[i].in_round(r),
    ensures
        0 <= position(q, i, r) < trace(q).len(),
        trace(q)[position(q, i, r)] == q[i].turn(r),
{
    let p = position(q, i, r);
    lemma_round_split(q, i, r);
    lemma_turns_within_depth(q, i);
    lemma_rounds_prefix(q, r + 1, depth(q));
    let upto = rounds(q, r + 1);
    assert(upto == rounds(q, r) + round(q, r));
    assert(round(q, r)[round(q.take(i), r).len() as int] == q[i].turn(r));
    assert(upto[p] == q[i].turn(r));
    assert(trace(q).take(upto.len() as int)[p] == trace(q)[p]);
}

/// The resumptions stand in the trace round by round, and within a round in
/// queue order.
pub proof fn lemma_position_order(q: Seq<Slot>, i: int, r: nat, j: int, s: nat)
    requires
        0 <= i < q.len(),
        0 <= j < q.len(),
        q[i].in_round(r),
        q[j].in_round(s),
        r < s || (r == s && i < j),
    ensures
        position(q, i, r) < position(q, j, s),
{
    lemma_round_split(q, i, r);
    if r == s {
        lemma_round_take_grows(q, i + 1, j, r);
    } else {
        assert(rounds(q, r + 1) == rounds(q, r) + round(q, r));
        lemma_rounds_prefix(q, r + 1, s);
    }
}

proof fn lemma_round_owner(q: Seq<Slot>, r: nat, k: int) -> (i: int)
    requires
        0 <= k < round(q, r).len(),
    ensures
        0 <= i < q.len(),
        q[i].in_round(r),
        round(q.take(i), r).len() == k,
    decreases q.len(),
{
    let front = q.drop_last();
    if k < round(front, r).len() {
        let i = lemma_round_owner(front, r, k);
        assert(q.take(i) == front.take(i));
        i
    } else {
        assert(q.take(q.len() - 1) == front);
        q.len() - 1
    }
}

proof fn lemma_rounds_owner(q: Seq<Slot>, n: nat, k: int) -> (w: (int, nat))
    requires
        0 <= k < rounds(q, n).len(),
    ensures
        0 <= w.0 < q.len(),
        w.1 < n,
        q[w.0].in_round(w.1),
        position(q, w.0, w.1) == k,
    decreases n,
{
    let m = (n - 1) as nat;
    if k < rounds(q, m).len() {
        lemma_rounds_owner(q, m, k)
    } else {
        let i = lemma_round_owner(q, m, k - rounds(q, m).len());
        (i, m)
    }
}

/// Every resumption of the trace is the resumption of some task of the queue
/// in some round in which that task is unfinished. The result names the
/// task's place in the queue and the round.
pub proof fn lemma_turn_owner(q: Seq<Slot>, k: int) -> (w: (int, nat))
    requires
        0 <= k < trace(q).len(),
    ensures
        0 <= w.0 < q.len(),
        q[w.0].in_round(w.1),
        position(q, w.0, w.1) == k,
        trace(q)[k] == q[w.0].turn(w.1),
{
    let w = lemma_rounds_owner(q, depth(q), k);
    lemma_turn_at(q, w.0, w.1);
    w
}

/// A task is resumed once in a round. In the trace of a queue whose tasks
/// have different numbers, no resumption between the one that a task gets in
/// round `r` and the one that it gets in round `r + 1` is a resumption of
/// that task: of a task that stays pending through `n` rounds, the trace of
/// those rounds holds exactly `n` resumptions.
pub proof fn lemma_one_turn_a_round(q: Seq<Slot>, i: int, r: nat, k: int)
    requires
        distinct_ids(q),
        0 <= i < q.len(),
        q[i].in_round(r + 1),
        position(q, i, r) < k < position(q, i, r + 1),
    ensures
        0 <= k < trace(q).len(),
        trace(q)[k].id != q[i].id,
{
    lemma_turn_at(q, i, r);
    lemma_turn_at(q, i, r + 1);
    if trace(q)[k].id == q[i].id {
        let w = lemma_turn_owner(q, k);
        assert(w.0 == i);
        if w.1 < r {
            lemma_position_order(q, i, w.1, i, r);
        } else if w.1 > r + 1 {
            lemma_position_order(q, i, r + 1, i, w.1);
        }
    }
}

/// Round-robin fairness. Of two tasks that are both still pending after
/// round `r`, the one in front in the queue is resumed in round `r`, then the
/// other, then the first again in round `r + 1`, then the other again: they
/// alternate. Where the tasks of the queue have different numbers, the one
/// resumption named here is the only one that either task gets between two
/// consecutive resumptions of the other.
pub proof fn lemma_round_robin(q: Seq<Slot>, a: int, b: int, r: nat)
    requires
        0 <= a < b < q.len(),
        q[a].in_round(r + 1),
        q[b].in_round(r + 1),
    ensures
        0 <= position(q, a, r) < position(q, b, r) < position(q, a, r + 1) < position(q, b, r + 1)
            < trace(q).len(),
        trace(q)[position(q, a, r)] == (Turn { id: q[a].id, outcome: Poll::Pending }),
        trace(q)[position(q, b, r)] == (Turn { id: q[b].id, outcome: Poll::Pending }),
        trace(q)[position(q, a, r + 1)].id == q[a].id,
        trace(q)[position(q, b, r + 1)].id == q[b].id,
        distinct_ids(q) ==> forall|k: int|
            position(q, a, r) < k < position(q, a, r + 1) && #[trigger] trace(q)[k].id == q[b].id
                ==> k == position(q, b, r),
        distinct_ids(q) ==> forall|k: int|
            position(q, b, r) < k < position(q, b, r + 1) && #[trigger] trace(q)[k].id == q[a].id
                ==> k == position(q, a, r + 1),
{
    lemma_turn_at(q, a, r);
    lemma_turn_at(q, b, r);
    lemma_turn_at(q, a, r + 1);
    lemma_turn_at(q, b, r + 1);
    lemma_position_order(q, a, r, b, r);
    lemma_position_order(q, b, r, a, r + 1);
    lemma_position_order(q, a, r + 1, b, r + 1);
    if distinct_ids(q) {
        assert forall|k: int|
            position(q, a, r) < k < position(q, a, r + 1) && #[trigger] trace(q)[k].id
                == q[b].id implies k == position(q, b, r) by {
            if r > 0 {
                lemma_position_order(q, b, (r - 1) as nat, a, r);
            }
            lemma_only_turn_between(q, b, r, k, a, r, a, r + 1);
        }
        assert forall|k: int|
            position(q, b, r) < k < position(q, b, r + 1) && #[trigger] trace(q)[k].id
                == q[a].id implies k == position(q, a, r + 1) by {
            if q[a].in_round(r + 2) {
                lemma_position_order(q, b, r + 1, a, r + 2);
            }
            lemma_only_turn_between(q, a, r + 1, k, b, r, b, r + 1);
        }
    }
}

/// Between the resumptions `(lo, rlo)` and `(hi, rhi)`, the only place at
/// which task `i` can be resumed is the one of round `s`, if its resumption
/// in the round before `s` stands before them and its resumption in the
/// round after `s` stands behind them.
proof fn lemma_only_turn_between(
    q: Seq<Slot>,
    i: int,
    s: nat,
    k: int,
    lo: int,
    rlo: nat,
    hi: int,
    rhi: nat,
)
    requires
        distinct_ids(q),
        0 <= i < q.len(),
        0 <= lo < q.len(),
        0 <= hi < q.len(),
        q[i].in_round(s),
        q[lo].in_round(rlo),
        q[hi].in_round(rhi),
        0 <= k < trace(q).len(),
        trace(q)[k].id == q[i].id,
        position(q, lo, rlo) < k < position(q, hi, rhi),
        s == 0 || position(q, i, (s - 1) as nat) < position(q, lo, rlo),
        q[i].in_round(s + 1) ==> position(q, hi, rhi) < position(q, i, s + 1),
    ensures
        k == position(q, i, s),
{
    let w = lemma_turn_owner(q, k);
    assert(w.0 == i);
    let t = w.1;
    if t < s {
        if t + 1 < s {
            lemma_position_order(q, i, t, i, (s - 1) as nat);
        }
    } else if t > s {
        if s + 1 < t {
            lemma_position_order(q, i, s + 1, i, t);
        }
    }
}

/// Nothing is resumed after it has finished. In the trace of a queue whose
/// tasks have different numbers, a resumption that answers `Ready` is the
/// last resumption of its task: every resumption that is followed by another
/// of the same task answers `Pending`.
pub proof fn lemma_ready_is_last(q: Seq<Slot>, k: int, later: int)
    requires
        distinct_ids(q),
        0 <= k < later < trace(q).len(),
        trace(q)[k].id == trace(q)[later].id,
    ensures
        trace(q)[k].outcome == Poll::Pending,
{
    let w = lemma_turn_owner(q, k);
    let v = lemma_turn_owner(q, later);
    assert(w.0 == v.0);
    if w.1 >= v.1 {
        if w.1 > v.1 {
            lemma_position_order(q, v.0, v.1, w.0, w.1);
        }
    }
}

} // verus!
