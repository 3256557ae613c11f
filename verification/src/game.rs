//! One match between two players: its rounds, its timers and the questions it
//! has used.

use vstd::prelude::*;
use rand::Rng;
use std::collections::HashSet;

verus! {

broadcast use vstd::std_specs::hash::group_hash_axioms;

/// Nanoseconds in a second; every time the library takes is in nanoseconds.
pub const NANOS_PER_SEC: i64 = 1000000000;

/// Seconds between pairing and the first question.
pub const START_DELAY_SECS: u64 = 3;

/// Seconds a question stays open.
pub const ROUND_SECS: u64 = 15;

/// Seconds credited to a round once both players have answered, which leaves
/// `ROUND_SECS - EARLY_ADVANCE_SECS` seconds until the next question.
pub const EARLY_ADVANCE_SECS: u64 = 12;

/// Points for a right answer given at once; each whole second costs one.
pub const FULL_POINTS: i32 = 15;

/// Rating a player gains by winning a competitive match.
pub const RATING_GAIN: i32 = 10;

/// Rounds of a match. A match waits, plays this many rounds, and is settled
/// when it would enter one more.
pub const ROUNDS: i32 = 3;

/// A live match. Times are nanoseconds on the caller's monotonic clock.
#[derive(Debug)]
pub struct Game {
    pub id: u64,
    /// Connection handle of the player whose request completed the pairing.
    pub p1: u64,
    /// Connection handle of the player who had been waiting.
    pub p2: u64,
    /// Index of the current question in the bank; `None` before the first round.
    pub question: Option<usize>,
    /// 0 before the first round, then the number of the round being played,
    /// from 1 to `ROUNDS`.
    pub stage: i32,
    pub started: bool,
    pub competitive: bool,
    pub start_timer: i64,
    pub stage_timer: i64,
    /// Indices of the questions this match has used.
    pub previous_questions: HashSet<usize>,
}

/// A match as plain values.
pub struct GameView {
    pub id: u64,
    pub p1: u64,
    pub p2: u64,
    pub question: Option<usize>,
    pub stage: i32,
    pub started: bool,
    pub competitive: bool,
    pub start_timer: i64,
    pub stage_timer: i64,
    pub previous_questions: Set<usize>,
}

impl View for Game {
    type V = GameView;

    open spec fn view(&self) -> GameView {
        GameView {
            id: self.id,
            p1: self.p1,
            p2: self.p2,
            question: self.question,
            stage: self.stage,
            started: self.started,
            competitive: self.competitive,
            start_timer: self.start_timer,
            stage_timer: self.stage_timer,
            previous_questions: self.previous_questions@,
        }
    }
}

/// Whole seconds from `since` to `now`; zero where `now` is not later.
pub open spec fn elapsed_secs(since: i64, now: i64) -> int {
    if now <= since {
        0
    } else {
        (now - since) / (NANOS_PER_SEC as int)
    }
}

/// `elapsed_secs` as an executable function.
pub fn elapsed(since: i64, now: i64) -> (secs: u64)
    ensures
        secs == elapsed_secs(since, now),
{
    if now <= since {
        0
    } else {
        let nanos: i128 = now as i128 - since as i128;
        (nanos / (NANOS_PER_SEC as i128)) as u64
    }
}

/// The value nearest to `v` that an `i32` holds.
pub open spec fn clamp_i32(v: int) -> i32 {
    if v < i32::MIN {
        i32::MIN
    } else if v > i32::MAX {
        i32::MAX
    } else {
        v as i32
    }
}

/// `points` after a right answer given `secs` whole seconds into the round:
/// `FULL_POINTS - secs` is added, which is negative for a late answer. The sum
/// stops at the ends of `i32`.
pub open spec fn points_after_right_answer(points: i32, secs: int) -> i32 {
    clamp_i32(points + FULL_POINTS - secs)
}

/// `points_after_right_answer` as an executable function.
pub fn award(points: i32, secs: u64) -> (r: i32)
    ensures
        r == points_after_right_answer(points, secs as int),
{
    let total: i128 = points as i128 + FULL_POINTS as i128 - secs as i128;
    if total < i32::MIN as i128 {
        i32::MIN
    } else if total > i32::MAX as i128 {
        i32::MAX
    } else {
        total as i32
    }
}

/// `v + by`, stopping at the ends of `i32`.
pub fn bump(v: i32, by: i32) -> (r: i32)
    ensures
        r == clamp_i32(v + by),
{
    let total: i64 = v as i64 + by as i64;
    if total < i32::MIN as i64 {
        i32::MIN
    } else if total > i32::MAX as i64 {
        i32::MAX
    } else {
        total as i32
    }
}

/// The time a round is taken to have started when both players have answered
/// it at `now`: `EARLY_ADVANCE_SECS` earlier, or the earliest time there is.
pub open spec fn retro_dated(now: i64) -> i64 {
    if now - EARLY_ADVANCE_SECS * NANOS_PER_SEC < i64::MIN {
        i64::MIN
    } else {
        (now - EARLY_ADVANCE_SECS * NANOS_PER_SEC) as i64
    }
}

/// `retro_dated` as an executable function.
pub fn retro_date(now: i64) -> (r: i64)
    ensures
        r == retro_dated(now),
{
    let back: i64 = EARLY_ADVANCE_SECS as i64 * NANOS_PER_SEC;
    if now < i64::MIN + back {
        i64::MIN
    } else {
        now - back
    }
}

/// How many of the indices below `n` do not occur in `used`.
pub open spec fn unused_below(used: Set<usize>, n: nat) -> nat
    decreases n,
{
    if n == 0 {
        0
    } else if used.contains((n - 1) as usize) {
        unused_below(used, (n - 1) as nat)
    } else {
        unused_below(used, (n - 1) as nat) + 1
    }
}

/// `idx` is the unused index that has exactly `rank` unused indices below it.
pub open spec fn is_nth_unused(used: Set<usize>, bank: nat, rank: nat, idx: usize) -> bool {
    &&& idx < bank
    &&& !used.contains(idx)
    &&& unused_below(used, idx as nat) == rank
}

/// There are no more unused indices below `n` than indices.
proof fn lemma_unused_below_bounds(used: Set<usize>, n: nat)
    ensures
        unused_below(used, n) <= n,
    decreases n,
{
    if n > 0 {
        lemma_unused_below_bounds(used, (n - 1) as nat);
    }
}

/// A used index that is not below `n` makes no difference below `n`.
proof fn lemma_unused_below_ignores(used: Set<usize>, x: usize, n: nat)
    requires
        n <= x,
    ensures
        unused_below(used.remove(x), n) == unused_below(used, n),
    decreases n,
{
    if n > 0 {
        lemma_unused_below_ignores(used, x, (n - 1) as nat);
    }
}

/// Fewer used indices than there are questions leave at least as many unused
/// ones as the difference.
pub proof fn lemma_unused_remain(used: Set<usize>, n: nat)
    requires
        used.finite(),
        n <= usize::MAX,
    ensures
        unused_below(used, n) + used.len() >= n,
    decreases n,
{
    if n > 0 {
        let k = (n - 1) as usize;
        if used.contains(k) {
            lemma_unused_remain(used.remove(k), (n - 1) as nat);
            lemma_unused_below_ignores(used, k, (n - 1) as nat);
        } else {
            lemma_unused_remain(used, (n - 1) as nat);
        }
    }
}

/// Whether `idx` occurs in `used`.
pub fn is_used(used: &HashSet<usize>, idx: usize) -> (r: bool)
    ensures
        r == used@.contains(idx),
{
    used.contains(&idx)
}

/// The number of questions of a bank of `bank` that `used` leaves.
pub fn count_unused(used: &HashSet<usize>, bank: usize) -> (count: usize)
    ensures
        count == unused_below(used@, bank as nat),
{
    let mut count: usize = 0;
    let mut i: usize = 0;
    while i < bank
        invariant
            i <= bank,
            count == unused_below(used@, i as nat),
            count <= i,
        decreases bank - i,
    {
        if !is_used(used, i) {
            count += 1;
        }
        i += 1;
    }
    count
}

/// The unused question that has `rank` unused ones before it.
pub fn nth_unused(used: &HashSet<usize>, bank: usize, rank: usize) -> (idx: usize)
    requires
        rank < unused_below(used@, bank as nat),
    ensures
        is_nth_unused(used@, bank as nat, rank as nat, idx),
{
    let mut seen: usize = 0;
    let mut i: usize = 0;
    proof {
        lemma_unused_below_bounds(used@, bank as nat);
    }
    loop
        invariant
            i < bank,
            seen == unused_below(used@, i as nat),
            seen <= rank,
            rank < unused_below(used@, bank as nat),
        decreases bank - i,
    {
        if !is_used(used, i) {
            if seen == rank {
                return i;
            }
            seen += 1;
        }
        i += 1;
    }
}

/// `rand::Rng::gen_range` over `0..n` on the thread's generator: some number
/// below `n`. Nothing else is known of it.
#[verifier::external_body]
pub(crate) fn random_below(n: usize) -> (r: usize)
    requires
        n > 0,
    ensures
        r < n,
{
    rand::thread_rng().gen_range(0..n)
}

/// Draws, with equal chance, one of the questions that `used` leaves.
pub fn draw_question(used: &HashSet<usize>, bank: usize) -> (idx: usize)
    requires
        used@.finite(),
        used@.len() < bank,
    ensures
        idx < bank,
        !used@.contains(idx),
{
    proof {
        lemma_unused_remain(used@, bank as nat);
    }
    let count = count_unused(used, bank);
    let rank = random_below(count);
    nth_unused(used, bank, rank)
}

impl GameView {
    /// What holds of every live match over a bank of `bank` questions.
    pub open spec fn wf(self, bank: nat) -> bool {
        &&& 0 <= self.stage <= ROUNDS
        &&& self.started == (self.stage > 0)
        &&& self.previous_questions.finite()
        &&& self.previous_questions.len() == self.stage
        &&& forall|q: usize| #[trigger] self.previous_questions.contains(q) ==> q < bank
        &&& match self.question {
            Some(q) => q < bank,
            None => true,
        }
        &&& self.p1 != self.p2
    }

    /// Whether the match moves on at `now`: `START_DELAY_SECS` after pairing
    /// before the first round, `ROUND_SECS` after the round's start later.
    pub open spec fn is_due(self, now: i64) -> bool {
        if self.started {
            elapsed_secs(self.stage_timer, now) >= ROUND_SECS
        } else {
            elapsed_secs(self.start_timer, now) >= START_DELAY_SECS
        }
    }

    /// The match after it has moved on to its next round at `now`, on the
    /// question `q`: one stage further, started, with the round beginning now
    /// and `q` among the questions used.
    pub open spec fn advanced(self, q: usize, now: i64) -> GameView {
        GameView {
            stage: (self.stage + 1) as i32,
            started: true,
            question: Some(q),
            stage_timer: now,
            previous_questions: self.previous_questions.insert(q),
            ..self
        }
    }

    /// Whether `peer` plays in this match.
    pub open spec fn has(self, peer: u64) -> bool {
        self.p1 == peer || self.p2 == peer
    }

    /// The other player of the match, seen from `peer`.
    pub open spec fn opponent(self, peer: u64) -> u64 {
        if self.p1 == peer {
            self.p2
        } else {
            self.p1
        }
    }

    /// The match as it is created at `now`.
    pub open spec fn fresh(id: u64, p1: u64, p2: u64, competitive: bool, now: i64) -> GameView {
        GameView {
            id,
            p1,
            p2,
            question: None,
            stage: 0,
            started: false,
            competitive,
            start_timer: now,
            stage_timer: now,
            previous_questions: Set::empty(),
        }
    }
}

impl Game {
    /// A match between `p1` and `p2` that waits for its first round.
    pub fn new(id: u64, p1: u64, p2: u64, competitive: bool, now: i64) -> (g: Game)
        ensures
            g@ == GameView::fresh(id, p1, p2, competitive, now),
    {
        Game {
            id,
            p1,
            p2,
            competitive,
            stage: 0,
            started: false,
            question: None,
            start_timer: now,
            stage_timer: now,
            previous_questions: HashSet::new(),
        }
    }

    /// Whether the match moves on at `now`.
    pub fn is_due(&self, now: i64) -> (due: bool)
        ensures
            due == self@.is_due(now),
    {
        (!self.started && elapsed(self.start_timer, now) >= START_DELAY_SECS) || (self.started
            && elapsed(self.stage_timer, now) >= ROUND_SECS)
    }
}

} // verus!
