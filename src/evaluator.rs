use vstd::prelude::*;
use rand::Rng;
use crate::engine::GameLogic;
use crate::game::{GameState, N_FIELD, count_owned, lemma_count_bound, lemma_count_prefix, progress_spec};

verus! {

/// The controlled team's move: a basic direction, a dash in a direction, or a
/// teleport to (face, row, column).
#[derive(Clone, Copy, Debug, PartialEq, Eq, Structural)]
pub enum MoveChoice {
    Basic(i32),
    Dash(i32),
    Teleport(i32, i32, i32),
}

/// The one-turn batch of the lookahead: agents 0 and 5 move, the other four stay.
pub open spec fn lookahead_moves(d0: int, d5: int) -> Seq<i32> {
    seq![d0 as i32, -1i32, -1i32, -1i32, -1i32, d5 as i32]
}

/// Cells team 0 owns after one turn with basic moves `d0` and `d5`.
pub open spec fn outcome(s: GameState, d0: int, d5: int) -> int {
    count_owned(progress_spec(s, 0, lookahead_moves(d0, d5), 1).field, 0) as int
}

/// A pair of basic move codes.
pub open spec fn is_pair(p: (i32, i32)) -> bool {
    0 <= p.0 < 4 && 0 <= p.1 < 4
}

/// The lookahead can be run on `g`: one more turn fits the integer types.
pub open spec fn lookahead_fits(g: &GameLogic) -> bool {
    &&& g.wf()
    &&& g.turn < i32::MAX
    &&& forall|t: int| 0 <= t < 3 ==> g.score@[t] + N_FIELD <= i32::MAX
    &&& forall|idx: int| 0 <= idx < 6 ==> g.special@[idx] > i32::MIN
}

/// Counts the cells owned by `team`.
pub fn count_cells(g: &GameLogic, team: i32) -> (c: i32)
    requires
        g.wf(),
    ensures
        c == count_owned(g.field@, team as int),
{
    let mut c: i32 = 0;
    let mut fi: usize = 0;
    while fi < N_FIELD
        invariant
            g.wf(),
            fi <= N_FIELD,
            c == count_owned(g.field@.subrange(0, fi as int), team as int),
        decreases N_FIELD - fi,
    {
        proof {
            lemma_count_prefix(g.field@, fi as int, team as int);
            lemma_count_bound(g.field@.subrange(0, fi as int), team as int);
        }
        if g.field[fi].owner == team {
            c += 1;
        }
        fi += 1;
    }
    assert(g.field@.subrange(0, N_FIELD as int) =~= g.field@);
    c
}

/// Simulates each of the 16 basic move pairs of agents 0 and 5 for one turn and
/// returns the best count of team-0 cells with every pair that reaches it, in
/// order of (d0, d5).
pub fn best_moves(g: &GameLogic) -> (r: (i32, Vec<(i32, i32)>))
    requires
        lookahead_fits(g),
    ensures
        r.1.len() >= 1,
        forall|d0: int, d5: int| 0 <= d0 < 4 && 0 <= d5 < 4 ==> outcome(g@, d0, d5) <= r.0,
        forall|i: int| 0 <= i < r.1.len() ==> is_pair(#[trigger] r.1@[i]) && outcome(g@, r.1@[i].0 as int, r.1@[i].1 as int) == r.0,
        forall|d0: int, d5: int|
            0 <= d0 < 4 && 0 <= d5 < 4 && outcome(g@, d0, d5) == r.0 ==> r.1@.contains((d0 as i32, d5 as i32)),
        forall|i: int, j: int|
            0 <= i < j < r.1.len() ==> (#[trigger] r.1@[i]).0 * 4 + r.1@[i].1 < (#[trigger] r.1@[j]).0 * 4 + r.1@[j].1,
{
    let mut best_c: i32 = -1;
    let mut best: Vec<(i32, i32)> = Vec::new();
    let mut d0: i32 = 0;
    while d0 < 4
        invariant
            lookahead_fits(g),
            0 <= d0 <= 4,
            d0 == 0 <==> best_c == -1,
            d0 > 0 ==> best.len() >= 1,
            forall|a: int, b: int| 0 <= a < d0 && 0 <= b < 4 ==> outcome(g@, a, b) <= best_c,
            forall|i: int| 0 <= i < best.len() ==> is_pair(#[trigger] best@[i])
                && outcome(g@, best@[i].0 as int, best@[i].1 as int) == best_c && best@[i].0 < d0,
            forall|a: int, b: int|
                0 <= a < d0 && 0 <= b < 4 && outcome(g@, a, b) == best_c ==> best@.contains((a as i32, b as i32)),
            forall|i: int, j: int|
                0 <= i < j < best.len() ==> (#[trigger] best@[i]).0 * 4 + best@[i].1 < (#[trigger] best@[j]).0 * 4 + best@[j].1,
        decreases 4 - d0,
    {
        let mut d5: i32 = 0;
        while d5 < 4
            invariant
                lookahead_fits(g),
                0 <= d0 < 4,
                0 <= d5 <= 4,
                d0 == 0 && d5 == 0 <==> best_c == -1,
                (d0 > 0 || d5 > 0) ==> best.len() >= 1,
                forall|a: int, b: int|
                    0 <= a < 4 && 0 <= b < 4 && (a < d0 || (a == d0 && b < d5)) ==> outcome(g@, a, b) <= best_c,
                forall|i: int| 0 <= i < best.len() ==> is_pair(#[trigger] best@[i])
                    && outcome(g@, best@[i].0 as int, best@[i].1 as int) == best_c
                    && best@[i].0 * 4 + best@[i].1 < d0 * 4 + d5,
                forall|a: int, b: int|
                    0 <= a < 4 && 0 <= b < 4 && (a < d0 || (a == d0 && b < d5)) && outcome(g@, a, b) == best_c
                        ==> best@.contains((a as i32, b as i32)),
                forall|i: int, j: int|
                    0 <= i < j < best.len() ==> (#[trigger] best@[i]).0 * 4 + best@[i].1 < (#[trigger] best@[j]).0 * 4 + best@[j].1,
            decreases 4 - d5,
        {
            let mut m = g.duplicate();
            let moves: Vec<i32> = vec![d0, -1, -1, -1, -1, d5];
            assert(moves@ =~= lookahead_moves(d0 as int, d5 as int));
            assert(moves.len() / 6 == 1);
            assert(N_FIELD * (moves.len() / 6) == N_FIELD);
            m.progress(0, moves);
            let c = count_cells(&m, 0);
            assert(c == outcome(g@, d0 as int, d5 as int));
            proof {
                lemma_count_bound(m.field@, 0);
            }
            if c > best_c {
                best_c = c;
                best = Vec::new();
                best.push((d0, d5));
                proof {
                    assert(best@[0] == (d0, d5));
                    assert forall|a: int, b: int|
                        0 <= a < 4 && 0 <= b < 4 && (a < d0 || (a == d0 && b < d5 + 1)) && outcome(g@, a, b) == best_c
                            implies best@.contains((a as i32, b as i32)) by {
                        assert(a == d0 && b == d5);
                        assert(best@[0] == (a as i32, b as i32));
                    }
                }
            } else if c == best_c {
                let ghost old_best = best@;
                best.push((d0, d5));
                proof {
                    assert forall|a: int, b: int|
                        0 <= a < 4 && 0 <= b < 4 && (a < d0 || (a == d0 && b < d5 + 1)) && outcome(g@, a, b) == best_c
                            implies best@.contains((a as i32, b as i32)) by {
                        if a == d0 && b == d5 {
                            assert(best@[best.len() - 1] == (a as i32, b as i32));
                        } else {
                            let k = choose|k: int| 0 <= k < old_best.len() && old_best[k] == (a as i32, b as i32);
                            assert(best@[k] == (a as i32, b as i32));
                        }
                    }
                }
            }
            d5 += 1;
        }
        d0 += 1;
    }
    (best_c, best)
}

/// Relies on rand's `Rng::gen_range` on the thread-local generator: a value in `0..n`.
#[verifier::external_body]
fn random_below(n: u32) -> (r: u32)
    requires
        n > 0,
    ensures
        r < n,
{
    rand::thread_rng().gen_range(0..n)
}

/// Relies on rand's `Rng::gen_ratio` on the thread-local generator: true with
/// probability `num / den`, never when `num` is 0, always when `num == den`.
#[verifier::external_body]
fn random_ratio(num: u32, den: u32) -> (r: bool)
    requires
        0 < den,
        num <= den,
    ensures
        num == 0 ==> !r,
        num == den ==> r,
{
    rand::thread_rng().gen_ratio(num, den)
}

/// A uniformly random basic direction, for the first move of a match.
pub fn random_direction() -> (d: i32)
    ensures
        0 <= d < 4,
{
    random_below(4) as i32
}

/// The pair at index `r` of `best`, or (0, 0) when there is none.
pub fn pick_best(best: &Vec<(i32, i32)>, r: usize) -> (p: (i32, i32))
    ensures
        r < best.len() ==> p == best@[r as int],
        r >= best.len() ==> p == (0i32, 0i32),
{
    if r < best.len() {
        best[r]
    } else {
        (0, 0)
    }
}

/// A special move for direction `dir`: a dash when `dash`, else a teleport to (i, j, k).
pub fn special_choice(dir: i32, dash: bool, i: i32, j: i32, k: i32) -> (m: MoveChoice)
    ensures
        dash ==> m == MoveChoice::Dash(dir),
        !dash ==> m == MoveChoice::Teleport(i, j, k),
{
    if dash {
        MoveChoice::Dash(dir)
    } else {
        MoveChoice::Teleport(i, j, k)
    }
}

/// What a random special move for direction `dir` may be: the dash, or a teleport
/// to any cell (face in 0..6, row and column in 0..5).
pub open spec fn random_special_result(dir: i32, m: MoveChoice) -> bool {
    match m {
        MoveChoice::Dash(d) => d == dir,
        MoveChoice::Teleport(i, j, k) => 0 <= i < 6 && 0 <= j < 5 && 0 <= k < 5,
        MoveChoice::Basic(_) => false,
    }
}

/// Replaces direction `dir` by a special move: a dash half of the time, else a
/// teleport to a uniformly random cell.
pub fn use_random_special(dir: i32) -> (m: MoveChoice)
    ensures
        random_special_result(dir, m),
{
    let dash = random_ratio(1, 2);
    let i = random_below(6) as i32;
    let j = random_below(5) as i32;
    let k = random_below(5) as i32;
    special_choice(dir, dash, i, j, k)
}

/// What agent `dir`'s decided move may be: the basic move, or, when it has a
/// charge left, a special move for that direction.
pub open spec fn decided(dir: i32, charges: i32, m: MoveChoice) -> bool {
    m == MoveChoice::Basic(dir) || (charges > 0 && random_special_result(dir, m))
}

/// Decides the controlled team's moves: a best lookahead pair, chosen at random
/// among the ties, each replaced by a random special move one time in ten when
/// the agent has a charge left.
pub fn choose_moves(g: &GameLogic) -> (r: (MoveChoice, MoveChoice))
    requires
        lookahead_fits(g),
    ensures
        exists|d0: i32, d5: i32|
            0 <= d0 < 4 && 0 <= d5 < 4 && (forall|a: int, b: int|
                0 <= a < 4 && 0 <= b < 4 ==> #[trigger] outcome(g@, a, b) <= outcome(g@, d0 as int, d5 as int))
                && decided(d0, g.special@[0], r.0) && decided(d5, g.special@[5], r.1),
{
    let (best_c, best) = best_moves(g);
    let n = best.len();
    let r = if n <= 0xffff_ffff { random_below(n as u32) as usize } else { 0 };
    let (d0, d5) = pick_best(&best, r);
    assert(best@[r as int] == (d0, d5));
    let mut m0 = MoveChoice::Basic(d0);
    let mut m5 = MoveChoice::Basic(d5);
    if g.special[0] > 0 && random_ratio(1, 10) {
        m0 = use_random_special(d0);
    }
    if g.special[5] > 0 && random_ratio(1, 10) {
        m5 = use_random_special(d5);
    }
    assert(is_pair(best@[r as int]));
    assert(forall|a: int, b: int|
        0 <= a < 4 && 0 <= b < 4 ==> #[trigger] outcome(g@, a, b) <= outcome(g@, d0 as int, d5 as int));
    assert(decided(d0, g.special@[0], m0) && decided(d5, g.special@[5], m5));
    let r = (m0, m5);
    assert(exists|x0: i32, x5: i32|
        0 <= x0 < 4 && 0 <= x5 < 4 && (forall|a: int, b: int|
            0 <= a < 4 && 0 <= b < 4 ==> #[trigger] outcome(g@, a, b) <= outcome(g@, x0 as int, x5 as int))
            && decided(x0, g.special@[0], r.0) && decided(x5, g.special@[5], r.1)) by {
        assert(decided(d0, g.special@[0], r.0) && decided(d5, g.special@[5], r.1));
    }
    r
}

} // verus!
