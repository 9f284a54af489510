use vstd::prelude::*;
use crate::topology::{Agent, advance_spec, advance_n, rotate_spec, agent_cell, face_permute_spec, team_of};

verus! {

/// Number of cells on the cube: 6 faces of 5 x 5.
pub const N_FIELD: usize = 150;

/// Total number of turns of a match; score accrues from the midpoint on.
pub const TOTAL_TURN: i32 = 294;

/// A cell: `owner` is a team (0..3) or -1 for nobody, `val` its paint level.
#[derive(Clone, Copy, Debug, PartialEq, Eq, Structural)]
pub struct Cell {
    pub owner: i32,
    pub val: i32,
}

impl Cell {
    /// Paint level 0 exactly when unowned; an owned cell is at level 1 or 2.
    pub open spec fn wf(self) -> bool {
        (self.owner == -1 && self.val == 0) || (0 <= self.owner < 3 && 1 <= self.val <= 2)
    }
}

/// Number of cells of `s` owned by team `t`.
pub open spec fn count_owned(s: Seq<Cell>, t: int) -> nat
    decreases s.len(),
{
    if s.len() == 0 {
        0
    } else {
        count_owned(s.drop_last(), t) + if s.last().owner == t { 1nat } else { 0nat }
    }
}

pub proof fn lemma_count_bound(s: Seq<Cell>, t: int)
    ensures
        count_owned(s, t) <= s.len(),
    decreases s.len(),
{
    if s.len() > 0 {
        lemma_count_bound(s.drop_last(), t);
    }
}

pub proof fn lemma_count_update(s: Seq<Cell>, i: int, c: Cell, t: int)
    requires
        0 <= i < s.len(),
    ensures
        count_owned(s.update(i, c), t) + (if s[i].owner == t { 1int } else { 0int })
            == count_owned(s, t) + (if c.owner == t { 1int } else { 0int }),
    decreases s.len(),
{
    let u = s.update(i, c);
    if i == s.len() - 1 {
        assert(u.drop_last() =~= s.drop_last());
    } else {
        assert(u.drop_last() =~= s.drop_last().update(i, c));
        lemma_count_update(s.drop_last(), i, c, t);
    }
}

pub proof fn lemma_count_prefix(s: Seq<Cell>, i: int, t: int)
    requires
        0 <= i < s.len(),
    ensures
        count_owned(s.subrange(0, i + 1), t) == count_owned(s.subrange(0, i), t)
            + if s[i].owner == t { 1nat } else { 0nat },
{
    assert(s.subrange(0, i + 1).drop_last() =~= s.subrange(0, i));
}

/// Result of a normal-move paint by team `t`.
pub open spec fn paint_cell(c: Cell, t: int) -> Cell {
    if c.owner == -1 || c.owner == t {
        Cell { owner: t as i32, val: 2 }
    } else if c.val == 1 {
        Cell { owner: -1i32, val: 0i32 }
    } else {
        Cell { owner: c.owner, val: (c.val - 1) as i32 }
    }
}

/// Result of a special-move paint by team `t`.
pub open spec fn force_paint_cell(t: int) -> Cell {
    Cell { owner: t as i32, val: 2 }
}

/// The whole game state as mathematical values.
pub struct GameState {
    pub field: Seq<Cell>,
    pub agents: Seq<Agent>,
    pub turn: int,
    pub agent_move: Seq<i32>,
    pub score: Seq<int>,
    pub special: Seq<int>,
}

impl GameState {
    pub open spec fn wf(self) -> bool {
        &&& self.field.len() == N_FIELD
        &&& forall|f: int| 0 <= f < N_FIELD ==> #[trigger] self.field[f].wf()
        &&& self.agents.len() == 6
        &&& forall|a: int| 0 <= a < 6 ==> #[trigger] self.agents[a].valid()
        &&& self.agent_move.len() == 6
        &&& self.score.len() == 3
        &&& self.special.len() == 6
    }
}

pub open spec fn is_normal(code: i32) -> bool {
    0 <= code < 4
}

pub open spec fn is_special(code: i32) -> bool {
    code >= 4
}

/// Per-agent move codes of one chunk, read through `face_permute_spec`.
pub open spec fn decode(member: int, chunk: Seq<i32>) -> Seq<i32> {
    Seq::new(6, |idx: int| chunk[face_permute_spec(member, idx)])
}

/// Agents after the normal moves: each rotates, then steps once.
pub open spec fn moved(agents: Seq<Agent>, cs: Seq<i32>) -> Seq<Agent> {
    Seq::new(
        6,
        |idx: int|
            if is_normal(cs[idx]) {
                advance_spec(rotate_spec(agents[idx], cs[idx] as int))
            } else {
                agents[idx]
            },
    )
}

/// No agent that moved normally stands on `idx`'s cell but `idx` and its teammate `5 - idx`.
pub open spec fn uncontested(ag: Seq<Agent>, cs: Seq<i32>, idx: int) -> bool {
    forall|j: int|
        0 <= j < 6 && is_normal(cs[j]) && agent_cell(#[trigger] ag[j]) == agent_cell(ag[idx])
            ==> j == idx || j == 5 - idx
}

/// Whether agent `idx` paints its cell in the normal phase, given the field so far.
pub open spec fn paints(f: Seq<Cell>, ag: Seq<Agent>, cs: Seq<i32>, idx: int) -> bool {
    is_normal(cs[idx]) && (uncontested(ag, cs, idx) || f[agent_cell(ag[idx])].owner == team_of(idx))
}

/// The normal phase over agents `0..k`, in agent order.
pub open spec fn normal_paint(field: Seq<Cell>, ag: Seq<Agent>, cs: Seq<i32>, k: nat) -> Seq<Cell>
    decreases k,
{
    if k == 0 {
        field
    } else {
        let f = normal_paint(field, ag, cs, (k - 1) as nat);
        let idx = k - 1;
        let fi = agent_cell(ag[idx]);
        if paints(f, ag, cs, idx) {
            f.update(fi, paint_cell(f[fi], team_of(idx)))
        } else {
            f
        }
    }
}

/// Destination of a teleport move code (`code >= 8`), facing 0.
pub open spec fn teleport_dest(member: int, code: int) -> Agent {
    let m = code - 8;
    Agent { i: face_permute_spec(member, m / 25) as i32, j: (m / 5 % 5) as i32, k: (m % 5) as i32, d: 0 }
}

/// The five cells a special move touches: the dash's five steps, or the
/// teleport destination and its four neighbours.
pub open spec fn special_cells(a: Agent, code: int, member: int) -> Seq<int> {
    if code < 8 {
        Seq::new(5, |s: int| agent_cell(advance_n(rotate_spec(a, code), (s + 1) as nat)))
    } else {
        let dst = teleport_dest(member, code);
        Seq::new(
            5,
            |s: int|
                if s == 0 {
                    agent_cell(dst)
                } else {
                    agent_cell(advance_spec(Agent { d: (s - 1) as i32, ..dst }))
                },
        )
    }
}

/// Where a special move leaves the agent.
pub open spec fn special_end(a: Agent, code: int, member: int) -> Agent {
    if code < 8 {
        advance_n(rotate_spec(a, code), 5)
    } else {
        teleport_dest(member, code)
    }
}

/// Some agent among `0..n` of team `t` with a special move touches cell `fi`.
pub open spec fn touched_among(ag: Seq<Agent>, cs: Seq<i32>, member: int, n: int, t: int, fi: int) -> bool {
    exists|idx: int|
        0 <= idx < n && team_of(idx) == t && is_special(cs[idx])
            && #[trigger] special_cells(ag[idx], cs[idx] as int, member).contains(fi)
}

/// Some agent of team `t` with a special move touches cell `fi`.
pub open spec fn touched(ag: Seq<Agent>, cs: Seq<i32>, member: int, t: int, fi: int) -> bool {
    touched_among(ag, cs, member, 6, t, fi)
}

/// The team whose special moves alone touch `fi`, or -1.
pub open spec fn sole_team(ag: Seq<Agent>, cs: Seq<i32>, member: int, fi: int) -> int {
    let t0 = touched(ag, cs, member, 0, fi);
    let t1 = touched(ag, cs, member, 1, fi);
    let t2 = touched(ag, cs, member, 2, fi);
    if t0 && !t1 && !t2 {
        0
    } else if !t0 && t1 && !t2 {
        1
    } else if !t0 && !t1 && t2 {
        2
    } else {
        -1
    }
}

/// The special phase: a cell touched by exactly one team is force-painted for it.
pub open spec fn special_paint(field: Seq<Cell>, ag: Seq<Agent>, cs: Seq<i32>, member: int) -> Seq<Cell> {
    Seq::new(
        N_FIELD as nat,
        |fi: int|
            if sole_team(ag, cs, member, fi) >= 0 {
                force_paint_cell(sole_team(ag, cs, member, fi))
            } else {
                field[fi]
            },
    )
}

/// One full turn of `progress` on a six-code chunk.
pub open spec fn turn_step(s: GameState, member: int, chunk: Seq<i32>) -> GameState {
    let cs = decode(member, chunk);
    let ag1 = moved(s.agents, cs);
    let f1 = normal_paint(s.field, ag1, cs, 6);
    let f2 = special_paint(f1, ag1, cs, member);
    GameState {
        field: f2,
        agents: Seq::new(
            6,
            |idx: int|
                if is_special(cs[idx]) {
                    special_end(ag1[idx], cs[idx] as int, member)
                } else {
                    ag1[idx]
                },
        ),
        turn: s.turn + 1,
        agent_move: cs,
        score: if s.turn >= TOTAL_TURN / 2 {
            Seq::new(3, |t: int| s.score[t] + count_owned(f2, t))
        } else {
            s.score
        },
        special: Seq::new(6, |idx: int| s.special[idx] - if is_special(cs[idx]) { 1int } else { 0int }),
    }
}

/// The first `n` chunks of `moves`, one turn each.
pub open spec fn progress_spec(s: GameState, member: int, moves: Seq<i32>, n: nat) -> GameState
    decreases n,
{
    if n == 0 {
        s
    } else {
        turn_step(
            progress_spec(s, member, moves, (n - 1) as nat),
            member,
            moves.subrange(6 * (n - 1), 6 * (n as int)),
        )
    }
}

} // verus!
