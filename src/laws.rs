use vstd::prelude::*;
use crate::engine::GameLogic;
use crate::game::{Cell, N_FIELD, count_owned, lemma_count_update, paint_cell, force_paint_cell, is_normal, normal_paint};
use crate::game::{special_cells, GameState, decode, moved, turn_step, is_special, touched};
use crate::topology::{Agent, agent_cell, lemma_advance_valid, advance_spec, advance_n, rotate_spec, face_past_last_row, face_before_first_row, face_past_last_col, face_before_first_col};

verus! {

/// In every well-formed state, a cell is at paint level 0 exactly when nobody owns it.
/// Every operation that changes the state keeps it well-formed.
pub proof fn lemma_level_zero_iff_unowned(g: &GameLogic, fi: int)
    requires
        g.wf(),
        0 <= fi < N_FIELD,
    ensures
        g.field@[fi].val == 0 <==> g.field@[fi].owner == -1,
        g.field@[fi].owner == -1 || 0 <= g.field@[fi].owner < 3,
{
    assert(g.field@[fi].wf());
}

/// In every well-formed state, each team's area is the number of cells it owns.
/// `paint`, `force_paint` and `progress` all keep the state well-formed.
pub proof fn lemma_area_is_count(g: &GameLogic, t: int)
    requires
        g.wf(),
        0 <= t < 3,
    ensures
        g.area@[t] == count_owned(g.field@, t),
{
}

proof fn lemma_normal_paint_len(f: Seq<Cell>, ag: Seq<Agent>, cs: Seq<i32>, k: nat)
    requires
        k <= 6,
        forall|j: int| 0 <= j < 6 && is_normal(cs[j]) ==> 0 <= #[trigger] agent_cell(ag[j]) < f.len(),
    ensures
        normal_paint(f, ag, cs, k).len() == f.len(),
    decreases k,
{
    if k > 0 {
        lemma_normal_paint_len(f, ag, cs, (k - 1) as nat);
    }
}

/// Agents 0 and 5 (both of team 0) step onto cell `c`, and no other agent that moved
/// normally stands there: neither counts the other as a rival, so each paints `c` for
/// team 0. An unowned cell or one of team 0 ends fully held by team 0.
pub proof fn lemma_teammates_share_cell(f: Seq<Cell>, ag: Seq<Agent>, cs: Seq<i32>, c: int)
    requires
        f.len() == N_FIELD,
        ag.len() == 6,
        cs.len() == 6,
        forall|j: int| 0 <= j < 6 ==> 0 <= #[trigger] agent_cell(ag[j]) < N_FIELD,
        is_normal(cs[0]),
        is_normal(cs[5]),
        agent_cell(ag[0]) == c,
        agent_cell(ag[5]) == c,
        forall|j: int| 1 <= j < 5 && is_normal(cs[j]) ==> agent_cell(#[trigger] ag[j]) != c,
    ensures
        normal_paint(f, ag, cs, 6)[c] == paint_cell(paint_cell(f[c], 0), 0),
        f[c].owner == -1 || f[c].owner == 0 ==> normal_paint(f, ag, cs, 6)[c] == (Cell { owner: 0i32, val: 2i32 }),
{
    reveal_with_fuel(normal_paint, 7);
    let f1 = normal_paint(f, ag, cs, 1);
    lemma_normal_paint_len(f, ag, cs, 1);
    lemma_normal_paint_len(f, ag, cs, 2);
    lemma_normal_paint_len(f, ag, cs, 3);
    lemma_normal_paint_len(f, ag, cs, 4);
    lemma_normal_paint_len(f, ag, cs, 5);
    assert(crate::game::uncontested(ag, cs, 0));
    assert(crate::game::uncontested(ag, cs, 5));
    assert(f1[c] == paint_cell(f[c], 0));
    assert(normal_paint(f, ag, cs, 5)[c] == f1[c]);
}

/// Agents 0 and 1 (teams 0 and 1) step onto cell `c`, no other agent that moved normally
/// stands there, and neither team owns it: the normal phase leaves `c` unchanged.
pub proof fn lemma_rivals_share_cell(f: Seq<Cell>, ag: Seq<Agent>, cs: Seq<i32>, c: int)
    requires
        f.len() == N_FIELD,
        ag.len() == 6,
        cs.len() == 6,
        forall|j: int| 0 <= j < 6 ==> 0 <= #[trigger] agent_cell(ag[j]) < N_FIELD,
        is_normal(cs[0]),
        is_normal(cs[1]),
        agent_cell(ag[0]) == c,
        agent_cell(ag[1]) == c,
        forall|j: int| 2 <= j < 6 && is_normal(cs[j]) ==> agent_cell(#[trigger] ag[j]) != c,
        f[c].owner != 0,
        f[c].owner != 1,
    ensures
        normal_paint(f, ag, cs, 6)[c] == f[c],
{
    reveal_with_fuel(normal_paint, 7);
    lemma_normal_paint_len(f, ag, cs, 1);
    lemma_normal_paint_len(f, ag, cs, 2);
    lemma_normal_paint_len(f, ag, cs, 3);
    lemma_normal_paint_len(f, ag, cs, 4);
    lemma_normal_paint_len(f, ag, cs, 5);
    assert(!crate::game::uncontested(ag, cs, 0));
    assert(!crate::game::uncontested(ag, cs, 1));
}

/// A cell fully held by team `a`, normal-painted twice by another team `b`: after the
/// first paint it is half held by `a`, after the second nobody owns it, and `a`'s count
/// drops by exactly one over the two paints.
pub proof fn lemma_decay_sequence(f: Seq<Cell>, fi: int, a: int, b: int)
    requires
        0 <= fi < f.len(),
        0 <= a < 3,
        0 <= b < 3,
        a != b,
        f[fi] == (Cell { owner: a as i32, val: 2 }),
    ensures
        ({
            let f1 = f.update(fi, paint_cell(f[fi], b));
            let f2 = f1.update(fi, paint_cell(f1[fi], b));
            &&& f1[fi] == (Cell { owner: a as i32, val: 1 })
            &&& f2[fi] == (Cell { owner: -1i32, val: 0i32 })
            &&& count_owned(f1, a) == count_owned(f, a)
            &&& count_owned(f2, a) == count_owned(f, a) - 1
        }),
{
    let f1 = f.update(fi, paint_cell(f[fi], b));
    let f2 = f1.update(fi, paint_cell(f1[fi], b));
    lemma_count_update(f, fi, paint_cell(f[fi], b), a);
    lemma_count_update(f1, fi, paint_cell(f1[fi], b), a);
}

/// A special-move paint by team `t`: on a cell `t` already owns no count changes; on a
/// cell of another team `o`, `o` loses one cell and `t` gains one, whatever the paint level.
pub proof fn lemma_force_paint_counts(f: Seq<Cell>, fi: int, t: int)
    requires
        0 <= fi < f.len(),
        0 <= t < 3,
        f[fi].wf(),
    ensures
        f[fi].owner == t ==> forall|u: int| #[trigger] count_owned(f.update(fi, force_paint_cell(t)), u) == count_owned(f, u),
        f[fi].owner != t && f[fi].owner != -1 ==> {
            &&& count_owned(f.update(fi, force_paint_cell(t)), f[fi].owner as int) == count_owned(f, f[fi].owner as int) - 1
            &&& count_owned(f.update(fi, force_paint_cell(t)), t) == count_owned(f, t) + 1
        },
{
    let nc = force_paint_cell(t);
    assert forall|u: int| #[trigger] count_owned(f.update(fi, nc), u) + (if f[fi].owner == u { 1int } else { 0int })
        == count_owned(f, u) + (if nc.owner == u { 1int } else { 0int }) by {
        lemma_count_update(f, fi, nc, u);
    }
    lemma_count_update(f, fi, nc, t);
    lemma_count_update(f, fi, nc, f[fi].owner as int);
}

/// Five straight steps facing 0 from a valid state land on five distinct cells.
#[verifier::rlimit(100)]
proof fn lemma_steps_distinct_0(r: Agent)
    requires
        r.valid(),
        r.d == 0,
    ensures
        forall|s: int, t: int|
            1 <= s < t <= 5 ==> agent_cell(#[trigger] advance_n(r, s as nat)) != agent_cell(#[trigger] advance_n(r, t as nat)),
{
    let b1 = advance_spec(r);
    let b2 = advance_spec(b1);
    let b3 = advance_spec(b2);
    let b4 = advance_spec(b3);
    let b5 = advance_spec(b4);
    assert(agent_cell(b1) != agent_cell(b2) && agent_cell(b1) != agent_cell(b3));
    assert(agent_cell(b1) != agent_cell(b4) && agent_cell(b1) != agent_cell(b5));
    assert(agent_cell(b2) != agent_cell(b3) && agent_cell(b2) != agent_cell(b4));
    assert(agent_cell(b2) != agent_cell(b5) && agent_cell(b3) != agent_cell(b4));
    assert(agent_cell(b3) != agent_cell(b5) && agent_cell(b4) != agent_cell(b5));
    assert(advance_n(r, 0) == r);
    assert(advance_n(r, 1) == b1);
    assert(advance_n(r, 2) == b2);
    assert(advance_n(r, 3) == b3);
    assert(advance_n(r, 4) == b4);
    assert(advance_n(r, 5) == b5);
}

/// Five straight steps facing 1 from a valid state land on five distinct cells.
#[verifier::rlimit(100)]
proof fn lemma_steps_distinct_1(r: Agent)
    requires
        r.valid(),
        r.d == 1,
    ensures
        forall|s: int, t: int|
            1 <= s < t <= 5 ==> agent_cell(#[trigger] advance_n(r, s as nat)) != agent_cell(#[trigger] advance_n(r, t as nat)),
{
    let b1 = advance_spec(r);
    let b2 = advance_spec(b1);
    let b3 = advance_spec(b2);
    let b4 = advance_spec(b3);
    let b5 = advance_spec(b4);
    assert(agent_cell(b1) != agent_cell(b2) && agent_cell(b1) != agent_cell(b3));
    assert(agent_cell(b1) != agent_cell(b4) && agent_cell(b1) != agent_cell(b5));
    assert(agent_cell(b2) != agent_cell(b3) && agent_cell(b2) != agent_cell(b4));
    assert(agent_cell(b2) != agent_cell(b5) && agent_cell(b3) != agent_cell(b4));
    assert(agent_cell(b3) != agent_cell(b5) && agent_cell(b4) != agent_cell(b5));
    assert(advance_n(r, 0) == r);
    assert(advance_n(r, 1) == b1);
    assert(advance_n(r, 2) == b2);
    assert(advance_n(r, 3) == b3);
    assert(advance_n(r, 4) == b4);
    assert(advance_n(r, 5) == b5);
}

/// Five straight steps facing 2 from a valid state land on five distinct cells.
#[verifier::rlimit(100)]
proof fn lemma_steps_distinct_2(r: Agent)
    requires
        r.valid(),
        r.d == 2,
    ensures
        forall|s: int, t: int|
            1 <= s < t <= 5 ==> agent_cell(#[trigger] advance_n(r, s as nat)) != agent_cell(#[trigger] advance_n(r, t as nat)),
{
    let b1 = advance_spec(r);
    let b2 = advance_spec(b1);
    let b3 = advance_spec(b2);
    let b4 = advance_spec(b3);
    let b5 = advance_spec(b4);
    assert(agent_cell(b1) != agent_cell(b2) && agent_cell(b1) != agent_cell(b3));
    assert(agent_cell(b1) != agent_cell(b4) && agent_cell(b1) != agent_cell(b5));
    assert(agent_cell(b2) != agent_cell(b3) && agent_cell(b2) != agent_cell(b4));
    assert(agent_cell(b2) != agent_cell(b5) && agent_cell(b3) != agent_cell(b4));
    assert(agent_cell(b3) != agent_cell(b5) && agent_cell(b4) != agent_cell(b5));
    assert(advance_n(r, 0) == r);
    assert(advance_n(r, 1) == b1);
    assert(advance_n(r, 2) == b2);
    assert(advance_n(r, 3) == b3);
    assert(advance_n(r, 4) == b4);
    assert(advance_n(r, 5) == b5);
}

/// Five straight steps facing 3 from a valid state land on five distinct cells.
#[verifier::rlimit(100)]
proof fn lemma_steps_distinct_3(r: Agent)
    requires
        r.valid(),
        r.d == 3,
    ensures
        forall|s: int, t: int|
            1 <= s < t <= 5 ==> agent_cell(#[trigger] advance_n(r, s as nat)) != agent_cell(#[trigger] advance_n(r, t as nat)),
{
    let b1 = advance_spec(r);
    let b2 = advance_spec(b1);
    let b3 = advance_spec(b2);
    let b4 = advance_spec(b3);
    let b5 = advance_spec(b4);
    assert(agent_cell(b1) != agent_cell(b2) && agent_cell(b1) != agent_cell(b3));
    assert(agent_cell(b1) != agent_cell(b4) && agent_cell(b1) != agent_cell(b5));
    assert(agent_cell(b2) != agent_cell(b3) && agent_cell(b2) != agent_cell(b4));
    assert(agent_cell(b2) != agent_cell(b5) && agent_cell(b3) != agent_cell(b4));
    assert(agent_cell(b3) != agent_cell(b5) && agent_cell(b4) != agent_cell(b5));
    assert(advance_n(r, 0) == r);
    assert(advance_n(r, 1) == b1);
    assert(advance_n(r, 2) == b2);
    assert(advance_n(r, 3) == b3);
    assert(advance_n(r, 4) == b4);
    assert(advance_n(r, 5) == b5);
}

/// A dash visits five pairwise distinct cells, whatever edge it crosses.
pub proof fn lemma_dash_cells_distinct(a: Agent, code: int, member: int)
    requires
        a.valid(),
        4 <= code < 8,
    ensures
        forall|s: int, t: int|
            0 <= s < t < 5 ==> #[trigger] special_cells(a, code, member)[s] != #[trigger] special_cells(a, code, member)[t],
{
    let r = rotate_spec(a, code);
    if r.d == 0 {
        lemma_steps_distinct_0(r);
    } else if r.d == 1 {
        lemma_steps_distinct_1(r);
    } else if r.d == 2 {
        lemma_steps_distinct_2(r);
    } else {
        lemma_steps_distinct_3(r);
    }
    let sc = special_cells(a, code, member);
    assert forall|s: int, t: int| 0 <= s < t < 5 implies #[trigger] sc[s] != #[trigger] sc[t] by {
        assert(sc[s] == agent_cell(advance_n(r, (s + 1) as nat)));
        assert(sc[t] == agent_cell(advance_n(r, (t + 1) as nat)));
    }
}

/// Where five steps lead: exactly one edge is crossed on the way.
spec fn five_steps(r: Agent) -> Agent {
    if r.d == 0 {
        Agent { i: face_past_last_row(r.i as int) as i32, j: r.k, k: (4 - r.j) as i32, d: 3 }
    } else if r.d == 2 {
        Agent { i: face_before_first_row(r.i as int) as i32, j: (4 - r.j) as i32, k: (4 - r.k) as i32, d: 0 }
    } else if r.d == 1 {
        Agent { i: face_past_last_col(r.i as int) as i32, j: (4 - r.k) as i32, k: r.j, d: 2 }
    } else {
        Agent { i: face_before_first_col(r.i as int) as i32, j: (4 - r.j) as i32, k: (4 - r.k) as i32, d: 1 }
    }
}

#[verifier::rlimit(100)]
proof fn lemma_five_steps(r: Agent)
    requires
        r.valid(),
    ensures
        advance_n(r, 5) == five_steps(r),
        five_steps(r).valid(),
{
    let b1 = advance_spec(r);
    let b2 = advance_spec(b1);
    let b3 = advance_spec(b2);
    let b4 = advance_spec(b3);
    let b5 = advance_spec(b4);
    assert(b5 == five_steps(r));
    assert(advance_n(r, 0) == r);
    assert(advance_n(r, 1) == b1);
    assert(advance_n(r, 2) == b2);
    assert(advance_n(r, 3) == b3);
    assert(advance_n(r, 4) == b4);
    assert(advance_n(r, 5) == b5);
}

proof fn lemma_advance_add(a: Agent, n: nat, m: nat)
    ensures
        advance_n(a, n + m) == advance_n(advance_n(a, n), m),
    decreases m,
{
    if m > 0 {
        lemma_advance_add(a, n, (m - 1) as nat);
        assert(advance_n(a, n + m) == advance_spec(advance_n(a, (n + m - 1) as nat)));
    }
}

/// Twenty steps along one facing (four faces of five cells) bring an agent back to
/// the face, row, column and facing it started from.
pub proof fn lemma_full_lap(a: Agent)
    requires
        a.valid(),
    ensures
        advance_n(a, 20) == a,
{
    lemma_five_steps(a);
    let q1 = five_steps(a);
    lemma_five_steps(q1);
    let q2 = five_steps(q1);
    lemma_five_steps(q2);
    let q3 = five_steps(q2);
    lemma_five_steps(q3);
    assert(five_steps(q3) == a);
    lemma_advance_add(a, 5, 5);
    lemma_advance_add(a, 10, 5);
    lemma_advance_add(a, 15, 5);
}

/// In a turn without special moves, the field after the turn is the field after the
/// normal phase, and every agent that moved is on a valid cell.
pub proof fn lemma_turn_without_specials(s: GameState, member: int, chunk: Seq<i32>)
    requires
        s.wf(),
        0 <= member < 6,
        chunk.len() == 6,
        forall|i: int| 0 <= i < 6 ==> -1 <= #[trigger] chunk[i] < 4,
    ensures
        ({
            let cs = decode(member, chunk);
            let ag = moved(s.agents, cs);
            &&& cs.len() == 6
            &&& ag.len() == 6
            &&& forall|j: int| 0 <= j < 6 ==> 0 <= #[trigger] agent_cell(ag[j]) < N_FIELD
            &&& turn_step(s, member, chunk).field =~= normal_paint(s.field, ag, cs, 6)
        }),
{
    let cs = decode(member, chunk);
    let ag = moved(s.agents, cs);
    assert forall|j: int| 0 <= j < 6 implies 0 <= #[trigger] agent_cell(ag[j]) < N_FIELD by {
        assert(s.agents[j].valid());
        if is_normal(cs[j]) {
            lemma_advance_valid(rotate_spec(s.agents[j], cs[j] as int));
        }
    }
    lemma_normal_paint_len(s.field, ag, cs, 6);
    assert forall|t: int, fi: int| !touched(ag, cs, member, t, fi) by {
        assert forall|idx: int| 0 <= idx < 6 implies !is_special(#[trigger] cs[idx]) by {
        }
    }
}

/// A turn without special moves in which agents 0 and 5 step onto cell `c` and no other
/// agent does: a cell that was unowned or team 0's ends fully held by team 0.
pub proof fn lemma_turn_teammates_share_cell(s: GameState, member: int, chunk: Seq<i32>, c: int)
    requires
        s.wf(),
        0 <= member < 6,
        chunk.len() == 6,
        forall|i: int| 0 <= i < 6 ==> -1 <= #[trigger] chunk[i] < 4,
        ({
            let cs = decode(member, chunk);
            let ag = moved(s.agents, cs);
            &&& is_normal(cs[0]) && is_normal(cs[5])
            &&& agent_cell(ag[0]) == c && agent_cell(ag[5]) == c
            &&& forall|j: int| 1 <= j < 5 && is_normal(cs[j]) ==> agent_cell(#[trigger] ag[j]) != c
        }),
        s.field[c].owner == -1 || s.field[c].owner == 0,
    ensures
        turn_step(s, member, chunk).field[c] == (Cell { owner: 0i32, val: 2i32 }),
{
    lemma_turn_without_specials(s, member, chunk);
    let cs = decode(member, chunk);
    lemma_teammates_share_cell(s.field, moved(s.agents, cs), cs, c);
}

/// A turn without special moves in which agents 0 and 1 (two teams) step onto an unowned
/// cell `c` and no other agent does: `c` stays unowned at paint level 0.
pub proof fn lemma_turn_rivals_share_cell(s: GameState, member: int, chunk: Seq<i32>, c: int)
    requires
        s.wf(),
        0 <= member < 6,
        chunk.len() == 6,
        forall|i: int| 0 <= i < 6 ==> -1 <= #[trigger] chunk[i] < 4,
        ({
            let cs = decode(member, chunk);
            let ag = moved(s.agents, cs);
            &&& is_normal(cs[0]) && is_normal(cs[1])
            &&& agent_cell(ag[0]) == c && agent_cell(ag[1]) == c
            &&& forall|j: int| 2 <= j < 6 && is_normal(cs[j]) ==> agent_cell(#[trigger] ag[j]) != c
        }),
        s.field[c] == (Cell { owner: -1i32, val: 0i32 }),
    ensures
        turn_step(s, member, chunk).field[c] == (Cell { owner: -1i32, val: 0i32 }),
{
    lemma_turn_without_specials(s, member, chunk);
    let cs = decode(member, chunk);
    lemma_rivals_share_cell(s.field, moved(s.agents, cs), cs, c);
}

} // verus!
