use vstd::prelude::*;
use crate::game::{Cell, GameState, N_FIELD, TOTAL_TURN, count_owned, lemma_count_bound, lemma_count_update, lemma_count_prefix, paint_cell, force_paint_cell, is_normal, is_special, decode, moved, uncontested, normal_paint, teleport_dest, special_cells, special_end, touched, touched_among, special_paint, turn_step, progress_spec};
use crate::bits::{bit, check_counter, lemma_bit_or, lemma_bit_zero, lemma_single_bit, lemma_low_bits};
use crate::topology::{Agent, N, advance_spec, advance_n, rotate_spec, agent_cell, team_of, cell_index, field_idx, func1, advance, rotate};

verus! {

/// The simulated match: field, agents, clock, scores, area tallies and special charges.
pub struct GameLogic {
    pub field: Vec<Cell>,
    pub agents: Vec<Agent>,
    pub turn: i32,
    pub agent_move: Vec<i32>,
    pub score: Vec<i32>,
    pub area: Vec<i32>,
    pub special: Vec<i32>,
}

impl View for GameLogic {
    type V = GameState;

    open spec fn view(&self) -> GameState {
        GameState {
            field: self.field@,
            agents: self.agents@,
            turn: self.turn as int,
            agent_move: self.agent_move@,
            score: self.score@.map_values(|x: i32| x as int),
            special: self.special@.map_values(|x: i32| x as int),
        }
    }
}

fn copy_vec<T: Copy>(v: &Vec<T>) -> (r: Vec<T>)
    ensures
        r@ == v@,
{
    let mut r: Vec<T> = Vec::new();
    let mut i: usize = 0;
    while i < v.len()
        invariant
            i <= v.len(),
            r@ == v@.subrange(0, i as int),
        decreases v.len() - i,
    {
        r.push(v[i]);
        i += 1;
        assert(r@ =~= v@.subrange(0, i as int));
    }
    assert(r@ =~= v@);
    r
}

/// The cells a special move touches and where it leaves the agent.
fn special_path(a: Agent, code: i32, member_id: usize) -> (r: (Vec<usize>, Agent))
    requires
        a.valid(),
        code >= 4,
        member_id < 6,
    ensures
        r.0.len() == 5,
        forall|s: int| 0 <= s < 5 ==> r.0@[s] as int == special_cells(a, code as int, member_id as int)[s],
        forall|s: int| 0 <= s < 5 ==> (r.0@[s] as int) < N_FIELD,
        r.1 == special_end(a, code as int, member_id as int),
        r.1.valid(),
{
    let mut cells: Vec<usize> = Vec::new();
    if code < 8 {
        let ghost r0 = rotate_spec(a, code as int);
        let mut b = rotate(a, code);
        let mut s: usize = 0;
        while s < 5
            invariant
                s <= 5,
                r0.valid(),
                b == advance_n(r0, s as nat),
                b.valid(),
                cells.len() == s,
                forall|q: int| 0 <= q < s ==> (cells@[q] as int) < N_FIELD,
                forall|q: int| 0 <= q < s ==> cells@[q] as int == agent_cell(advance_n(r0, (q + 1) as nat)),
            decreases 5 - s,
        {
            b = advance(b);
            cells.push(field_idx(b.i, b.j, b.k));
            s += 1;
        }
        (cells, b)
    } else {
        let m = code - 8;
        let mi = func1(member_id, (m / 25) as usize) as i32;
        let dst = Agent { i: mi, j: m / 5 % 5, k: m % 5, d: 0 };
        assert(dst == teleport_dest(member_id as int, code as int));
        cells.push(field_idx(dst.i, dst.j, dst.k));
        let mut d: i32 = 0;
        while d < 4
            invariant
                0 <= d <= 4,
                dst == teleport_dest(member_id as int, code as int),
                dst.valid(),
                cells.len() == d + 1,
                forall|q: int| 0 <= q <= d ==> (cells@[q] as int) < N_FIELD,
                cells@[0] as int == agent_cell(dst),
                forall|q: int| 1 <= q <= d ==> cells@[q] as int == agent_cell(advance_spec(Agent { d: (q - 1) as i32, ..dst })),
            decreases 4 - d,
        {
            let b = advance(Agent { d: d, ..dst });
            cells.push(field_idx(b.i, b.j, b.k));
            d += 1;
        }
        (cells, dst)
    }
}

impl GameLogic {
    /// Well-formed state; `area[t]` is the live count of cells owned by team `t`.
    pub open spec fn wf(&self) -> bool {
        &&& self@.wf()
        &&& self.area@.len() == 3
        &&& forall|t: int| 0 <= t < 3 ==> self.area@[t] == count_owned(self.field@, t)
    }

    /// An independent copy of the state.
    pub fn duplicate(&self) -> (r: GameLogic)
        ensures
            r@ == self@,
            r.field@ == self.field@,
            r.agents@ == self.agents@,
            r.turn == self.turn,
            r.agent_move@ == self.agent_move@,
            r.score@ == self.score@,
            r.special@ == self.special@,
            r.area@ == self.area@,
    {
        GameLogic {
            field: copy_vec(&self.field),
            agents: copy_vec(&self.agents),
            turn: self.turn,
            agent_move: copy_vec(&self.agent_move),
            score: copy_vec(&self.score),
            area: copy_vec(&self.area),
            special: copy_vec(&self.special),
        }
    }

    /// The cell at face `i`, row `j`, column `k`.
    pub fn get_cell(&self, i: i32, j: i32, k: i32) -> (r: &Cell)
        requires
            self.wf(),
            0 <= i < 6,
            0 <= j < N,
            0 <= k < N,
        ensures
            *r == self.field@[cell_index(i as int, j as int, k as int)],
    {
        &self.field[field_idx(i, j, k)]
    }

    /// Normal-move painting of cell `fi` by team `owner_id`.
    pub fn paint(&mut self, owner_id: usize, fi: usize)
        requires
            old(self).wf(),
            owner_id < 3,
            fi < N_FIELD,
        ensures
            final(self).wf(),
            final(self).field@ == old(self).field@.update(
                fi as int,
                paint_cell(old(self).field@[fi as int], owner_id as int),
            ),
            final(self).agents@ == old(self).agents@,
            final(self).turn == old(self).turn,
            final(self).agent_move@ == old(self).agent_move@,
            final(self).score@ == old(self).score@,
            final(self).special@ == old(self).special@,
    {
        let c = self.field[fi];
        assert(self.field@[fi as int].wf());
        let nc = if c.owner == -1 || c.owner == owner_id as i32 {
            Cell { owner: owner_id as i32, val: 2 }
        } else if c.val == 1 {
            Cell { owner: -1, val: 0 }
        } else {
            Cell { owner: c.owner, val: c.val - 1 }
        };
        self.set_cell(fi, nc);
    }

    /// Special-move painting of cell `fi` by team `owner_id`.
    pub fn force_paint(&mut self, owner_id: usize, fi: usize)
        requires
            old(self).wf(),
            owner_id < 3,
            fi < N_FIELD,
        ensures
            final(self).wf(),
            final(self).field@ == old(self).field@.update(fi as int, force_paint_cell(owner_id as int)),
            final(self).agents@ == old(self).agents@,
            final(self).turn == old(self).turn,
            final(self).agent_move@ == old(self).agent_move@,
            final(self).score@ == old(self).score@,
            final(self).special@ == old(self).special@,
    {
        self.set_cell(fi, Cell { owner: owner_id as i32, val: 2 });
    }

    /// Decodes one chunk of codes and moves the agents whose code is a basic move.
    /// Returns each agent's cell afterwards.
    fn move_agents(&mut self, member_id: usize, move_list: &Vec<i32>, base: usize) -> (fis: Vec<usize>)
        requires
            old(self).wf(),
            member_id < 6,
            base + 6 <= move_list.len(),
            forall|i: int| 0 <= i < move_list.len() ==> move_list@[i] >= -1,
        ensures
            final(self).wf(),
            final(self).agent_move@ == decode(member_id as int, move_list@.subrange(base as int, base + 6)),
            final(self).agents@ == moved(old(self).agents@, final(self).agent_move@),
            final(self).field@ == old(self).field@,
            final(self).turn == old(self).turn,
            final(self).score@ == old(self).score@,
            final(self).special@ == old(self).special@,
            fis.len() == 6,
            forall|idx: int| 0 <= idx < 6 ==> fis@[idx] as int == agent_cell(final(self).agents@[idx]),
    {
        let ghost cs = decode(member_id as int, move_list@.subrange(base as int, base + 6));
        let ghost ag0 = self.agents@;
        let mut fis: Vec<usize> = Vec::new();
        let mut idx: usize = 0;
        while idx < 6
            invariant
                self.wf(),
                idx <= 6,
                member_id < 6,
                base + 6 <= move_list.len(),
                forall|i: int| 0 <= i < move_list.len() ==> move_list@[i] >= -1,
                cs == decode(member_id as int, move_list@.subrange(base as int, base + 6)),
                forall|i: int| 0 <= i < idx ==> self.agent_move@[i] == cs[i],
                forall|i: int| 0 <= i < idx ==> self.agents@[i] == moved(ag0, cs)[i],
                forall|i: int| idx <= i < 6 ==> self.agents@[i] == ag0[i],
                self.field@ == old(self).field@,
                self.turn == old(self).turn,
                self.score@ == old(self).score@,
                self.special@ == old(self).special@,
                self.area@ == old(self).area@,
                ag0 == old(self).agents@,
                fis.len() == idx,
                forall|i: int| 0 <= i < idx ==> fis@[i] as int == agent_cell(self.agents@[i]),
            decreases 6 - idx,
        {
            let p = func1(member_id, idx);
            let code = move_list[base + p];
            assert(code == cs[idx as int]);
            self.agent_move.set(idx, code);
            if 0 <= code && code < 4 {
                assert(self.agents@[idx as int].valid());
                let a = advance(rotate(self.agents[idx], code));
                self.agents.set(idx, a);
            }
            let a = self.agents[idx];
            assert(self.agents@[idx as int].valid());
            fis.push(field_idx(a.i, a.j, a.k));
            idx += 1;
        }
        assert(self.agent_move@ =~= cs);
        assert(self.agents@ =~= moved(ag0, cs));
        fis
    }

    /// The normal-move phase: each agent that moved normally paints its cell when
    /// no other team stands there, or when its team already owns it.
    fn paint_normal(&mut self, fis: &Vec<usize>)
        requires
            old(self).wf(),
            fis.len() == 6,
            forall|idx: int| 0 <= idx < 6 ==> fis@[idx] as int == agent_cell(old(self).agents@[idx]),
        ensures
            final(self).wf(),
            final(self).field@ == normal_paint(old(self).field@, old(self).agents@, old(self).agent_move@, 6),
            final(self).agents@ == old(self).agents@,
            final(self).turn == old(self).turn,
            final(self).agent_move@ == old(self).agent_move@,
            final(self).score@ == old(self).score@,
            final(self).special@ == old(self).special@,
    {
        let ghost ag = self.agents@;
        let ghost cs = self.agent_move@;
        assert forall|idx: int| 0 <= idx < 6 implies (fis@[idx] as int) < N_FIELD by {
            assert(ag[idx].valid());
        }
        // bit `a` of counter[fi]: agent `a` moved normally onto cell `fi`
        let mut counter: Vec<u8> = Vec::new();
        while counter.len() < N_FIELD
            invariant
                counter.len() <= N_FIELD,
                forall|q: int| 0 <= q < counter.len() ==> counter@[q] == 0u8,
            decreases N_FIELD - counter.len(),
        {
            counter.push(0u8);
        }
        assert forall|fi: int, b: u8| 0 <= fi < N_FIELD && b < 8 implies !#[trigger] bit(counter@[fi], b) by {
            lemma_bit_zero(b);
        }
        let mut a: usize = 0;
        while a < 6
            invariant
                a <= 6,
                counter.len() == N_FIELD,
                fis.len() == 6,
                cs.len() == 6,
                self.agent_move@ == cs,
                forall|idx: int| 0 <= idx < 6 ==> (fis@[idx] as int) < N_FIELD,
                forall|fi: int, b: u8|
                    0 <= fi < N_FIELD && b < 8 ==> (#[trigger] bit(counter@[fi], b) <==> (b < 6 && (b as int) < a
                        && is_normal(cs[b as int]) && fis@[b as int] == fi)),
            decreases 6 - a,
        {
            let code = self.agent_move[a];
            if 0 <= code && code < 4 {
                let fi = fis[a];
                let ghost before = counter@;
                let v = counter[fi] | (1u8 << a as u8);
                counter.set(fi, v);
                proof {
                    assert forall|f: int, b: u8| 0 <= f < N_FIELD && b < 8 implies (#[trigger] bit(counter@[f], b) <==> (b < 6
                        && (b as int) < a + 1 && is_normal(cs[b as int]) && fis@[b as int] == f)) by {
                        if f == fi {
                            lemma_bit_or(before[f], a as u8, b);
                        }
                    }
                }
            }
            a += 1;
        }
        let mut k: usize = 0;
        while k < 6
            invariant
                self.wf(),
                k <= 6,
                fis.len() == 6,
                forall|idx: int| 0 <= idx < 6 ==> fis@[idx] as int == agent_cell(ag[idx]),
                forall|idx: int| 0 <= idx < 6 ==> (fis@[idx] as int) < N_FIELD,
                self.field@ == normal_paint(old(self).field@, ag, cs, k as nat),
                counter.len() == N_FIELD,
                ag.len() == 6,
                cs.len() == 6,
                forall|fi: int, b: u8|
                    0 <= fi < N_FIELD && b < 8 ==> (#[trigger] bit(counter@[fi], b) <==> (b < 6 && is_normal(cs[b as int])
                        && fis@[b as int] == fi)),
                ag == old(self).agents@,
                cs == old(self).agent_move@,
                self.agents@ == old(self).agents@,
                self.turn == old(self).turn,
                self.agent_move@ == old(self).agent_move@,
                self.score@ == old(self).score@,
                self.special@ == old(self).special@,
            decreases 6 - k,
        {
            let code = self.agent_move[k];
            if 0 <= code && code < 4 {
                let team: usize = if k < 3 { k } else { 5 - k };
                let c = counter[fis[k]];
                proof {
                    assert(bit(counter@[fis@[k as int] as int], k as u8));
                }
                let free = check_counter(c, (5 - k) as u8, k as u8);
                proof {
                    if free {
                        assert forall|j: int|
                            0 <= j < 6 && is_normal(cs[j]) && agent_cell(#[trigger] ag[j]) == agent_cell(ag[k as int])
                                implies j == k || j == 5 - k by {
                            assert(bit(counter@[fis@[k as int] as int], j as u8));
                        }
                    } else {
                        let b = choose|b: u8| b < 8 && #[trigger] bit(c, b) && !(b == k as u8 || b == (5 - k) as u8);
                        assert(is_normal(cs[b as int]) && agent_cell(ag[b as int]) == agent_cell(ag[k as int]));
                    }
                }
                assert(free == uncontested(ag, cs, k as int));
                if free || self.field[fis[k]].owner == team as i32 {
                    self.paint(team, fis[k]);
                }
            }
            k += 1;
        }
    }

    /// The special-move phase: spends a charge per special move, moves the agent,
    /// and force-paints each touched cell that exactly one team touched.
    fn apply_specials(&mut self, member_id: usize)
        requires
            old(self).wf(),
            member_id < 6,
            forall|idx: int| 0 <= idx < 6 ==> old(self).special@[idx] > i32::MIN,
        ensures
            final(self).wf(),
            final(self).field@ == special_paint(
                old(self).field@,
                old(self).agents@,
                old(self).agent_move@,
                member_id as int,
            ),
            forall|idx: int|
                0 <= idx < 6 ==> final(self).agents@[idx] == if is_special(old(self).agent_move@[idx]) {
                    special_end(old(self).agents@[idx], old(self).agent_move@[idx] as int, member_id as int)
                } else {
                    old(self).agents@[idx]
                },
            forall|idx: int|
                0 <= idx < 6 ==> final(self).special@[idx] == old(self).special@[idx] - if is_special(
                    old(self).agent_move@[idx],
                ) {
                    1int
                } else {
                    0int
                },
            final(self).turn == old(self).turn,
            final(self).agent_move@ == old(self).agent_move@,
            final(self).score@ == old(self).score@,
    {
        let ghost ag = self.agents@;
        let ghost cs = self.agent_move@;
        let ghost mem = member_id as int;
        // bit `t` of counter[fi]: a special move of team `t` touched cell `fi`
        let mut counter: Vec<u8> = Vec::new();
        while counter.len() < N_FIELD
            invariant
                counter.len() <= N_FIELD,
                forall|q: int| 0 <= q < counter.len() ==> counter@[q] == 0u8,
            decreases N_FIELD - counter.len(),
        {
            counter.push(0u8);
        }
        assert forall|fi: int, b: u8| 0 <= fi < N_FIELD && b < 8 implies !#[trigger] bit(counter@[fi], b) by {
            lemma_bit_zero(b);
        }
        let mut idx: usize = 0;
        while idx < 6
            invariant
                self.wf(),
                idx <= 6,
                member_id < 6,
                mem == member_id as int,
                ag == old(self).agents@,
                cs == old(self).agent_move@,
                forall|i: int| 0 <= i < 6 ==> old(self).special@[i] > i32::MIN,
                counter.len() == N_FIELD,
                forall|fi: int, b: u8|
                    0 <= fi < N_FIELD && b < 8 ==> (#[trigger] bit(counter@[fi], b) <==> (b < 3 && touched_among(
                        ag,
                        cs,
                        mem,
                        idx as int,
                        b as int,
                        fi,
                    ))),
                forall|i: int| 0 <= i < idx ==> self.agents@[i] == if is_special(cs[i]) {
                    special_end(ag[i], cs[i] as int, mem)
                } else {
                    ag[i]
                },
                forall|i: int| idx <= i < 6 ==> self.agents@[i] == ag[i],
                forall|i: int| 0 <= i < idx ==> self.special@[i] == old(self).special@[i] - if is_special(cs[i]) {
                    1int
                } else {
                    0int
                },
                forall|i: int| idx <= i < 6 ==> self.special@[i] == old(self).special@[i],
                self.field@ == old(self).field@,
                self.turn == old(self).turn,
                self.agent_move@ == old(self).agent_move@,
                self.score@ == old(self).score@,
            decreases 6 - idx,
        {
            let code = self.agent_move[idx];
            if code > 3 {
                assert(old(self).special@[idx as int] > i32::MIN);
                let sp = self.special[idx] - 1;
                self.special.set(idx, sp);
                let team: usize = if idx < 3 { idx } else { 5 - idx };
                assert(self.agents@[idx as int].valid());
                let (cells, end) = special_path(self.agents[idx], code, member_id);
                let ghost sc = special_cells(ag[idx as int], code as int, mem);
                let mut s: usize = 0;
                while s < 5
                    invariant
                        s <= 5,
                        idx < 6,
                        team as int == team_of(idx as int),
                        team < 3,
                        is_special(cs[idx as int]),
                        cs[idx as int] == code,
                        sc == special_cells(ag[idx as int], code as int, mem),
                        cells.len() == 5,
                        forall|q: int| 0 <= q < 5 ==> cells@[q] as int == sc[q],
                        forall|q: int| 0 <= q < 5 ==> (cells@[q] as int) < N_FIELD,
                        counter.len() == N_FIELD,
                        forall|fi: int, b: u8|
                            0 <= fi < N_FIELD && b < 8 ==> (#[trigger] bit(counter@[fi], b) <==> (b < 3 && (touched_among(
                                ag,
                                cs,
                                mem,
                                idx as int,
                                b as int,
                                fi,
                            ) || (b == team && exists|q: int| 0 <= q < s && sc[q] == fi)))),
                    decreases 5 - s,
                {
                    let fi = cells[s];
                    let ghost before = counter@;
                    let v = counter[fi] | (1u8 << team as u8);
                    counter.set(fi, v);
                    proof {
                        assert forall|f: int, b: u8| 0 <= f < N_FIELD && b < 8 implies (#[trigger] bit(counter@[f], b) <==> (b < 3
                            && (touched_among(ag, cs, mem, idx as int, b as int, f) || (b == team && exists|q: int|
                            0 <= q < s + 1 && sc[q] == f)))) by {
                            if f == fi {
                                lemma_bit_or(before[f], team as u8, b);
                                if b == team {
                                    assert(sc[s as int] == f);
                                }
                            }
                        }
                    }
                    s += 1;
                }
                proof {
                    assert forall|f: int, b: u8| 0 <= f < N_FIELD && b < 8 implies (#[trigger] bit(counter@[f], b) <==> (b < 3
                        && touched_among(ag, cs, mem, idx + 1, b as int, f))) by {
                        let t = b as int;
                        if touched_among(ag, cs, mem, idx + 1, t, f) && !touched_among(ag, cs, mem, idx as int, t, f) {
                            let w = choose|w: int|
                                0 <= w < idx + 1 && team_of(w) == t && is_special(cs[w])
                                    && #[trigger] special_cells(ag[w], cs[w] as int, mem).contains(f);
                            assert(w == idx);
                            let q = choose|q: int| 0 <= q < sc.len() && sc[q] == f;
                        }
                        if b == team && (exists|q: int| 0 <= q < 5 && sc[q] == f) {
                            let q = choose|q: int| 0 <= q < 5 && sc[q] == f;
                            assert(sc.contains(f));
                            assert(special_cells(ag[idx as int], cs[idx as int] as int, mem).contains(f));
                        }
                    }
                }
                self.agents.set(idx, end);
            } else {
                proof {
                    assert forall|f: int, b: u8| 0 <= f < N_FIELD && b < 8 implies (#[trigger] bit(counter@[f], b) <==> (b < 3
                        && touched_among(ag, cs, mem, idx + 1, b as int, f))) by {
                        let t = b as int;
                        if touched_among(ag, cs, mem, idx + 1, t, f) {
                            let w = choose|w: int|
                                0 <= w < idx + 1 && team_of(w) == t && is_special(cs[w])
                                    && #[trigger] special_cells(ag[w], cs[w] as int, mem).contains(f);
                            assert(w != idx);
                        }
                    }
                }
            }
            idx += 1;
        }
        let ghost f1 = self.field@;
        proof {
            lemma_low_bits();
        }
        let mut fi: usize = 0;
        while fi < N_FIELD
            invariant
                self.wf(),
                fi <= N_FIELD,
                mem == member_id as int,
                counter.len() == N_FIELD,
                (1u8 << 0u8) == 1u8,
                (1u8 << 1u8) == 2u8,
                (1u8 << 2u8) == 4u8,
                forall|f: int, b: u8|
                    0 <= f < N_FIELD && b < 8 ==> (#[trigger] bit(counter@[f], b) <==> (b < 3 && touched(ag, cs, mem, b as int, f))),
                forall|f: int| 0 <= f < fi ==> self.field@[f] == special_paint(f1, ag, cs, mem)[f],
                forall|f: int| fi <= f < N_FIELD ==> self.field@[f] == f1[f],
                f1 == old(self).field@,
                ag == old(self).agents@,
                cs == old(self).agent_move@,
                forall|i: int| 0 <= i < 6 ==> self.agents@[i] == if is_special(cs[i]) {
                    special_end(ag[i], cs[i] as int, mem)
                } else {
                    ag[i]
                },
                forall|i: int| 0 <= i < 6 ==> self.special@[i] == old(self).special@[i] - if is_special(cs[i]) {
                    1int
                } else {
                    0int
                },
                self.turn == old(self).turn,
                self.agent_move@ == old(self).agent_move@,
                self.score@ == old(self).score@,
            decreases N_FIELD - fi,
        {
            let c = counter[fi];
            proof {
                lemma_single_bit(c, 0);
                lemma_single_bit(c, 1);
                lemma_single_bit(c, 2);
                assert(bit(counter@[fi as int], 0) == touched(ag, cs, mem, 0, fi as int));
                assert(bit(counter@[fi as int], 1) == touched(ag, cs, mem, 1, fi as int));
                assert(bit(counter@[fi as int], 2) == touched(ag, cs, mem, 2, fi as int));
                assert(!bit(counter@[fi as int], 3));
                assert(!bit(counter@[fi as int], 4));
                assert(!bit(counter@[fi as int], 5));
                assert(!bit(counter@[fi as int], 6));
                assert(!bit(counter@[fi as int], 7));
            }
            match c {
                1 => self.force_paint(0, fi),
                2 => self.force_paint(1, fi),
                4 => self.force_paint(2, fi),
                _ => {},
            }
            fi += 1;
        }
        assert(self.field@ =~= special_paint(f1, ag, cs, mem));
    }

    /// Adds each team's live area to its score.
    pub fn add_score(&mut self)
        requires
            old(self).wf(),
            forall|t: int| 0 <= t < 3 ==> old(self).score@[t] + count_owned(old(self).field@, t) <= i32::MAX,
        ensures
            final(self).wf(),
            forall|t: int|
                0 <= t < 3 ==> final(self).score@[t] == old(self).score@[t] + count_owned(old(self).field@, t),
            final(self).field@ == old(self).field@,
            final(self).agents@ == old(self).agents@,
            final(self).turn == old(self).turn,
            final(self).agent_move@ == old(self).agent_move@,
            final(self).special@ == old(self).special@,
    {
        let mut i: usize = 0;
        while i < 3
            invariant
                self.wf(),
                i <= 3,
                forall|t: int| 0 <= t < 3 ==> old(self).score@[t] + count_owned(old(self).field@, t) <= i32::MAX,
                forall|t: int| 0 <= t < i ==> self.score@[t] == old(self).score@[t] + count_owned(old(self).field@, t),
                forall|t: int| i <= t < 3 ==> self.score@[t] == old(self).score@[t],
                self.field@ == old(self).field@,
                self.agents@ == old(self).agents@,
                self.turn == old(self).turn,
                self.agent_move@ == old(self).agent_move@,
                self.special@ == old(self).special@,
            decreases 3 - i,
        {
            let v = self.score[i] + self.area[i];
            self.score.set(i, v);
            i += 1;
        }
    }

    /// One turn on the chunk `move_list[base..base + 6]`.
    fn play_turn(&mut self, member_id: usize, move_list: &Vec<i32>, base: usize)
        requires
            old(self).wf(),
            member_id < 6,
            base + 6 <= move_list.len(),
            forall|i: int| 0 <= i < move_list.len() ==> move_list@[i] >= -1,
            old(self).turn < i32::MAX,
            forall|t: int| 0 <= t < 3 ==> old(self).score@[t] + N_FIELD <= i32::MAX,
            forall|idx: int| 0 <= idx < 6 ==> old(self).special@[idx] > i32::MIN,
        ensures
            final(self).wf(),
            final(self)@ == turn_step(old(self)@, member_id as int, move_list@.subrange(base as int, base + 6)),
            final(self).turn == old(self).turn + 1,
            forall|t: int|
                0 <= t < 3 ==> old(self).score@[t] <= #[trigger] final(self).score@[t] <= old(self).score@[t] + N_FIELD,
            forall|idx: int| 0 <= idx < 6 ==> final(self).special@[idx] >= old(self).special@[idx] - 1,
    {
        let ghost s0 = self@;
        let fis = self.move_agents(member_id, move_list, base);
        let ghost cs = self.agent_move@;
        let ghost ag1 = self.agents@;
        self.paint_normal(&fis);
        self.apply_specials(member_id);
        let ghost f2 = self.field@;
        if self.turn >= TOTAL_TURN / 2 {
            proof {
                assert forall|t: int| 0 <= t < 3 implies self.score@[t] + count_owned(self.field@, t) <= i32::MAX by {
                    lemma_count_bound(self.field@, t);
                }
            }
            self.add_score();
        }
        self.turn = self.turn + 1;
        proof {
            let st = turn_step(s0, member_id as int, move_list@.subrange(base as int, base + 6));
            assert(self@.agents =~= st.agents);
            assert(self@.special =~= st.special);
            assert(self@.score =~= st.score);
            assert(self@.field =~= st.field);
            assert forall|t: int| 0 <= t < 3 implies old(self).score@[t] <= #[trigger] self.score@[t] <= old(self).score@[t] + N_FIELD by {
                lemma_count_bound(f2, t);
            }
        }
    }

    /// Plays the turns of `move_list`, six codes per turn. The code at position
    /// `func1(member_id, a)` of a chunk is agent `a`'s: -1 no move, 0..4 turn and step,
    /// 4..8 dash, 8 and above teleport.
    pub fn progress(&mut self, member_id: usize, move_list: Vec<i32>)
        requires
            old(self).wf(),
            member_id < 6,
            move_list.len() % 6 == 0,
            forall|i: int| 0 <= i < move_list.len() ==> move_list@[i] >= -1,
            old(self).turn + move_list.len() / 6 <= i32::MAX,
            forall|t: int| 0 <= t < 3 ==> old(self).score@[t] + N_FIELD * (move_list.len() / 6) <= i32::MAX,
            forall|idx: int| 0 <= idx < 6 ==> old(self).special@[idx] - move_list.len() / 6 >= i32::MIN,
        ensures
            final(self).wf(),
            final(self)@ == progress_spec(old(self)@, member_id as int, move_list@, (move_list.len() / 6) as nat),
    {
        let n = move_list.len() / 6;
        let mut c: usize = 0;
        while c < n
            invariant
                self.wf(),
                c <= n,
                n == move_list.len() / 6,
                member_id < 6,
                move_list.len() % 6 == 0,
                forall|i: int| 0 <= i < move_list.len() ==> move_list@[i] >= -1,
                self@ == progress_spec(old(self)@, member_id as int, move_list@, c as nat),
                self.turn == old(self).turn + c,
                old(self).turn + n <= i32::MAX,
                forall|t: int| 0 <= t < 3 ==> old(self).score@[t] + N_FIELD * n <= i32::MAX,
                forall|t: int| 0 <= t < 3 ==> self.score@[t] <= old(self).score@[t] + N_FIELD * c,
                forall|idx: int| 0 <= idx < 6 ==> old(self).special@[idx] - n >= i32::MIN,
                forall|idx: int| 0 <= idx < 6 ==> self.special@[idx] >= old(self).special@[idx] - c,
            decreases n - c,
        {
            proof {
                assert forall|t: int| 0 <= t < 3 implies self.score@[t] + N_FIELD <= i32::MAX by {
                    assert(N_FIELD * c + N_FIELD <= N_FIELD * n) by (nonlinear_arith)
                        requires
                            c < n,
                    ;
                }
            }
            self.play_turn(member_id, &move_list, 6 * c);
            proof {
                assert(N_FIELD * c + N_FIELD == N_FIELD * (c + 1)) by (nonlinear_arith);
            }
            c += 1;
        }
    }

    /// Replaces cell `fi` by the well-formed `nc`, keeping the area tallies in step.
    fn set_cell(&mut self, fi: usize, nc: Cell)
        requires
            old(self).wf(),
            fi < N_FIELD,
            nc.wf(),
        ensures
            final(self).wf(),
            final(self).field@ == old(self).field@.update(fi as int, nc),
            final(self).agents@ == old(self).agents@,
            final(self).turn == old(self).turn,
            final(self).agent_move@ == old(self).agent_move@,
            final(self).score@ == old(self).score@,
            final(self).special@ == old(self).special@,
    {
        let ghost f0 = self.field@;
        let c = self.field[fi];
        assert(f0[fi as int].wf());
        if c.owner != nc.owner {
            if c.owner != -1 {
                let o = c.owner as usize;
                proof {
                    lemma_count_bound(f0, o as int);
                    lemma_count_update(f0, fi as int, nc, o as int);
                }
                assert(self.area@[o as int] >= 1);
                let v = self.area[o] - 1;
                self.area.set(o, v);
            }
            if nc.owner != -1 {
                let o = nc.owner as usize;
                proof {
                    lemma_count_bound(f0, o as int);
                }
                let v = self.area[o] + 1;
                self.area.set(o, v);
            }
        }
        self.field.set(fi, nc);
        proof {
            assert forall|t: int| 0 <= t < 3 implies self.area@[t] == count_owned(self.field@, t) by {
                lemma_count_update(f0, fi as int, nc, t);
            }
            assert forall|f: int| 0 <= f < N_FIELD implies #[trigger] self.field@[f].wf() by {
                assert(f0[f].wf());
            }
        }
    }
}

/// A state snapshot as handed over by the match server, flattened: the cell of
/// face `i`, row `j`, column `k` at index `(i * 5 + j) * 5 + k`.
pub struct Snapshot {
    pub turn: i32,
    pub agent_move: Vec<i32>,
    pub score: Vec<i32>,
    pub field: Vec<Cell>,
    pub agents: Vec<Agent>,
    pub special: Vec<i32>,
}

impl Snapshot {
    pub open spec fn state(&self) -> GameState {
        GameState {
            field: self.field@,
            agents: self.agents@,
            turn: self.turn as int,
            agent_move: self.agent_move@,
            score: self.score@.map_values(|x: i32| x as int),
            special: self.special@.map_values(|x: i32| x as int),
        }
    }
}

/// Builds the simulation state of a snapshot, with each team's area counted;
/// `None` when the snapshot is malformed (a length, a cell or an agent out of range).
pub fn new_game_logic(snap: &Snapshot) -> (r: Option<GameLogic>)
    ensures
        r is Some <==> snap.state().wf(),
        r matches Some(g) ==> g.wf() && g@ == snap.state(),
{
    if snap.field.len() != N_FIELD || snap.agents.len() != 6 || snap.agent_move.len() != 6
        || snap.score.len() != 3 || snap.special.len() != 6 {
        return None;
    }
    let mut f: usize = 0;
    while f < N_FIELD
        invariant
            f <= N_FIELD,
            snap.field.len() == N_FIELD,
            forall|q: int| 0 <= q < f ==> #[trigger] snap.field@[q].wf(),
        decreases N_FIELD - f,
    {
        let c = snap.field[f];
        if !((c.owner == -1 && c.val == 0) || (0 <= c.owner && c.owner < 3 && 1 <= c.val && c.val <= 2)) {
            assert(!snap.state().field[f as int].wf());
            return None;
        }
        f += 1;
    }
    let mut a: usize = 0;
    while a < 6
        invariant
            a <= 6,
            snap.agents.len() == 6,
            forall|q: int| 0 <= q < a ==> #[trigger] snap.agents@[q].valid(),
        decreases 6 - a,
    {
        let g = snap.agents[a];
        if !(0 <= g.i && g.i < 6 && 0 <= g.j && g.j < N && 0 <= g.k && g.k < N && 0 <= g.d && g.d < 4) {
            assert(!snap.state().agents[a as int].valid());
            return None;
        }
        a += 1;
    }
    let mut area: Vec<i32> = vec![0, 0, 0];
    let mut p: usize = 0;
    while p < N_FIELD
        invariant
            p <= N_FIELD,
            snap.field.len() == N_FIELD,
            forall|q: int| 0 <= q < N_FIELD ==> #[trigger] snap.field@[q].wf(),
            area.len() == 3,
            forall|t: int| 0 <= t < 3 ==> area@[t] == count_owned(snap.field@.subrange(0, p as int), t),
        decreases N_FIELD - p,
    {
        let c = snap.field[p];
        proof {
            assert(snap.field@[p as int].wf());
            assert forall|t: int| 0 <= t < 3 implies count_owned(snap.field@.subrange(0, p + 1), t)
                == count_owned(snap.field@.subrange(0, p as int), t) + if snap.field@[p as int].owner == t { 1nat } else { 0nat } by {
                lemma_count_prefix(snap.field@, p as int, t);
            }
            lemma_count_bound(snap.field@.subrange(0, p as int), c.owner as int);
        }
        if c.owner >= 0 {
            let o = c.owner as usize;
            let v = area[o] + 1;
            area.set(o, v);
        }
        p += 1;
    }
    assert(snap.field@.subrange(0, N_FIELD as int) =~= snap.field@);
    let g = GameLogic {
        field: copy_vec(&snap.field),
        agents: copy_vec(&snap.agents),
        turn: snap.turn,
        agent_move: copy_vec(&snap.agent_move),
        score: copy_vec(&snap.score),
        area,
        special: copy_vec(&snap.special),
    };
    Some(g)
}

} // verus!
