use vstd::prelude::*;

verus! {

/// Number of cells along one side of a face.
pub const N: i32 = 5;

/// An agent's position on the cube surface: face, row, column and facing.
#[derive(Clone, Copy, Debug, PartialEq, Eq, Structural)]
pub struct Agent {
    pub i: i32,
    pub j: i32,
    pub k: i32,
    pub d: i32,
}

impl Agent {
    /// Face in 0..6, row and column in 0..5, facing in 0..4.
    pub open spec fn valid(self) -> bool {
        &&& 0 <= self.i < 6
        &&& 0 <= self.j < N
        &&& 0 <= self.k < N
        &&& 0 <= self.d < 4
    }
}

/// Row step of each facing.
pub open spec fn dj(d: int) -> int {
    if d == 0 { 1 } else if d == 2 { -1 } else { 0 }
}

/// Column step of each facing.
pub open spec fn dk(d: int) -> int {
    if d == 1 { 1 } else if d == 3 { -1 } else { 0 }
}

/// Face entered when the row runs past the last row: [1, 2, 0, 4, 5, 3].
pub open spec fn face_past_last_row(f: int) -> int {
    if f == 0 { 1 } else if f == 1 { 2 } else if f == 2 { 0 }
    else if f == 3 { 4 } else if f == 4 { 5 } else { 3 }
}

/// Face entered when the row runs below the first row: [4, 3, 5, 1, 0, 2].
pub open spec fn face_before_first_row(f: int) -> int {
    if f == 0 { 4 } else if f == 1 { 3 } else if f == 2 { 5 }
    else if f == 3 { 1 } else if f == 4 { 0 } else { 2 }
}

/// Face entered when the column runs past the last column: [2, 0, 1, 5, 3, 4].
pub open spec fn face_past_last_col(f: int) -> int {
    if f == 0 { 2 } else if f == 1 { 0 } else if f == 2 { 1 }
    else if f == 3 { 5 } else if f == 4 { 3 } else { 4 }
}

/// Face entered when the column runs below the first column: [3, 5, 4, 0, 2, 1].
pub open spec fn face_before_first_col(f: int) -> int {
    if f == 0 { 3 } else if f == 1 { 5 } else if f == 2 { 4 }
    else if f == 3 { 0 } else if f == 4 { 2 } else { 1 }
}

/// One step forward in the agent's facing, crossing to a neighbouring face at an edge.
pub open spec fn advance_spec(a: Agent) -> Agent {
    let jj = a.j + dj(a.d as int);
    let kk = a.k + dk(a.d as int);
    if jj >= N {
        Agent { i: face_past_last_row(a.i as int) as i32, j: a.k, k: (N - 1) as i32, d: 3 }
    } else if jj < 0 {
        Agent { i: face_before_first_row(a.i as int) as i32, j: 0, k: (N - 1 - a.k) as i32, d: 0 }
    } else if kk >= N {
        Agent { i: face_past_last_col(a.i as int) as i32, j: (N - 1) as i32, k: a.j, d: 2 }
    } else if kk < 0 {
        Agent { i: face_before_first_col(a.i as int) as i32, j: (N - 1 - a.j) as i32, k: 0, d: 1 }
    } else {
        Agent { i: a.i, j: jj as i32, k: kk as i32, d: a.d }
    }
}

/// `n` steps forward.
pub open spec fn advance_n(a: Agent, n: nat) -> Agent
    decreases n,
{
    if n == 0 { a } else { advance_spec(advance_n(a, (n - 1) as nat)) }
}

/// Turn by `v` quarter turns.
pub open spec fn rotate_spec(a: Agent, v: int) -> Agent {
    Agent { d: ((a.d + v) % 4) as i32, ..a }
}

/// Index of the cell (face, row, column) in the flat field.
pub open spec fn cell_index(i: int, j: int, k: int) -> int {
    (i * N + j) * N + k
}

pub open spec fn agent_cell(a: Agent) -> int {
    cell_index(a.i as int, a.j as int, a.k as int)
}

/// Maps a position of a move batch (or a teleport's face part) to a face or agent slot,
/// mirrored according to `member`.
pub open spec fn face_permute_spec(member: int, pos: int) -> int {
    ((pos / 3 + 1) * (member % 3) + pos % 3) % 3 + ((member / 3 + pos / 3) % 2) * 3
}

/// Owning team of an agent: agents 0, 1, 2 lead teams 0, 1, 2; agents 3, 4, 5 back teams 2, 1, 0.
pub open spec fn team_of(idx: int) -> int {
    if idx < 3 { idx } else { 5 - idx }
}

pub proof fn lemma_advance_valid(a: Agent)
    requires
        a.valid(),
    ensures
        advance_spec(a).valid(),
{
}

/// Stepping forward any number of times from a valid state never leaves the
/// 6 x 5 x 5 coordinate space or the four facings.
pub proof fn lemma_advance_closed(a: Agent, n: nat)
    requires
        a.valid(),
    ensures
        advance_n(a, n).valid(),
    decreases n,
{
    if n > 0 {
        lemma_advance_closed(a, (n - 1) as nat);
        lemma_advance_valid(advance_n(a, (n - 1) as nat));
    }
}

fn face_across(f: i32, past_row: bool, before_row: bool, past_col: bool) -> (r: i32)
    requires
        0 <= f < 6,
    ensures
        past_row ==> r == face_past_last_row(f as int),
        !past_row && before_row ==> r == face_before_first_row(f as int),
        !past_row && !before_row && past_col ==> r == face_past_last_col(f as int),
        !past_row && !before_row && !past_col ==> r == face_before_first_col(f as int),
{
    let table: [i32; 6] = if past_row {
        [1, 2, 0, 4, 5, 3]
    } else if before_row {
        [4, 3, 5, 1, 0, 2]
    } else if past_col {
        [2, 0, 1, 5, 3, 4]
    } else {
        [3, 5, 4, 0, 2, 1]
    };
    table[f as usize]
}

/// One step forward, as `advance_spec` states.
pub fn advance(a: Agent) -> (r: Agent)
    requires
        a.valid(),
    ensures
        r == advance_spec(a),
        r.valid(),
{
    let jj = a.j + if a.d == 0 { 1 } else if a.d == 2 { -1 } else { 0 };
    let kk = a.k + if a.d == 1 { 1 } else if a.d == 3 { -1 } else { 0 };
    if jj >= N {
        Agent { i: face_across(a.i, true, false, false), j: a.k, k: (N - 1) as i32, d: 3 }
    } else if jj < 0 {
        Agent { i: face_across(a.i, false, true, false), j: 0, k: N - 1 - a.k, d: 0 }
    } else if kk >= N {
        Agent { i: face_across(a.i, false, false, true), j: (N - 1) as i32, k: a.j, d: 2 }
    } else if kk < 0 {
        Agent { i: face_across(a.i, false, false, false), j: N - 1 - a.j, k: 0, d: 1 }
    } else {
        Agent { i: a.i, j: jj, k: kk, d: a.d }
    }
}

/// Turn by `v` quarter turns (`v` a basic or dash move code).
pub fn rotate(a: Agent, v: i32) -> (r: Agent)
    requires
        a.valid(),
        0 <= v < 8,
    ensures
        r == rotate_spec(a, v as int),
        r.valid(),
{
    Agent { d: (a.d + v) % 4, ..a }
}

/// Index of the cell (face, row, column) in the flat field.
pub fn field_idx(i: i32, j: i32, k: i32) -> (r: usize)
    requires
        0 <= i < 6,
        0 <= j < N,
        0 <= k < N,
    ensures
        r == cell_index(i as int, j as int, k as int),
        r < 150,
{
    ((i * N + j) * N + k) as usize
}

/// Maps a position of a move batch (or a teleport's face part) to a face or agent slot.
pub fn func1(member_id: usize, pos: usize) -> (r: usize)
    requires
        member_id < 6,
        pos <= 0x7fff_ffff,
    ensures
        r == face_permute_spec(member_id as int, pos as int),
        r < 6,
{
    let i0 = member_id / 3;
    let i1 = member_id % 3;
    let j0 = pos / 3;
    let j1 = pos % 3;
    assert((j0 + 1) * i1 <= (j0 + 1) * 2) by (nonlinear_arith)
        requires
            i1 < 3,
    ;
    ((j0 + 1) * i1 + j1) % 3 + (i0 + j0) % 2 * 3
}

} // verus!
