use cube_paint::bits::check_counter;
use cube_paint::engine::{new_game_logic, GameLogic, Snapshot};
use cube_paint::game::Cell;
use cube_paint::topology::{advance, field_idx, func1, rotate, Agent};

fn unowned() -> Cell {
    Cell { owner: -1, val: 0 }
}

fn parked(face: i32) -> Agent {
    Agent { i: face, j: 4, k: 4, d: 0 }
}

fn fresh(agents: Vec<Agent>, special: Vec<i32>, turn: i32) -> GameLogic {
    let snap = Snapshot {
        turn,
        agent_move: vec![-1; 6],
        score: vec![0; 3],
        field: vec![unowned(); 150],
        agents,
        special,
    };
    new_game_logic(&snap).unwrap()
}

fn idle_agents() -> Vec<Agent> {
    (0..6).map(|a| parked(a as i32)).collect()
}

fn count(g: &GameLogic, team: i32) -> usize {
    g.field.iter().filter(|c| c.owner == team).count()
}

#[test]
fn single_step_paints_target_cell() {
    let mut agents = idle_agents();
    agents[0] = Agent { i: 0, j: 0, k: 0, d: 0 };
    let mut g = fresh(agents, vec![0; 6], 0);
    g.progress(0, vec![1, -1, -1, -1, -1, -1]);
    assert_eq!(g.agents[0], Agent { i: 0, j: 0, k: 1, d: 1 });
    assert_eq!(*g.get_cell(0, 0, 1), Cell { owner: 0, val: 2 });
    assert_eq!(g.area[0], 1);
    assert_eq!(g.turn, 1);
}

#[test]
fn facing_one_turned_once_crosses_top_edge() {
    let mut agents = idle_agents();
    agents[0] = Agent { i: 0, j: 0, k: 0, d: 1 };
    let mut g = fresh(agents, vec![0; 6], 0);
    g.progress(0, vec![1, -1, -1, -1, -1, -1]);
    assert_eq!(g.agents[0], Agent { i: 4, j: 0, k: 4, d: 0 });
    assert_eq!(*g.get_cell(4, 0, 4), Cell { owner: 0, val: 2 });
}

#[test]
fn rivals_on_same_cell_leave_it_unowned() {
    let mut agents = idle_agents();
    agents[0] = Agent { i: 0, j: 0, k: 0, d: 0 };
    agents[1] = Agent { i: 0, j: 0, k: 2, d: 0 };
    let mut g = fresh(agents, vec![0; 6], 0);
    g.progress(0, vec![1, 3, -1, -1, -1, -1]);
    assert_eq!(g.agents[0].k, 1);
    assert_eq!(g.agents[1].k, 1);
    assert_eq!(*g.get_cell(0, 0, 1), Cell { owner: -1, val: 0 });
    assert_eq!(g.area, vec![0, 0, 0]);
}

#[test]
fn teammates_on_same_cell_paint_it() {
    let mut agents = idle_agents();
    agents[0] = Agent { i: 0, j: 0, k: 0, d: 0 };
    agents[5] = Agent { i: 0, j: 0, k: 2, d: 0 };
    let mut g = fresh(agents, vec![0; 6], 0);
    g.progress(0, vec![1, -1, -1, -1, -1, 3]);
    assert_eq!(*g.get_cell(0, 0, 1), Cell { owner: 0, val: 2 });
    assert_eq!(g.area, vec![1, 0, 0]);
}

#[test]
fn owner_repaints_contested_cell() {
    let mut agents = idle_agents();
    agents[0] = Agent { i: 0, j: 0, k: 0, d: 0 };
    agents[1] = Agent { i: 0, j: 0, k: 2, d: 0 };
    let mut g = fresh(agents, vec![0; 6], 0);
    let fi = field_idx(0, 0, 1);
    g.force_paint(0, fi);
    g.paint(1, fi);
    assert_eq!(g.field[fi], Cell { owner: 0, val: 1 });
    g.progress(0, vec![1, 3, -1, -1, -1, -1]);
    assert_eq!(g.field[fi], Cell { owner: 0, val: 2 });
}

#[test]
fn decay_takes_two_paints() {
    let mut g = fresh(idle_agents(), vec![0; 6], 0);
    let fi = field_idx(2, 3, 4);
    g.paint(0, fi);
    assert_eq!(g.field[fi], Cell { owner: 0, val: 2 });
    assert_eq!(g.area, vec![1, 0, 0]);
    g.paint(1, fi);
    assert_eq!(g.field[fi], Cell { owner: 0, val: 1 });
    assert_eq!(g.area, vec![1, 0, 0]);
    g.paint(1, fi);
    assert_eq!(g.field[fi], Cell { owner: -1, val: 0 });
    assert_eq!(g.area, vec![0, 0, 0]);
    g.paint(1, fi);
    assert_eq!(g.field[fi], Cell { owner: 1, val: 2 });
    assert_eq!(g.area, vec![0, 1, 0]);
}

#[test]
fn force_paint_moves_area() {
    let mut g = fresh(idle_agents(), vec![0; 6], 0);
    let fi = field_idx(5, 0, 0);
    g.force_paint(2, fi);
    assert_eq!(g.area, vec![0, 0, 1]);
    g.force_paint(2, fi);
    assert_eq!(g.area, vec![0, 0, 1]);
    g.paint(0, fi);
    assert_eq!(g.field[fi], Cell { owner: 2, val: 1 });
    g.force_paint(0, fi);
    assert_eq!(g.field[fi], Cell { owner: 0, val: 2 });
    assert_eq!(g.area, vec![1, 0, 0]);
}

#[test]
fn dash_visits_five_cells_and_spends_one_charge() {
    let mut agents = idle_agents();
    agents[0] = Agent { i: 0, j: 2, k: 0, d: 0 };
    let mut g = fresh(agents, vec![1, 0, 0, 0, 0, 0], 0);
    g.progress(0, vec![4, -1, -1, -1, -1, -1]);
    assert_eq!(g.special[0], 0);
    assert_eq!(count(&g, 0), 5);
    assert_eq!(g.area[0], 5);
    for (f, j, k) in [(0, 3, 0), (0, 4, 0), (1, 0, 4), (1, 0, 3), (1, 0, 2)] {
        assert_eq!(*g.get_cell(f, j, k), Cell { owner: 0, val: 2 });
    }
    assert_eq!(g.agents[0], Agent { i: 1, j: 0, k: 2, d: 3 });
}

#[test]
fn teleport_splashes_destination_and_neighbours() {
    let mut g = fresh(idle_agents(), vec![0, 0, 0, 0, 0, 2], 0);
    g.progress(0, vec![-1, -1, -1, -1, -1, 8 + 2 * 5 + 3]);
    assert_eq!(g.special[5], 1);
    assert_eq!(g.agents[5], Agent { i: 0, j: 2, k: 3, d: 0 });
    for (j, k) in [(2, 3), (3, 3), (2, 4), (1, 3), (2, 2)] {
        assert_eq!(*g.get_cell(0, j, k), Cell { owner: 0, val: 2 });
    }
    assert_eq!(g.area, vec![5, 0, 0]);
}

#[test]
fn specials_of_two_teams_cancel_on_shared_cells() {
    let mut agents = idle_agents();
    agents[1] = Agent { i: 0, j: 2, k: 0, d: 1 };
    let mut g = fresh(agents, vec![0, 1, 0, 0, 0, 1], 0);
    // agent 5 teleports to face 0 row 2 col 2; agent 1 dashes along row 2
    g.progress(0, vec![-1, 4, -1, -1, -1, 8 + 2 * 5 + 2]);
    assert_eq!(*g.get_cell(0, 2, 1), Cell { owner: -1, val: 0 });
    assert_eq!(*g.get_cell(0, 2, 2), Cell { owner: -1, val: 0 });
    assert_eq!(*g.get_cell(0, 2, 3), Cell { owner: -1, val: 0 });
    assert_eq!(*g.get_cell(0, 1, 2), Cell { owner: 0, val: 2 });
    assert_eq!(*g.get_cell(0, 2, 4), Cell { owner: 1, val: 2 });
    assert_eq!(g.special, vec![0, 0, 0, 0, 0, 0]);
}

#[test]
fn score_accrues_from_midpoint() {
    let mut agents = idle_agents();
    agents[0] = Agent { i: 0, j: 0, k: 0, d: 0 };
    let mut g = fresh(agents.clone(), vec![0; 6], 146);
    g.progress(0, vec![1, -1, -1, -1, -1, -1]);
    assert_eq!(g.score, vec![0, 0, 0]);
    g.progress(0, vec![0, -1, -1, -1, -1, -1, 0, -1, -1, -1, -1, -1]);
    assert_eq!(g.turn, 149);
    assert_eq!(g.score, vec![2 + 3, 0, 0]);
}

#[test]
fn batch_positions_are_permuted_by_member() {
    // member 1 reads agent 0's code from position func1(1, 0) == 1
    assert_eq!(func1(1, 0), 1);
    let mut agents = idle_agents();
    agents[0] = Agent { i: 0, j: 0, k: 0, d: 0 };
    let mut g = fresh(agents, vec![0; 6], 0);
    g.progress(1, vec![-1, 1, -1, -1, -1, -1]);
    assert_eq!(g.agents[0], Agent { i: 0, j: 0, k: 1, d: 1 });
    assert_eq!(g.agent_move[0], 1);
}

#[test]
fn face_permute_formula() {
    assert_eq!(func1(0, 4), 4);
    assert_eq!(func1(3, 0), 3);
    assert_eq!(func1(4, 4), 0);
    assert_eq!(func1(2, 7), 1);
    for m in 0..6 {
        for p in 0..9 {
            let expect = ((p / 3 + 1) * (m % 3) + p % 3) % 3 + ((m / 3 + p / 3) % 2) * 3;
            assert_eq!(func1(m, p), expect);
        }
    }
}

#[test]
fn advance_stays_in_range_and_laps_in_twenty_steps() {
    for i in 0..6 {
        for j in 0..5 {
            for k in 0..5 {
                for d in 0..4 {
                    let start = Agent { i, j, k, d };
                    let mut a = start;
                    for _ in 0..20 {
                        a = advance(a);
                        assert!((0..6).contains(&a.i) && (0..5).contains(&a.j));
                        assert!((0..5).contains(&a.k) && (0..4).contains(&a.d));
                    }
                    assert_eq!(a, start);
                }
            }
        }
    }
}

#[test]
fn edge_crossings_follow_tables() {
    assert_eq!(advance(Agent { i: 0, j: 4, k: 2, d: 0 }), Agent { i: 1, j: 2, k: 4, d: 3 });
    assert_eq!(advance(Agent { i: 3, j: 0, k: 1, d: 2 }), Agent { i: 1, j: 0, k: 3, d: 0 });
    assert_eq!(advance(Agent { i: 5, j: 3, k: 4, d: 1 }), Agent { i: 4, j: 4, k: 3, d: 2 });
    assert_eq!(advance(Agent { i: 2, j: 1, k: 0, d: 3 }), Agent { i: 4, j: 3, k: 0, d: 1 });
    assert_eq!(advance(Agent { i: 2, j: 1, k: 1, d: 3 }), Agent { i: 2, j: 1, k: 0, d: 3 });
    assert_eq!(rotate(Agent { i: 0, j: 0, k: 0, d: 3 }, 6).d, 1);
    assert_eq!(field_idx(5, 4, 4), 149);
    assert_eq!(field_idx(1, 2, 3), 38);
}

#[test]
fn malformed_snapshots_are_rejected() {
    let good = || Snapshot {
        turn: 0,
        agent_move: vec![-1; 6],
        score: vec![0; 3],
        field: vec![unowned(); 150],
        agents: idle_agents(),
        special: vec![0; 6],
    };
    assert!(new_game_logic(&good()).is_some());
    let mut s = good();
    s.field[7] = Cell { owner: 1, val: 0 };
    assert!(new_game_logic(&s).is_none());
    let mut s = good();
    s.field[7] = Cell { owner: -1, val: 2 };
    assert!(new_game_logic(&s).is_none());
    let mut s = good();
    s.field[7] = Cell { owner: 3, val: 1 };
    assert!(new_game_logic(&s).is_none());
    let mut s = good();
    s.agents[2].i = 6;
    assert!(new_game_logic(&s).is_none());
    let mut s = good();
    s.field.pop();
    assert!(new_game_logic(&s).is_none());
    let mut s = good();
    s.score.push(0);
    assert!(new_game_logic(&s).is_none());
}

#[test]
fn snapshot_areas_are_counted() {
    let mut field = vec![unowned(); 150];
    field[0] = Cell { owner: 0, val: 2 };
    field[1] = Cell { owner: 0, val: 1 };
    field[99] = Cell { owner: 2, val: 1 };
    let snap = Snapshot {
        turn: 10,
        agent_move: vec![-1; 6],
        score: vec![3, 4, 5],
        field,
        agents: idle_agents(),
        special: vec![2; 6],
    };
    let g = new_game_logic(&snap).unwrap();
    assert_eq!(g.area, vec![2, 0, 1]);
    assert_eq!(g.score, vec![3, 4, 5]);
    assert_eq!(g.turn, 10);
    let d = g.duplicate();
    assert_eq!(d.field, g.field);
    assert_eq!(d.area, g.area);
}

#[test]
fn counter_accepts_lone_agent_or_agent_with_teammate() {
    assert!(check_counter(0b000001, 5, 0));
    assert!(check_counter(0b100000, 0, 5));
    assert!(check_counter(0b100001, 0, 5));
    assert!(check_counter(0b100001, 5, 0));
    assert!(!check_counter(0b000011, 4, 1));
    assert!(!check_counter(0b000011, 5, 0));
    assert!(check_counter(0b001100, 2, 3));
    assert!(check_counter(0b001100, 3, 2));
    assert!(!check_counter(0b101000, 2, 3));
}

#[test]
fn teammates_on_rival_cell_erode_it_twice() {
    let mut agents = idle_agents();
    agents[0] = Agent { i: 0, j: 0, k: 0, d: 0 };
    agents[5] = Agent { i: 0, j: 0, k: 2, d: 0 };
    let mut g = fresh(agents, vec![0; 6], 0);
    let fi = field_idx(0, 0, 1);
    g.force_paint(1, fi);
    assert_eq!(g.area, vec![0, 1, 0]);
    g.progress(0, vec![1, -1, -1, -1, -1, 3]);
    assert_eq!(g.field[fi], Cell { owner: -1, val: 0 });
    assert_eq!(g.area, vec![0, 0, 0]);
}
