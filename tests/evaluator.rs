use cube_paint::engine::{new_game_logic, GameLogic, Snapshot};
use cube_paint::evaluator::{best_moves, choose_moves, count_cells, pick_best, random_direction, special_choice, use_random_special, MoveChoice};
use cube_paint::game::Cell;
use cube_paint::status::{next_step, MoveStatus, NextStep};
use cube_paint::topology::Agent;

fn state(agents: Vec<Agent>, special: Vec<i32>, field: Vec<Cell>) -> GameLogic {
    let snap = Snapshot {
        turn: 0,
        agent_move: vec![-1; 6],
        score: vec![0; 3],
        field,
        agents,
        special,
    };
    new_game_logic(&snap).unwrap()
}

fn spread_agents() -> Vec<Agent> {
    vec![
        Agent { i: 0, j: 2, k: 2, d: 0 },
        Agent { i: 1, j: 2, k: 2, d: 0 },
        Agent { i: 2, j: 2, k: 2, d: 0 },
        Agent { i: 3, j: 2, k: 2, d: 0 },
        Agent { i: 4, j: 2, k: 2, d: 0 },
        Agent { i: 5, j: 2, k: 2, d: 0 },
    ]
}

#[test]
fn all_pairs_tie_on_empty_field() {
    let g = state(spread_agents(), vec![0; 6], vec![Cell { owner: -1, val: 0 }; 150]);
    let (best, pairs) = best_moves(&g);
    assert_eq!(best, 2);
    let all: Vec<(i32, i32)> = (0..4).flat_map(|a| (0..4).map(move |b| (a, b))).collect();
    assert_eq!(pairs, all);
}

#[test]
fn lookahead_prefers_fresh_cells() {
    let mut field = vec![Cell { owner: -1, val: 0 }; 150];
    // every neighbour of agent 0 but the one below (facing 0) is already held by team 0
    for (j, k) in [(2, 3), (1, 2), (2, 1)] {
        field[(j * 5 + k) as usize] = Cell { owner: 0, val: 2 };
    }
    let g = state(spread_agents(), vec![0; 6], field);
    assert_eq!(count_cells(&g, 0), 3);
    let (best, pairs) = best_moves(&g);
    assert_eq!(best, 5);
    assert_eq!(pairs, vec![(0, 0), (0, 1), (0, 2), (0, 3)]);
    for _ in 0..20 {
        match choose_moves(&g) {
            (MoveChoice::Basic(0), MoveChoice::Basic(d5)) => assert!((0..4).contains(&d5)),
            other => panic!("unexpected {:?}", other),
        }
    }
}

#[test]
fn pick_best_falls_back_to_zero_pair() {
    let pairs = vec![(1, 2), (3, 0)];
    assert_eq!(pick_best(&pairs, 1), (3, 0));
    assert_eq!(pick_best(&pairs, 2), (0, 0));
    assert_eq!(pick_best(&Vec::new(), 0), (0, 0));
}

#[test]
fn special_choice_builds_moves() {
    assert_eq!(special_choice(2, true, 1, 1, 1), MoveChoice::Dash(2));
    assert_eq!(special_choice(2, false, 3, 0, 1), MoveChoice::Teleport(3, 0, 1));
}

#[test]
fn random_specials_stay_in_range() {
    let mut seen_dash = false;
    let mut seen_teleport = false;
    for _ in 0..400 {
        match use_random_special(3) {
            MoveChoice::Dash(d) => {
                assert_eq!(d, 3);
                seen_dash = true;
            }
            MoveChoice::Teleport(i, j, k) => {
                assert!((0..6).contains(&i) && (0..5).contains(&j) && (0..5).contains(&k));
                seen_teleport = true;
            }
            MoveChoice::Basic(_) => panic!("a special move was expected"),
        }
    }
    assert!(seen_dash && seen_teleport);
}

#[test]
fn no_specials_without_charges() {
    let g = state(spread_agents(), vec![0; 6], vec![Cell { owner: -1, val: 0 }; 150]);
    let negative = state(spread_agents(), vec![-3; 6], vec![Cell { owner: -1, val: 0 }; 150]);
    for _ in 0..100 {
        let (m0, m5) = choose_moves(&negative);
        assert!(matches!(m0, MoveChoice::Basic(d) if (0..4).contains(&d)));
        assert!(matches!(m5, MoveChoice::Basic(d) if (0..4).contains(&d)));
        let (m0, m5) = choose_moves(&g);
        assert!(matches!(m0, MoveChoice::Basic(d) if (0..4).contains(&d)));
        assert!(matches!(m5, MoveChoice::Basic(d) if (0..4).contains(&d)));
    }
}

#[test]
fn status_decides_next_step() {
    assert_eq!(next_step(MoveStatus::Moved), NextStep::Decide);
    assert_eq!(next_step(MoveStatus::AlreadyMoved), NextStep::Resend);
    assert_eq!(next_step(MoveStatus::GameFinished), NextStep::Stop);
    assert_eq!(next_step(MoveStatus::Unknown), NextStep::Stop);
}

#[test]
fn random_directions_cover_all_four() {
    let mut seen = [false; 4];
    for _ in 0..400 {
        let d = random_direction();
        assert!((0..4).contains(&d));
        seen[d as usize] = true;
    }
    assert_eq!(seen, [true; 4]);
}

#[test]
fn teleports_reach_every_face_row_and_column() {
    let mut faces = [false; 6];
    let mut rows = [false; 5];
    let mut cols = [false; 5];
    for _ in 0..2000 {
        if let MoveChoice::Teleport(i, j, k) = use_random_special(0) {
            faces[i as usize] = true;
            rows[j as usize] = true;
            cols[k as usize] = true;
        }
    }
    assert_eq!(faces, [true; 6]);
    assert_eq!(rows, [true; 5]);
    assert_eq!(cols, [true; 5]);
}
