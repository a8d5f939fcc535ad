use octaindex3d::game::bloodhound::{
    dist_sq, furthest_corner_spawn, generate_spikes, spike_seed, Bloodhound, BloodhoundGame, MoveOutcome,
};
use octaindex3d::game::maze::{coord_to_index, get_neighbors, index_to_coord, is_valid_bcc, Coord, Maze};
use octaindex3d::game::pathfind::{astar_pathfind, heuristic};
use octaindex3d::game::play::{delta_to_dir, dir_delta, hint, level_seed, GameState, Hint};
use octaindex3d::game::stats::BloodhoundStats;
use octaindex3d::lattice::BCC_NEIGHBORS_14;
use std::collections::HashSet;

fn make_hound(maze: &Maze, pos: Coord) -> Bloodhound {
    Bloodhound::new(maze, pos, pos, 0)
}

#[test]
fn connected_hound_lunges_and_catches() {
    let maze = Maze::generate((6, 6, 6), 7);
    let start = maze.start();
    let hp = maze.get_connected_neighbors(start)[0];
    let hound = make_hound(&maze, hp);
    let mut game = BloodhoundGame::new(maze, Vec::new(), 1);
    game.add_hound(hound);
    assert!(game.any_hound_can_lunge());
    assert!(game.resolve_hounds(), "open-adjacent hound must catch");
}

#[test]
fn walled_neighbor_hound_cannot_lunge() {
    let maze = Maze::generate((6, 6, 6), 7);
    let start = maze.start();
    let connected: HashSet<Coord> = maze.get_connected_neighbors(start).into_iter().collect();
    let walled = BCC_NEIGHBORS_14
        .iter()
        .map(|d| (start.0 + d.0, start.1 + d.1, start.2 + d.2))
        .find(|c| maze.is_carved(*c) && !connected.contains(c));
    match walled {
        Some(wc) => {
            let hound = make_hound(&maze, wc);
            let mut game = BloodhoundGame::new(maze, Vec::new(), 1);
            game.add_hound(hound);
            assert!(!game.any_hound_can_lunge(), "a wall must block the lunge");
        }
        None => {
            let hound = make_hound(&maze, (5, 5, 5));
            let mut game = BloodhoundGame::new(maze, Vec::new(), 1);
            game.add_hound(hound);
            assert!(!game.any_hound_can_lunge());
        }
    }
}

#[test]
fn walking_into_hound_is_fatal() {
    let maze = Maze::generate((6, 6, 6), 7);
    let start = maze.start();
    let nb = maze.get_connected_neighbors(start)[0];
    let d = (nb.0 - start.0, nb.1 - start.1, nb.2 - start.2);
    let (key, _) = delta_to_dir(d).expect("neighbor delta maps to a move key");
    let hound = make_hound(&maze, nb);
    let mut game = BloodhoundGame::new(maze, Vec::new(), 1);
    game.add_hound(hound);
    assert!(matches!(game.make_move(key), MoveOutcome::IntoBloodhound));
}

#[test]
fn hound_searches_instead_of_sitting() {
    let maze = Maze::generate((6, 6, 6), 7);
    let start = maze.start();
    let hp = maze
        .carved_cells()
        .into_iter()
        .find(|&c| c != start && !maze.get_connected_neighbors(c).is_empty())
        .expect("a carved cell with a neighbor");
    let hound = make_hound(&maze, hp);
    let mut game = BloodhoundGame::new(maze, Vec::new(), 1);
    game.add_hound(hound);
    game.move_bloodhounds();
    assert_ne!(game.hounds()[0].pos(), hp, "hound must not sit on its cell");
}

#[test]
fn maze_passages_are_symmetric_lattice_steps() {
    let maze = Maze::generate((5, 4, 6), 11);
    assert_eq!(maze.start(), (0, 0, 0));
    assert!(maze.is_carved((0, 0, 0)));
    for c in maze.carved_cells() {
        assert!(is_valid_bcc(c));
        for n in maze.get_connected_neighbors(c) {
            assert!(maze.is_carved(n));
            assert!(maze.are_connected(n, c));
            let d = (n.0 - c.0, n.1 - c.1, n.2 - c.2);
            assert!(BCC_NEIGHBORS_14.contains(&d));
        }
    }
    assert_eq!(maze.carved_count(), maze.carved_cells().len());
}

#[test]
fn maze_goal_is_far_corner_or_one_in() {
    assert_eq!(Maze::generate((5, 5, 5), 1).goal(), (4, 4, 4));
    assert_eq!(Maze::generate((4, 4, 4), 1).goal(), (3, 3, 3));
    assert_eq!(Maze::generate((4, 5, 4), 1).goal(), (2, 3, 2));
}

#[test]
fn same_seed_gives_same_maze() {
    let a = Maze::generate((6, 6, 6), 99);
    let b = Maze::generate((6, 6, 6), 99);
    assert_eq!(a.carved_cells(), b.carved_cells());
    for c in a.carved_cells() {
        assert_eq!(a.get_connected_neighbors(c), b.get_connected_neighbors(c));
    }
}

#[test]
fn astar_finds_a_walk_to_the_goal() {
    let maze = Maze::generate((8, 8, 8), 3);
    let (path, explored) = astar_pathfind(&maze, maze.start(), maze.goal()).unwrap();
    assert_eq!(path[0], maze.start());
    assert_eq!(*path.last().unwrap(), maze.goal());
    for w in path.windows(2) {
        assert!(maze.are_connected(w[0], w[1]));
    }
    assert!(explored >= 1);
    let (trivial, n) = astar_pathfind(&maze, maze.goal(), maze.goal()).unwrap();
    assert_eq!((trivial, n), (vec![maze.goal()], 1));
    assert!(astar_pathfind(&maze, (-7, 0, 0), maze.goal()).is_none());
}

#[test]
fn playing_the_hint_path_reaches_the_goal() {
    let maze = Maze::generate((6, 6, 6), 5);
    let (path, _) = astar_pathfind(&maze, maze.start(), maze.goal()).unwrap();
    let mut game = GameState::new(maze, 1);
    assert_eq!(game.make_move('x'), Err("Invalid direction".to_string()));
    for (i, w) in path.windows(2).enumerate() {
        let d = (w[1].0 - w[0].0, w[1].1 - w[0].1, w[1].2 - w[0].2);
        let (key, _) = delta_to_dir(d).unwrap();
        let reached = game.make_move(key).unwrap();
        assert_eq!(reached, i + 2 == path.len());
    }
    assert_eq!(game.move_count(), path.len() - 1);
    assert_eq!(game.current_pos(), game.maze().goal());
}

#[test]
fn walls_block_moves_and_directions_are_listed() {
    let maze = Maze::generate((6, 6, 6), 8);
    let start = maze.start();
    let open = maze.get_connected_neighbors(start);
    let mut game = GameState::new(maze, 2);
    let dirs = game.get_available_directions();
    assert_eq!(dirs.len(), open.len());
    for (key, _, visited) in &dirs {
        assert!(!visited);
        assert!(dir_delta(*key).is_some());
    }
    for key in ['n', 's', 'e', 'w', 'u', 'd', '1', '2', '3', '4', '5', '6', '7', '8'] {
        let d = dir_delta(key).unwrap();
        let target = (start.0 + d.0, start.1 + d.1, start.2 + d.2);
        if !open.contains(&target) {
            assert_eq!(game.make_move(key), Err("Cannot move in that direction (wall)".to_string()));
            assert_eq!(game.current_pos(), start);
        }
    }
    game.record_hint();
    assert_eq!(game.hints_used(), 1);
    assert_eq!(game.level(), 2);
}

#[test]
fn key_and_delta_tables_agree() {
    for key in ['n', 's', 'e', 'w', 'u', 'd', '1', '2', '3', '4', '5', '6', '7', '8'] {
        let d = dir_delta(key).unwrap();
        assert_eq!(delta_to_dir(d).unwrap().0, key);
    }
    assert_eq!(dir_delta('q'), None);
    assert_eq!(delta_to_dir((1, 0, 0)), None);
    assert_eq!(delta_to_dir((0, 2, 0)), Some(('n', "North (y+2)")));
}

#[test]
fn distances_and_indexing() {
    assert_eq!(heuristic((0, 0, 0), (3, 4, 0)), 5);
    assert_eq!(heuristic((0, 0, 0), (1, 1, 1)), 1);
    assert_eq!(heuristic((0, 0, 0), (2, 2, 2)), 3);
    assert_eq!(dist_sq((1, 2, 3), (4, 6, 3)), 25);
    let e = (3, 4, 5);
    assert_eq!(coord_to_index(e, (2, 3, 4)), Some(59));
    assert_eq!(coord_to_index(e, (3, 0, 0)), None);
    assert_eq!(coord_to_index(e, (0, -1, 0)), None);
    assert_eq!(index_to_coord(e, 59), (2, 3, 4));
    assert_eq!(get_neighbors((4, 4, 4), (0, 0, 0)), vec![(1, 1, 1), (2, 0, 0), (0, 2, 0), (0, 0, 2)]);
}

#[test]
fn spikes_avoid_start_and_goal() {
    let maze = Maze::generate((8, 8, 8), 21);
    let spikes = generate_spikes(&maze, 1234, 50);
    let cells = maze.carved_cells();
    let set: HashSet<Coord> = spikes.iter().copied().collect();
    assert_eq!(set.len(), spikes.len());
    for s in &spikes {
        assert!(cells.contains(s));
        assert_ne!(*s, maze.start());
        assert_ne!(*s, maze.goal());
    }
    assert!(generate_spikes(&maze, 1234, 0).is_empty());
}

#[test]
fn hound_spawns_near_far_corner() {
    let maze = Maze::generate((6, 6, 6), 2);
    let spawn = furthest_corner_spawn(&maze, (0, 0, 0));
    assert!(maze.is_carved(spawn));
    assert_eq!(spawn, (5, 5, 5));
}

#[test]
fn spike_makes_player_scream_and_bleed() {
    let maze = Maze::generate((6, 6, 6), 7);
    let start = maze.start();
    let nb = maze.get_connected_neighbors(start)[0];
    let d = (nb.0 - start.0, nb.1 - start.1, nb.2 - start.2);
    let (key, _) = delta_to_dir(d).unwrap();
    let mut game = BloodhoundGame::new(maze, vec![nb], 1);
    assert_eq!(game.spike_detector_count(), 1);
    assert!(game.has_available_move());
    assert_eq!(game.nearest_hound_dist_sq(), None);
    let outcome = game.make_move(key);
    assert!(matches!(outcome, MoveOutcome::Moved | MoveOutcome::ReachedGoal));
    assert_eq!(game.screams(), 1);
    assert_eq!(game.hounds().len(), 1);
    assert_eq!(game.bleed_turns_remaining(), 3);
    assert_eq!(game.hounds()[0].target(), nb);
    assert!(game.nearest_hound_dist_sq().unwrap() >= 0);
    assert!(matches!(game.make_move('z'), MoveOutcome::Blocked));
}

#[test]
fn bloodhound_stats_record_runs() {
    let mut stats = BloodhoundStats::default();
    stats.record_run(3, 2, true);
    stats.record_run(1, 4, false);
    assert_eq!(stats.runs, 2);
    assert_eq!(stats.deaths, 1);
    assert_eq!(stats.best_level, 3);
    assert_eq!(stats.total_screams, 6);
}

#[test]
fn maze_carves_every_lattice_point_of_the_box() {
    for (extent, seed) in [((1, 1, 1), 3u64), ((4, 3, 5), 11), ((7, 7, 7), 42)] {
        let maze = Maze::generate(extent, seed);
        let mut lattice_points = 0usize;
        for x in 0..extent.0 as i32 {
            for y in 0..extent.1 as i32 {
                for z in 0..extent.2 as i32 {
                    let c = (x, y, z);
                    assert_eq!(maze.is_carved(c), is_valid_bcc(c));
                    if is_valid_bcc(c) {
                        lattice_points += 1;
                    }
                }
            }
        }
        assert_eq!(maze.carved_count(), lattice_points);
    }
}

#[test]
fn maze_passages_form_a_spanning_tree() {
    let maze = Maze::generate((9, 8, 7), 5);
    let ends: usize = maze.carved_cells().iter().map(|c| maze.get_connected_neighbors(*c).len()).sum();
    assert_eq!(ends % 2, 0);
    assert_eq!(ends / 2 + 1, maze.carved_count());
}

#[test]
fn spike_rolls_at_the_extremes() {
    let maze = Maze::generate((5, 5, 5), 9);
    assert!(generate_spikes(&maze, 1, 0).is_empty());
    let all: Vec<Coord> = maze
        .carved_cells()
        .into_iter()
        .filter(|c| *c != maze.start() && *c != maze.goal())
        .collect();
    assert_eq!(generate_spikes(&maze, 1, 100), all);
    assert_eq!(generate_spikes(&maze, 2, 250), all);
}

#[test]
fn competitive_tally_counts_wins_ties_and_losses() {
    let mut t = octaindex3d::game::stats::CompetitiveTally { total_games: 0, wins: 0, ties: 0, losses: 0 };
    t.record(10, 12);
    t.record(12, 12);
    t.record(15, 12);
    t.record(15, 12);
    assert_eq!((t.total_games, t.wins, t.ties, t.losses), (4, 1, 1, 2));
}

#[test]
fn same_seed_gives_same_spikes() {
    let maze = Maze::generate((6, 6, 6), 21);
    let again = Maze::generate((6, 6, 6), 21);
    assert_eq!(maze.carved_cells(), again.carved_cells());
    for c in maze.carved_cells() {
        assert_eq!(maze.get_connected_neighbors(c), again.get_connected_neighbors(c));
    }
    assert_eq!(generate_spikes(&maze, 4, 30), generate_spikes(&again, 4, 30));
}

#[test]
fn hint_names_the_first_move_of_the_route() {
    let maze = Maze::generate((5, 5, 5), 11);
    let start = maze.start();
    let (path, explored) = astar_pathfind(&maze, start, maze.goal()).unwrap();
    match hint(&maze, start) {
        Hint::Route { moves, explored: e, next_key: Some(k) } => {
            assert_eq!(moves, path.len() - 1);
            assert_eq!(e, explored);
            let d = dir_delta(k).unwrap();
            assert_eq!((start.0 + d.0, start.1 + d.1, start.2 + d.2), path[1]);
        }
        other => panic!("unexpected hint {:?}", other),
    }
    let at_goal = hint(&maze, maze.goal());
    assert_eq!(at_goal, Hint::Route { moves: 0, explored: 1, next_key: None });
}

#[test]
fn level_and_spike_seeds() {
    assert_eq!(level_seed(42, 3), 45);
    assert_eq!(level_seed(u64::MAX, 2), 1);
    assert_eq!(spike_seed(0), 0x9E37_79B9_7F4A_7C15);
    assert_eq!(spike_seed(0x9E37_79B9_7F4A_7C15), 0);
}

#[test]
fn dist_sq_far_apart() {
    assert_eq!(dist_sq((0, 0, 0), (1_000_000_000, 0, 0)), 1_000_000_000_000_000_000);
    assert_eq!(dist_sq((1, 2, 3), (4, 6, 3)), 25);
}
