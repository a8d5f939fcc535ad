//! Movement keys and the state of a game in the A* race mode.

use vstd::prelude::*;
use crate::game::maze::{
    bcc_coord, cell_count, cell_index, coord_to_index, count_true, extent_ok, in_extent, lattice_step, lemma_cell_index, step, Coord,
    Extent, Maze,
};
use crate::game::pathfind::{astar_pathfind, is_walk, walk_between};

verus! {

/// The coordinate change that a movement key asks for: `n`/`s` along y,
/// `e`/`w` along x, `u`/`d` along z (two cells each), and `1` to `8` for the
/// eight diagonal steps.
pub open spec fn key_delta(key: char) -> Option<Coord> {
    if key == 'n' { Some((0i32, 2i32, 0i32)) }
    else if key == 's' { Some((0i32, -2i32, 0i32)) }
    else if key == 'e' { Some((2i32, 0i32, 0i32)) }
    else if key == 'w' { Some((-2i32, 0i32, 0i32)) }
    else if key == 'u' { Some((0i32, 0i32, 2i32)) }
    else if key == 'd' { Some((0i32, 0i32, -2i32)) }
    else if key == '1' { Some((1i32, 1i32, 1i32)) }
    else if key == '2' { Some((1i32, 1i32, -1i32)) }
    else if key == '3' { Some((-1i32, 1i32, 1i32)) }
    else if key == '4' { Some((-1i32, 1i32, -1i32)) }
    else if key == '5' { Some((1i32, -1i32, 1i32)) }
    else if key == '6' { Some((1i32, -1i32, -1i32)) }
    else if key == '7' { Some((-1i32, -1i32, 1i32)) }
    else if key == '8' { Some((-1i32, -1i32, -1i32)) }
    else { None }
}

/// The movement key and label of a coordinate change, when it is a lattice step.
pub open spec fn delta_key(d: Coord) -> Option<(char, Seq<char>)> {
    if d == (0i32, 2i32, 0i32) { Some(('n', "North (y+2)"@)) }
    else if d == (0i32, -2i32, 0i32) { Some(('s', "South (y-2)"@)) }
    else if d == (2i32, 0i32, 0i32) { Some(('e', "East (x+2)"@)) }
    else if d == (-2i32, 0i32, 0i32) { Some(('w', "West (x-2)"@)) }
    else if d == (0i32, 0i32, 2i32) { Some(('u', "Up (z+2)"@)) }
    else if d == (0i32, 0i32, -2i32) { Some(('d', "Down (z-2)"@)) }
    else if d == (1i32, 1i32, 1i32) { Some(('1', "NE-Up (+1,+1,+1)"@)) }
    else if d == (1i32, 1i32, -1i32) { Some(('2', "NE-Down (+1,+1,-1)"@)) }
    else if d == (-1i32, 1i32, 1i32) { Some(('3', "NW-Up (-1,+1,+1)"@)) }
    else if d == (-1i32, 1i32, -1i32) { Some(('4', "NW-Down (-1,+1,-1)"@)) }
    else if d == (1i32, -1i32, 1i32) { Some(('5', "SE-Up (+1,-1,+1)"@)) }
    else if d == (1i32, -1i32, -1i32) { Some(('6', "SE-Down (+1,-1,-1)"@)) }
    else if d == (-1i32, -1i32, 1i32) { Some(('7', "SW-Up (-1,-1,+1)"@)) }
    else if d == (-1i32, -1i32, -1i32) { Some(('8', "SW-Down (-1,-1,-1)"@)) }
    else { None }
}

/// A key's change, undone: the key of a step's change moves by that step.
pub proof fn lemma_keys_roundtrip(d: Coord)
    ensures
        delta_key(d) matches Some(p) ==> key_delta(p.0) == Some(d),
{
}

/// Map a movement key to its BCC coordinate change.
pub fn dir_delta(key: char) -> (r: Option<Coord>)
    ensures
        r == key_delta(key),
{
    match key {
        'n' => Some((0, 2, 0)),
        's' => Some((0, -2, 0)),
        'e' => Some((2, 0, 0)),
        'w' => Some((-2, 0, 0)),
        'u' => Some((0, 0, 2)),
        'd' => Some((0, 0, -2)),
        '1' => Some((1, 1, 1)),
        '2' => Some((1, 1, -1)),
        '3' => Some((-1, 1, 1)),
        '4' => Some((-1, 1, -1)),
        '5' => Some((1, -1, 1)),
        '6' => Some((1, -1, -1)),
        '7' => Some((-1, -1, 1)),
        '8' => Some((-1, -1, -1)),
        _ => None,
    }
}

/// Map a BCC coordinate change to its movement key and label.
pub fn delta_to_dir(d: Coord) -> (r: Option<(char, &'static str)>)
    ensures
        delta_key(d) is None ==> r is None,
        delta_key(d) matches Some(p) ==> (r matches Some(q) && q.0 == p.0 && q.1@ == p.1),
{
    match d {
        (0, 2, 0) => Some(('n', "North (y+2)")),
        (0, -2, 0) => Some(('s', "South (y-2)")),
        (2, 0, 0) => Some(('e', "East (x+2)")),
        (-2, 0, 0) => Some(('w', "West (x-2)")),
        (0, 0, 2) => Some(('u', "Up (z+2)")),
        (0, 0, -2) => Some(('d', "Down (z-2)")),
        (1, 1, 1) => Some(('1', "NE-Up (+1,+1,+1)")),
        (1, 1, -1) => Some(('2', "NE-Down (+1,+1,-1)")),
        (-1, 1, 1) => Some(('3', "NW-Up (-1,+1,+1)")),
        (-1, 1, -1) => Some(('4', "NW-Down (-1,+1,-1)")),
        (1, -1, 1) => Some(('5', "SE-Up (+1,-1,+1)")),
        (1, -1, -1) => Some(('6', "SE-Down (+1,-1,-1)")),
        (-1, -1, 1) => Some(('7', "SW-Up (-1,-1,+1)")),
        (-1, -1, -1) => Some(('8', "SW-Down (-1,-1,-1)")),
        _ => None,
    }
}

/// The seed of a level's maze: the game's seed plus the level number, wrapping.
pub fn level_seed(seed: u64, level: u32) -> (r: u64)
    ensures
        r == (seed as int + level as int) % 0x1_0000_0000_0000_0000,
{
    seed.wrapping_add(level as u64)
}

/// What the hint command shows from a cell: that the goal cannot be reached,
/// or the number of moves of a route found by A*, the number of cells the
/// search expanded, and the key of the route's first move (none at the goal).
#[derive(Debug, Clone, Copy, PartialEq, Eq)]
pub enum Hint {
    NoPath,
    Route { moves: usize, explored: usize, next_key: Option<char> },
}

/// The hint describes the walk `p` from `pos`: its number of moves, and for a
/// walk that leaves `pos`, the key whose move leads to the walk's second cell.
pub open spec fn hint_describes(p: Seq<Coord>, pos: Coord, moves: usize, explored: usize, next_key: Option<char>) -> bool {
    &&& moves == p.len() - 1
    &&& p.len() <= explored
    &&& p.len() == 1 ==> next_key is None
    &&& p.len() > 1 ==> (next_key matches Some(k) && key_delta(k) == Some(sub_coord(p[1], pos)))
}

/// The hint from `pos` towards the maze's goal: `NoPath` exactly when no
/// walk joins them; otherwise it describes a walk to the goal that visits no
/// cell twice.
pub fn hint(maze: &Maze, pos: Coord) -> (r: Hint)
    requires
        maze.wf(),
        maze.carved_at(pos),
    ensures
        r is NoPath <==> forall|p: Seq<Coord>| !(#[trigger] walk_between(*maze, pos, maze.spec_goal(), p)),
        r matches Hint::Route { moves, explored, next_key } ==> exists|p: Seq<Coord>|
            #[trigger] walk_between(*maze, pos, maze.spec_goal(), p) && p.no_duplicates() && hint_describes(
                p,
                pos,
                moves,
                explored,
                next_key,
            ),
{
    let goal = maze.goal();
    proof {
        maze.lemma_wf_extent();
        maze.lemma_carved_in_extent(pos);
    }
    match astar_pathfind(maze, pos, goal) {
        None => Hint::NoPath,
        Some((path, explored)) => {
            proof {
                assert(walk_between(*maze, pos, goal, path@));
            }
            let moves = path.len() - 1;
            let next_key = if path.len() > 1 {
                let second = path[1];
                proof {
                    assert(maze.links(path@[0]).contains(path@[1]));
                    maze.lemma_passages(pos, second);
                }
                let d = (second.0 - pos.0, second.1 - pos.1, second.2 - pos.2);
                proof {
                    assert(d == sub_coord(second, pos));
                    lemma_step_has_key(pos, second);
                }
                match delta_to_dir(d) {
                    Some((k, _)) => Some(k),
                    None => Some('?'),
                }
            } else {
                None
            };
            Hint::Route { moves, explored, next_key }
        },
    }
}

/// Each lattice step has a movement key, and the key asks for that step.
proof fn lemma_step_has_key(a: Coord, b: Coord)
    requires
        lattice_step(a, b),
    ensures
        delta_key(sub_coord(b, a)) matches Some(p) && key_delta(p.0) == Some(sub_coord(b, a)),
{
    let k = choose|k: int| 0 <= k < 14 && #[trigger] step(a, k) == (b.0 as int, b.1 as int, b.2 as int);
    assert(0 <= k < 14 && step(a, k) == (b.0 as int, b.1 as int, b.2 as int));
}

/// `c` moved by `d`.
pub open spec fn add_coord(c: Coord, d: Coord) -> Coord {
    ((c.0 + d.0) as i32, (c.1 + d.1) as i32, (c.2 + d.2) as i32)
}

/// The change from `a` to `b`.
pub open spec fn sub_coord(b: Coord, a: Coord) -> Coord {
    ((b.0 - a.0) as i32, (b.1 - a.1) as i32, (b.2 - a.2) as i32)
}

/// The cell next to `c` in the direction of `key`, or `None` for a key that
/// is no direction. The cell must be inside (or next to) the box.
pub(crate) fn target_of(c: Coord, key: char) -> (r: Option<Coord>)
    requires
        -0x4000_0000 <= c.0 <= 0x4000_0000,
        -0x4000_0000 <= c.1 <= 0x4000_0000,
        -0x4000_0000 <= c.2 <= 0x4000_0000,
    ensures
        key_delta(key) is None ==> r is None,
        key_delta(key) matches Some(d) ==> r == Some(add_coord(c, d)),
{
    match dir_delta(key) {
        Some(d) => Some((c.0 + d.0, c.1 + d.1, c.2 + d.2)),
        None => None,
    }
}

/// The directions offered at `pos` for the first `n` passage ends in
/// `links`: key, label and visited flag of each end that is a lattice step.
pub open spec fn directions_upto(
    links: Seq<Coord>,
    pos: Coord,
    e: Extent,
    visited: Seq<bool>,
    n: int,
) -> Seq<(char, Seq<char>, bool)>
    decreases n,
{
    if n <= 0 {
        Seq::empty()
    } else {
        let rest = directions_upto(links, pos, e, visited, n - 1);
        let nb = links[n - 1];
        match delta_key(sub_coord(nb, pos)) {
            Some(p) => rest.push((p.0, p.1, visited[cell_index(e, nb)])),
            None => rest,
        }
    }
}

/// The directions with their labels as character sequences.
pub open spec fn direction_views(r: Seq<(char, String, bool)>) -> Seq<(char, Seq<char>, bool)> {
    r.map_values(|t: (char, String, bool)| (t.0, t.1@, t.2))
}

/// A game in the A* race mode: the maze, where the player is, the walk so
/// far, the cells visited, the level and the hints asked for.
pub struct GameState {
    maze: Maze,
    current_pos: Coord,
    move_history: Vec<Coord>,
    visited: Vec<bool>,
    visited_count: usize,
    level: u32,
    hints_used: u32,
}

impl GameState {
    /// The maze.
    pub closed spec fn spec_maze(&self) -> Maze {
        self.maze
    }

    /// Where the player is.
    pub closed spec fn spec_pos(&self) -> Coord {
        self.current_pos
    }

    /// The cells walked through, from the start, one per move.
    pub closed spec fn spec_history(&self) -> Seq<Coord> {
        self.move_history@
    }

    /// Visited flags, by cell number.
    pub closed spec fn spec_visited(&self) -> Seq<bool> {
        self.visited@
    }

    /// The level number.
    pub closed spec fn spec_level(&self) -> u32 {
        self.level
    }

    /// Hints asked for.
    pub closed spec fn spec_hints(&self) -> u32 {
        self.hints_used
    }

    /// The game state is consistent: the walk starts at the maze's start,
    /// follows passages and ends where the player is, and the visited
    /// cells are counted.
    pub closed spec fn wf(&self) -> bool {
        let e = self.maze.spec_extent();
        &&& self.maze.wf()
        &&& self.move_history@.len() >= 1
        &&& self.move_history@[0] == self.maze.spec_start()
        &&& self.move_history@.last() == self.current_pos
        &&& is_walk(self.maze, self.move_history@)
        &&& in_extent(e, self.current_pos)
        &&& self.maze.carved_at(self.current_pos)
        &&& self.visited@.len() == cell_count(e)
        &&& self.visited_count == count_true(self.visited@)
        &&& self.visited@[cell_index(e, self.current_pos)]
    }

    /// A new game at the maze's start, with only the start visited.
    pub fn new(maze: Maze, level: u32) -> (r: Self)
        requires
            maze.wf(),
        ensures
            r.wf(),
            r.spec_maze() == maze,
            r.spec_pos() == maze.spec_start(),
            r.spec_history() == seq![maze.spec_start()],
            r.spec_level() == level,
            r.spec_hints() == 0,
    {
        let start = maze.start();
        let total = maze.cell_total();
        let e = maze.extent();
        proof {
            maze.lemma_wf_extent();
            maze.lemma_start_carved();
            lemma_cell_index(e, start);
        }
        let mut visited: Vec<bool> = Vec::new();
        let mut t: usize = 0;
        while t < total
            invariant
                t <= total,
                visited@ == Seq::new(t as nat, |i: int| false),
            decreases total - t,
        {
            visited.push(false);
            assert(visited@ =~= Seq::new((t + 1) as nat, |i: int| false));
            t = t + 1;
        }
        let si = match coord_to_index(e, start) { Some(v) => v as usize, None => 0 };
        proof {
            crate::game::maze::lemma_count_true_zero(visited@);
            crate::game::maze::lemma_count_true_set(visited@, si as int);
        }
        visited.set(si, true);
        let mut move_history: Vec<Coord> = Vec::new();
        move_history.push(start);
        proof {
            assert(move_history@ =~= seq![start]);
            maze.lemma_start_carved();
        }
        Self { maze, current_pos: start, move_history, visited, visited_count: 1, level, hints_used: 0 }
    }

    /// Moves the player one step in the direction of `key`. A key that is no
    /// direction, or a direction without a passage, is refused and nothing
    /// changes; otherwise the player moves, the cell is marked visited, and
    /// the result tells whether the goal is reached.
    pub fn make_move(&mut self, key: char) -> (r: Result<bool, String>)
        requires
            old(self).wf(),
        ensures
            final(self).wf(),
            final(self).spec_maze() == old(self).spec_maze(),
            final(self).spec_level() == old(self).spec_level(),
            final(self).spec_hints() == old(self).spec_hints(),
            key_delta(key) is None ==> (r matches Err(m) && m@ == "Invalid direction"@ && *final(self) == *old(self)),
            key_delta(key) matches Some(d) ==> {
                let next = add_coord(old(self).spec_pos(), d);
                if old(self).spec_maze().links(old(self).spec_pos()).contains(next) {
                    &&& r == Ok::<bool, String>(next == old(self).spec_maze().spec_goal())
                    &&& final(self).spec_pos() == next
                    &&& final(self).spec_history() == old(self).spec_history().push(next)
                    &&& final(self).spec_visited() == old(self).spec_visited().update(
                        cell_index(old(self).spec_maze().spec_extent(), next),
                        true,
                    )
                } else {
                    &&& r matches Err(m)
                    &&& m@ == "Cannot move in that direction (wall)"@
                    &&& *final(self) == *old(self)
                }
            },
    {
        let e = self.maze.extent();
        proof {
            self.maze.lemma_wf_extent();
        }
        let next_pos = match target_of(self.current_pos, key) {
            Some(p) => p,
            None => {
                return Err("Invalid direction".to_owned());
            },
        };
        if !self.maze.are_connected(self.current_pos, next_pos) {
            return Err("Cannot move in that direction (wall)".to_owned());
        }
        proof {
            self.maze.lemma_passages(self.current_pos, next_pos);
            lemma_cell_index(e, next_pos);
        }
        let ghost hist_b = self.move_history@;
        let ghost pos_b = self.current_pos;
        self.current_pos = next_pos;
        self.move_history.push(next_pos);
        let ni = match coord_to_index(e, next_pos) { Some(v) => v as usize, None => 0 };
        if !self.visited[ni] {
            proof { crate::game::maze::lemma_count_true_set(self.visited@, ni as int); }
            self.visited.set(ni, true);
            self.visited_count = self.visited_count + 1;
        } else {
            proof { assert(self.visited@.update(ni as int, true) =~= self.visited@); }
        }
        proof {
            assert forall|i: int| #![trigger self.move_history@[i]] 0 <= i < self.move_history@.len() - 1 implies self.maze.links(
                self.move_history@[i],
            ).contains(self.move_history@[i + 1]) by {
                if i < hist_b.len() - 1 {
                    assert(self.move_history@[i] == hist_b[i] && self.move_history@[i + 1] == hist_b[i + 1]);
                } else {
                    assert(self.move_history@[i] == pos_b);
                }
            }
        }
        Ok(crate::game::maze::same_coord(self.current_pos, self.maze.goal()))
    }

    /// The directions the player can take: the key, its label, and whether
    /// the cell there has been visited, in passage order.
    pub fn get_available_directions(&self) -> (r: Vec<(char, String, bool)>)
        requires
            self.wf(),
        ensures
            direction_views(r@) == directions_upto(
                self.spec_maze().links(self.spec_pos()),
                self.spec_pos(),
                self.spec_maze().spec_extent(),
                self.spec_visited(),
                self.spec_maze().links(self.spec_pos()).len() as int,
            ),
    {
        let connected = self.maze.get_connected_neighbors(self.current_pos);
        let e = self.maze.extent();
        let mut directions: Vec<(char, String, bool)> = Vec::new();
        let mut k: usize = 0;
        while k < connected.len()
            invariant
                self.wf(),
                e == self.maze.spec_extent(),
                connected@ == self.maze.links(self.current_pos),
                k <= connected@.len(),
                direction_views(directions@) == directions_upto(connected@, self.current_pos, e, self.visited@, k as int),
            decreases connected@.len() - k,
        {
            let n = connected[k];
            proof {
                self.maze.lemma_wf_extent();
                assert(connected@[k as int] == n);
                assert(connected@.contains(n));
                self.maze.lemma_passages(self.current_pos, n);
                lemma_cell_index(e, n);
            }
            let d = (n.0 - self.current_pos.0, n.1 - self.current_pos.1, n.2 - self.current_pos.2);
            let ni = match coord_to_index(e, n) { Some(v) => v as usize, None => 0 };
            let seen = self.visited[ni];
            proof { assert(sub_coord(n, self.current_pos) == d); }
            match delta_to_dir(d) {
                Some((key, name)) => {
                    let ghost before = directions@;
                    directions.push((key, name.to_owned(), seen));
                    proof {
                        assert(direction_views(directions@) =~= direction_views(before).push((key, name@, seen)));
                        assert(seen == self.visited@[cell_index(e, n)]);
                    }
                },
                None => {
                    proof { assert(delta_key(d) is None); }
                },
            }
            k = k + 1;
        }
        directions
    }

    /// Where the player is.
    pub fn current_pos(&self) -> (r: Coord)
        ensures
            r == self.spec_pos(),
    {
        self.current_pos
    }

    /// The maze.
    pub fn maze(&self) -> (r: &Maze)
        ensures
            *r == self.spec_maze(),
    {
        &self.maze
    }

    /// Number of moves made.
    pub fn move_count(&self) -> (r: usize)
        requires
            self.wf(),
        ensures
            r == self.spec_history().len() - 1,
    {
        self.move_history.len() - 1
    }

    /// Number of distinct cells visited.
    pub fn visited_count(&self) -> (r: usize)
        requires
            self.wf(),
        ensures
            r == count_true(self.spec_visited()),
    {
        self.visited_count
    }

    /// The level number.
    pub fn level(&self) -> (r: u32)
        ensures
            r == self.spec_level(),
    {
        self.level
    }

    /// Hints asked for.
    pub fn hints_used(&self) -> (r: u32)
        ensures
            r == self.spec_hints(),
    {
        self.hints_used
    }

    /// Counts one more hint (saturating).
    pub fn record_hint(&mut self)
        requires
            old(self).wf(),
        ensures
            final(self).wf(),
            final(self).spec_hints() == (if old(self).spec_hints() < u32::MAX { old(self).spec_hints() + 1 } else { old(self).spec_hints() as int }),
            final(self).spec_pos() == old(self).spec_pos(),
            final(self).spec_maze() == old(self).spec_maze(),
            final(self).spec_history() == old(self).spec_history(),
            final(self).spec_visited() == old(self).spec_visited(),
    {
        self.hints_used = self.hints_used.saturating_add(1);
    }
}

} // verus!
