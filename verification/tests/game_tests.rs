use raycaster::fixed::ONE;
use raycaster::game::{collect, take, REACH};
use raycaster::player::{Direction, Player};
use raycaster::raycaster::{cast_ray, Face, Intersect};

fn maze_of(rows: &[&str]) -> Vec<Vec<char>> {
    rows.iter().map(|r| r.chars().collect()).collect()
}

#[test]
fn collectible_in_reach_is_taken() {
    let mut maze = maze_of(&["#####", "#  2#", "#####"]);
    // the collectible's cell begins at 192; the player stands 42 units before it
    let player = Player::new(150 * ONE, 96 * ONE, 0, 102944);
    assert_eq!(collect(&mut maze, &player, Direction::new(ONE, 0).unwrap(), 64), Some('2'));
    assert_eq!(maze, maze_of(&["#####", "#   #", "#####"]));
    // now the ray hits the wall behind
    assert_eq!(collect(&mut maze, &player, Direction::new(ONE, 0).unwrap(), 64), None);
    assert_eq!(maze, maze_of(&["#####", "#   #", "#####"]));
}

#[test]
fn collectible_out_of_reach_stays() {
    let mut maze = maze_of(&["#####", "#  2#", "#####"]);
    let player = Player::new(142 * ONE, 96 * ONE, 0, 102944);
    assert_eq!(cast_ray(&maze, &player, Direction::new(ONE, 0).unwrap(), 64).distance, 50 * ONE);
    assert_eq!(collect(&mut maze, &player, Direction::new(ONE, 0).unwrap(), 64), None);
    assert_eq!(maze, maze_of(&["#####", "#  2#", "#####"]));
    let player = Player::new(143 * ONE, 96 * ONE, 0, 102944);
    assert_eq!(collect(&mut maze, &player, Direction::new(ONE, 0).unwrap(), 64), Some('2'));
    assert_eq!(REACH, 50 * ONE);
}

#[test]
fn looking_away_takes_nothing() {
    let mut maze = maze_of(&["#####", "#1 2#", "#####"]);
    let player = Player::new(160 * ONE, 96 * ONE, 0, 102944);
    assert_eq!(collect(&mut maze, &player, Direction::new(0, ONE).unwrap(), 64), None);
    assert_eq!(collect(&mut maze, &player, Direction::new(-ONE, 0).unwrap(), 64), Some('1'));
    assert_eq!(maze, maze_of(&["#####", "#  2#", "#####"]));
}

#[test]
fn take_clears_the_cell_in_which_the_ray_ended() {
    let mut maze = maze_of(&["123", "321"]);
    let hit = Intersect { distance: 0, impact: ' ', object_type: Some('3'), hit_x: 25 * ONE, hit_y: 5 * ONE, face: Face::EastWest };
    assert_eq!(take(&mut maze, &hit, 10), Some('3'));
    assert_eq!(maze, maze_of(&["12 ", "321"]));
    // a ray that ended outside the maze clears nothing
    for (x, y) in [(-1, 5 * ONE), (5 * ONE, -1), (30 * ONE, 5 * ONE), (5 * ONE, 20 * ONE)] {
        let hit = Intersect { distance: 0, impact: ' ', object_type: Some('1'), hit_x: x, hit_y: y, face: Face::EastWest };
        assert_eq!(take(&mut maze, &hit, 10), Some('1'));
        assert_eq!(maze, maze_of(&["12 ", "321"]));
    }
    let wall = Intersect { distance: 0, impact: '#', object_type: None, hit_x: 5 * ONE, hit_y: 5 * ONE, face: Face::NorthSouth };
    assert_eq!(take(&mut maze, &wall, 10), None);
    let far = Intersect { distance: REACH, impact: ' ', object_type: Some('1'), hit_x: 5 * ONE, hit_y: 5 * ONE, face: Face::NorthSouth };
    assert_eq!(take(&mut maze, &far, 10), None);
    assert_eq!(maze, maze_of(&["12 ", "321"]));
}
