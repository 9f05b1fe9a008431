use zappy::map::WorldMap;
use zappy::position::{Direction, Position};

fn pos(x: usize, y: usize) -> Position {
    Position { x, y, dir: Direction::random() }
}

#[test]
fn test_broadcast_source_center() {
    let map = WorldMap::empty(5, 5);
    let receiver = Position { x: 2, y: 2, dir: Direction::East };
    let expected = vec![
        vec![4, 3, 3, 3, 2],
        vec![5, 4, 3, 2, 1],
        vec![5, 5, 0, 1, 1],
        vec![5, 6, 7, 8, 1],
        vec![6, 7, 7, 7, 8],
    ];
    for y in 0..5 {
        for x in 0..5 {
            assert_eq!(map.find_broadcast_source(&pos(x, y), &receiver), expected[y][x]);
        }
    }
}

#[test]
fn test_broadcast_source_asymetric() {
    let map = WorldMap::empty(5, 5);
    let receiver = Position { x: 0, y: 1, dir: Direction::North };
    let expected = vec![
        vec![1, 8, 7, 3, 2],
        vec![0, 7, 7, 3, 3],
        vec![5, 6, 7, 3, 4],
        vec![5, 5, 6, 4, 5],
        vec![1, 1, 8, 2, 1],
    ];
    for y in 0..5 {
        for x in 0..5 {
            assert_eq!(map.find_broadcast_source(&pos(x, y), &receiver), expected[y][x]);
        }
    }
}

#[test]
fn broadcast_source_turns_with_the_receiver() {
    let map = WorldMap::empty(5, 5);
    let sender = Position { x: 4, y: 0, dir: Direction::South };
    let dirs = [Direction::North, Direction::East, Direction::South, Direction::West];
    let mut seen = Vec::new();
    for d in dirs {
        let receiver = Position { x: 2, y: 2, dir: d };
        seen.push(map.find_broadcast_source(&sender, &receiver));
    }
    for k in 0..4 {
        let a = seen[k] as i32;
        let b = seen[(k + 1) % 4] as i32;
        assert_eq!((a - 1 + 2) % 8, (b - 1) % 8);
    }
}

#[test]
fn a_new_map_is_empty_and_of_the_given_size() {
    let map = WorldMap::empty(4, 2);
    assert_eq!(map.width(), 4);
    assert_eq!(map.height(), 2);
    assert_eq!(map.field.len(), 2);
    for row in &map.field {
        assert_eq!(row.len(), 4);
        for cell in row {
            assert!(cell.players.is_empty());
            assert!(cell.eggs.is_empty());
            assert_eq!(cell.nourriture, 0);
            assert_eq!(cell.stones, [0; 6]);
        }
    }
}

#[test]
fn resources_generated_fill_the_map() {
    let mut map = WorldMap::empty(10, 10);
    map.generate_resources();
    let total: usize = map.field.iter().flatten().map(|c| c.nourriture + c.stones.iter().sum::<usize>()).sum();
    assert_eq!(total, 10 * 10 * 13 / 5);
}
