use zappy::cell::Cell;
use zappy::color::{TerminalColor, ZappyColor};
use zappy::player::Player;
use zappy::position::{Direction, Position};
use zappy::resource::Resource;
use zappy::resource::Stone::{Deraumere, Linemate, Phiras, Sibur};

#[test]
fn colors_have_terminal_and_rgb_values() {
    assert_eq!(ZappyColor::Red.to_ratatui_value(), TerminalColor::Red);
    assert_eq!(ZappyColor::LightCyan.to_ratatui_value(), TerminalColor::LightCyan);
    assert_eq!(ZappyColor::DarkGray.to_ratatui_value(), TerminalColor::DarkGray);
    assert_eq!(ZappyColor::Red._to_rgb(), (255, 0, 0));
    assert_eq!(ZappyColor::DarkGray._to_rgb(), (64, 64, 64));
    assert_eq!(ZappyColor::LightBlue._to_rgb(), (128, 128, 255));
}

#[test]
fn a_player_moves_along_one_axis() {
    let mut p = Player::new(1, "a".to_string(), Position { x: 2, y: 3, dir: Direction::East });
    p.set_x(7);
    assert_eq!(p.position(), Position { x: 7, y: 3, dir: Direction::East });
    p.set_y(0);
    assert_eq!(p.position(), Position { x: 7, y: 0, dir: Direction::East });
}

#[test]
fn levelling_up_spends_the_stones_of_the_level() {
    let mut p = Player::new(1, "a".to_string(), Position { x: 0, y: 0, dir: Direction::North });
    assert!(!p.level_up());
    assert_eq!(p.level(), 1);
    p.add_to_inventory(Resource::Stone(Linemate));
    p.add_to_inventory(Resource::Stone(Linemate));
    assert!(p.level_up());
    assert_eq!(p.level(), 2);
    assert_eq!(*p.inventory(), [0, 1, 0, 0, 0, 0]);
    assert!(!p.level_up());
    p.add_to_inventory(Resource::Stone(Deraumere));
    p.add_to_inventory(Resource::Stone(Sibur));
    p.add_to_inventory(Resource::Stone(Phiras));
    assert!(p.level_up());
    assert_eq!(p.level(), 3);
    assert_eq!(*p.inventory(), [0, 0, 0, 1, 0, 0]);
}

#[test]
fn a_cell_counts_each_resource() {
    let mut c = Cell::new();
    assert_eq!(c.count_of(Resource::Nourriture), 0);
    c.add_resource(Resource::Nourriture);
    c.add_resource(Resource::Stone(Sibur));
    c.add_resource(Resource::Stone(Sibur));
    assert_eq!(c.count_of(Resource::Nourriture), 1);
    assert_eq!(c.count_of(Resource::Stone(Sibur)), 2);
    assert_eq!(c.count_of(Resource::Stone(Linemate)), 0);
}
