use zappy::args::{validate_clients, validate_dimension};
use zappy::color::ZappyColor;
use zappy::console::{direction_to_emoji, eggs_label, player_label, resource_spans, ServerData, NOURRITURE_COLOR};
use zappy::map::WorldMap;
use zappy::player::Player;
use zappy::position::Position;
use zappy::commands::{AdminCommand, Command, PlayerCmd};
use zappy::connection::Connection;
use zappy::position::Direction;
use zappy::resource::{Resource, Stone};
use zappy::security::{ConfigurationError, SecurityContext};
use zappy::text::{parse_unsigned_text, split_text, text_less_than};
use zappy::{GameError, NetworkError, PlayerError, ServerResponse, ZappyError};

#[test]
fn dimensions_are_numbers_from_2_to_100() {
    assert_eq!(validate_dimension("2"), Ok(2));
    assert_eq!(validate_dimension("100"), Ok(100));
    assert_eq!(validate_dimension("+42"), Ok(42));
    assert_eq!(validate_dimension("007"), Ok(7));
    assert_eq!(validate_dimension("1"), Err("Grid dimensions must be between 2 and 100".to_string()));
    assert_eq!(validate_dimension("101"), Err("Grid dimensions must be between 2 and 100".to_string()));
    assert_eq!(validate_dimension("abc"), Err("Not a valid number".to_string()));
    assert_eq!(validate_dimension(""), Err("Not a valid number".to_string()));
    assert_eq!(validate_dimension("+"), Err("Not a valid number".to_string()));
    assert_eq!(validate_dimension("-3"), Err("Not a valid number".to_string()));
    assert_eq!(validate_dimension(" 5"), Err("Not a valid number".to_string()));
    assert_eq!(validate_dimension("99999999999999999999999"), Err("Not a valid number".to_string()));
}

#[test]
fn clients_are_numbers_from_1_to_1024() {
    assert_eq!(validate_clients("1"), Ok(1));
    assert_eq!(validate_clients("1024"), Ok(1024));
    assert_eq!(validate_clients("0"), Err("Number of clients must be between 1 and 1024".to_string()));
    assert_eq!(validate_clients("1025"), Err("Number of clients must be between 1 and 1024".to_string()));
    assert_eq!(validate_clients("65535"), Err("Number of clients must be between 1 and 1024".to_string()));
    assert_eq!(validate_clients("65536"), Err("Not a valid number".to_string()));
    assert_eq!(validate_clients("x1"), Err("Not a valid number".to_string()));
}

#[test]
fn numbers_read_as_std_reads_them() {
    for s in ["0", "17", "+5", "-5", "", "+", "12a", "4294967295", "4294967296", "18446744073709551615", "18446744073709551616"] {
        assert_eq!(parse_unsigned_text(s, usize::MAX), s.parse::<usize>().ok(), "{}", s);
        assert_eq!(parse_unsigned_text(s, u16::MAX as usize), s.parse::<u16>().ok().map(|v| v as usize), "{}", s);
    }
}

#[test]
fn texts_split_as_std_splits_them() {
    for s in ["a,b", ",", "", "abc", "a,,b,", ",x"] {
        let ours = split_text(s, ',');
        let std_split: Vec<String> = s.split(',').map(|p| p.to_string()).collect();
        assert_eq!(ours, std_split);
    }
}

#[test]
fn texts_order_as_strings_do() {
    let words = ["", "a", "ab", "b", "Anton", "anton", "axel", "victor", "é", "z"];
    for a in words {
        for b in words {
            assert_eq!(text_less_than(a, b), a < b, "{} {}", a, b);
        }
    }
}

#[test]
fn administrators_are_read_from_credentials() {
    let ctx = SecurityContext::new("admin:pass,bob:s3cret").unwrap();
    assert!(ctx.is_valid("admin", "pass"));
    assert!(ctx.is_valid("bob", "s3cret"));
    assert!(!ctx.is_valid("admin", "s3cret"));
    assert!(!ctx.is_valid("eve", "pass"));
    let ctx = SecurityContext::new("a:1,a:2").unwrap();
    assert!(ctx.is_valid("a", "2"));
    assert!(!ctx.is_valid("a", "1"));
}

#[test]
fn badly_written_credentials_are_refused() {
    for s in ["", "admin", "admin:", ":pass", "a:b:c", "a:b,", "a b:c", "a:b,,c:d", "é:x"] {
        assert!(matches!(SecurityContext::new(s), Err(ConfigurationError::WrongCredentialsFormat)), "{}", s);
    }
}

#[test]
fn configuration_errors_have_their_texts() {
    assert_eq!(ConfigurationError::CertificateError("bad".to_string()).message(), "cert.pem: bad");
    assert_eq!(ConfigurationError::PrivateKeyError("gone".to_string()).message(), "key.pem: gone");
    assert_eq!(ConfigurationError::TlsConfigurationError("x".to_string()).message(), "Certificate issue: x");
    assert_eq!(
        ConfigurationError::CredentialsVarIsNotSet.message(),
        "Expecting ADMIN_CREDENTIALS to be set in .env file."
    );
    assert_eq!(
        ConfigurationError::WrongCredentialsFormat.message(),
        "User credentials must be in format 'user1:pass1,user2:pass2'"
    );
}

#[test]
fn answers_are_written_as_the_protocol_says() {
    assert_eq!(ServerResponse::Okay.text(), "Ok");
    assert_eq!(ServerResponse::Ko.text(), "Ko");
    assert_eq!(ServerResponse::See(vec!["player".to_string(), "".to_string(), "linemate".to_string()]).text(), "{player, , linemate}");
    assert_eq!(ServerResponse::Inventory(vec!["nourriture 3".to_string(), "sibur 1".to_string()]).text(), "{nourriture 3, sibur 1}");
    assert_eq!(ServerResponse::Inventory(vec![]).text(), "{}");
    assert_eq!(ServerResponse::IncantationInProgress.text(), "elevation en cours");
    assert_eq!(ServerResponse::CurrentLevel(3).text(), "niveau actuel : 3");
    assert_eq!(ServerResponse::Value("12".to_string()).text(), "12");
    assert_eq!(ServerResponse::Mort.text(), "Mort");
    assert_eq!(ServerResponse::ActionQueueIsFull.text(), "The action queue is full, please try later.");
    assert_eq!(ServerResponse::Movement(Direction::West).text(), "deplacement West");
    assert_eq!(ServerResponse::Message(7, "hi there".to_string()).text(), "message 7,hi there");
}

#[test]
fn errors_are_written_with_their_ids() {
    assert_eq!(
        GameError::IncreasingLevelWithNoIncantations(4).message(),
        "4: trying to stop incantation, but no incantation is happening"
    );
    assert_eq!(
        GameError::IncreasingLevelButIsAlreadyMax(12).message(),
        "12: trying to stop incantation, but the max level is already reached"
    );
    assert_eq!(NetworkError::ConnectionClosedByClient(80).message(), "80: client disconnected");
    assert_eq!(NetworkError::ConnectionCorrupted(1, "eof".to_string()).message(), "1: connection corrupted: eof");
    assert_eq!(NetworkError::AlreadyConnected(2).message(), "2: already connected");
    assert_eq!(NetworkError::IsNotConnectedToServer(3).message(), "3: is not connected");
    assert_eq!(NetworkError::FailedToWriteToSocket(5, "pipe".to_string()).message(), "5: pipe");
    assert_eq!(NetworkError::MessageIsTooBig(65535).message(), "65535: message is too large");
    assert_eq!(PlayerError::TeamDoesntExist("x".to_string()).message(), "Team does not exist: x");
    assert_eq!(PlayerError::NoPlaceAvailable(1, "axel".to_string()).message(), "No place available on team axel");
    assert_eq!(PlayerError::WrongUsernameOrPassword.message(), "Wrong username or password");
}

#[test]
fn player_commands_are_read_with_their_aliases() {
    assert_eq!(PlayerCmd::try_from_text("avance"), Ok(PlayerCmd::Move));
    assert_eq!(PlayerCmd::try_from_text("move"), Ok(PlayerCmd::Move));
    assert_eq!(PlayerCmd::try_from_text("droite"), Ok(PlayerCmd::Right));
    assert_eq!(PlayerCmd::try_from_text("gauche"), Ok(PlayerCmd::Left));
    assert_eq!(PlayerCmd::try_from_text("voir"), Ok(PlayerCmd::See));
    assert_eq!(PlayerCmd::try_from_text("inv"), Ok(PlayerCmd::Inventory));
    assert_eq!(PlayerCmd::try_from_text("prend thystame"), Ok(PlayerCmd::Take("thystame".to_string())));
    assert_eq!(PlayerCmd::try_from_text("pose T"), Ok(PlayerCmd::Put("T".to_string())));
    assert_eq!(PlayerCmd::try_from_text("exp"), Ok(PlayerCmd::Expel));
    assert_eq!(PlayerCmd::try_from_text("broadcast hello you"), Ok(PlayerCmd::Broadcast("hello you".to_string())));
    assert_eq!(PlayerCmd::try_from_text("inc"), Ok(PlayerCmd::Incantation));
    assert_eq!(PlayerCmd::try_from_text("fork"), Ok(PlayerCmd::Fork));
    assert_eq!(PlayerCmd::try_from_text("cn"), Ok(PlayerCmd::ConnectNbr));
    assert_eq!(PlayerCmd::try_from_text("kaka"), Err("Unknown command: \"kaka\"".to_string()));
    assert_eq!(PlayerCmd::try_from_text("prend"), Err("Unknown command: \"prend\"".to_string()));
    assert_eq!(PlayerCmd::Fork.delay(), 42);
    assert_eq!(PlayerCmd::Inventory.delay(), 1);
}

#[test]
fn older_commands_are_read_too() {
    assert_eq!(Command::try_from_text("avance"), Ok(Command::Avance));
    assert_eq!(Command::try_from_text("prend linemate"), Ok(Command::Prend("linemate".to_string())));
    assert_eq!(Command::try_from_text("prend"), Err("Expected resource name for Prend".to_string()));
    assert_eq!(Command::try_from_text("pose"), Err("Expected resource name for Pose".to_string()));
    assert_eq!(Command::try_from_text("broadcast"), Err("Expected text for Broadcast".to_string()));
    assert_eq!(Command::try_from_text("what"), Err("Unknown command".to_string()));
    assert_eq!(Command::Incantation.delay(), 300);
}

#[test]
fn admin_commands_show_off() {
    assert_eq!(AdminCommand::try_from_text("show_off").map(|c| c.show_off()), Ok("Admin showing off"));
}

#[test]
fn resources_have_names_aliases_and_colors() {
    for i in 0..6 {
        let s = Stone::from_index(i);
        assert_eq!(s.index(), i);
        assert_eq!(Resource::try_from_name(s.as_str()), Ok(Resource::Stone(s)));
    }
    assert_eq!(Resource::try_from_name("N"), Ok(Resource::Nourriture));
    assert_eq!(Resource::try_from_name("saphir"), Err(()));
    assert_eq!(Resource::Nourriture.as_str(), "nourriture");
    assert_eq!(Stone::Thystame.as_str(), "thystame");
    assert_eq!(Resource::Stone(Stone::Deraumere).alias(), 'D');
}

#[test]
fn a_connection_reads_what_it_received() {
    let mut c = Connection::new((), 7);
    assert_eq!(c.id(), 7);
    assert_eq!(c.received(0), Err(ZappyError::Network(NetworkError::ConnectionClosedByClient(7))));
    assert_eq!(c.received(2000), Err(ZappyError::Network(NetworkError::MessageIsTooBig(7))));
    {
        let (_, buf) = c.io();
        assert_eq!(buf.len(), 1024);
        buf[..5].copy_from_slice(b"axel\n");
    }
    assert_eq!(c.received(5), Ok("axel\n".to_string()));
    {
        let (_, buf) = c.io();
        buf[0] = 0xff;
    }
    match c.received(3) {
        Err(ZappyError::Network(NetworkError::MessageCantBeMappedToFromUtf8(7, m))) => assert!(!m.is_empty()),
        other => panic!("unexpected {:?}", other),
    }
}

#[test]
fn the_terminal_view_draws_cells_and_players() {
    assert_eq!(direction_to_emoji(&Direction::North), "^");
    assert_eq!(direction_to_emoji(&Direction::East), ">");
    assert_eq!(direction_to_emoji(&Direction::South), "v");
    assert_eq!(direction_to_emoji(&Direction::West), "<");
    assert_eq!(eggs_label(0, 0), "");
    assert_eq!(eggs_label(2, 1), "(🥚🥚🐣)");
    let spans = resource_spans(2, &[0, 3, 0, 0, 1, 0]);
    assert_eq!(
        spans,
        vec![
            ("N".to_string(), NOURRITURE_COLOR),
            ("N".to_string(), NOURRITURE_COLOR),
            ("LLL".to_string(), ZappyColor::idx(1)),
            ("S".to_string(), ZappyColor::idx(4)),
        ]
    );
    let p = Player::new(42, "axel".to_string(), Position { x: 0, y: 0, dir: Direction::West });
    assert_eq!(player_label(&p), "[42<]");
    let data = ServerData::new(WorldMap::empty(2, 2), vec![p], vec![("a".to_string(), 3), ("b".to_string(), 0)]);
    assert_eq!(data.teams[0], ("a".to_string(), (ZappyColor::idx(0), 3)));
    assert_eq!(data.teams[1], ("b".to_string(), (ZappyColor::idx(1), 0)));
}

#[test]
fn the_terminal_view_draws_a_whole_cell() {
    let mut map = WorldMap::empty(2, 2);
    map.add_resource_at(1, 0, Resource::Nourriture);
    map.add_resource_at(1, 0, Resource::Stone(Stone::Phiras));
    map.add_player_at(1, 0, 9);
    map.add_player_at(1, 0, 3);
    map.adjust_eggs_at(1, 0, "b", 1, 0);
    let p3 = Player::new(3, "b".to_string(), Position { x: 1, y: 0, dir: Direction::North });
    let p9 = Player::new(9, "a".to_string(), Position { x: 1, y: 0, dir: Direction::South });
    let data = ServerData::new(map, vec![p3, p9], vec![("a".to_string(), 1), ("b".to_string(), 1)]);
    let spans = data.cell_spans(1, 0);
    assert_eq!(
        spans,
        vec![
            ("[3^]".to_string(), Some(ZappyColor::idx(1))),
            ("[9v]".to_string(), Some(ZappyColor::idx(0))),
            (" ".to_string(), None),
            ("(🥚)".to_string(), Some(ZappyColor::idx(1))),
            (" ".to_string(), None),
            ("N".to_string(), Some(NOURRITURE_COLOR)),
            ("P".to_string(), Some(ZappyColor::idx(3))),
        ]
    );
    assert_eq!(data.cell_spans(0, 0), vec![]);
}

#[test]
fn the_team_bar_shows_each_player() {
    let p = Player::new(12, "a".to_string(), Position { x: 0, y: 0, dir: Direction::North });
    let spans = zappy::console::player_stats(&p, ZappyColor::Blue);
    let life = zappy::LIFE_TICKS * zappy::LIVES_START;
    let mut expected = vec![
        ("🧬 12".to_string(), Some(ZappyColor::Blue)),
        (" | ".to_string(), None),
        (format!("💜 {}", life), Some(ZappyColor::Blue)),
        (" | ".to_string(), None),
        ("⭐".to_string(), None),
        (" | 🎒 ".to_string(), None),
    ];
    for _ in 0..6 {
        expected.push(("".to_string(), None));
    }
    expected.push((" |".to_string(), None));
    assert_eq!(spans, expected);
    assert_eq!(
        zappy::console::stone_spans(&[2, 0, 0, 0, 0, 1]),
        vec![
            ("DD".to_string(), Some(ZappyColor::idx(0))),
            ("".to_string(), None),
            ("".to_string(), None),
            ("".to_string(), None),
            ("".to_string(), None),
            ("T".to_string(), Some(ZappyColor::idx(5))),
        ]
    );
}

#[test]
fn the_team_bar_groups_players_under_their_team() {
    let p3 = Player::new(3, "b".to_string(), Position { x: 0, y: 0, dir: Direction::North });
    let p5 = Player::new(5, "a".to_string(), Position { x: 1, y: 0, dir: Direction::North });
    let p8 = Player::new(8, "b".to_string(), Position { x: 1, y: 1, dir: Direction::North });
    let data = ServerData::new(
        WorldMap::empty(2, 2),
        vec![p3.clone(), p5.clone(), p8.clone()],
        vec![("a".to_string(), 1), ("b".to_string(), 2), ("c".to_string(), 0)],
    );
    let bar = data.players_bar();
    let a = ZappyColor::idx(0);
    let b = ZappyColor::idx(1);
    let c = ZappyColor::idx(2);
    assert_eq!(bar.len(), 3);
    assert_eq!(bar[0], vec![vec![("a".to_string(), Some(a))], zappy::console::player_stats(&p5, a)]);
    assert_eq!(
        bar[1],
        vec![
            vec![("b".to_string(), Some(b))],
            zappy::console::player_stats(&p3, b),
            zappy::console::player_stats(&p8, b),
        ]
    );
    assert_eq!(bar[2], vec![vec![("c".to_string(), Some(c))]]);
    assert_eq!(bar[1][2][0], ("🧬 8".to_string(), Some(b)));
}
