use zztff::{Board, DecodeError, EncodeError, Program, Stat, Tile, World};

fn sample_stat(code: &str) -> Stat {
    let mut stat = Stat::default();
    stat.x = 30;
    stat.y = 12;
    stat.x_step = -1;
    stat.y_step = 1;
    stat.cycle = 3;
    stat.p1 = 4;
    stat.p2 = 5;
    stat.p3 = 6;
    stat.instruction_pointer = -1;
    stat.program = Program::Own(code.to_string());
    stat
}

fn sample_board(name: &str) -> Board {
    let mut board = Board::default();
    board.name = name.to_string();
    board.max_shots = 3;
    board.is_dark = true;
    board.exit_north = Some(2);
    board.exit_east = Some(7);
    board.restart_on_zap = true;
    board.message = "Hello, ☺".to_string();
    board.enter_x = 10;
    board.enter_y = 20;
    board.time_limit = 300;
    for x in 1..=60 {
        board.set_tile(x, 1, Tile { element: 22, color: 0x0e });
        board.set_tile(x, 25, Tile { element: 22, color: 0x0e });
    }
    board.set_tile(30, 12, Tile { element: 36, color: 0x1f });
    board.set_tile(31, 12, Tile { element: 36, color: 0x1f });
    board.stats.push(Stat::default());
    board.stats.push(sample_stat("@bob\n#end\n'comment ♪"));
    let mut bound = sample_stat("");
    bound.x = 31;
    bound.program = Program::Bound(1);
    board.stats.push(bound);
    board
}

fn sample_world() -> World {
    let mut world = World::default();
    world.name = "SAMPLE".to_string();
    world.ammo = 5;
    world.gems = -3;
    world.keys.red = true;
    world.keys.white = true;
    world.score = 1234;
    world.flags[0] = "SECRET".to_string();
    world.flags[9] = "LAST".to_string();
    world.time = 42;
    world.time_ticks = 7;
    world.boards.push(sample_board("Title screen"));
    world.boards.push(Board::default());
    world.boards.push(sample_board("Second"));
    world
}

#[test]
fn world_roundtrip() {
    let bytes = sample_world().to_bytes().unwrap();
    let world = World::from_bytes(&bytes).unwrap();
    let encoded = world.to_bytes().unwrap();
    assert_eq!(bytes, encoded);
}

#[test]
fn parse_roundtrip() {
    let mut world = sample_world();
    world.saved_game = true;
    world.boards.truncate(1);
    let bytes = world.to_bytes().unwrap();
    let decoded = World::from_bytes(&bytes).unwrap();
    assert_eq!(decoded.to_bytes().unwrap(), bytes);
    assert!(decoded.saved_game);
}

#[test]
fn decoded_world_keeps_fields() {
    let bytes = sample_world().to_bytes().unwrap();
    let world = World::from_bytes(&bytes).unwrap();
    assert_eq!(world.name, "SAMPLE");
    assert_eq!(world.ammo, 5);
    assert_eq!(world.gems, -3);
    assert!(world.keys.red && world.keys.white && !world.keys.blue);
    assert_eq!(world.health, 100);
    assert_eq!(world.score, 1234);
    assert_eq!(world.flags[0], "SECRET");
    assert_eq!(world.flags[1], "");
    assert_eq!(world.flags[9], "LAST");
    assert_eq!(world.time, 42);
    assert_eq!(world.time_ticks, 7);
    assert!(!world.saved_game);
    assert_eq!(world.boards.len(), 3);
    let board = &world.boards[0];
    assert_eq!(board.name, "Title screen");
    assert_eq!(board.max_shots, 3);
    assert!(board.is_dark);
    assert_eq!(board.exit_north, Some(2));
    assert_eq!(board.exit_south, None);
    assert_eq!(board.exit_west, None);
    assert_eq!(board.exit_east, Some(7));
    assert!(board.restart_on_zap);
    assert_eq!(board.message, "Hello, ☺");
    assert_eq!(board.enter_x, 10);
    assert_eq!(board.enter_y, 20);
    assert_eq!(board.time_limit, 300);
    assert_eq!(board.tile(1, 1), Tile { element: 22, color: 0x0e });
    assert_eq!(board.tile(31, 12), Tile { element: 36, color: 0x1f });
    assert_eq!(board.tile(2, 2), Tile::default());
    assert_eq!(board.stats.len(), 3);
    // in code, the symbol for byte 13 comes back as a line break
    assert_eq!(board.stats[1].program, Program::Own("@bob\n#end\n'comment \n".to_string()));
    assert_eq!(board.stats[1].x_step, -1);
    assert_eq!(board.stats[1].instruction_pointer, -1);
    assert_eq!(board.stats[2].program, Program::Bound(1));
    assert_eq!(world.boards[1].name, "");
    assert!(world.boards[1].stats.is_empty());
}

#[test]
fn world_header_layout() {
    let mut world = World::default();
    world.boards.push(Board::default());
    world.ammo = 0x0102;
    world.name = "AB".to_string();
    let bytes = world.to_bytes().unwrap();
    assert_eq!(&bytes[0..2], &[0xff, 0xff]);
    assert_eq!(&bytes[2..4], &[0, 0]);
    assert_eq!(&bytes[4..6], &[0x02, 0x01]);
    assert_eq!(&bytes[15..17], &[100, 0]);
    assert_eq!(&bytes[29..32], &[2, b'A', b'B']);
    assert_eq!(bytes.len(), 512 + 159);
    assert!(bytes[266..512].iter().all(|&b| b == 0));
}

#[test]
fn empty_board_layout() {
    let bytes = Board::default().to_bytes().unwrap();
    assert_eq!(bytes.len(), 159);
    assert_eq!(&bytes[0..2], &[157, 0]);
    assert_eq!(bytes[2], 0);
    // 1500 blank tiles: five runs of 255 and one of 225
    assert_eq!(&bytes[53..56], &[255, 0, 0]);
    assert_eq!(&bytes[68..71], &[225, 0, 0]);
    assert_eq!(bytes[71], 255);
    assert_eq!(&bytes[157..159], &[0xff, 0xff]);
    let board = Board::from_bytes(&bytes).unwrap();
    assert_eq!(board.to_bytes().unwrap(), bytes);
}

#[test]
fn default_stat_bytes() {
    let bytes = Stat::default().to_bytes().unwrap();
    let mut expected = vec![0u8; 33];
    expected[11] = 0xff;
    expected[12] = 0xff;
    expected[13] = 0xff;
    expected[14] = 0xff;
    expected[16] = 0x0f;
    assert_eq!(bytes, expected);
}

#[test]
fn stat_code_and_binding_bytes() {
    let bytes = sample_stat("#end\nX").to_bytes().unwrap();
    assert_eq!(bytes.len(), 33 + 6);
    assert_eq!(&bytes[23..25], &[6, 0]);
    assert_eq!(&bytes[33..], b"#end\rX");
    let mut bound = Stat::default();
    bound.program = Program::Bound(3);
    let bytes = bound.to_bytes().unwrap();
    assert_eq!(bytes.len(), 33);
    assert_eq!(&bytes[23..25], &[0xfd, 0xff]);
}

#[test]
fn brd_bytes_read_like_board_bytes() {
    let bytes = sample_board("Standalone").to_bytes().unwrap();
    let a = Board::from_brd_bytes(&bytes).unwrap();
    let b = Board::from_bytes(&bytes).unwrap();
    assert_eq!(a.to_bytes().unwrap(), b.to_bytes().unwrap());
    assert_eq!(a.name, "Standalone");
}

#[test]
fn tile_coordinates_are_one_based() {
    let mut board = Board::default();
    board.set_tile(1, 1, Tile { element: 1, color: 2 });
    board.set_tile(60, 25, Tile { element: 3, color: 4 });
    board.set_tile(2, 1, Tile { element: 5, color: 6 });
    assert_eq!(board.tiles[0], Tile { element: 1, color: 2 });
    assert_eq!(board.tiles[1], Tile { element: 5, color: 6 });
    assert_eq!(board.tiles[1499], Tile { element: 3, color: 4 });
    assert_eq!(board.tile(60, 25), Tile { element: 3, color: 4 });
    assert_eq!(board.tile(1, 2), Tile::default());
}

#[test]
fn bad_magic_is_rejected() {
    assert!(matches!(World::from_bytes(&[0x00, 0xff, 0, 0]), Err(DecodeError::InvalidMagic)));
    assert!(matches!(World::from_bytes(&[0xff]), Err(DecodeError::InvalidMagic)));
    assert!(matches!(World::from_bytes(&[]), Err(DecodeError::InvalidMagic)));
}

#[test]
fn truncated_world_is_rejected() {
    assert!(matches!(World::from_bytes(&[0xff, 0xff]), Err(DecodeError::UnexpectedEof)));
    let bytes = sample_world().to_bytes().unwrap();
    assert!(matches!(World::from_bytes(&bytes[..600]), Err(DecodeError::UnexpectedEof)));
    assert!(matches!(
        World::from_bytes(&bytes[..bytes.len() - 1]),
        Err(DecodeError::UnexpectedEof)
    ));
    assert!(matches!(Board::from_bytes(&[]), Err(DecodeError::UnexpectedEof)));
}

#[test]
fn overlong_terrain_is_rejected() {
    let mut bytes = vec![0u8; 2 + 51];
    for _ in 0..5 {
        bytes.extend_from_slice(&[255, 0, 0]);
    }
    bytes.extend_from_slice(&[255, 0, 0]);
    assert!(matches!(Board::from_bytes(&bytes), Err(DecodeError::InvalidTileCount(1501))));
}

#[test]
fn run_count_zero_means_256() {
    let mut bytes = vec![0u8; 2 + 51];
    for _ in 0..5 {
        bytes.extend_from_slice(&[0, 0, 0]);
    }
    // 5 * 256 = 1280 tiles so far; 220 remain, then a run of 256 overflows
    bytes.extend_from_slice(&[0, 0, 0]);
    assert!(matches!(Board::from_bytes(&bytes), Err(DecodeError::InvalidTileCount(1501))));
}

#[test]
fn negative_stat_count_is_rejected() {
    let mut bytes = Board::default().to_bytes().unwrap();
    let n = bytes.len();
    bytes[n - 2] = 0xfe;
    bytes[n - 1] = 0xff;
    assert!(matches!(Board::from_bytes(&bytes), Err(DecodeError::NegativeStatCount)));
}

#[test]
fn missing_stats_are_rejected() {
    let mut bytes = Board::default().to_bytes().unwrap();
    let n = bytes.len();
    bytes[n - 2] = 0;
    bytes[n - 1] = 0;
    assert!(matches!(Board::from_bytes(&bytes), Err(DecodeError::UnexpectedEof)));
}

#[test]
fn world_without_boards_is_rejected() {
    assert!(matches!(World::default().to_bytes(), Err(EncodeError::NoBoards)));
}

#[test]
fn long_texts_are_rejected() {
    let mut world = sample_world();
    world.name = "x".repeat(21);
    assert!(matches!(world.to_bytes(), Err(EncodeError::StringTooLong { max: 20 })));
    let mut world = sample_world();
    world.flags[3] = "y".repeat(21);
    assert!(matches!(world.to_bytes(), Err(EncodeError::StringTooLong { max: 20 })));
    let mut board = Board::default();
    board.name = "n".repeat(51);
    assert!(matches!(board.to_bytes(), Err(EncodeError::StringTooLong { max: 50 })));
    let mut board = Board::default();
    board.message = "m".repeat(59);
    assert!(matches!(board.to_bytes(), Err(EncodeError::StringTooLong { max: 58 })));
    let mut board = Board::default();
    board.name = "n".repeat(50);
    board.message = "m".repeat(58);
    assert!(board.to_bytes().is_ok());
}

#[test]
fn unencodable_text_is_rejected() {
    let mut world = sample_world();
    world.name = "ź".to_string();
    assert!(matches!(world.to_bytes(), Err(EncodeError::EncodingError('ź'))));
    let mut board = Board::default();
    board.stats.push(sample_stat("ok\nnot ok: ą"));
    assert!(matches!(board.to_bytes(), Err(EncodeError::EncodingError('ą'))));
    let mut board = Board::default();
    board.message = "a\nb".to_string();
    assert!(matches!(board.to_bytes(), Err(EncodeError::EncodingError('\n'))));
}

#[test]
fn oversized_board_is_rejected() {
    let mut board = Board::default();
    board.stats.push(sample_stat(&"#".repeat(30000)));
    board.stats.push(sample_stat(&"#".repeat(30000)));
    assert!(board.to_bytes().is_ok());
    board.stats.push(sample_stat(&"#".repeat(30000)));
    assert!(matches!(board.to_bytes(), Err(EncodeError::BoardTooLarge)));
    let mut world = World::default();
    world.boards.push(board);
    assert!(matches!(world.to_bytes(), Err(EncodeError::BoardTooLarge)));
}

#[test]
fn board_bytes_trailing_data_is_ignored() {
    let mut bytes = sample_board("Extra").to_bytes().unwrap();
    let expected = bytes.clone();
    bytes.extend_from_slice(&[1, 2, 3]);
    let board = Board::from_bytes(&bytes).unwrap();
    assert_eq!(board.to_bytes().unwrap(), expected);
}

#[test]
fn new_world_with_player() {
    let mut world = World::default();
    world.name = "HELLO".into();
    let mut board = Board::default();
    board.set_tile(30, 12, Tile { element: zztff::Element::Player.id(), color: 0x1f });
    board.stats.push(Stat { x: 30, y: 12, cycle: 1, ..Stat::default() });
    world.boards.push(board);
    let bytes = world.to_bytes().unwrap();
    let back = World::from_bytes(&bytes).unwrap();
    assert_eq!(back.name, "HELLO");
    assert_eq!(back.boards.len(), 1);
    assert_eq!(back.boards[0].tile(30, 12), Tile { element: 4, color: 0x1f });
    assert_eq!(back.boards[0].stats[0].cycle, 1);
    assert_eq!(&bytes[2..4], &[0, 0]);
}

#[test]
fn text_errors_come_before_missing_boards() {
    let mut world = World::default();
    world.name = "x".repeat(21);
    assert!(matches!(world.to_bytes(), Err(EncodeError::StringTooLong { max: 20 })));
    let mut world = World::default();
    world.flags[9] = "y".repeat(21);
    assert!(matches!(world.to_bytes(), Err(EncodeError::StringTooLong { max: 20 })));
    let mut world = World::default();
    world.name = "ź".to_string();
    assert!(matches!(world.to_bytes(), Err(EncodeError::EncodingError('ź'))));
    let mut world = World::default();
    world.name = "ok".to_string();
    assert!(matches!(world.to_bytes(), Err(EncodeError::NoBoards)));
}

#[test]
fn world_trailing_data_is_ignored() {
    let mut bytes = sample_world().to_bytes().unwrap();
    let expected = bytes.clone();
    bytes.extend_from_slice(&[9, 9, 9, 9]);
    let world = World::from_bytes(&bytes).unwrap();
    assert_eq!(world.to_bytes().unwrap(), expected);
}

#[test]
fn header_padding_is_ignored() {
    let bytes = sample_world().to_bytes().unwrap();
    let mut changed = bytes.clone();
    for b in &mut changed[265..512] {
        *b = 0x5a;
    }
    let a = World::from_bytes(&bytes).unwrap();
    let b = World::from_bytes(&changed).unwrap();
    assert_eq!(a.to_bytes().unwrap(), b.to_bytes().unwrap());
    assert_eq!(b.to_bytes().unwrap(), bytes);
}
