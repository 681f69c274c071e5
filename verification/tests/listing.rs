use zztff::{board_to_text, world_to_text, Board, Program, Stat, Tile, World};

fn blank_grid() -> String {
    let row = format!("{}\n", "00".repeat(60));
    let half = row.repeat(25);
    format!("{}\n{}", half, half)
}

#[test]
fn default_board_listing() {
    let expected = format!(
        "[board 0]\ntitle = \"\"\n\n{}\nshots = 255\nenter_x = 1\nenter_y = 1\n",
        blank_grid()
    );
    assert_eq!(board_to_text(&Board::default()), expected);
}

#[test]
fn default_world_listing() {
    let mut world = World::default();
    world.boards.push(Board::default());
    world.boards.push(Board::default());
    let board = format!(
        "title = \"\"\n\n{}\nshots = 255\nenter_x = 1\nenter_y = 1\n",
        blank_grid()
    );
    let expected = format!("[world]\nname = \"\"\n\n[board 0]\n{}\n[board 1]\n{}", board, board);
    assert_eq!(world_to_text(&world), expected);
}

#[test]
fn world_header_fields() {
    let mut world = World::default();
    world.name = "Town \"of\" ZZT".to_string();
    world.health = 50;
    world.ammo = -2;
    world.gems = 3;
    world.torches = 4;
    world.score = 5;
    world.keys.blue = true;
    world.keys.red = true;
    world.keys.white = true;
    world.starting_board = 6;
    world.saved_game = true;
    world.flags[0] = "A".to_string();
    world.flags[2] = "C".to_string();
    world.torch_cycles = 7;
    world.energizer_cycles = 8;
    world.time = 9;
    world.time_ticks = 10;
    let expected = "[world]\n\
        name = \"Town \\\"of\\\" ZZT\"\n\
        health = 50\n\
        ammo = -2\n\
        gems = 3\n\
        torches = 4\n\
        score = 5\n\
        keys = \"brw\"\n\
        starting_board = 6\n\
        saved_game = true\n\
        flags = [\"A\", \"\", \"C\"]\n\
        torch_cycles = 7\n\
        energizer_cycles = 8\n\
        time = 9\n\
        time_ticks = 10\n";
    assert_eq!(world_to_text(&world), expected);
}

#[test]
fn board_settings_and_stats() {
    let mut board = Board::default();
    board.name = "Hall".to_string();
    board.max_shots = 0;
    board.is_dark = true;
    board.exit_north = Some(1);
    board.exit_west = Some(4);
    board.exit_east = Some(3);
    board.restart_on_zap = true;
    board.time_limit = -5;
    board.enter_x = 0;
    board.enter_y = 9;
    board.message = "say \"hi\"".to_string();
    board.set_tile(30, 12, Tile { element: 36, color: 0x1f });
    board.set_tile(1, 1, Tile { element: 0x2e, color: 0xab });
    let mut object = Stat::default();
    object.x = 30;
    object.y = 12;
    object.cycle = 3;
    object.x_step = -1;
    object.y_step = 1;
    object.under = Tile { element: 0, color: 0 };
    object.follower = 2;
    object.leader = -1;
    object.instruction_pointer = -1;
    object.p1 = 4;
    object.p3 = 6;
    object.program = Program::Own("@bob\n#end".to_string());
    let mut unknown = Stat::default();
    unknown.x = 1;
    unknown.y = 1;
    unknown.p2 = 9;
    unknown.program = Program::Own("#end\n".to_string());
    let mut bound = Stat::default();
    bound.x = 61;
    bound.y = 1;
    bound.program = Program::Bound(1);
    board.stats.push(object);
    board.stats.push(unknown);
    board.stats.push(bound);

    let text = board_to_text(&board);
    let (head, rest) = text.split_once("\n\n").unwrap();
    assert_eq!(head, "[board 0]\ntitle = \"Hall\"");
    let first_row = rest.lines().next().unwrap();
    assert_eq!(&first_row[0..4], "2e00");
    assert_eq!(rest.lines().nth(11).unwrap(), &format!("{}24{}", "00".repeat(29), "00".repeat(30)));
    assert_eq!(&rest.lines().nth(26).unwrap()[0..4], "ab00");
    let settings_start = text.find("dark = true").unwrap();
    let expected_tail = "dark = true\n\
        exit_n = 1\n\
        exit_e = 3\n\
        exit_w = 4\n\
        reenter = true\n\
        time_limit = -5\n\
        enter_y = 9\n\
        message = \"say \\\"hi\\\"\"\n\
        \n\
        [stat 0] # object\n\
        x = 30\n\
        y = 12\n\
        cycle = 3\n\
        x_step = -1\n\
        y_step = 1\n\
        follower = 2\n\
        instruction_pointer = -1\n\
        char = 4\n\
        p3 = 6\n\
        code = \"\"\"\n\
        @bob\n\
        #end\n\
        \"\"\"\n\
        \n\
        [stat 1] # unknown (46)\n\
        x = 1\n\
        y = 1\n\
        under = (0, 15)\n\
        p2 = 9\n\
        code = \"\"\"\n\
        #end\n\
        \"\"\"\n\
        \n\
        [stat 2] # off-board\n\
        x = 61\n\
        y = 1\n\
        under = (0, 15)\n\
        bind = 1\n";
    assert_eq!(&text[settings_start..], expected_tail);
    assert!(!text.contains("shots"));
}

#[test]
fn stat_on_known_element_uses_aliases() {
    let mut board = Board::default();
    board.set_tile(5, 5, Tile { element: 42, color: 0x0b });
    let mut tiger = Stat::default();
    tiger.x = 5;
    tiger.y = 5;
    tiger.p1 = 1;
    tiger.p2 = 2;
    tiger.p3 = 3;
    board.stats.push(tiger);
    let text = board_to_text(&board);
    assert!(text.ends_with(
        "[stat 0] # tiger\nx = 5\ny = 5\nunder = (0, 15)\nintelligence = 1\nfiring_rate = 2\nfiring_type = 3\n"
    ));
}

#[test]
fn world_listing_is_header_then_renumbered_boards() {
    let mut world = World::default();
    world.name = "W".to_string();
    let mut first = Board::default();
    first.name = "One".to_string();
    let mut second = Board::default();
    second.name = "Two".to_string();
    second.is_dark = true;
    world.boards.push(first.clone());
    world.boards.push(second.clone());
    let mut header_only = world.clone();
    header_only.boards.clear();
    let header = world_to_text(&header_only);
    let second_text = board_to_text(&second);
    assert!(second_text.starts_with("[board 0]\n"));
    let expected = format!(
        "{}\n{}\n[board 1]{}",
        header,
        board_to_text(&first),
        &second_text["[board 0]".len()..]
    );
    assert_eq!(world_to_text(&world), expected);
}
