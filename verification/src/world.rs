use vstd::prelude::*;

verus! {

/// A data structure representing a ZZT world.
///
/// ZZT uses the same format for both worlds proper (.ZZT files) and their saved games (.SAV);
/// saved games are snapshots of the world state after it has been played in. To create a new
/// world it is safe to start from `World::default()`; only [`World::name`] needs another value.
#[derive(Clone, Debug)]
pub struct World {
    /// Value of the `ammo` counter.
    pub ammo: i16,
    /// Value of the `gems` counter.
    pub gems: i16,
    /// Which keys the player is carrying.
    pub keys: Keys,
    /// Value of the `health` counter.
    pub health: i16,
    /// Index of the board the player starts on (for a saved game: the board the player is on).
    pub starting_board: i16,
    /// Value of the `torches` counter.
    pub torches: i16,
    /// Remaining cycles of torch light (0 = torch not active).
    pub torch_cycles: i16,
    /// Remaining cycles of energizer effect (0 = not active).
    pub energizer_cycles: i16,
    /// Value of the `score` counter.
    pub score: i16,
    /// Stem of the world's filename, e.g. "TOWN" for TOWN.ZZT (max 20 characters).
    pub name: String,
    /// Named flags set by ZZT-OOP `#set` commands (max 20 characters each); empty strings are
    /// unused slots.
    pub flags: [String; 10],
    /// Value of the `time` counter.
    pub time: i16,
    /// Sub-second state for the `time` countdown.
    pub time_ticks: i16,
    /// Whether this file is a saved game (.SAV) rather than a world file (.ZZT).
    pub saved_game: bool,
    /// The boards in this world. A world needs at least one board (the title screen); ZZT 3.2
    /// itself supports at most 101.
    pub boards: Vec<Board>,
}

/// The player's keys, as stored in the world header.
#[derive(Clone, Copy, Debug, PartialEq, Eq, Structural)]
pub struct Keys {
    pub blue: bool,
    pub green: bool,
    pub cyan: bool,
    pub red: bool,
    pub purple: bool,
    pub yellow: bool,
    pub white: bool,
}

/// An individual ZZT board, as found inside a world or in a standalone .BRD file.
#[derive(Clone, Debug)]
pub struct Board {
    /// The board's title (max 50 characters).
    pub name: String,
    /// The 60x25 terrain grid, left-to-right, top-to-bottom.
    pub tiles: [Tile; 1500],
    /// Maximum number of bullets the player can have on screen at once on this board.
    pub max_shots: u8,
    /// Whether the board is dark.
    pub is_dark: bool,
    /// Board index of the northern neighbor, or `None` for no exit. The file stores "no exit"
    /// as 0, so `Some(0)` is written as `None`.
    pub exit_north: Option<u8>,
    /// Board index of the southern neighbor, or `None` for no exit.
    pub exit_south: Option<u8>,
    /// Board index of the western neighbor, or `None` for no exit.
    pub exit_west: Option<u8>,
    /// Board index of the eastern neighbor, or `None` for no exit.
    pub exit_east: Option<u8>,
    /// Whether the player restarts at the board entrance after taking damage.
    pub restart_on_zap: bool,
    /// The currently-flashing status bar message (max 58 characters).
    pub message: String,
    /// X coordinate where the player entered the board (1-based).
    pub enter_x: u8,
    /// Y coordinate where the player entered the board (1-based).
    pub enter_y: u8,
    /// Time limit for the board in seconds (0 = no limit).
    pub time_limit: i16,
    /// Status elements on this board (objects, creatures, the player, etc.).
    pub stats: Vec<Stat>,
}

/// A status element on a ZZT board: extra data for the tile at its coordinates.
#[derive(Debug, Clone)]
pub struct Stat {
    /// X coordinate of the stat's tile (1-based).
    pub x: u8,
    /// Y coordinate of the stat's tile (1-based).
    pub y: u8,
    /// Horizontal step delta.
    pub x_step: i16,
    /// Vertical step delta.
    pub y_step: i16,
    /// How often this stat is updated, in game ticks.
    pub cycle: i16,
    /// Element-specific parameter 1.
    pub p1: u8,
    /// Element-specific parameter 2.
    pub p2: u8,
    /// Element-specific parameter 3.
    pub p3: u8,
    /// Index of the following stat in a centipede chain, or -1 if none.
    pub follower: i16,
    /// Index of the leading stat in a centipede chain, or -1 if none.
    pub leader: i16,
    /// The tile that is underneath this stat.
    pub under: Tile,
    /// Current position in an object's ZZT-OOP program (-1: halted).
    pub instruction_pointer: i16,
    /// The stat's ZZT-OOP program, if any.
    pub program: Program,
}

/// A single tile on a ZZT board.
#[derive(Debug, Clone, Copy, PartialEq, Eq, Structural)]
pub struct Tile {
    pub element: u8,
    pub color: u8,
}

/// A stat's ZZT-OOP program: either its own code or a binding to another stat's code.
#[derive(Debug, Clone, PartialEq, Eq)]
pub enum Program {
    /// The stat owns its own code.
    Own(String),
    /// The stat is bound to another stat (index into the stats list, never 0).
    Bound(u16),
}

impl Default for Keys {
    fn default() -> (k: Keys)
        ensures
            !k.blue && !k.green && !k.cyan && !k.red && !k.purple && !k.yellow && !k.white,
    {
        Keys {
            blue: false,
            green: false,
            cyan: false,
            red: false,
            purple: false,
            yellow: false,
            white: false,
        }
    }
}

impl Default for Tile {
    fn default() -> (t: Tile)
        ensures
            t.element == 0 && t.color == 0,
    {
        Tile { element: 0, color: 0 }
    }
}

impl Default for Program {
    fn default() -> (p: Program)
        ensures
            p@ == ProgramView::Own(Seq::empty()),
    {
        Program::Own(String::new())
    }
}

impl Default for Stat {
    fn default() -> (s: Stat)
        ensures
            s@ == (StatView {
                x: 0,
                y: 0,
                x_step: 0,
                y_step: 0,
                cycle: 0,
                p1: 0,
                p2: 0,
                p3: 0,
                follower: -1i16,
                leader: -1i16,
                under: Tile { element: 0, color: 0x0f },
                instruction_pointer: 0,
                program: ProgramView::Own(Seq::empty()),
            }),
    {
        Stat {
            x: 0,
            y: 0,
            x_step: 0,
            y_step: 0,
            cycle: 0,
            p1: 0,
            p2: 0,
            p3: 0,
            follower: -1,
            leader: -1,
            under: Tile { element: 0, color: 0x0f },
            instruction_pointer: 0,
            program: Program::Own(String::new()),
        }
    }
}

impl Default for Board {
    fn default() -> (b: Board)
        ensures
            b@ == (BoardView {
                name: Seq::empty(),
                tiles: Seq::new(1500, |i: int| Tile { element: 0, color: 0 }),
                max_shots: 255,
                is_dark: false,
                exit_north: None,
                exit_south: None,
                exit_west: None,
                exit_east: None,
                restart_on_zap: false,
                message: Seq::empty(),
                enter_x: 1,
                enter_y: 1,
                time_limit: 0,
                stats: Seq::empty(),
            }),
    {
        let b = Board {
            name: String::new(),
            tiles: [Tile { element: 0, color: 0 }; 1500],
            max_shots: 255,
            is_dark: false,
            exit_north: None,
            exit_south: None,
            exit_west: None,
            exit_east: None,
            restart_on_zap: false,
            message: String::new(),
            enter_x: 1,
            enter_y: 1,
            time_limit: 0,
            stats: Vec::new(),
        };
        assert(b@.tiles =~= Seq::new(1500, |i: int| Tile { element: 0, color: 0 }));
        assert(b@.stats =~= Seq::<StatView>::empty());
        b
    }
}

impl Default for World {
    fn default() -> (w: World)
        ensures
            w@ == (WorldView {
                ammo: 0,
                gems: 0,
                keys: Keys {
                    blue: false,
                    green: false,
                    cyan: false,
                    red: false,
                    purple: false,
                    yellow: false,
                    white: false,
                },
                health: 100,
                starting_board: 0,
                torches: 0,
                torch_cycles: 0,
                energizer_cycles: 0,
                score: 0,
                name: Seq::empty(),
                flags: Seq::new(10, |i: int| Seq::<char>::empty()),
                time: 0,
                time_ticks: 0,
                saved_game: false,
                boards: Seq::empty(),
            }),
    {
        let w = World {
            ammo: 0,
            gems: 0,
            keys: Keys {
                blue: false,
                green: false,
                cyan: false,
                red: false,
                purple: false,
                yellow: false,
                white: false,
            },
            health: 100,
            starting_board: 0,
            torches: 0,
            torch_cycles: 0,
            energizer_cycles: 0,
            score: 0,
            name: String::new(),
            flags: [
                String::new(),
                String::new(),
                String::new(),
                String::new(),
                String::new(),
                String::new(),
                String::new(),
                String::new(),
                String::new(),
                String::new(),
            ],
            time: 0,
            time_ticks: 0,
            saved_game: false,
            boards: Vec::new(),
        };
        assert(w@.flags =~= Seq::new(10, |i: int| Seq::<char>::empty()));
        assert(w@.boards =~= Seq::<BoardView>::empty());
        w
    }
}

/// Index into the terrain array of the 1-based coordinates (x, y).
pub open spec fn tile_index(x: int, y: int) -> int {
    (y - 1) * 60 + (x - 1)
}

impl Board {
    /// Get the tile at the specified coordinates, using ZZT's 1-based coordinates: (1, 1) is
    /// the top-left corner. The coordinates must lie in the 60x25 terrain area.
    pub fn tile(&self, x: usize, y: usize) -> (t: Tile)
        requires
            1 <= x <= 60,
            1 <= y <= 25,
        ensures
            t == self.tiles@[tile_index(x as int, y as int)],
    {
        self.tiles[(y - 1) * 60 + (x - 1)]
    }

    /// Set the tile at the specified coordinates, using ZZT's 1-based coordinates. The
    /// coordinates must lie in the 60x25 terrain area; nothing else changes.
    pub fn set_tile(&mut self, x: usize, y: usize, tile: Tile)
        requires
            1 <= x <= 60,
            1 <= y <= 25,
        ensures
            final(self)@ == (BoardView {
                tiles: old(self)@.tiles.update(tile_index(x as int, y as int), tile),
                ..old(self)@
            }),
    {
        self.tiles[(y - 1) * 60 + (x - 1)] = tile;
    }
}

/// Reading a tile after setting one: the position that was set gives the new tile, and
/// every other position of the 60x25 area keeps its old tile.
pub proof fn lemma_tile_after_set_tile(b: BoardView, x: int, y: int, tile: Tile, x2: int, y2: int)
    requires
        b.tiles.len() == 1500,
        1 <= x <= 60,
        1 <= y <= 25,
        1 <= x2 <= 60,
        1 <= y2 <= 25,
    ensures
        b.tiles.update(tile_index(x, y), tile)[tile_index(x2, y2)] == (if x2 == x && y2 == y {
            tile
        } else {
            b.tiles[tile_index(x2, y2)]
        }),
{
    assert(0 <= tile_index(x2, y2) < 1500);
    if x2 != x || y2 != y {
        assert(tile_index(x2, y2) != tile_index(x, y));
    }
}

/// The contents of a [`Program`].
pub enum ProgramView {
    Own(Seq<char>),
    Bound(u16),
}

/// The contents of a [`Stat`].
pub struct StatView {
    pub x: u8,
    pub y: u8,
    pub x_step: i16,
    pub y_step: i16,
    pub cycle: i16,
    pub p1: u8,
    pub p2: u8,
    pub p3: u8,
    pub follower: i16,
    pub leader: i16,
    pub under: Tile,
    pub instruction_pointer: i16,
    pub program: ProgramView,
}

/// The contents of a [`Board`].
pub struct BoardView {
    pub name: Seq<char>,
    pub tiles: Seq<Tile>,
    pub max_shots: u8,
    pub is_dark: bool,
    pub exit_north: Option<u8>,
    pub exit_south: Option<u8>,
    pub exit_west: Option<u8>,
    pub exit_east: Option<u8>,
    pub restart_on_zap: bool,
    pub message: Seq<char>,
    pub enter_x: u8,
    pub enter_y: u8,
    pub time_limit: i16,
    pub stats: Seq<StatView>,
}

/// The contents of a [`World`].
pub struct WorldView {
    pub ammo: i16,
    pub gems: i16,
    pub keys: Keys,
    pub health: i16,
    pub starting_board: i16,
    pub torches: i16,
    pub torch_cycles: i16,
    pub energizer_cycles: i16,
    pub score: i16,
    pub name: Seq<char>,
    pub flags: Seq<Seq<char>>,
    pub time: i16,
    pub time_ticks: i16,
    pub saved_game: bool,
    pub boards: Seq<BoardView>,
}

impl View for Program {
    type V = ProgramView;

    open spec fn view(&self) -> ProgramView {
        match self {
            Program::Own(code) => ProgramView::Own(code@),
            Program::Bound(index) => ProgramView::Bound(*index),
        }
    }
}

impl View for Stat {
    type V = StatView;

    open spec fn view(&self) -> StatView {
        StatView {
            x: self.x,
            y: self.y,
            x_step: self.x_step,
            y_step: self.y_step,
            cycle: self.cycle,
            p1: self.p1,
            p2: self.p2,
            p3: self.p3,
            follower: self.follower,
            leader: self.leader,
            under: self.under,
            instruction_pointer: self.instruction_pointer,
            program: self.program@,
        }
    }
}

impl View for Board {
    type V = BoardView;

    open spec fn view(&self) -> BoardView {
        BoardView {
            name: self.name@,
            tiles: self.tiles@,
            max_shots: self.max_shots,
            is_dark: self.is_dark,
            exit_north: self.exit_north,
            exit_south: self.exit_south,
            exit_west: self.exit_west,
            exit_east: self.exit_east,
            restart_on_zap: self.restart_on_zap,
            message: self.message@,
            enter_x: self.enter_x,
            enter_y: self.enter_y,
            time_limit: self.time_limit,
            stats: self.stats@.map_values(|s: Stat| s@),
        }
    }
}

impl View for World {
    type V = WorldView;

    open spec fn view(&self) -> WorldView {
        WorldView {
            ammo: self.ammo,
            gems: self.gems,
            keys: self.keys,
            health: self.health,
            starting_board: self.starting_board,
            torches: self.torches,
            torch_cycles: self.torch_cycles,
            energizer_cycles: self.energizer_cycles,
            score: self.score,
            name: self.name@,
            flags: self.flags@.map_values(|s: String| s@),
            time: self.time,
            time_ticks: self.time_ticks,
            saved_game: self.saved_game,
            boards: self.boards@.map_values(|b: Board| b@),
        }
    }
}

} // verus!
