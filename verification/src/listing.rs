use vstd::prelude::*;

use crate::chars::{decimal, push_char, push_decimal, push_signed, signed_decimal, str_chars};
use crate::elements::{
    element_from_id, element_name, element_name_text, p1_alias_spec, p2_alias_spec,
    p3_alias_spec, opt_str_view, Element,
};
use crate::encode::exit_byte;
use crate::world::{Board, BoardView, Keys, Program, ProgramView, Stat, StatView, Tile, World, WorldView};

verus! {

/// The text that Rust's `Debug` formatting gives a string: quoted, with escapes.
pub uninterp spec fn debug_str(s: Seq<char>) -> Seq<char>;

/// A character that `Debug` formatting of a string copies unchanged: printable ASCII other
/// than the double quote and the backslash.
pub open spec fn plain_char(c: char) -> bool {
    ' ' <= c <= '~' && c != '"' && c != '\\'
}

/// `format!("{:?}", s)`: the `Debug` form of a string slice.
///
/// Trusted: the result is named `debug_str(s)`; for text made only of printable ASCII other
/// than `"` and `\`, which `char::escape_debug` leaves alone, it is the text in double quotes.
#[verifier::external_body]
fn debug_quote(s: &str) -> (r: String)
    ensures
        r@ == debug_str(s@),
        (forall|i: int| 0 <= i < s@.len() ==> plain_char(#[trigger] s@[i])) ==> r@ == seq!['"']
            + s@ + seq!['"'],
{
    format!("{:?}", s)
}

/// The character of a hexadecimal digit, in lower case.
pub open spec fn hex_digit(d: nat) -> char {
    if d < 10 {
        (d + 48) as char
    } else {
        (d + 87) as char
    }
}

/// A byte as two lower-case hexadecimal digits.
#[verifier::opaque]
pub open spec fn hex2(b: u8) -> Seq<char> {
    seq![hex_digit(b as nat / 16), hex_digit(b as nat % 16)]
}

/// A line `key = value`, present only when the value differs from its default.
#[verifier::opaque]
pub open spec fn kv_text(key: Seq<char>, val: int, default: int) -> Seq<char> {
    if val != default {
        key + " = "@ + signed_decimal(val) + "\n"@
    } else {
        Seq::empty()
    }
}

/// A line `key = true`, present only when the flag is set.
#[verifier::opaque]
pub open spec fn flag_text(key: Seq<char>, val: bool) -> Seq<char> {
    if val {
        key + " = true\n"@
    } else {
        Seq::empty()
    }
}

/// A one-character text if the condition holds, else nothing.
pub open spec fn char_if(b: bool, c: char) -> Seq<char> {
    if b {
        seq![c]
    } else {
        Seq::empty()
    }
}

/// The keys the player holds, one letter each in the order blue, green, cyan, red, purple,
/// yellow, white.
#[verifier::opaque]
pub open spec fn keys_text(k: Keys) -> Seq<char> {
    char_if(k.blue, 'b') + char_if(k.green, 'g') + char_if(k.cyan, 'c') + char_if(k.red, 'r')
        + char_if(k.purple, 'p') + char_if(k.yellow, 'y') + char_if(k.white, 'w')
}

/// The index of the last non-empty flag among the first `n`, or -1.
pub open spec fn last_nonempty(f: Seq<Seq<char>>, n: int) -> int
    decreases n,
{
    if n <= 0 {
        -1
    } else if f[n - 1].len() > 0 {
        n - 1
    } else {
        last_nonempty(f, n - 1)
    }
}

/// The first `n` flags in their `Debug` forms, separated by ", ".
#[verifier::opaque]
pub open spec fn flag_list(f: Seq<Seq<char>>, n: nat) -> Seq<char>
    decreases n,
{
    if n == 0 {
        Seq::empty()
    } else if n == 1 {
        debug_str(f[0])
    } else {
        flag_list(f, (n - 1) as nat) + ", "@ + debug_str(f[n - 1])
    }
}

/// The line that lists the flags up to the last non-empty one, if any flag is set.
#[verifier::opaque]
pub open spec fn flags_text(f: Seq<Seq<char>>) -> Seq<char> {
    let last = last_nonempty(f, f.len() as int);
    if last < 0 {
        Seq::empty()
    } else {
        "flags = ["@ + flag_list(f, (last + 1) as nat) + "]\n"@
    }
}

/// The first lines of a world's header: the section name and the world's name.
#[verifier::opaque]
pub open spec fn header_title(w: WorldView) -> Seq<char> {
    "[world]\n"@ + "name = "@ + debug_str(w.name) + "\n"@
}

/// The counters of a world's header that differ from their defaults.
#[verifier::opaque]
pub open spec fn header_counters(w: WorldView) -> Seq<char> {
    kv_text("health"@, w.health as int, 100) + kv_text("ammo"@, w.ammo as int, 0) + kv_text(
        "gems"@,
        w.gems as int,
        0,
    ) + kv_text("torches"@, w.torches as int, 0) + kv_text("score"@, w.score as int, 0)
}

/// The keys line (when the player holds any key) and the starting board.
#[verifier::opaque]
pub open spec fn header_keys(w: WorldView) -> Seq<char> {
    (if keys_text(w.keys).len() > 0 {
        "keys = "@ + debug_str(keys_text(w.keys)) + "\n"@
    } else {
        Seq::empty()
    }) + kv_text("starting_board"@, w.starting_board as int, 0) + flag_text(
        "saved_game"@,
        w.saved_game,
    )
}

/// The timers of a world's header that differ from their defaults.
#[verifier::opaque]
pub open spec fn header_timers(w: WorldView) -> Seq<char> {
    kv_text("torch_cycles"@, w.torch_cycles as int, 0) + kv_text(
        "energizer_cycles"@,
        w.energizer_cycles as int,
        0,
    ) + kv_text("time"@, w.time as int, 0) + kv_text("time_ticks"@, w.time_ticks as int, 0)
}

/// The text of a world's header.
#[verifier::opaque]
pub open spec fn world_header_text(w: WorldView) -> Seq<char> {
    header_title(w) + header_counters(w) + header_keys(w) + flags_text(w.flags) + header_timers(w)
}

/// One tile's element or color byte.
pub open spec fn tile_byte(t: Tile, elements: bool) -> u8 {
    if elements {
        t.element
    } else {
        t.color
    }
}

/// The first `c` cells of a terrain row, two hex digits each.
#[verifier::opaque]
pub open spec fn cells_text(t: Seq<Tile>, elements: bool, row: int, c: nat) -> Seq<char>
    decreases c,
{
    if c == 0 {
        Seq::empty()
    } else {
        cells_text(t, elements, row, (c - 1) as nat) + hex2(tile_byte(t[row * 60 + c - 1], elements))
    }
}

/// The first `r` rows of a terrain grid, 60 cells and a line break each.
#[verifier::opaque]
pub open spec fn rows_text(t: Seq<Tile>, elements: bool, r: nat) -> Seq<char>
    decreases r,
{
    if r == 0 {
        Seq::empty()
    } else {
        rows_text(t, elements, (r - 1) as nat) + cells_text(t, elements, r - 1, 60) + "\n"@
    }
}

/// A board's terrain as two 60x25 grids of hex bytes, elements then colors, with a blank
/// line between them.
#[verifier::opaque]
pub open spec fn terrain_text(t: Seq<Tile>) -> Seq<char> {
    rows_text(t, true, 25) + "\n"@ + rows_text(t, false, 25)
}

/// The element at 1-based coordinates, or `None` off the 60x25 board.
pub open spec fn element_at(b: BoardView, x: u8, y: u8) -> Option<u8> {
    if x == 0 || y == 0 || x > 60 || y > 25 {
        None
    } else {
        Some(b.tiles[(y - 1) * 60 + (x - 1)].element)
    }
}

/// A parameter line under its alias or generic name, present only when non-zero.
#[verifier::opaque]
pub open spec fn param_text(value: u8, generic: Seq<char>, alias: Option<Seq<char>>) -> Seq<char> {
    if value == 0 {
        Seq::empty()
    } else {
        (match alias {
            Some(a) => a,
            None => generic,
        }) + " = "@ + decimal(value as nat) + "\n"@
    }
}

/// The comment that names what a stat stands on.
pub open spec fn element_comment(element: Option<u8>) -> Seq<char> {
    match element {
        Some(id) => element_name_text(id),
        None => "off-board"@,
    }
}

/// The element a stat stands on, if the number is a known element.
pub open spec fn known_element(element: Option<u8>) -> Option<Element> {
    match element {
        Some(id) => element_from_id(id),
        None => None,
    }
}

/// An alias looked up through an optional element.
pub open spec fn alias_of(e: Option<Element>, which: int) -> Option<Seq<char>> {
    match e {
        Some(el) => if which == 1 {
            p1_alias_spec(el)
        } else if which == 2 {
            p2_alias_spec(el)
        } else {
            p3_alias_spec(el)
        },
        None => None,
    }
}

/// The first lines of a stat: its header with the element comment and its coordinates.
#[verifier::opaque]
pub open spec fn stat_title(index: nat, st: StatView, element: Option<u8>) -> Seq<char> {
    "[stat "@ + decimal(index) + "] # "@ + element_comment(element) + "\n"@ + "x = "@ + decimal(
        st.x as nat,
    ) + "\n"@ + "y = "@ + decimal(st.y as nat) + "\n"@
}

/// The stat's movement and chain fields that differ from their defaults, and the tile under
/// it unless that is element 0 with color 0.
#[verifier::opaque]
pub open spec fn stat_fields(st: StatView) -> Seq<char> {
    kv_text("cycle"@, st.cycle as int, 0) + kv_text("x_step"@, st.x_step as int, 0) + kv_text(
        "y_step"@,
        st.y_step as int,
        0,
    ) + (if st.under.element != 0 || st.under.color != 0 {
        "under = ("@ + decimal(st.under.element as nat) + ", "@ + decimal(st.under.color as nat)
            + ")\n"@
    } else {
        Seq::empty()
    }) + kv_text("follower"@, st.follower as int, -1) + kv_text("leader"@, st.leader as int, -1)
        + kv_text("instruction_pointer"@, st.instruction_pointer as int, 0)
}

/// The stat's parameters, under their aliases for the element it stands on.
#[verifier::opaque]
pub open spec fn stat_params(st: StatView, element: Option<u8>) -> Seq<char> {
    let e = known_element(element);
    param_text(st.p1, "p1"@, alias_of(e, 1)) + param_text(st.p2, "p2"@, alias_of(e, 2))
        + param_text(st.p3, "p3"@, alias_of(e, 3))
}

/// The stat's program: its own non-empty code between triple quotes (ending in a line
/// break), or the stat it is bound to.
#[verifier::opaque]
pub open spec fn program_text(p: ProgramView) -> Seq<char> {
    match p {
        ProgramView::Own(code) => if code.len() > 0 {
            "code = \"\"\"\n"@ + code + (if code.last() != '\n' {
                "\n"@
            } else {
                Seq::empty()
            }) + "\"\"\"\n"@
        } else {
            Seq::empty()
        },
        ProgramView::Bound(index) => "bind = "@ + decimal(index as nat) + "\n"@,
    }
}

/// The text of a stat.
#[verifier::opaque]
pub open spec fn stat_text(index: nat, st: StatView, element: Option<u8>) -> Seq<char> {
    stat_title(index, st, element) + stat_fields(st) + stat_params(st, element) + program_text(
        st.program,
    )
}

/// The first lines of a board: its section header, its title and a blank line.
#[verifier::opaque]
pub open spec fn board_title(index: nat, b: BoardView) -> Seq<char> {
    "[board "@ + decimal(index) + "]\n"@ + "title = "@ + debug_str(b.name) + "\n"@ + "\n"@
}

/// The board's settings that differ from their defaults.
#[verifier::opaque]
pub open spec fn board_settings(b: BoardView) -> Seq<char> {
    kv_text("shots"@, b.max_shots as int, 0) + flag_text("dark"@, b.is_dark) + kv_text(
        "exit_n"@,
        exit_byte(b.exit_north) as int,
        0,
    ) + kv_text("exit_s"@, exit_byte(b.exit_south) as int, 0) + kv_text(
        "exit_e"@,
        exit_byte(b.exit_east) as int,
        0,
    ) + kv_text("exit_w"@, exit_byte(b.exit_west) as int, 0) + flag_text(
        "reenter"@,
        b.restart_on_zap,
    ) + kv_text("time_limit"@, b.time_limit as int, 0) + kv_text(
        "enter_x"@,
        b.enter_x as int,
        0,
    ) + kv_text("enter_y"@, b.enter_y as int, 0) + (if b.message.len() > 0 {
        "message = "@ + debug_str(b.message) + "\n"@
    } else {
        Seq::empty()
    })
}

/// The first `n` stats of a board, each after a blank line.
#[verifier::opaque]
pub open spec fn stats_text(b: BoardView, n: nat) -> Seq<char>
    decreases n,
{
    if n == 0 {
        Seq::empty()
    } else {
        let st = b.stats[n - 1];
        stats_text(b, (n - 1) as nat) + "\n"@ + stat_text(
            (n - 1) as nat,
            st,
            element_at(b, st.x, st.y),
        )
    }
}

/// The text of a board.
#[verifier::opaque]
pub open spec fn board_text(index: nat, b: BoardView) -> Seq<char> {
    board_title(index, b) + terrain_text(b.tiles) + "\n"@ + board_settings(b) + stats_text(
        b,
        b.stats.len(),
    )
}

/// The text of the first `n` boards, each after a blank line.
#[verifier::opaque]
pub open spec fn boards_text(bs: Seq<BoardView>, n: nat) -> Seq<char>
    decreases n,
{
    if n == 0 {
        Seq::empty()
    } else {
        boards_text(bs, (n - 1) as nat) + "\n"@ + board_text((n - 1) as nat, bs[n - 1])
    }
}

/// The text of a world: its header, then its boards.
#[verifier::opaque]
pub open spec fn world_text(w: WorldView) -> Seq<char> {
    world_header_text(w) + boards_text(w.boards, w.boards.len())
}

/// Appends the `Debug` form of a string slice.
fn push_debug(out: &mut String, s: &str)
    ensures
        final(out)@ == old(out)@ + debug_str(s@),
{
    let q = debug_quote(s);
    out.append(q.as_str());
}

/// Appends a `key = value` line when the value differs from its default.
fn push_kv(out: &mut String, key: &str, val: i64, default: i64)
    ensures
        final(out)@ == old(out)@ + kv_text(key@, val as int, default as int),
{
    proof {
        reveal(kv_text);
    }
    let ghost start = out@;
    if val != default {
        out.append(key);
        out.append(" = ");
        push_signed(out, val);
        out.append("\n");
        assert(out@ =~= start + kv_text(key@, val as int, default as int));
    } else {
        assert(out@ =~= start + kv_text(key@, val as int, default as int));
    }
}

/// Appends a `key = true` line when the flag is set.
fn push_flag(out: &mut String, key: &str, val: bool)
    ensures
        final(out)@ == old(out)@ + flag_text(key@, val),
{
    proof {
        reveal(flag_text);
    }
    let ghost start = out@;
    if val {
        out.append(key);
        out.append(" = true\n");
    }
    assert(out@ =~= start + flag_text(key@, val));
}

/// Appends a byte as two lower-case hexadecimal digits.
fn push_hex(out: &mut String, b: u8)
    ensures
        final(out)@ == old(out)@ + hex2(b),
{
    proof {
        reveal(hex2);
    }
    let ghost start = out@;
    let hi = b / 16;
    let lo = b % 16;
    push_char(out, if hi < 10 {
        (hi + 48) as char
    } else {
        (hi + 87) as char
    });
    push_char(out, if lo < 10 {
        (lo + 48) as char
    } else {
        (lo + 87) as char
    });
    assert(out@ =~= start + hex2(b));
}

/// Appends a key letter if the key is held.
fn push_key(out: &mut String, held: bool, c: char)
    ensures
        final(out)@ == old(out)@ + char_if(held, c),
{
    let ghost start = out@;
    if held {
        push_char(out, c);
    }
    assert(out@ =~= start + char_if(held, c));
}

/// The keys the player holds, as a string of key letters.
fn keys_to_string(keys: &Keys) -> (r: String)
    ensures
        r@ == keys_text(*keys),
{
    proof {
        reveal(keys_text);
    }
    let mut out = String::new();
    push_key(&mut out, keys.blue, 'b');
    assert(out@ =~= char_if(keys.blue, 'b'));
    push_key(&mut out, keys.green, 'g');
    push_key(&mut out, keys.cyan, 'c');
    push_key(&mut out, keys.red, 'r');
    push_key(&mut out, keys.purple, 'p');
    push_key(&mut out, keys.yellow, 'y');
    push_key(&mut out, keys.white, 'w');
    assert(out@ =~= keys_text(*keys));
    out
}

/// Appends the flags line.
fn push_flags_line(out: &mut String, flags: &[String; 10])
    ensures
        final(out)@ == old(out)@ + flags_text(flags@.map_values(|s: String| s@)),
{
    proof {
        reveal(flags_text);
        reveal(flag_list);
    }
    let ghost f = flags@.map_values(|s: String| s@);
    let ghost start = out@;
    let mut n: usize = 10;
    while n > 0 && flags[n - 1].as_str().is_empty()
        invariant
            n <= 10,
            flags@.len() == 10,
            f == flags@.map_values(|s: String| s@),
            last_nonempty(f, 10) == last_nonempty(f, n as int),
        decreases n,
    {
        assert(f[n - 1] == flags@[n - 1]@);
        n -= 1;
    }
    if n == 0 {
        assert(out@ =~= start + flags_text(f));
        return;
    }
    assert(f[n - 1] == flags@[n - 1]@);
    assert(last_nonempty(f, 10) == n - 1);
    out.append("flags = [");
    let ghost head = out@;
    let mut i: usize = 0;
    assert(out@ =~= head + flag_list(f, 0));
    while i < n
        invariant
            i <= n <= 10,
            flags@.len() == 10,
            f == flags@.map_values(|s: String| s@),
            out@ == head + flag_list(f, i as nat),
        decreases n - i,
    {
        if i > 0 {
            out.append(", ");
        }
        assert(f[i as int] == flags@[i as int]@);
        push_debug(out, flags[i].as_str());
        i += 1;
        proof {
            reveal(flag_list);
        }
        assert(out@ =~= head + flag_list(f, i as nat));
    }
    out.append("]\n");
    assert(out@ =~= start + flags_text(f));
}

/// Appends the counters of a world's header.
fn push_header_counters(output: &mut String, world: &World)
    ensures
        final(output)@ == old(output)@ + header_counters(world@),
{
    proof {
        reveal(header_counters);
    }
    let ghost a = output@;
    push_kv(output, "health", world.health as i64, 100);
    push_kv(output, "ammo", world.ammo as i64, 0);
    push_kv(output, "gems", world.gems as i64, 0);
    push_kv(output, "torches", world.torches as i64, 0);
    push_kv(output, "score", world.score as i64, 0);
    assert(output@ =~= a + header_counters(world@));
}

/// Appends the keys, starting board and saved-game lines of a world's header.
fn push_header_keys(output: &mut String, world: &World)
    ensures
        final(output)@ == old(output)@ + header_keys(world@),
{
    proof {
        reveal(header_keys);
    }
    let ghost b = output@;
    let key_str = keys_to_string(&world.keys);
    if !key_str.as_str().is_empty() {
        output.append("keys = ");
        push_debug(output, key_str.as_str());
        output.append("\n");
    }
    let ghost c = output@;
    push_kv(output, "starting_board", world.starting_board as i64, 0);
    push_flag(output, "saved_game", world.saved_game);
    assert(output@ =~= b + header_keys(world@));
}

/// Appends the timers of a world's header.
fn push_header_timers(output: &mut String, world: &World)
    ensures
        final(output)@ == old(output)@ + header_timers(world@),
{
    proof {
        reveal(header_timers);
    }
    let ghost d = output@;
    push_kv(output, "torch_cycles", world.torch_cycles as i64, 0);
    push_kv(output, "energizer_cycles", world.energizer_cycles as i64, 0);
    push_kv(output, "time", world.time as i64, 0);
    push_kv(output, "time_ticks", world.time_ticks as i64, 0);
    assert(output@ =~= d + header_timers(world@));
}

/// Appends the header section of a world.
fn write_world_header(output: &mut String, world: &World)
    ensures
        final(output)@ == old(output)@ + world_header_text(world@),
{
    proof {
        reveal(world_header_text);
        reveal(header_title);
    }
    let ghost start = output@;
    output.append("[world]\n");
    output.append("name = ");
    push_debug(output, world.name.as_str());
    output.append("\n");
    assert(output@ =~= start + header_title(world@));
    let ghost a = output@;
    push_header_counters(output, world);
    let ghost b = output@;
    push_header_keys(output, world);
    let ghost c = output@;
    push_flags_line(output, &world.flags);
    let ghost d = output@;
    push_header_timers(output, world);
    assert(output@ =~= start + world_header_text(world@));
}

/// Appends one terrain grid: the element bytes or the color bytes of all tiles.
fn push_grid(out: &mut String, tiles: &[Tile; 1500], elements: bool)
    ensures
        final(out)@ == old(out)@ + rows_text(tiles@, elements, 25),
{
    proof {
        reveal(rows_text);
        reveal(cells_text);
    }
    let ghost start = out@;
    let mut row: usize = 0;
    assert(out@ =~= start + rows_text(tiles@, elements, 0));
    while row < 25
        invariant
            row <= 25,
            tiles@.len() == 1500,
            out@ == start + rows_text(tiles@, elements, row as nat),
        decreases 25 - row,
    {
        let ghost row_start = out@;
        let mut col: usize = 0;
        proof {
            reveal(cells_text);
        }
        assert(out@ =~= row_start + cells_text(tiles@, elements, row as int, 0));
        while col < 60
            invariant
                row < 25,
                col <= 60,
                tiles@.len() == 1500,
                out@ == row_start + cells_text(tiles@, elements, row as int, col as nat),
            decreases 60 - col,
        {
            let tile = tiles[row * 60 + col];
            push_hex(out, if elements {
                tile.element
            } else {
                tile.color
            });
            col += 1;
            proof {
                reveal(cells_text);
            }
            assert(out@ =~= row_start + cells_text(tiles@, elements, row as int, col as nat));
        }
        out.append("\n");
        row += 1;
        proof {
            reveal(rows_text);
        }
        assert(out@ =~= start + rows_text(tiles@, elements, row as nat));
    }
}

/// Appends a board's terrain: the element grid, a blank line, the color grid.
fn write_terrain(output: &mut String, tiles: &[Tile; 1500])
    ensures
        final(output)@ == old(output)@ + terrain_text(tiles@),
{
    proof {
        reveal(terrain_text);
    }
    let ghost start = output@;
    push_grid(output, tiles, true);
    output.append("\n");
    push_grid(output, tiles, false);
    assert(output@ =~= start + terrain_text(tiles@));
}

/// The element under 1-based coordinates, or `None` off the board.
fn get_element_at(board: &Board, x: u8, y: u8) -> (r: Option<u8>)
    ensures
        r == element_at(board@, x, y),
{
    if x == 0 || y == 0 || x > 60 || y > 25 {
        return None;
    }
    let index = (y as usize - 1) * 60 + (x as usize - 1);
    Some(board.tiles[index].element)
}

/// Appends a parameter line under its alias (or its generic name), unless the value is 0.
fn write_param(output: &mut String, value: u8, generic_name: &str, alias: Option<&str>)
    ensures
        final(output)@ == old(output)@ + param_text(value, generic_name@, opt_str_view(alias)),
{
    proof {
        reveal(param_text);
    }
    let ghost start = output@;
    if value == 0 {
        assert(output@ =~= start + param_text(value, generic_name@, opt_str_view(alias)));
        return;
    }
    let name = match alias {
        Some(a) => a,
        None => generic_name,
    };
    output.append(name);
    output.append(" = ");
    push_decimal(output, value as u64);
    output.append("\n");
    assert(output@ =~= start + param_text(value, generic_name@, opt_str_view(alias)));
}

/// The alias of a parameter through an optional element.
fn alias_for(e: Option<Element>, which: u8) -> (r: Option<&'static str>)
    requires
        1 <= which <= 3,
    ensures
        opt_str_view(r) == alias_of(e, which as int),
{
    match e {
        Some(el) => if which == 1 {
            el.p1_alias()
        } else if which == 2 {
            el.p2_alias()
        } else {
            el.p3_alias()
        },
        None => None,
    }
}

/// Appends a stat's program text.
fn push_program(output: &mut String, program: &Program)
    ensures
        final(output)@ == old(output)@ + program_text(program@),
{
    proof {
        reveal(program_text);
    }
    let ghost start = output@;
    match program {
        Program::Own(code) => {
            if !code.as_str().is_empty() {
                output.append("code = \"\"\"\n");
                output.append(code.as_str());
                let cs = str_chars(code.as_str());
                if cs[cs.len() - 1] != '\n' {
                    output.append("\n");
                }
                output.append("\"\"\"\n");
            }
        },
        Program::Bound(index) => {
            output.append("bind = ");
            push_decimal(output, *index as u64);
            output.append("\n");
        },
    }
    assert(output@ =~= start + program_text(program@));
}

/// Appends the first lines of a stat: header, element comment and coordinates.
fn push_stat_title(output: &mut String, index: usize, stat: &Stat, element: Option<u8>)
    ensures
        final(output)@ == old(output)@ + stat_title(index as nat, stat@, element),
{
    proof {
        reveal(stat_title);
    }
    let ghost start = output@;
    output.append("[stat ");
    push_decimal(output, index as u64);
    output.append("] # ");
    match element {
        Some(id) => {
            let comment = element_name(id);
            output.append(comment.as_str());
        },
        None => {
            output.append("off-board");
        },
    }
    output.append("\n");
    output.append("x = ");
    push_decimal(output, stat.x as u64);
    output.append("\n");
    output.append("y = ");
    push_decimal(output, stat.y as u64);
    output.append("\n");
    assert(output@ =~= start + stat_title(index as nat, stat@, element));
}

/// Appends a stat's movement and chain fields and the tile under it.
fn push_stat_fields(output: &mut String, stat: &Stat)
    ensures
        final(output)@ == old(output)@ + stat_fields(stat@),
{
    proof {
        reveal(stat_fields);
    }
    let ghost a = output@;
    push_kv(output, "cycle", stat.cycle as i64, 0);
    push_kv(output, "x_step", stat.x_step as i64, 0);
    push_kv(output, "y_step", stat.y_step as i64, 0);
    let ghost b = output@;
    if stat.under.element != 0 || stat.under.color != 0 {
        output.append("under = (");
        push_decimal(output, stat.under.element as u64);
        output.append(", ");
        push_decimal(output, stat.under.color as u64);
        output.append(")\n");
    }
    let ghost c = output@;
    push_kv(output, "follower", stat.follower as i64, -1);
    push_kv(output, "leader", stat.leader as i64, -1);
    push_kv(output, "instruction_pointer", stat.instruction_pointer as i64, 0);
    assert(output@ =~= a + stat_fields(stat@));
}

/// Appends a stat's parameters under their aliases for the element it stands on.
fn push_stat_params(output: &mut String, stat: &Stat, element: Option<u8>)
    ensures
        final(output)@ == old(output)@ + stat_params(stat@, element),
{
    proof {
        reveal(stat_params);
    }
    let ghost b = output@;
    let elem = match element {
        Some(id) => Element::from_u8(id),
        None => None,
    };
    write_param(output, stat.p1, "p1", alias_for(elem, 1));
    write_param(output, stat.p2, "p2", alias_for(elem, 2));
    write_param(output, stat.p3, "p3", alias_for(elem, 3));
    assert(output@ =~= b + stat_params(stat@, element));
}

/// Appends the text of a stat, with a comment naming the element it stands on.
fn write_stat(output: &mut String, index: usize, stat: &Stat, element: Option<u8>)
    ensures
        final(output)@ == old(output)@ + stat_text(index as nat, stat@, element),
{
    proof {
        reveal(stat_text);
    }
    let ghost start = output@;
    push_stat_title(output, index, stat, element);
    push_stat_fields(output, stat);
    push_stat_params(output, stat, element);
    push_program(output, &stat.program);
    assert(output@ =~= start + stat_text(index as nat, stat@, element));
}

/// Appends the settings of a board that differ from their defaults.
fn push_board_settings(output: &mut String, board: &Board)
    ensures
        final(output)@ == old(output)@ + board_settings(board@),
{
    proof {
        reveal(board_settings);
    }
    let ghost start = output@;
    push_kv(output, "shots", board.max_shots as i64, 0);
    push_flag(output, "dark", board.is_dark);
    push_kv(output, "exit_n", exit_number(board.exit_north) as i64, 0);
    push_kv(output, "exit_s", exit_number(board.exit_south) as i64, 0);
    push_kv(output, "exit_e", exit_number(board.exit_east) as i64, 0);
    push_kv(output, "exit_w", exit_number(board.exit_west) as i64, 0);
    push_flag(output, "reenter", board.restart_on_zap);
    push_kv(output, "time_limit", board.time_limit as i64, 0);
    push_kv(output, "enter_x", board.enter_x as i64, 0);
    push_kv(output, "enter_y", board.enter_y as i64, 0);
    if !board.message.as_str().is_empty() {
        output.append("message = ");
        push_debug(output, board.message.as_str());
        output.append("\n");
    }
    assert(output@ =~= start + board_settings(board@));
}

/// The number of an exit, 0 for none.
fn exit_number(e: Option<u8>) -> (r: u8)
    ensures
        r == exit_byte(e),
{
    match e {
        Some(n) => n,
        None => 0,
    }
}

/// Appends the text of a board: title, terrain, settings and stats.
fn write_board(output: &mut String, index: usize, board: &Board)
    ensures
        final(output)@ == old(output)@ + board_text(index as nat, board@),
{
    proof {
        reveal(board_text);
        reveal(board_title);
        reveal(stats_text);
    }
    let ghost start = output@;
    output.append("[board ");
    push_decimal(output, index as u64);
    output.append("]\n");
    output.append("title = ");
    push_debug(output, board.name.as_str());
    output.append("\n");
    output.append("\n");
    assert(output@ =~= start + board_title(index as nat, board@));
    write_terrain(output, &board.tiles);
    output.append("\n");
    push_board_settings(output, board);
    let ghost head = output@;
    let mut i: usize = 0;
    assert(output@ =~= head + stats_text(board@, 0));
    while i < board.stats.len()
        invariant
            i <= board.stats.len(),
            board@.stats.len() == board.stats.len(),
            output@ == head + stats_text(board@, i as nat),
        decreases board.stats.len() - i,
    {
        let stat = &board.stats[i];
        assert(board@.stats[i as int] == stat@);
        let element = get_element_at(board, stat.x, stat.y);
        output.append("\n");
        write_stat(output, i, stat, element);
        i += 1;
        proof {
            reveal(stats_text);
        }
        assert(output@ =~= head + stats_text(board@, i as nat));
    }
    assert(output@ =~= start + board_text(index as nat, board@));
}

/// Convert a World to its text representation: the header, then each board after a blank
/// line.
pub fn world_to_text(world: &World) -> (r: String)
    ensures
        r@ == world_text(world@),
{
    proof {
        reveal(world_text);
        reveal(boards_text);
    }
    let mut output = String::new();
    write_world_header(&mut output, world);
    let ghost head = output@;
    let mut i: usize = 0;
    assert(output@ =~= head + boards_text(world@.boards, 0));
    while i < world.boards.len()
        invariant
            i <= world.boards.len(),
            world@.boards.len() == world.boards.len(),
            output@ == head + boards_text(world@.boards, i as nat),
        decreases world.boards.len() - i,
    {
        assert(world@.boards[i as int] == world.boards@[i as int]@);
        output.append("\n");
        write_board(&mut output, i, &world.boards[i]);
        i += 1;
        proof {
            reveal(boards_text);
        }
        assert(output@ =~= head + boards_text(world@.boards, i as nat));
    }
    assert(output@ =~= world_text(world@));
    output
}

/// Convert a standalone Board to its text representation (numbered as board 0).
pub fn board_to_text(board: &Board) -> (r: String)
    ensures
        r@ == board_text(0, board@),
{
    let mut output = String::new();
    write_board(&mut output, 0, board);
    assert(output@ =~= board_text(0, board@));
    output
}


/// A world's listing is the listing of the same world without boards (its header), then
/// each board's listing, numbered from 0, after a blank line.
pub proof fn lemma_world_text_parts(w: WorldView)
    ensures
        world_text(w) == world_text(WorldView { boards: Seq::empty(), ..w }) + boards_text(
            w.boards,
            w.boards.len(),
        ),
        boards_text(w.boards, 0) == Seq::<char>::empty(),
        forall|i: int|
            0 <= i < w.boards.len() ==> #[trigger] boards_text(w.boards, (i + 1) as nat)
                == boards_text(w.boards, i as nat) + "\n"@ + board_text(i as nat, w.boards[i]),
{
    reveal(world_text);
    reveal(boards_text);
    reveal(world_header_text);
    reveal(header_title);
    reveal(header_counters);
    reveal(header_keys);
    reveal(header_timers);
    let w0 = WorldView { boards: Seq::empty(), ..w };
    assert(boards_text(w0.boards, 0) =~= Seq::<char>::empty());
    assert(world_text(w0) =~= world_header_text(w));
}

/// A board's listing under any number is its listing as board 0 with the number in its
/// first line, `[board 0]`, replaced.
pub proof fn lemma_board_text_renumbered(index: nat, b: BoardView)
    ensures
        board_text(index, b) == "[board "@ + decimal(index) + "]"@ + board_text(0, b).skip(9),
{
    reveal(board_text);
    reveal(board_title);
    reveal_strlit("[board ");
    reveal_strlit("]\n");
    reveal_strlit("]");
    let x = "title = "@ + debug_str(b.name) + "\n"@ + "\n"@;
    let r = terrain_text(b.tiles) + "\n"@ + board_settings(b) + stats_text(b, b.stats.len());
    assert(decimal(0) =~= seq!['0']);
    assert(board_text(0, b) =~= "[board "@ + decimal(0) + "]\n"@ + x + r);
    assert(board_text(0, b).skip(9) =~= seq!['\n'] + x + r);
    assert(board_text(index, b) =~= "[board "@ + decimal(index) + "]"@ + (seq!['\n'] + x + r));
}

/// The position of a key letter in the listing order blue, green, cyan, red, purple, yellow,
/// white.
pub open spec fn key_rank(c: char) -> int {
    if c == 'b' {
        0
    } else if c == 'g' {
        1
    } else if c == 'c' {
        2
    } else if c == 'r' {
        3
    } else if c == 'p' {
        4
    } else if c == 'y' {
        5
    } else if c == 'w' {
        6
    } else {
        7
    }
}

/// The number of keys held.
pub open spec fn keys_held(k: Keys) -> int {
    (if k.blue { 1int } else { 0 }) + (if k.green { 1int } else { 0 }) + (if k.cyan { 1int } else { 0 })
        + (if k.red { 1int } else { 0 }) + (if k.purple { 1int } else { 0 }) + (if k.yellow { 1int } else { 0 })
        + (if k.white { 1int } else { 0 })
}

/// Whether key letters appear in listing order, each at most once.
#[verifier::opaque]
pub open spec fn keys_in_order(t: Seq<char>) -> bool {
    forall|i: int, j: int| 0 <= i < j < t.len() ==> key_rank(#[trigger] t[i]) < key_rank(#[trigger] t[j])
}

/// Whether every character is a key letter ranked below `r` in listing order.
#[verifier::opaque]
pub open spec fn key_letters_below(t: Seq<char>, r: int) -> bool {
    forall|i: int| 0 <= i < t.len() ==> 0 <= key_rank(#[trigger] t[i]) < r
}

/// Appending a key's letter, if held, after letters that come before it in listing order.
proof fn lemma_key_step(t: Seq<char>, held: bool, c: char)
    requires
        0 <= key_rank(c) < 7,
        keys_in_order(t),
        key_letters_below(t, key_rank(c)),
    ensures
        ({
            let u = t + char_if(held, c);
            &&& keys_in_order(u)
            &&& key_letters_below(u, key_rank(c) + 1)
            &&& u.len() == t.len() + (if held { 1int } else { 0 })
            &&& forall|d: char| #[trigger] u.contains(d) <==> (t.contains(d) || (held && d == c))
        }),
{
    reveal(keys_in_order);
    reveal(key_letters_below);
    let u = t + char_if(held, c);
    assert forall|d: char| #[trigger] u.contains(d) <==> (t.contains(d) || (held && d == c)) by {
        if u.contains(d) {
            let i = choose|i: int| 0 <= i < u.len() && u[i] == d;
            if i >= t.len() {
                assert(held && d == c);
            } else {
                assert(t[i] == d);
            }
        }
        if t.contains(d) {
            let i = choose|i: int| 0 <= i < t.len() && t[i] == d;
            assert(u[i] == d);
        }
        if held && d == c {
            assert(u[t.len() as int] == c);
        }
    }
    assert forall|i: int, j: int| 0 <= i < j < u.len() implies key_rank(#[trigger] u[i]) < key_rank(
        #[trigger] u[j],
    ) by {
        if j >= t.len() {
            assert(u[i] == t[i]);
        } else {
            assert(u[i] == t[i] && u[j] == t[j]);
        }
    }
}

/// The keys line lists each held key by its own letter: `b` for blue, `g` for green, `c` for
/// cyan, `r` for red, `p` for purple, `y` for yellow and `w` for white; one letter per held
/// key, each once, in that order, and nothing else.
#[verifier::spinoff_prover]
pub proof fn lemma_keys_letters(k: Keys)
    ensures
        keys_text(k).contains('b') <==> k.blue,
        keys_text(k).contains('g') <==> k.green,
        keys_text(k).contains('c') <==> k.cyan,
        keys_text(k).contains('r') <==> k.red,
        keys_text(k).contains('p') <==> k.purple,
        keys_text(k).contains('y') <==> k.yellow,
        keys_text(k).contains('w') <==> k.white,
        keys_text(k).len() == keys_held(k),
        keys_in_order(keys_text(k)),
        key_letters_below(keys_text(k), 7),
{
    let t0 = Seq::<char>::empty();
    assert(keys_in_order(t0) && key_letters_below(t0, 0)) by {
        reveal(keys_in_order);
        reveal(key_letters_below);
    }
    let t1 = t0 + char_if(k.blue, 'b');
    lemma_key_step(t0, k.blue, 'b');
    let t2 = t1 + char_if(k.green, 'g');
    lemma_key_step(t1, k.green, 'g');
    let t3 = t2 + char_if(k.cyan, 'c');
    lemma_key_step(t2, k.cyan, 'c');
    let t4 = t3 + char_if(k.red, 'r');
    lemma_key_step(t3, k.red, 'r');
    let t5 = t4 + char_if(k.purple, 'p');
    lemma_key_step(t4, k.purple, 'p');
    let t6 = t5 + char_if(k.yellow, 'y');
    lemma_key_step(t5, k.yellow, 'y');
    let t7 = t6 + char_if(k.white, 'w');
    lemma_key_step(t6, k.white, 'w');
    assert(t7 == keys_text(k)) by {
        reveal(keys_text);
        assert(t0 + char_if(k.blue, 'b') =~= char_if(k.blue, 'b'));
    }
    assert(!t0.contains('b') && !t0.contains('g') && !t0.contains('c') && !t0.contains('r')
        && !t0.contains('p') && !t0.contains('y') && !t0.contains('w'));
    assert(t7.contains('b') <==> k.blue);
    assert(t7.contains('g') <==> k.green);
    assert(t7.contains('c') <==> k.cyan);
    assert(t7.contains('r') <==> k.red);
    assert(t7.contains('p') <==> k.purple);
    assert(t7.contains('y') <==> k.yellow);
    assert(t7.contains('w') <==> k.white);
}


/// Setting the absent north exit to `n` inserts its line into the settings.
#[verifier::spinoff_prover]
proof fn lemma_exit_line_north(b: BoardView, n: u8)
    requires
        n != 0,
    ensures
        exists|k: int|
            #![trigger board_settings((BoardView { exit_north: None, ..b })).take(k)]
            0 <= k <= board_settings((BoardView { exit_north: None, ..b })).len() && board_settings((BoardView { exit_north: Some(n), ..b }))
                == board_settings((BoardView { exit_north: None, ..b })).take(k) + "exit_n"@ + " = "@ + decimal(n as nat) + "\n"@
                + board_settings((BoardView { exit_north: None, ..b })).skip(k),
{
    let msg = if b.message.len() > 0 {
        "message = "@ + debug_str(b.message) + "\n"@
    } else {
        Seq::empty()
    };
    {
        let b0 = (BoardView { exit_north: None, ..b });
        let b1 = (BoardView { exit_north: Some(n), ..b });
        let a = kv_text("shots"@, b.max_shots as int, 0) + flag_text("dark"@, b.is_dark);
        let z = Seq::<char>::empty() + kv_text("exit_s"@, exit_byte(b.exit_south) as int, 0) + kv_text("exit_e"@, exit_byte(b.exit_east) as int, 0) + kv_text("exit_w"@, exit_byte(b.exit_west) as int, 0) + flag_text("reenter"@, b.restart_on_zap) + kv_text("time_limit"@, b.time_limit as int, 0) + kv_text("enter_x"@, b.enter_x as int, 0) + kv_text("enter_y"@, b.enter_y as int, 0) + msg;
        let line = "exit_n"@ + " = "@ + decimal(n as nat) + "\n"@;
        assert(kv_text("exit_n"@, 0, 0) =~= Seq::<char>::empty()) by {
            reveal(kv_text);
        }
        assert(kv_text("exit_n"@, n as int, 0) =~= line) by {
            reveal(kv_text);
        }
        assert(board_settings(b0) =~= a + z) by {
            reveal(board_settings);
        }
        assert(board_settings(b1) =~= a + line + z) by {
            reveal(board_settings);
        }
        assert(board_settings(b0).take(a.len() as int) =~= a);
        assert(board_settings(b0).skip(a.len() as int) =~= z);
        assert(board_settings(b1) == board_settings(b0).take(a.len() as int) + "exit_n"@ + " = "@ + decimal(
            n as nat,
        ) + "\n"@ + board_settings(b0).skip(a.len() as int));
    }
}

/// Setting the absent south exit to `n` inserts its line into the settings.
#[verifier::spinoff_prover]
proof fn lemma_exit_line_south(b: BoardView, n: u8)
    requires
        n != 0,
    ensures
        exists|k: int|
            #![trigger board_settings((BoardView { exit_south: None, ..b })).take(k)]
            0 <= k <= board_settings((BoardView { exit_south: None, ..b })).len() && board_settings((BoardView { exit_south: Some(n), ..b }))
                == board_settings((BoardView { exit_south: None, ..b })).take(k) + "exit_s"@ + " = "@ + decimal(n as nat) + "\n"@
                + board_settings((BoardView { exit_south: None, ..b })).skip(k),
{
    let msg = if b.message.len() > 0 {
        "message = "@ + debug_str(b.message) + "\n"@
    } else {
        Seq::empty()
    };
    {
        let b0 = (BoardView { exit_south: None, ..b });
        let b1 = (BoardView { exit_south: Some(n), ..b });
        let a = kv_text("shots"@, b.max_shots as int, 0) + flag_text("dark"@, b.is_dark) + kv_text("exit_n"@, exit_byte(b.exit_north) as int, 0);
        let z = Seq::<char>::empty() + kv_text("exit_e"@, exit_byte(b.exit_east) as int, 0) + kv_text("exit_w"@, exit_byte(b.exit_west) as int, 0) + flag_text("reenter"@, b.restart_on_zap) + kv_text("time_limit"@, b.time_limit as int, 0) + kv_text("enter_x"@, b.enter_x as int, 0) + kv_text("enter_y"@, b.enter_y as int, 0) + msg;
        let line = "exit_s"@ + " = "@ + decimal(n as nat) + "\n"@;
        assert(kv_text("exit_s"@, 0, 0) =~= Seq::<char>::empty()) by {
            reveal(kv_text);
        }
        assert(kv_text("exit_s"@, n as int, 0) =~= line) by {
            reveal(kv_text);
        }
        assert(board_settings(b0) =~= a + z) by {
            reveal(board_settings);
        }
        assert(board_settings(b1) =~= a + line + z) by {
            reveal(board_settings);
        }
        assert(board_settings(b0).take(a.len() as int) =~= a);
        assert(board_settings(b0).skip(a.len() as int) =~= z);
        assert(board_settings(b1) == board_settings(b0).take(a.len() as int) + "exit_s"@ + " = "@ + decimal(
            n as nat,
        ) + "\n"@ + board_settings(b0).skip(a.len() as int));
    }
}

/// Setting the absent east exit to `n` inserts its line into the settings.
#[verifier::spinoff_prover]
proof fn lemma_exit_line_east(b: BoardView, n: u8)
    requires
        n != 0,
    ensures
        exists|k: int|
            #![trigger board_settings((BoardView { exit_east: None, ..b })).take(k)]
            0 <= k <= board_settings((BoardView { exit_east: None, ..b })).len() && board_settings((BoardView { exit_east: Some(n), ..b }))
                == board_settings((BoardView { exit_east: None, ..b })).take(k) + "exit_e"@ + " = "@ + decimal(n as nat) + "\n"@
                + board_settings((BoardView { exit_east: None, ..b })).skip(k),
{
    let msg = if b.message.len() > 0 {
        "message = "@ + debug_str(b.message) + "\n"@
    } else {
        Seq::empty()
    };
    {
        let b0 = (BoardView { exit_east: None, ..b });
        let b1 = (BoardView { exit_east: Some(n), ..b });
        let a = kv_text("shots"@, b.max_shots as int, 0) + flag_text("dark"@, b.is_dark) + kv_text("exit_n"@, exit_byte(b.exit_north) as int, 0) + kv_text("exit_s"@, exit_byte(b.exit_south) as int, 0);
        let z = Seq::<char>::empty() + kv_text("exit_w"@, exit_byte(b.exit_west) as int, 0) + flag_text("reenter"@, b.restart_on_zap) + kv_text("time_limit"@, b.time_limit as int, 0) + kv_text("enter_x"@, b.enter_x as int, 0) + kv_text("enter_y"@, b.enter_y as int, 0) + msg;
        let line = "exit_e"@ + " = "@ + decimal(n as nat) + "\n"@;
        assert(kv_text("exit_e"@, 0, 0) =~= Seq::<char>::empty()) by {
            reveal(kv_text);
        }
        assert(kv_text("exit_e"@, n as int, 0) =~= line) by {
            reveal(kv_text);
        }
        assert(board_settings(b0) =~= a + z) by {
            reveal(board_settings);
        }
        assert(board_settings(b1) =~= a + line + z) by {
            reveal(board_settings);
        }
        assert(board_settings(b0).take(a.len() as int) =~= a);
        assert(board_settings(b0).skip(a.len() as int) =~= z);
        assert(board_settings(b1) == board_settings(b0).take(a.len() as int) + "exit_e"@ + " = "@ + decimal(
            n as nat,
        ) + "\n"@ + board_settings(b0).skip(a.len() as int));
    }
}

/// Setting the absent west exit to `n` inserts its line into the settings.
#[verifier::spinoff_prover]
proof fn lemma_exit_line_west(b: BoardView, n: u8)
    requires
        n != 0,
    ensures
        exists|k: int|
            #![trigger board_settings((BoardView { exit_west: None, ..b })).take(k)]
            0 <= k <= board_settings((BoardView { exit_west: None, ..b })).len() && board_settings((BoardView { exit_west: Some(n), ..b }))
                == board_settings((BoardView { exit_west: None, ..b })).take(k) + "exit_w"@ + " = "@ + decimal(n as nat) + "\n"@
                + board_settings((BoardView { exit_west: None, ..b })).skip(k),
{
    let msg = if b.message.len() > 0 {
        "message = "@ + debug_str(b.message) + "\n"@
    } else {
        Seq::empty()
    };
    {
        let b0 = (BoardView { exit_west: None, ..b });
        let b1 = (BoardView { exit_west: Some(n), ..b });
        let a = kv_text("shots"@, b.max_shots as int, 0) + flag_text("dark"@, b.is_dark) + kv_text("exit_n"@, exit_byte(b.exit_north) as int, 0) + kv_text("exit_s"@, exit_byte(b.exit_south) as int, 0) + kv_text("exit_e"@, exit_byte(b.exit_east) as int, 0);
        let z = Seq::<char>::empty() + flag_text("reenter"@, b.restart_on_zap) + kv_text("time_limit"@, b.time_limit as int, 0) + kv_text("enter_x"@, b.enter_x as int, 0) + kv_text("enter_y"@, b.enter_y as int, 0) + msg;
        let line = "exit_w"@ + " = "@ + decimal(n as nat) + "\n"@;
        assert(kv_text("exit_w"@, 0, 0) =~= Seq::<char>::empty()) by {
            reveal(kv_text);
        }
        assert(kv_text("exit_w"@, n as int, 0) =~= line) by {
            reveal(kv_text);
        }
        assert(board_settings(b0) =~= a + z) by {
            reveal(board_settings);
        }
        assert(board_settings(b1) =~= a + line + z) by {
            reveal(board_settings);
        }
        assert(board_settings(b0).take(a.len() as int) =~= a);
        assert(board_settings(b0).skip(a.len() as int) =~= z);
        assert(board_settings(b1) == board_settings(b0).take(a.len() as int) + "exit_w"@ + " = "@ + decimal(
            n as nat,
        ) + "\n"@ + board_settings(b0).skip(a.len() as int));
    }
}

/// The settings name each exit by its own direction: setting a board's north, south, east or
/// west exit to board `n` (not 0), where there was none, adds exactly the line `exit_n = n`,
/// `exit_s = n`, `exit_e = n` or `exit_w = n` to its settings and leaves the other lines as
/// they were.
pub proof fn lemma_settings_exit_lines(b: BoardView, n: u8)
    requires
        n != 0,
    ensures
        exists|k: int|
            #![trigger board_settings((BoardView { exit_north: None, ..b })).take(k)]
            0 <= k <= board_settings((BoardView { exit_north: None, ..b })).len() && board_settings((BoardView { exit_north: Some(n), ..b }))
                == board_settings((BoardView { exit_north: None, ..b })).take(k) + "exit_n"@ + " = "@ + decimal(n as nat) + "\n"@
                + board_settings((BoardView { exit_north: None, ..b })).skip(k),
        exists|k: int|
            #![trigger board_settings((BoardView { exit_south: None, ..b })).take(k)]
            0 <= k <= board_settings((BoardView { exit_south: None, ..b })).len() && board_settings((BoardView { exit_south: Some(n), ..b }))
                == board_settings((BoardView { exit_south: None, ..b })).take(k) + "exit_s"@ + " = "@ + decimal(n as nat) + "\n"@
                + board_settings((BoardView { exit_south: None, ..b })).skip(k),
        exists|k: int|
            #![trigger board_settings((BoardView { exit_east: None, ..b })).take(k)]
            0 <= k <= board_settings((BoardView { exit_east: None, ..b })).len() && board_settings((BoardView { exit_east: Some(n), ..b }))
                == board_settings((BoardView { exit_east: None, ..b })).take(k) + "exit_e"@ + " = "@ + decimal(n as nat) + "\n"@
                + board_settings((BoardView { exit_east: None, ..b })).skip(k),
        exists|k: int|
            #![trigger board_settings((BoardView { exit_west: None, ..b })).take(k)]
            0 <= k <= board_settings((BoardView { exit_west: None, ..b })).len() && board_settings((BoardView { exit_west: Some(n), ..b }))
                == board_settings((BoardView { exit_west: None, ..b })).take(k) + "exit_w"@ + " = "@ + decimal(n as nat) + "\n"@
                + board_settings((BoardView { exit_west: None, ..b })).skip(k),
{
    lemma_exit_line_north(b, n);
    lemma_exit_line_south(b, n);
    lemma_exit_line_east(b, n);
    lemma_exit_line_west(b, n);
}


/// Setting `shots` inserts its line into the listing.
#[verifier::spinoff_prover]
proof fn lemma_settings_line_shots(b: BoardView, v: u8)
    requires
        v != 0,
    ensures
        exists|k: int|
            #![trigger board_settings((BoardView { max_shots: 0u8, ..b })).take(k)]
            0 <= k <= board_settings((BoardView { max_shots: 0u8, ..b })).len() && board_settings((BoardView { max_shots: v, ..b }))
                == board_settings((BoardView { max_shots: 0u8, ..b })).take(k) + "shots"@ + " = "@ + signed_decimal(v as int) + "\n"@ + board_settings((BoardView { max_shots: 0u8, ..b })).skip(k),
{
    let b0 = (BoardView { max_shots: 0u8, ..b });
    let b1 = (BoardView { max_shots: v, ..b });
    let a = Seq::<char>::empty();
    let z = Seq::<char>::empty() + flag_text("dark"@, b.is_dark) + kv_text("exit_n"@, exit_byte(b.exit_north) as int, 0) + kv_text("exit_s"@, exit_byte(b.exit_south) as int, 0) + kv_text("exit_e"@, exit_byte(b.exit_east) as int, 0) + kv_text("exit_w"@, exit_byte(b.exit_west) as int, 0) + flag_text("reenter"@, b.restart_on_zap) + kv_text("time_limit"@, b.time_limit as int, 0) + kv_text("enter_x"@, b.enter_x as int, 0) + kv_text("enter_y"@, b.enter_y as int, 0) + (if b.message.len() > 0 { "message = "@ + debug_str(b.message) + "\n"@ } else { Seq::<char>::empty() });
    let line = "shots"@ + " = "@ + signed_decimal(v as int) + "\n"@;
    assert(kv_text("shots"@, 0u8 as int, 0) =~= Seq::<char>::empty()) by {
        reveal(kv_text);
        reveal(flag_text);
    }
    assert(kv_text("shots"@, v as int, 0) =~= line) by {
        reveal(kv_text);
        reveal(flag_text);
    }
    assert(board_settings(b0) =~= a + z) by {
        reveal(board_settings);
    }
    assert(board_settings(b1) =~= a + line + z) by {
        reveal(board_settings);
    }
    assert(board_settings(b0).take(a.len() as int) =~= a);
    assert(board_settings(b0).skip(a.len() as int) =~= z);
    assert(board_settings(b1) == board_settings(b0).take(a.len() as int) + line + board_settings(b0).skip(a.len() as int));
}

/// Setting `dark` inserts its line into the listing.
#[verifier::spinoff_prover]
proof fn lemma_settings_line_dark(b: BoardView)
    ensures
        exists|k: int|
            #![trigger board_settings((BoardView { is_dark: false, ..b })).take(k)]
            0 <= k <= board_settings((BoardView { is_dark: false, ..b })).len() && board_settings((BoardView { is_dark: true, ..b }))
                == board_settings((BoardView { is_dark: false, ..b })).take(k) + "dark"@ + " = true\n"@ + board_settings((BoardView { is_dark: false, ..b })).skip(k),
{
    let b0 = (BoardView { is_dark: false, ..b });
    let b1 = (BoardView { is_dark: true, ..b });
    let a = kv_text("shots"@, b.max_shots as int, 0);
    let z = Seq::<char>::empty() + kv_text("exit_n"@, exit_byte(b.exit_north) as int, 0) + kv_text("exit_s"@, exit_byte(b.exit_south) as int, 0) + kv_text("exit_e"@, exit_byte(b.exit_east) as int, 0) + kv_text("exit_w"@, exit_byte(b.exit_west) as int, 0) + flag_text("reenter"@, b.restart_on_zap) + kv_text("time_limit"@, b.time_limit as int, 0) + kv_text("enter_x"@, b.enter_x as int, 0) + kv_text("enter_y"@, b.enter_y as int, 0) + (if b.message.len() > 0 { "message = "@ + debug_str(b.message) + "\n"@ } else { Seq::<char>::empty() });
    let line = "dark"@ + " = true\n"@;
    assert(flag_text("dark"@, false) =~= Seq::<char>::empty()) by {
        reveal(kv_text);
        reveal(flag_text);
    }
    assert(flag_text("dark"@, true) =~= line) by {
        reveal(kv_text);
        reveal(flag_text);
    }
    assert(board_settings(b0) =~= a + z) by {
        reveal(board_settings);
    }
    assert(board_settings(b1) =~= a + line + z) by {
        reveal(board_settings);
    }
    assert(board_settings(b0).take(a.len() as int) =~= a);
    assert(board_settings(b0).skip(a.len() as int) =~= z);
    assert(board_settings(b1) == board_settings(b0).take(a.len() as int) + line + board_settings(b0).skip(a.len() as int));
}

/// Setting `reenter` inserts its line into the listing.
#[verifier::spinoff_prover]
proof fn lemma_settings_line_reenter(b: BoardView)
    ensures
        exists|k: int|
            #![trigger board_settings((BoardView { restart_on_zap: false, ..b })).take(k)]
            0 <= k <= board_settings((BoardView { restart_on_zap: false, ..b })).len() && board_settings((BoardView { restart_on_zap: true, ..b }))
                == board_settings((BoardView { restart_on_zap: false, ..b })).take(k) + "reenter"@ + " = true\n"@ + board_settings((BoardView { restart_on_zap: false, ..b })).skip(k),
{
    let b0 = (BoardView { restart_on_zap: false, ..b });
    let b1 = (BoardView { restart_on_zap: true, ..b });
    let a = kv_text("shots"@, b.max_shots as int, 0) + flag_text("dark"@, b.is_dark) + kv_text("exit_n"@, exit_byte(b.exit_north) as int, 0) + kv_text("exit_s"@, exit_byte(b.exit_south) as int, 0) + kv_text("exit_e"@, exit_byte(b.exit_east) as int, 0) + kv_text("exit_w"@, exit_byte(b.exit_west) as int, 0);
    let z = Seq::<char>::empty() + kv_text("time_limit"@, b.time_limit as int, 0) + kv_text("enter_x"@, b.enter_x as int, 0) + kv_text("enter_y"@, b.enter_y as int, 0) + (if b.message.len() > 0 { "message = "@ + debug_str(b.message) + "\n"@ } else { Seq::<char>::empty() });
    let line = "reenter"@ + " = true\n"@;
    assert(flag_text("reenter"@, false) =~= Seq::<char>::empty()) by {
        reveal(kv_text);
        reveal(flag_text);
    }
    assert(flag_text("reenter"@, true) =~= line) by {
        reveal(kv_text);
        reveal(flag_text);
    }
    assert(board_settings(b0) =~= a + z) by {
        reveal(board_settings);
    }
    assert(board_settings(b1) =~= a + line + z) by {
        reveal(board_settings);
    }
    assert(board_settings(b0).take(a.len() as int) =~= a);
    assert(board_settings(b0).skip(a.len() as int) =~= z);
    assert(board_settings(b1) == board_settings(b0).take(a.len() as int) + line + board_settings(b0).skip(a.len() as int));
}

/// Setting `time_limit` inserts its line into the listing.
#[verifier::spinoff_prover]
proof fn lemma_settings_line_time_limit(b: BoardView, v: i16)
    requires
        v != 0,
    ensures
        exists|k: int|
            #![trigger board_settings((BoardView { time_limit: 0i16, ..b })).take(k)]
            0 <= k <= board_settings((BoardView { time_limit: 0i16, ..b })).len() && board_settings((BoardView { time_limit: v, ..b }))
                == board_settings((BoardView { time_limit: 0i16, ..b })).take(k) + "time_limit"@ + " = "@ + signed_decimal(v as int) + "\n"@ + board_settings((BoardView { time_limit: 0i16, ..b })).skip(k),
{
    let b0 = (BoardView { time_limit: 0i16, ..b });
    let b1 = (BoardView { time_limit: v, ..b });
    let a = kv_text("shots"@, b.max_shots as int, 0) + flag_text("dark"@, b.is_dark) + kv_text("exit_n"@, exit_byte(b.exit_north) as int, 0) + kv_text("exit_s"@, exit_byte(b.exit_south) as int, 0) + kv_text("exit_e"@, exit_byte(b.exit_east) as int, 0) + kv_text("exit_w"@, exit_byte(b.exit_west) as int, 0) + flag_text("reenter"@, b.restart_on_zap);
    let z = Seq::<char>::empty() + kv_text("enter_x"@, b.enter_x as int, 0) + kv_text("enter_y"@, b.enter_y as int, 0) + (if b.message.len() > 0 { "message = "@ + debug_str(b.message) + "\n"@ } else { Seq::<char>::empty() });
    let line = "time_limit"@ + " = "@ + signed_decimal(v as int) + "\n"@;
    assert(kv_text("time_limit"@, 0i16 as int, 0) =~= Seq::<char>::empty()) by {
        reveal(kv_text);
        reveal(flag_text);
    }
    assert(kv_text("time_limit"@, v as int, 0) =~= line) by {
        reveal(kv_text);
        reveal(flag_text);
    }
    assert(board_settings(b0) =~= a + z) by {
        reveal(board_settings);
    }
    assert(board_settings(b1) =~= a + line + z) by {
        reveal(board_settings);
    }
    assert(board_settings(b0).take(a.len() as int) =~= a);
    assert(board_settings(b0).skip(a.len() as int) =~= z);
    assert(board_settings(b1) == board_settings(b0).take(a.len() as int) + line + board_settings(b0).skip(a.len() as int));
}

/// Setting `enter_x` inserts its line into the listing.
#[verifier::spinoff_prover]
proof fn lemma_settings_line_enter_x(b: BoardView, v: u8)
    requires
        v != 0,
    ensures
        exists|k: int|
            #![trigger board_settings((BoardView { enter_x: 0u8, ..b })).take(k)]
            0 <= k <= board_settings((BoardView { enter_x: 0u8, ..b })).len() && board_settings((BoardView { enter_x: v, ..b }))
                == board_settings((BoardView { enter_x: 0u8, ..b })).take(k) + "enter_x"@ + " = "@ + signed_decimal(v as int) + "\n"@ + board_settings((BoardView { enter_x: 0u8, ..b })).skip(k),
{
    let b0 = (BoardView { enter_x: 0u8, ..b });
    let b1 = (BoardView { enter_x: v, ..b });
    let a = kv_text("shots"@, b.max_shots as int, 0) + flag_text("dark"@, b.is_dark) + kv_text("exit_n"@, exit_byte(b.exit_north) as int, 0) + kv_text("exit_s"@, exit_byte(b.exit_south) as int, 0) + kv_text("exit_e"@, exit_byte(b.exit_east) as int, 0) + kv_text("exit_w"@, exit_byte(b.exit_west) as int, 0) + flag_text("reenter"@, b.restart_on_zap) + kv_text("time_limit"@, b.time_limit as int, 0);
    let z = Seq::<char>::empty() + kv_text("enter_y"@, b.enter_y as int, 0) + (if b.message.len() > 0 { "message = "@ + debug_str(b.message) + "\n"@ } else { Seq::<char>::empty() });
    let line = "enter_x"@ + " = "@ + signed_decimal(v as int) + "\n"@;
    assert(kv_text("enter_x"@, 0u8 as int, 0) =~= Seq::<char>::empty()) by {
        reveal(kv_text);
        reveal(flag_text);
    }
    assert(kv_text("enter_x"@, v as int, 0) =~= line) by {
        reveal(kv_text);
        reveal(flag_text);
    }
    assert(board_settings(b0) =~= a + z) by {
        reveal(board_settings);
    }
    assert(board_settings(b1) =~= a + line + z) by {
        reveal(board_settings);
    }
    assert(board_settings(b0).take(a.len() as int) =~= a);
    assert(board_settings(b0).skip(a.len() as int) =~= z);
    assert(board_settings(b1) == board_settings(b0).take(a.len() as int) + line + board_settings(b0).skip(a.len() as int));
}

/// Setting `enter_y` inserts its line into the listing.
#[verifier::spinoff_prover]
proof fn lemma_settings_line_enter_y(b: BoardView, v: u8)
    requires
        v != 0,
    ensures
        exists|k: int|
            #![trigger board_settings((BoardView { enter_y: 0u8, ..b })).take(k)]
            0 <= k <= board_settings((BoardView { enter_y: 0u8, ..b })).len() && board_settings((BoardView { enter_y: v, ..b }))
                == board_settings((BoardView { enter_y: 0u8, ..b })).take(k) + "enter_y"@ + " = "@ + signed_decimal(v as int) + "\n"@ + board_settings((BoardView { enter_y: 0u8, ..b })).skip(k),
{
    let b0 = (BoardView { enter_y: 0u8, ..b });
    let b1 = (BoardView { enter_y: v, ..b });
    let a = kv_text("shots"@, b.max_shots as int, 0) + flag_text("dark"@, b.is_dark) + kv_text("exit_n"@, exit_byte(b.exit_north) as int, 0) + kv_text("exit_s"@, exit_byte(b.exit_south) as int, 0) + kv_text("exit_e"@, exit_byte(b.exit_east) as int, 0) + kv_text("exit_w"@, exit_byte(b.exit_west) as int, 0) + flag_text("reenter"@, b.restart_on_zap) + kv_text("time_limit"@, b.time_limit as int, 0) + kv_text("enter_x"@, b.enter_x as int, 0);
    let z = Seq::<char>::empty() + (if b.message.len() > 0 { "message = "@ + debug_str(b.message) + "\n"@ } else { Seq::<char>::empty() });
    let line = "enter_y"@ + " = "@ + signed_decimal(v as int) + "\n"@;
    assert(kv_text("enter_y"@, 0u8 as int, 0) =~= Seq::<char>::empty()) by {
        reveal(kv_text);
        reveal(flag_text);
    }
    assert(kv_text("enter_y"@, v as int, 0) =~= line) by {
        reveal(kv_text);
        reveal(flag_text);
    }
    assert(board_settings(b0) =~= a + z) by {
        reveal(board_settings);
    }
    assert(board_settings(b1) =~= a + line + z) by {
        reveal(board_settings);
    }
    assert(board_settings(b0).take(a.len() as int) =~= a);
    assert(board_settings(b0).skip(a.len() as int) =~= z);
    assert(board_settings(b1) == board_settings(b0).take(a.len() as int) + line + board_settings(b0).skip(a.len() as int));
}

/// The board settings name each setting by its own key: setting the maximum shots, time
/// limit or entrance (to `n8` or `n16`, not the default), or turning darkness or re-entry
/// on, adds exactly that setting's line, `key = value`, and leaves the other lines as they
/// were.
pub proof fn lemma_settings_lines(b: BoardView, n8: u8, n16: i16)
    ensures
        n8 != 0 ==> (exists|k: int|
            #![trigger board_settings((BoardView { max_shots: 0u8, ..b })).take(k)]
            0 <= k <= board_settings((BoardView { max_shots: 0u8, ..b })).len() && board_settings((BoardView { max_shots: n8, ..b }))
                == board_settings((BoardView { max_shots: 0u8, ..b })).take(k) + "shots"@ + " = "@ + signed_decimal(n8 as int) + "\n"@ + board_settings((BoardView { max_shots: 0u8, ..b })).skip(k)),
        exists|k: int|
            #![trigger board_settings((BoardView { is_dark: false, ..b })).take(k)]
            0 <= k <= board_settings((BoardView { is_dark: false, ..b })).len() && board_settings((BoardView { is_dark: true, ..b }))
                == board_settings((BoardView { is_dark: false, ..b })).take(k) + "dark"@ + " = true\n"@ + board_settings((BoardView { is_dark: false, ..b })).skip(k),
        exists|k: int|
            #![trigger board_settings((BoardView { restart_on_zap: false, ..b })).take(k)]
            0 <= k <= board_settings((BoardView { restart_on_zap: false, ..b })).len() && board_settings((BoardView { restart_on_zap: true, ..b }))
                == board_settings((BoardView { restart_on_zap: false, ..b })).take(k) + "reenter"@ + " = true\n"@ + board_settings((BoardView { restart_on_zap: false, ..b })).skip(k),
        n16 != 0 ==> (exists|k: int|
            #![trigger board_settings((BoardView { time_limit: 0i16, ..b })).take(k)]
            0 <= k <= board_settings((BoardView { time_limit: 0i16, ..b })).len() && board_settings((BoardView { time_limit: n16, ..b }))
                == board_settings((BoardView { time_limit: 0i16, ..b })).take(k) + "time_limit"@ + " = "@ + signed_decimal(n16 as int) + "\n"@ + board_settings((BoardView { time_limit: 0i16, ..b })).skip(k)),
        n8 != 0 ==> (exists|k: int|
            #![trigger board_settings((BoardView { enter_x: 0u8, ..b })).take(k)]
            0 <= k <= board_settings((BoardView { enter_x: 0u8, ..b })).len() && board_settings((BoardView { enter_x: n8, ..b }))
                == board_settings((BoardView { enter_x: 0u8, ..b })).take(k) + "enter_x"@ + " = "@ + signed_decimal(n8 as int) + "\n"@ + board_settings((BoardView { enter_x: 0u8, ..b })).skip(k)),
        n8 != 0 ==> (exists|k: int|
            #![trigger board_settings((BoardView { enter_y: 0u8, ..b })).take(k)]
            0 <= k <= board_settings((BoardView { enter_y: 0u8, ..b })).len() && board_settings((BoardView { enter_y: n8, ..b }))
                == board_settings((BoardView { enter_y: 0u8, ..b })).take(k) + "enter_y"@ + " = "@ + signed_decimal(n8 as int) + "\n"@ + board_settings((BoardView { enter_y: 0u8, ..b })).skip(k)),
{
    if n8 != 0 {
        lemma_settings_line_shots(b, n8);
    }
    lemma_settings_line_dark(b);
    lemma_settings_line_reenter(b);
    if n16 != 0 {
        lemma_settings_line_time_limit(b, n16);
    }
    if n8 != 0 {
        lemma_settings_line_enter_x(b, n8);
    }
    if n8 != 0 {
        lemma_settings_line_enter_y(b, n8);
    }
}

/// Setting `health` inserts its line into the world header.
#[verifier::spinoff_prover]
proof fn lemma_header_line_health(w: WorldView, v: i16)
    requires
        v != 100,
    ensures
        exists|k: int|
            #![trigger world_header_text((WorldView { health: 100i16, ..w })).take(k)]
            0 <= k <= world_header_text((WorldView { health: 100i16, ..w })).len() && world_header_text((WorldView { health: v, ..w }))
                == world_header_text((WorldView { health: 100i16, ..w })).take(k) + "health"@ + " = "@ + signed_decimal(v as int) + "\n"@ + world_header_text((WorldView { health: 100i16, ..w })).skip(k),
{
    let b0 = (WorldView { health: 100i16, ..w });
    let b1 = (WorldView { health: v, ..w });
    let line = "health"@ + " = "@ + signed_decimal(v as int) + "\n"@;
    assert(header_title(b1) == header_title(b0)) by {
        reveal(header_title);
    }
    assert(header_keys(b1) == header_keys(b0)) by {
        reveal(header_keys);
    }
    assert(header_timers(b1) == header_timers(b0)) by {
        reveal(header_timers);
    }
    assert(kv_text("health"@, 100i16 as int, 100) =~= Seq::<char>::empty()) by {
        reveal(kv_text);
        reveal(flag_text);
    }
    assert(kv_text("health"@, v as int, 100) =~= line) by {
        reveal(kv_text);
        reveal(flag_text);
    }
    let pa = Seq::<char>::empty();
    let pz = Seq::<char>::empty() + kv_text("ammo"@, b0.ammo as int, 0) + kv_text("gems"@, b0.gems as int, 0) + kv_text("torches"@, b0.torches as int, 0) + kv_text("score"@, b0.score as int, 0);
    assert(header_counters(b0) =~= pa + pz) by {
        reveal(header_counters);
    }
    assert(header_counters(b1) =~= pa + line + pz) by {
        reveal(header_counters);
    }
    let a = header_title(b0) + pa;
    let z = pz + Seq::<char>::empty() + header_keys(b0) + flags_text(b0.flags) + header_timers(b0);
    assert(world_header_text(b0) =~= a + z) by {
        reveal(world_header_text);
    }
    assert(world_header_text(b1) =~= a + line + z) by {
        reveal(world_header_text);
    }
    assert(world_header_text(b0).take(a.len() as int) =~= a);
    assert(world_header_text(b0).skip(a.len() as int) =~= z);
    assert(world_header_text(b1) == world_header_text(b0).take(a.len() as int) + line + world_header_text(b0).skip(a.len() as int));
}

/// Setting `ammo` inserts its line into the world header.
#[verifier::spinoff_prover]
proof fn lemma_header_line_ammo(w: WorldView, v: i16)
    requires
        v != 0,
    ensures
        exists|k: int|
            #![trigger world_header_text((WorldView { ammo: 0i16, ..w })).take(k)]
            0 <= k <= world_header_text((WorldView { ammo: 0i16, ..w })).len() && world_header_text((WorldView { ammo: v, ..w }))
                == world_header_text((WorldView { ammo: 0i16, ..w })).take(k) + "ammo"@ + " = "@ + signed_decimal(v as int) + "\n"@ + world_header_text((WorldView { ammo: 0i16, ..w })).skip(k),
{
    let b0 = (WorldView { ammo: 0i16, ..w });
    let b1 = (WorldView { ammo: v, ..w });
    let line = "ammo"@ + " = "@ + signed_decimal(v as int) + "\n"@;
    assert(header_title(b1) == header_title(b0)) by {
        reveal(header_title);
    }
    assert(header_keys(b1) == header_keys(b0)) by {
        reveal(header_keys);
    }
    assert(header_timers(b1) == header_timers(b0)) by {
        reveal(header_timers);
    }
    assert(kv_text("ammo"@, 0i16 as int, 0) =~= Seq::<char>::empty()) by {
        reveal(kv_text);
        reveal(flag_text);
    }
    assert(kv_text("ammo"@, v as int, 0) =~= line) by {
        reveal(kv_text);
        reveal(flag_text);
    }
    let pa = Seq::<char>::empty() + kv_text("health"@, b0.health as int, 100);
    let pz = Seq::<char>::empty() + kv_text("gems"@, b0.gems as int, 0) + kv_text("torches"@, b0.torches as int, 0) + kv_text("score"@, b0.score as int, 0);
    assert(header_counters(b0) =~= pa + pz) by {
        reveal(header_counters);
    }
    assert(header_counters(b1) =~= pa + line + pz) by {
        reveal(header_counters);
    }
    let a = header_title(b0) + pa;
    let z = pz + Seq::<char>::empty() + header_keys(b0) + flags_text(b0.flags) + header_timers(b0);
    assert(world_header_text(b0) =~= a + z) by {
        reveal(world_header_text);
    }
    assert(world_header_text(b1) =~= a + line + z) by {
        reveal(world_header_text);
    }
    assert(world_header_text(b0).take(a.len() as int) =~= a);
    assert(world_header_text(b0).skip(a.len() as int) =~= z);
    assert(world_header_text(b1) == world_header_text(b0).take(a.len() as int) + line + world_header_text(b0).skip(a.len() as int));
}

/// Setting `gems` inserts its line into the world header.
#[verifier::spinoff_prover]
proof fn lemma_header_line_gems(w: WorldView, v: i16)
    requires
        v != 0,
    ensures
        exists|k: int|
            #![trigger world_header_text((WorldView { gems: 0i16, ..w })).take(k)]
            0 <= k <= world_header_text((WorldView { gems: 0i16, ..w })).len() && world_header_text((WorldView { gems: v, ..w }))
                == world_header_text((WorldView { gems: 0i16, ..w })).take(k) + "gems"@ + " = "@ + signed_decimal(v as int) + "\n"@ + world_header_text((WorldView { gems: 0i16, ..w })).skip(k),
{
    let b0 = (WorldView { gems: 0i16, ..w });
    let b1 = (WorldView { gems: v, ..w });
    let line = "gems"@ + " = "@ + signed_decimal(v as int) + "\n"@;
    assert(header_title(b1) == header_title(b0)) by {
        reveal(header_title);
    }
    assert(header_keys(b1) == header_keys(b0)) by {
        reveal(header_keys);
    }
    assert(header_timers(b1) == header_timers(b0)) by {
        reveal(header_timers);
    }
    assert(kv_text("gems"@, 0i16 as int, 0) =~= Seq::<char>::empty()) by {
        reveal(kv_text);
        reveal(flag_text);
    }
    assert(kv_text("gems"@, v as int, 0) =~= line) by {
        reveal(kv_text);
        reveal(flag_text);
    }
    let pa = Seq::<char>::empty() + kv_text("health"@, b0.health as int, 100) + kv_text("ammo"@, b0.ammo as int, 0);
    let pz = Seq::<char>::empty() + kv_text("torches"@, b0.torches as int, 0) + kv_text("score"@, b0.score as int, 0);
    assert(header_counters(b0) =~= pa + pz) by {
        reveal(header_counters);
    }
    assert(header_counters(b1) =~= pa + line + pz) by {
        reveal(header_counters);
    }
    let a = header_title(b0) + pa;
    let z = pz + Seq::<char>::empty() + header_keys(b0) + flags_text(b0.flags) + header_timers(b0);
    assert(world_header_text(b0) =~= a + z) by {
        reveal(world_header_text);
    }
    assert(world_header_text(b1) =~= a + line + z) by {
        reveal(world_header_text);
    }
    assert(world_header_text(b0).take(a.len() as int) =~= a);
    assert(world_header_text(b0).skip(a.len() as int) =~= z);
    assert(world_header_text(b1) == world_header_text(b0).take(a.len() as int) + line + world_header_text(b0).skip(a.len() as int));
}

/// Setting `torches` inserts its line into the world header.
#[verifier::spinoff_prover]
proof fn lemma_header_line_torches(w: WorldView, v: i16)
    requires
        v != 0,
    ensures
        exists|k: int|
            #![trigger world_header_text((WorldView { torches: 0i16, ..w })).take(k)]
            0 <= k <= world_header_text((WorldView { torches: 0i16, ..w })).len() && world_header_text((WorldView { torches: v, ..w }))
                == world_header_text((WorldView { torches: 0i16, ..w })).take(k) + "torches"@ + " = "@ + signed_decimal(v as int) + "\n"@ + world_header_text((WorldView { torches: 0i16, ..w })).skip(k),
{
    let b0 = (WorldView { torches: 0i16, ..w });
    let b1 = (WorldView { torches: v, ..w });
    let line = "torches"@ + " = "@ + signed_decimal(v as int) + "\n"@;
    assert(header_title(b1) == header_title(b0)) by {
        reveal(header_title);
    }
    assert(header_keys(b1) == header_keys(b0)) by {
        reveal(header_keys);
    }
    assert(header_timers(b1) == header_timers(b0)) by {
        reveal(header_timers);
    }
    assert(kv_text("torches"@, 0i16 as int, 0) =~= Seq::<char>::empty()) by {
        reveal(kv_text);
        reveal(flag_text);
    }
    assert(kv_text("torches"@, v as int, 0) =~= line) by {
        reveal(kv_text);
        reveal(flag_text);
    }
    let pa = Seq::<char>::empty() + kv_text("health"@, b0.health as int, 100) + kv_text("ammo"@, b0.ammo as int, 0) + kv_text("gems"@, b0.gems as int, 0);
    let pz = Seq::<char>::empty() + kv_text("score"@, b0.score as int, 0);
    assert(header_counters(b0) =~= pa + pz) by {
        reveal(header_counters);
    }
    assert(header_counters(b1) =~= pa + line + pz) by {
        reveal(header_counters);
    }
    let a = header_title(b0) + pa;
    let z = pz + Seq::<char>::empty() + header_keys(b0) + flags_text(b0.flags) + header_timers(b0);
    assert(world_header_text(b0) =~= a + z) by {
        reveal(world_header_text);
    }
    assert(world_header_text(b1) =~= a + line + z) by {
        reveal(world_header_text);
    }
    assert(world_header_text(b0).take(a.len() as int) =~= a);
    assert(world_header_text(b0).skip(a.len() as int) =~= z);
    assert(world_header_text(b1) == world_header_text(b0).take(a.len() as int) + line + world_header_text(b0).skip(a.len() as int));
}

/// Setting `score` inserts its line into the world header.
#[verifier::spinoff_prover]
proof fn lemma_header_line_score(w: WorldView, v: i16)
    requires
        v != 0,
    ensures
        exists|k: int|
            #![trigger world_header_text((WorldView { score: 0i16, ..w })).take(k)]
            0 <= k <= world_header_text((WorldView { score: 0i16, ..w })).len() && world_header_text((WorldView { score: v, ..w }))
                == world_header_text((WorldView { score: 0i16, ..w })).take(k) + "score"@ + " = "@ + signed_decimal(v as int) + "\n"@ + world_header_text((WorldView { score: 0i16, ..w })).skip(k),
{
    let b0 = (WorldView { score: 0i16, ..w });
    let b1 = (WorldView { score: v, ..w });
    let line = "score"@ + " = "@ + signed_decimal(v as int) + "\n"@;
    assert(header_title(b1) == header_title(b0)) by {
        reveal(header_title);
    }
    assert(header_keys(b1) == header_keys(b0)) by {
        reveal(header_keys);
    }
    assert(header_timers(b1) == header_timers(b0)) by {
        reveal(header_timers);
    }
    assert(kv_text("score"@, 0i16 as int, 0) =~= Seq::<char>::empty()) by {
        reveal(kv_text);
        reveal(flag_text);
    }
    assert(kv_text("score"@, v as int, 0) =~= line) by {
        reveal(kv_text);
        reveal(flag_text);
    }
    let pa = Seq::<char>::empty() + kv_text("health"@, b0.health as int, 100) + kv_text("ammo"@, b0.ammo as int, 0) + kv_text("gems"@, b0.gems as int, 0) + kv_text("torches"@, b0.torches as int, 0);
    let pz = Seq::<char>::empty();
    assert(header_counters(b0) =~= pa + pz) by {
        reveal(header_counters);
    }
    assert(header_counters(b1) =~= pa + line + pz) by {
        reveal(header_counters);
    }
    let a = header_title(b0) + pa;
    let z = pz + Seq::<char>::empty() + header_keys(b0) + flags_text(b0.flags) + header_timers(b0);
    assert(world_header_text(b0) =~= a + z) by {
        reveal(world_header_text);
    }
    assert(world_header_text(b1) =~= a + line + z) by {
        reveal(world_header_text);
    }
    assert(world_header_text(b0).take(a.len() as int) =~= a);
    assert(world_header_text(b0).skip(a.len() as int) =~= z);
    assert(world_header_text(b1) == world_header_text(b0).take(a.len() as int) + line + world_header_text(b0).skip(a.len() as int));
}

/// Setting `starting_board` inserts its line into the world header.
#[verifier::spinoff_prover]
proof fn lemma_header_line_starting_board(w: WorldView, v: i16)
    requires
        v != 0,
    ensures
        exists|k: int|
            #![trigger world_header_text((WorldView { starting_board: 0i16, ..w })).take(k)]
            0 <= k <= world_header_text((WorldView { starting_board: 0i16, ..w })).len() && world_header_text((WorldView { starting_board: v, ..w }))
                == world_header_text((WorldView { starting_board: 0i16, ..w })).take(k) + "starting_board"@ + " = "@ + signed_decimal(v as int) + "\n"@ + world_header_text((WorldView { starting_board: 0i16, ..w })).skip(k),
{
    let b0 = (WorldView { starting_board: 0i16, ..w });
    let b1 = (WorldView { starting_board: v, ..w });
    let line = "starting_board"@ + " = "@ + signed_decimal(v as int) + "\n"@;
    assert(header_title(b1) == header_title(b0)) by {
        reveal(header_title);
    }
    assert(header_counters(b1) == header_counters(b0)) by {
        reveal(header_counters);
    }
    assert(header_timers(b1) == header_timers(b0)) by {
        reveal(header_timers);
    }
    assert(kv_text("starting_board"@, 0i16 as int, 0) =~= Seq::<char>::empty()) by {
        reveal(kv_text);
        reveal(flag_text);
    }
    assert(kv_text("starting_board"@, v as int, 0) =~= line) by {
        reveal(kv_text);
        reveal(flag_text);
    }
    let pa = Seq::<char>::empty() + (if keys_text(b0.keys).len() > 0 { "keys = "@ + debug_str(keys_text(b0.keys)) + "\n"@ } else { Seq::<char>::empty() });
    let pz = Seq::<char>::empty() + flag_text("saved_game"@, b0.saved_game);
    assert(header_keys(b0) =~= pa + pz) by {
        reveal(header_keys);
    }
    assert(header_keys(b1) =~= pa + line + pz) by {
        reveal(header_keys);
    }
    let a = header_title(b0) + header_counters(b0) + pa;
    let z = pz + Seq::<char>::empty() + flags_text(b0.flags) + header_timers(b0);
    assert(world_header_text(b0) =~= a + z) by {
        reveal(world_header_text);
    }
    assert(world_header_text(b1) =~= a + line + z) by {
        reveal(world_header_text);
    }
    assert(world_header_text(b0).take(a.len() as int) =~= a);
    assert(world_header_text(b0).skip(a.len() as int) =~= z);
    assert(world_header_text(b1) == world_header_text(b0).take(a.len() as int) + line + world_header_text(b0).skip(a.len() as int));
}

/// Setting `saved_game` inserts its line into the world header.
#[verifier::spinoff_prover]
proof fn lemma_header_line_saved_game(w: WorldView)
    ensures
        exists|k: int|
            #![trigger world_header_text((WorldView { saved_game: false, ..w })).take(k)]
            0 <= k <= world_header_text((WorldView { saved_game: false, ..w })).len() && world_header_text((WorldView { saved_game: true, ..w }))
                == world_header_text((WorldView { saved_game: false, ..w })).take(k) + "saved_game"@ + " = true\n"@ + world_header_text((WorldView { saved_game: false, ..w })).skip(k),
{
    let b0 = (WorldView { saved_game: false, ..w });
    let b1 = (WorldView { saved_game: true, ..w });
    let line = "saved_game"@ + " = true\n"@;
    assert(header_title(b1) == header_title(b0)) by {
        reveal(header_title);
    }
    assert(header_counters(b1) == header_counters(b0)) by {
        reveal(header_counters);
    }
    assert(header_timers(b1) == header_timers(b0)) by {
        reveal(header_timers);
    }
    assert(flag_text("saved_game"@, false) =~= Seq::<char>::empty()) by {
        reveal(kv_text);
        reveal(flag_text);
    }
    assert(flag_text("saved_game"@, true) =~= line) by {
        reveal(kv_text);
        reveal(flag_text);
    }
    let pa = Seq::<char>::empty() + (if keys_text(b0.keys).len() > 0 { "keys = "@ + debug_str(keys_text(b0.keys)) + "\n"@ } else { Seq::<char>::empty() }) + kv_text("starting_board"@, b0.starting_board as int, 0);
    let pz = Seq::<char>::empty();
    assert(header_keys(b0) =~= pa + pz) by {
        reveal(header_keys);
    }
    assert(header_keys(b1) =~= pa + line + pz) by {
        reveal(header_keys);
    }
    let a = header_title(b0) + header_counters(b0) + pa;
    let z = pz + Seq::<char>::empty() + flags_text(b0.flags) + header_timers(b0);
    assert(world_header_text(b0) =~= a + z) by {
        reveal(world_header_text);
    }
    assert(world_header_text(b1) =~= a + line + z) by {
        reveal(world_header_text);
    }
    assert(world_header_text(b0).take(a.len() as int) =~= a);
    assert(world_header_text(b0).skip(a.len() as int) =~= z);
    assert(world_header_text(b1) == world_header_text(b0).take(a.len() as int) + line + world_header_text(b0).skip(a.len() as int));
}

/// Setting `torch_cycles` inserts its line into the world header.
#[verifier::spinoff_prover]
proof fn lemma_header_line_torch_cycles(w: WorldView, v: i16)
    requires
        v != 0,
    ensures
        exists|k: int|
            #![trigger world_header_text((WorldView { torch_cycles: 0i16, ..w })).take(k)]
            0 <= k <= world_header_text((WorldView { torch_cycles: 0i16, ..w })).len() && world_header_text((WorldView { torch_cycles: v, ..w }))
                == world_header_text((WorldView { torch_cycles: 0i16, ..w })).take(k) + "torch_cycles"@ + " = "@ + signed_decimal(v as int) + "\n"@ + world_header_text((WorldView { torch_cycles: 0i16, ..w })).skip(k),
{
    let b0 = (WorldView { torch_cycles: 0i16, ..w });
    let b1 = (WorldView { torch_cycles: v, ..w });
    let line = "torch_cycles"@ + " = "@ + signed_decimal(v as int) + "\n"@;
    assert(header_title(b1) == header_title(b0)) by {
        reveal(header_title);
    }
    assert(header_counters(b1) == header_counters(b0)) by {
        reveal(header_counters);
    }
    assert(header_keys(b1) == header_keys(b0)) by {
        reveal(header_keys);
    }
    assert(kv_text("torch_cycles"@, 0i16 as int, 0) =~= Seq::<char>::empty()) by {
        reveal(kv_text);
        reveal(flag_text);
    }
    assert(kv_text("torch_cycles"@, v as int, 0) =~= line) by {
        reveal(kv_text);
        reveal(flag_text);
    }
    let pa = Seq::<char>::empty();
    let pz = Seq::<char>::empty() + kv_text("energizer_cycles"@, b0.energizer_cycles as int, 0) + kv_text("time"@, b0.time as int, 0) + kv_text("time_ticks"@, b0.time_ticks as int, 0);
    assert(header_timers(b0) =~= pa + pz) by {
        reveal(header_timers);
    }
    assert(header_timers(b1) =~= pa + line + pz) by {
        reveal(header_timers);
    }
    let a = header_title(b0) + header_counters(b0) + header_keys(b0) + flags_text(b0.flags) + pa;
    let z = pz + Seq::<char>::empty();
    assert(world_header_text(b0) =~= a + z) by {
        reveal(world_header_text);
    }
    assert(world_header_text(b1) =~= a + line + z) by {
        reveal(world_header_text);
    }
    assert(world_header_text(b0).take(a.len() as int) =~= a);
    assert(world_header_text(b0).skip(a.len() as int) =~= z);
    assert(world_header_text(b1) == world_header_text(b0).take(a.len() as int) + line + world_header_text(b0).skip(a.len() as int));
}

/// Setting `energizer_cycles` inserts its line into the world header.
#[verifier::spinoff_prover]
proof fn lemma_header_line_energizer_cycles(w: WorldView, v: i16)
    requires
        v != 0,
    ensures
        exists|k: int|
            #![trigger world_header_text((WorldView { energizer_cycles: 0i16, ..w })).take(k)]
            0 <= k <= world_header_text((WorldView { energizer_cycles: 0i16, ..w })).len() && world_header_text((WorldView { energizer_cycles: v, ..w }))
                == world_header_text((WorldView { energizer_cycles: 0i16, ..w })).take(k) + "energizer_cycles"@ + " = "@ + signed_decimal(v as int) + "\n"@ + world_header_text((WorldView { energizer_cycles: 0i16, ..w })).skip(k),
{
    let b0 = (WorldView { energizer_cycles: 0i16, ..w });
    let b1 = (WorldView { energizer_cycles: v, ..w });
    let line = "energizer_cycles"@ + " = "@ + signed_decimal(v as int) + "\n"@;
    assert(header_title(b1) == header_title(b0)) by {
        reveal(header_title);
    }
    assert(header_counters(b1) == header_counters(b0)) by {
        reveal(header_counters);
    }
    assert(header_keys(b1) == header_keys(b0)) by {
        reveal(header_keys);
    }
    assert(kv_text("energizer_cycles"@, 0i16 as int, 0) =~= Seq::<char>::empty()) by {
        reveal(kv_text);
        reveal(flag_text);
    }
    assert(kv_text("energizer_cycles"@, v as int, 0) =~= line) by {
        reveal(kv_text);
        reveal(flag_text);
    }
    let pa = Seq::<char>::empty() + kv_text("torch_cycles"@, b0.torch_cycles as int, 0);
    let pz = Seq::<char>::empty() + kv_text("time"@, b0.time as int, 0) + kv_text("time_ticks"@, b0.time_ticks as int, 0);
    assert(header_timers(b0) =~= pa + pz) by {
        reveal(header_timers);
    }
    assert(header_timers(b1) =~= pa + line + pz) by {
        reveal(header_timers);
    }
    let a = header_title(b0) + header_counters(b0) + header_keys(b0) + flags_text(b0.flags) + pa;
    let z = pz + Seq::<char>::empty();
    assert(world_header_text(b0) =~= a + z) by {
        reveal(world_header_text);
    }
    assert(world_header_text(b1) =~= a + line + z) by {
        reveal(world_header_text);
    }
    assert(world_header_text(b0).take(a.len() as int) =~= a);
    assert(world_header_text(b0).skip(a.len() as int) =~= z);
    assert(world_header_text(b1) == world_header_text(b0).take(a.len() as int) + line + world_header_text(b0).skip(a.len() as int));
}

/// Setting `time` inserts its line into the world header.
#[verifier::spinoff_prover]
proof fn lemma_header_line_time(w: WorldView, v: i16)
    requires
        v != 0,
    ensures
        exists|k: int|
            #![trigger world_header_text((WorldView { time: 0i16, ..w })).take(k)]
            0 <= k <= world_header_text((WorldView { time: 0i16, ..w })).len() && world_header_text((WorldView { time: v, ..w }))
                == world_header_text((WorldView { time: 0i16, ..w })).take(k) + "time"@ + " = "@ + signed_decimal(v as int) + "\n"@ + world_header_text((WorldView { time: 0i16, ..w })).skip(k),
{
    let b0 = (WorldView { time: 0i16, ..w });
    let b1 = (WorldView { time: v, ..w });
    let line = "time"@ + " = "@ + signed_decimal(v as int) + "\n"@;
    assert(header_title(b1) == header_title(b0)) by {
        reveal(header_title);
    }
    assert(header_counters(b1) == header_counters(b0)) by {
        reveal(header_counters);
    }
    assert(header_keys(b1) == header_keys(b0)) by {
        reveal(header_keys);
    }
    assert(kv_text("time"@, 0i16 as int, 0) =~= Seq::<char>::empty()) by {
        reveal(kv_text);
        reveal(flag_text);
    }
    assert(kv_text("time"@, v as int, 0) =~= line) by {
        reveal(kv_text);
        reveal(flag_text);
    }
    let pa = Seq::<char>::empty() + kv_text("torch_cycles"@, b0.torch_cycles as int, 0) + kv_text("energizer_cycles"@, b0.energizer_cycles as int, 0);
    let pz = Seq::<char>::empty() + kv_text("time_ticks"@, b0.time_ticks as int, 0);
    assert(header_timers(b0) =~= pa + pz) by {
        reveal(header_timers);
    }
    assert(header_timers(b1) =~= pa + line + pz) by {
        reveal(header_timers);
    }
    let a = header_title(b0) + header_counters(b0) + header_keys(b0) + flags_text(b0.flags) + pa;
    let z = pz + Seq::<char>::empty();
    assert(world_header_text(b0) =~= a + z) by {
        reveal(world_header_text);
    }
    assert(world_header_text(b1) =~= a + line + z) by {
        reveal(world_header_text);
    }
    assert(world_header_text(b0).take(a.len() as int) =~= a);
    assert(world_header_text(b0).skip(a.len() as int) =~= z);
    assert(world_header_text(b1) == world_header_text(b0).take(a.len() as int) + line + world_header_text(b0).skip(a.len() as int));
}

/// Setting `time_ticks` inserts its line into the world header.
#[verifier::spinoff_prover]
proof fn lemma_header_line_time_ticks(w: WorldView, v: i16)
    requires
        v != 0,
    ensures
        exists|k: int|
            #![trigger world_header_text((WorldView { time_ticks: 0i16, ..w })).take(k)]
            0 <= k <= world_header_text((WorldView { time_ticks: 0i16, ..w })).len() && world_header_text((WorldView { time_ticks: v, ..w }))
                == world_header_text((WorldView { time_ticks: 0i16, ..w })).take(k) + "time_ticks"@ + " = "@ + signed_decimal(v as int) + "\n"@ + world_header_text((WorldView { time_ticks: 0i16, ..w })).skip(k),
{
    let b0 = (WorldView { time_ticks: 0i16, ..w });
    let b1 = (WorldView { time_ticks: v, ..w });
    let line = "time_ticks"@ + " = "@ + signed_decimal(v as int) + "\n"@;
    assert(header_title(b1) == header_title(b0)) by {
        reveal(header_title);
    }
    assert(header_counters(b1) == header_counters(b0)) by {
        reveal(header_counters);
    }
    assert(header_keys(b1) == header_keys(b0)) by {
        reveal(header_keys);
    }
    assert(kv_text("time_ticks"@, 0i16 as int, 0) =~= Seq::<char>::empty()) by {
        reveal(kv_text);
        reveal(flag_text);
    }
    assert(kv_text("time_ticks"@, v as int, 0) =~= line) by {
        reveal(kv_text);
        reveal(flag_text);
    }
    let pa = Seq::<char>::empty() + kv_text("torch_cycles"@, b0.torch_cycles as int, 0) + kv_text("energizer_cycles"@, b0.energizer_cycles as int, 0) + kv_text("time"@, b0.time as int, 0);
    let pz = Seq::<char>::empty();
    assert(header_timers(b0) =~= pa + pz) by {
        reveal(header_timers);
    }
    assert(header_timers(b1) =~= pa + line + pz) by {
        reveal(header_timers);
    }
    let a = header_title(b0) + header_counters(b0) + header_keys(b0) + flags_text(b0.flags) + pa;
    let z = pz + Seq::<char>::empty();
    assert(world_header_text(b0) =~= a + z) by {
        reveal(world_header_text);
    }
    assert(world_header_text(b1) =~= a + line + z) by {
        reveal(world_header_text);
    }
    assert(world_header_text(b0).take(a.len() as int) =~= a);
    assert(world_header_text(b0).skip(a.len() as int) =~= z);
    assert(world_header_text(b1) == world_header_text(b0).take(a.len() as int) + line + world_header_text(b0).skip(a.len() as int));
}

/// The world header names each field by its own key: setting a counter or timer to `n16`
/// (not its default: 100 for health, 0 for the others), or marking the world as a saved
/// game, adds exactly that field's line, `key = value`, and leaves the other lines as they
/// were.
pub proof fn lemma_header_lines(w: WorldView, n16: i16)
    ensures
        n16 != 100 ==> (exists|k: int|
            #![trigger world_header_text((WorldView { health: 100i16, ..w })).take(k)]
            0 <= k <= world_header_text((WorldView { health: 100i16, ..w })).len() && world_header_text((WorldView { health: n16, ..w }))
                == world_header_text((WorldView { health: 100i16, ..w })).take(k) + "health"@ + " = "@ + signed_decimal(n16 as int) + "\n"@ + world_header_text((WorldView { health: 100i16, ..w })).skip(k)),
        n16 != 0 ==> (exists|k: int|
            #![trigger world_header_text((WorldView { ammo: 0i16, ..w })).take(k)]
            0 <= k <= world_header_text((WorldView { ammo: 0i16, ..w })).len() && world_header_text((WorldView { ammo: n16, ..w }))
                == world_header_text((WorldView { ammo: 0i16, ..w })).take(k) + "ammo"@ + " = "@ + signed_decimal(n16 as int) + "\n"@ + world_header_text((WorldView { ammo: 0i16, ..w })).skip(k)),
        n16 != 0 ==> (exists|k: int|
            #![trigger world_header_text((WorldView { gems: 0i16, ..w })).take(k)]
            0 <= k <= world_header_text((WorldView { gems: 0i16, ..w })).len() && world_header_text((WorldView { gems: n16, ..w }))
                == world_header_text((WorldView { gems: 0i16, ..w })).take(k) + "gems"@ + " = "@ + signed_decimal(n16 as int) + "\n"@ + world_header_text((WorldView { gems: 0i16, ..w })).skip(k)),
        n16 != 0 ==> (exists|k: int|
            #![trigger world_header_text((WorldView { torches: 0i16, ..w })).take(k)]
            0 <= k <= world_header_text((WorldView { torches: 0i16, ..w })).len() && world_header_text((WorldView { torches: n16, ..w }))
                == world_header_text((WorldView { torches: 0i16, ..w })).take(k) + "torches"@ + " = "@ + signed_decimal(n16 as int) + "\n"@ + world_header_text((WorldView { torches: 0i16, ..w })).skip(k)),
        n16 != 0 ==> (exists|k: int|
            #![trigger world_header_text((WorldView { score: 0i16, ..w })).take(k)]
            0 <= k <= world_header_text((WorldView { score: 0i16, ..w })).len() && world_header_text((WorldView { score: n16, ..w }))
                == world_header_text((WorldView { score: 0i16, ..w })).take(k) + "score"@ + " = "@ + signed_decimal(n16 as int) + "\n"@ + world_header_text((WorldView { score: 0i16, ..w })).skip(k)),
        n16 != 0 ==> (exists|k: int|
            #![trigger world_header_text((WorldView { starting_board: 0i16, ..w })).take(k)]
            0 <= k <= world_header_text((WorldView { starting_board: 0i16, ..w })).len() && world_header_text((WorldView { starting_board: n16, ..w }))
                == world_header_text((WorldView { starting_board: 0i16, ..w })).take(k) + "starting_board"@ + " = "@ + signed_decimal(n16 as int) + "\n"@ + world_header_text((WorldView { starting_board: 0i16, ..w })).skip(k)),
        exists|k: int|
            #![trigger world_header_text((WorldView { saved_game: false, ..w })).take(k)]
            0 <= k <= world_header_text((WorldView { saved_game: false, ..w })).len() && world_header_text((WorldView { saved_game: true, ..w }))
                == world_header_text((WorldView { saved_game: false, ..w })).take(k) + "saved_game"@ + " = true\n"@ + world_header_text((WorldView { saved_game: false, ..w })).skip(k),
        n16 != 0 ==> (exists|k: int|
            #![trigger world_header_text((WorldView { torch_cycles: 0i16, ..w })).take(k)]
            0 <= k <= world_header_text((WorldView { torch_cycles: 0i16, ..w })).len() && world_header_text((WorldView { torch_cycles: n16, ..w }))
                == world_header_text((WorldView { torch_cycles: 0i16, ..w })).take(k) + "torch_cycles"@ + " = "@ + signed_decimal(n16 as int) + "\n"@ + world_header_text((WorldView { torch_cycles: 0i16, ..w })).skip(k)),
        n16 != 0 ==> (exists|k: int|
            #![trigger world_header_text((WorldView { energizer_cycles: 0i16, ..w })).take(k)]
            0 <= k <= world_header_text((WorldView { energizer_cycles: 0i16, ..w })).len() && world_header_text((WorldView { energizer_cycles: n16, ..w }))
                == world_header_text((WorldView { energizer_cycles: 0i16, ..w })).take(k) + "energizer_cycles"@ + " = "@ + signed_decimal(n16 as int) + "\n"@ + world_header_text((WorldView { energizer_cycles: 0i16, ..w })).skip(k)),
        n16 != 0 ==> (exists|k: int|
            #![trigger world_header_text((WorldView { time: 0i16, ..w })).take(k)]
            0 <= k <= world_header_text((WorldView { time: 0i16, ..w })).len() && world_header_text((WorldView { time: n16, ..w }))
                == world_header_text((WorldView { time: 0i16, ..w })).take(k) + "time"@ + " = "@ + signed_decimal(n16 as int) + "\n"@ + world_header_text((WorldView { time: 0i16, ..w })).skip(k)),
        n16 != 0 ==> (exists|k: int|
            #![trigger world_header_text((WorldView { time_ticks: 0i16, ..w })).take(k)]
            0 <= k <= world_header_text((WorldView { time_ticks: 0i16, ..w })).len() && world_header_text((WorldView { time_ticks: n16, ..w }))
                == world_header_text((WorldView { time_ticks: 0i16, ..w })).take(k) + "time_ticks"@ + " = "@ + signed_decimal(n16 as int) + "\n"@ + world_header_text((WorldView { time_ticks: 0i16, ..w })).skip(k)),
{
    if n16 != 100 {
        lemma_header_line_health(w, n16);
    }
    if n16 != 0 {
        lemma_header_line_ammo(w, n16);
    }
    if n16 != 0 {
        lemma_header_line_gems(w, n16);
    }
    if n16 != 0 {
        lemma_header_line_torches(w, n16);
    }
    if n16 != 0 {
        lemma_header_line_score(w, n16);
    }
    if n16 != 0 {
        lemma_header_line_starting_board(w, n16);
    }
    lemma_header_line_saved_game(w);
    if n16 != 0 {
        lemma_header_line_torch_cycles(w, n16);
    }
    if n16 != 0 {
        lemma_header_line_energizer_cycles(w, n16);
    }
    if n16 != 0 {
        lemma_header_line_time(w, n16);
    }
    if n16 != 0 {
        lemma_header_line_time_ticks(w, n16);
    }
}

} // verus!
