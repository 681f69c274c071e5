use vstd::prelude::*;

use crate::bytes::{
    bool_byte, le16, pstring_spec, push_bool, push_i16, push_padding, push_string, push_u16, zeros,
};
use crate::errors::{bytes_of, EncodeError};
use crate::text::{encode_multiline, encode_multiline_spec};
use crate::world::{Board, BoardView, Program, ProgramView, Stat, StatView, Tile, World, WorldView};

verus! {

/// How many tiles, counting on from position `k`, repeat `t[0]` without a break, capped at
/// 255 (the largest count a run can store).
pub open spec fn run_from(t: Seq<Tile>, k: nat) -> nat
    decreases 255 - k,
{
    if k < 255 && k < t.len() && t[k as int] == t[0] {
        run_from(t, k + 1)
    } else {
        k
    }
}

/// Facts about [`run_from`]: the run only grows, stays within the data and the cap, consists
/// of copies of the first tile, and stops at a different tile unless a limit stopped it.
pub proof fn lemma_run_from(t: Seq<Tile>, k: nat)
    requires
        1 <= k <= t.len(),
        k <= 255,
        forall|j: int| 0 <= j < k ==> #[trigger] t[j] == t[0],
    ensures
        k <= run_from(t, k) <= t.len(),
        run_from(t, k) <= 255,
        forall|j: int| 0 <= j < run_from(t, k) ==> #[trigger] t[j] == t[0],
        run_from(t, k) < t.len() && run_from(t, k) < 255 ==> t[run_from(t, k) as int] != t[0],
    decreases 255 - k,
{
    if k < 255 && k < t.len() && t[k as int] == t[0] {
        lemma_run_from(t, k + 1);
    }
}

/// Run-length encoding of terrain: from the front, each maximal run of up to 255 equal tiles
/// becomes three bytes (count, element, color).
pub open spec fn encode_tiles(t: Seq<Tile>) -> Seq<u8>
    decreases t.len(),
{
    if t.len() == 0 {
        Seq::empty()
    } else {
        let n = run_from(t, 1);
        proof {
            lemma_run_from(t, 1);
        }
        seq![n as u8, t[0].element, t[0].color] + encode_tiles(t.skip(n as int))
    }
}

/// The byte that stores a board exit: the board index, 0 for none.
pub open spec fn exit_byte(e: Option<u8>) -> u8 {
    match e {
        Some(n) => n,
        None => 0,
    }
}

/// The first 23 bytes of a stat: coordinates, steps, cycle, parameters, chain links, the tile
/// underneath, 4 unused bytes and the instruction pointer.
pub open spec fn stat_head(s: StatView) -> Seq<u8> {
    seq![s.x, s.y] + le16(s.x_step as int) + le16(s.y_step as int) + le16(s.cycle as int) + seq![
        s.p1,
        s.p2,
        s.p3,
    ] + le16(s.follower as int) + le16(s.leader as int) + seq![s.under.element, s.under.color]
        + zeros(4) + le16(s.instruction_pointer as int)
}

/// A stat as bytes: its head, then a length field (the negated index of a bound program, or
/// the length of its own code), 8 bytes of padding and the code itself.
pub open spec fn encode_stat(s: StatView) -> Result<Seq<u8>, EncodeError> {
    match s.program {
        ProgramView::Bound(index) => Ok(stat_head(s) + le16(-(index as int)) + zeros(8)),
        ProgramView::Own(code) => match encode_multiline_spec(code) {
            Err(e) => Err(e),
            Ok(b) => Ok(stat_head(s) + le16(b.len() as int) + zeros(8) + b),
        },
    }
}

/// A list of stats as bytes, one after the other, or the error of the first stat that fails.
pub open spec fn encode_stats(s: Seq<StatView>) -> Result<Seq<u8>, EncodeError>
    decreases s.len(),
{
    if s.len() == 0 {
        Ok(Seq::empty())
    } else {
        match encode_stats(s.drop_last()) {
            Err(e) => Err(e),
            Ok(a) => match encode_stat(s.last()) {
                Err(e) => Err(e),
                Ok(b) => Ok(a + b),
            },
        }
    }
}

/// The bytes of a board after its size field, given its encoded title `nb`, message `mb` and
/// stats `sb`.
pub open spec fn board_body(b: BoardView, nb: Seq<u8>, mb: Seq<u8>, sb: Seq<u8>) -> Seq<u8> {
    nb + encode_tiles(b.tiles) + seq![
        b.max_shots,
        bool_byte(b.is_dark),
        exit_byte(b.exit_north),
        exit_byte(b.exit_south),
        exit_byte(b.exit_west),
        exit_byte(b.exit_east),
        bool_byte(b.restart_on_zap),
    ] + mb + seq![b.enter_x, b.enter_y] + le16(b.time_limit as int) + zeros(16) + le16(
        b.stats.len() - 1,
    ) + sb
}

/// The bytes of a board after its size field, or the first error among title, message and
/// stats.
pub open spec fn encode_board_body(b: BoardView) -> Result<Seq<u8>, EncodeError> {
    match pstring_spec(50, b.name) {
        Err(e) => Err(e),
        Ok(nb) => match pstring_spec(58, b.message) {
            Err(e) => Err(e),
            Ok(mb) => match encode_stats(b.stats) {
                Err(e) => Err(e),
                Ok(sb) => Ok(board_body(b, nb, mb, sb)),
            },
        },
    }
}

/// A board as bytes: a 16-bit size field, then the body; or the first error among title,
/// message, stats, and the size limit of 65535 bytes.
pub open spec fn encode_board(b: BoardView) -> Result<Seq<u8>, EncodeError> {
    match encode_board_body(b) {
        Err(e) => Err(e),
        Ok(body) => if body.len() > 65535 {
            Err(EncodeError::BoardTooLarge)
        } else {
            Ok(le16(body.len() as int) + body)
        },
    }
}

/// Boards as bytes, one after the other, or the error of the first board that fails.
pub open spec fn encode_boards(bs: Seq<BoardView>) -> Result<Seq<u8>, EncodeError>
    decreases bs.len(),
{
    if bs.len() == 0 {
        Ok(Seq::empty())
    } else {
        match encode_boards(bs.drop_last()) {
            Err(e) => Err(e),
            Ok(a) => match encode_board(bs.last()) {
                Err(e) => Err(e),
                Ok(b) => Ok(a + b),
            },
        }
    }
}

/// The flag fields of a world header, or the error of the first flag that fails.
pub open spec fn encode_flags(f: Seq<Seq<char>>) -> Result<Seq<u8>, EncodeError>
    decreases f.len(),
{
    if f.len() == 0 {
        Ok(Seq::empty())
    } else {
        match encode_flags(f.drop_last()) {
            Err(e) => Err(e),
            Ok(a) => match pstring_spec(20, f.last()) {
                Err(e) => Err(e),
                Ok(b) => Ok(a + b),
            },
        }
    }
}

/// The 29 bytes of a world header before its name: the magic number (-1), the board count
/// minus one, the counters, the keys, 2 bytes of padding and the score.
pub open spec fn world_head(w: WorldView) -> Seq<u8> {
    le16(-1) + le16(w.boards.len() - 1) + le16(w.ammo as int) + le16(w.gems as int) + seq![
        bool_byte(w.keys.blue),
        bool_byte(w.keys.green),
        bool_byte(w.keys.cyan),
        bool_byte(w.keys.red),
        bool_byte(w.keys.purple),
        bool_byte(w.keys.yellow),
        bool_byte(w.keys.white),
    ] + le16(w.health as int) + le16(w.starting_board as int) + le16(w.torches as int) + le16(
        w.torch_cycles as int,
    ) + le16(w.energizer_cycles as int) + zeros(2) + le16(w.score as int)
}

/// The 5 bytes of a world header after its flags: time, time ticks and the saved-game flag.
pub open spec fn world_tail(w: WorldView) -> Seq<u8> {
    le16(w.time as int) + le16(w.time_ticks as int) + seq![bool_byte(w.saved_game)]
}

/// A world as bytes: a 512-byte header (265 bytes of fields, zero padding) and then the
/// boards; or the first error among the name, the flags, an empty board list and the boards.
pub open spec fn encode_world(w: WorldView) -> Result<Seq<u8>, EncodeError> {
    match pstring_spec(20, w.name) {
        Err(e) => Err(e),
        Ok(nb) => match encode_flags(w.flags) {
            Err(e) => Err(e),
            Ok(fb) => if w.boards.len() == 0 {
                Err(EncodeError::NoBoards)
            } else {
                match encode_boards(w.boards) {
                    Err(e) => Err(e),
                    Ok(bb) => Ok(world_head(w) + nb + fb + world_tail(w) + zeros(247) + bb),
                }
            },
        },
    }
}

impl Stat {
    /// Serialize this stat: its fixed fields, then its program.
    pub fn to_bytes(&self) -> (r: Result<Vec<u8>, EncodeError>)
        ensures
            bytes_of(r) == encode_stat(self@),
    {
        let mut out: Vec<u8> = Vec::new();
        out.push(self.x);
        out.push(self.y);
        assert(out@ =~= seq![self.x, self.y]);
        push_i16(&mut out, self.x_step);
        push_i16(&mut out, self.y_step);
        push_i16(&mut out, self.cycle);
        let ghost a = out@;
        out.push(self.p1);
        out.push(self.p2);
        out.push(self.p3);
        assert(out@ =~= a + seq![self.p1, self.p2, self.p3]);
        push_i16(&mut out, self.follower);
        push_i16(&mut out, self.leader);
        let ghost a = out@;
        out.push(self.under.element);
        out.push(self.under.color);
        assert(out@ =~= a + seq![self.under.element, self.under.color]);
        push_padding(&mut out, 4);
        push_i16(&mut out, self.instruction_pointer);
        assert(out@ == stat_head(self@));
        match &self.program {
            Program::Bound(index) => {
                let field: u16 = if *index == 0 {
                    0
                } else {
                    (65536 - *index as u32) as u16
                };
                push_u16(&mut out, field);
                assert(le16(field as int) =~= le16(-(*index as int)));
                push_padding(&mut out, 8);
            },
            Program::Own(code) => {
                let mut code_bytes = match encode_multiline(code.as_str()) {
                    Ok(b) => b,
                    Err(e) => return Err(e),
                };
                let field: u16 = (code_bytes.len() % 65536) as u16;
                push_u16(&mut out, field);
                assert(le16(field as int) =~= le16(code_bytes@.len() as int));
                push_padding(&mut out, 8);
                out.append(&mut code_bytes);
            },
        }
        Ok(out)
    }
}

/// Each step of the run-length encoding: the first run, then the encoding of the rest.
pub proof fn lemma_encode_tiles_step(t: Seq<Tile>, i: int, n: nat)
    requires
        0 <= i < t.len(),
        n == run_from(t.skip(i), 1),
    ensures
        encode_tiles(t.skip(i)) == seq![n as u8, t[i].element, t[i].color] + encode_tiles(
            t.skip(i + n),
        ),
{
    lemma_run_from(t.skip(i), 1);
    assert(t.skip(i).skip(n as int) =~= t.skip(i + n));
}

/// Appends the run-length encoding of a board's terrain.
fn push_tiles(out: &mut Vec<u8>, tiles: &[Tile; 1500])
    ensures
        final(out)@ == old(out)@ + encode_tiles(tiles@),
{
    let ghost start = out@;
    let ghost t = tiles@;
    let mut i: usize = 0;
    assert(t.skip(0) =~= t);
    while i < 1500
        invariant
            t == tiles@,
            t.len() == 1500,
            i <= 1500,
            out@ + encode_tiles(t.skip(i as int)) == start + encode_tiles(t),
        decreases 1500 - i,
    {
        let tile = tiles[i];
        let mut count: usize = 1;
        proof {
            lemma_run_from(t.skip(i as int), 1);
        }
        while count < 255 && i + count < 1500 && tiles[i + count] == tile
            invariant
                t == tiles@,
                t.len() == 1500,
                i < 1500,
                1 <= count <= 255,
                i + count <= 1500,
                tile == t[i as int],
                forall|j: int| 0 <= j < count ==> #[trigger] t.skip(i as int)[j] == t.skip(i as int)[0],
                run_from(t.skip(i as int), count as nat) == run_from(t.skip(i as int), 1),
            decreases 255 - count,
        {
            count += 1;
        }
        proof {
            lemma_encode_tiles_step(t, i as int, count as nat);
        }
        let ghost before = out@;
        out.push(count as u8);
        out.push(tile.element);
        out.push(tile.color);
        assert(out@ =~= before + seq![count as u8, tile.element, tile.color]);
        i += count;
    }
    assert(encode_tiles(t.skip(1500)) =~= Seq::<u8>::empty());
    assert(out@ =~= out@ + encode_tiles(t.skip(1500)));
}

impl Board {
    /// Serialize this board: a 2-byte size field, then the board's data.
    pub fn to_bytes(&self) -> (r: Result<Vec<u8>, EncodeError>)
        ensures
            bytes_of(r) == encode_board(self@),
    {
        let mut body = match self.body_bytes() {
            Ok(b) => b,
            Err(e) => return Err(e),
        };
        if body.len() > 65535 {
            return Err(EncodeError::BoardTooLarge);
        }
        let ghost bd = body@;
        let mut out: Vec<u8> = Vec::new();
        push_u16(&mut out, body.len() as u16);
        out.append(&mut body);
        assert(out@ =~= le16(bd.len() as int) + bd);
        Ok(out)
    }

    /// The board's data after the size field.
    #[verifier::rlimit(50)]
    fn body_bytes(&self) -> (r: Result<Vec<u8>, EncodeError>)
        ensures
            bytes_of(r) == encode_board_body(self@),
    {
        let mut body: Vec<u8> = Vec::new();
        match push_string(&mut body, 50, self.name.as_str()) {
            Ok(()) => {},
            Err(e) => return Err(e),
        }
        let ghost nb = body@;
        assert(nb =~= Seq::<u8>::empty() + nb);
        push_tiles(&mut body, &self.tiles);
        self.push_info(&mut body);
        let ghost before_message = body@;
        match push_string(&mut body, 58, self.message.as_str()) {
            Ok(()) => {},
            Err(e) => return Err(e),
        }
        let ghost mb = body@.skip(before_message.len() as int);
        assert(body@ =~= before_message + mb);
        self.push_tail(&mut body);
        match push_stats(&mut body, &self.stats) {
            Ok(()) => {},
            Err(e) => return Err(e),
        }
        Ok(body)
    }

    /// Appends the seven bytes between the terrain and the message.
    fn push_info(&self, body: &mut Vec<u8>)
        ensures
            final(body)@ == old(body)@ + seq![
                self.max_shots,
                bool_byte(self.is_dark),
                exit_byte(self.exit_north),
                exit_byte(self.exit_south),
                exit_byte(self.exit_west),
                exit_byte(self.exit_east),
                bool_byte(self.restart_on_zap),
            ],
    {
        let ghost a = body@;
        body.push(self.max_shots);
        push_bool(body, self.is_dark);
        body.push(exit_value(self.exit_north));
        body.push(exit_value(self.exit_south));
        body.push(exit_value(self.exit_west));
        body.push(exit_value(self.exit_east));
        push_bool(body, self.restart_on_zap);
        assert(body@ =~= a + seq![
            self.max_shots,
            bool_byte(self.is_dark),
            exit_byte(self.exit_north),
            exit_byte(self.exit_south),
            exit_byte(self.exit_west),
            exit_byte(self.exit_east),
            bool_byte(self.restart_on_zap),
        ]);
    }

    /// Appends the bytes between the message and the stats: entrance, time limit, padding
    /// and the stat count minus one.
    fn push_tail(&self, body: &mut Vec<u8>)
        ensures
            final(body)@ == old(body)@ + seq![self.enter_x, self.enter_y] + le16(self.time_limit as int)
                + zeros(16) + le16(self@.stats.len() - 1),
    {
        let ghost a = body@;
        body.push(self.enter_x);
        body.push(self.enter_y);
        assert(body@ =~= a + seq![self.enter_x, self.enter_y]);
        push_i16(body, self.time_limit);
        push_padding(body, 16);
        let count_field: u16 = if self.stats.len() == 0 {
            65535
        } else {
            ((self.stats.len() - 1) % 65536) as u16
        };
        push_u16(body, count_field);
        assert(le16(count_field as int) =~= le16(self@.stats.len() - 1));
    }
}

/// Appends the encodings of a list of stats, or reports the first that fails.
fn push_stats(out: &mut Vec<u8>, stats: &Vec<Stat>) -> (r: Result<(), EncodeError>)
    ensures
        match encode_stats(stats@.map_values(|s: Stat| s@)) {
            Ok(sb) => r is Ok && final(out)@ == old(out)@ + sb,
            Err(e) => r == Err::<(), EncodeError>(e),
        },
{
    let ghost sv = stats@.map_values(|s: Stat| s@);
    let ghost head = out@;
    let mut i: usize = 0;
    assert(sv.take(0) =~= Seq::<StatView>::empty());
    assert(out@ =~= head + Seq::<u8>::empty());
    while i < stats.len()
        invariant
            i <= stats.len(),
            sv == stats@.map_values(|s: Stat| s@),
            encode_stats(sv.take(i as int)) matches Ok(sb) && out@ == head + sb,
        decreases stats.len() - i,
    {
        let ghost prev = out@;
        assert(sv.take(i + 1).drop_last() =~= sv.take(i as int));
        assert(sv.take(i + 1).last() == stats@[i as int]@);
        let mut sbytes = match stats[i].to_bytes() {
            Ok(b) => b,
            Err(e) => {
                proof {
                    lemma_stats_prefix_err(sv, i + 1);
                }
                return Err(e);
            },
        };
        out.append(&mut sbytes);
        i += 1;
        assert(out@ =~= head + encode_stats(sv.take(i as int))->Ok_0);
    }
    assert(sv.take(i as int) =~= sv);
    Ok(())
}

/// Once a prefix of a flag list fails to encode, the whole list fails the same way.
pub proof fn lemma_flags_prefix_err(f: Seq<Seq<char>>, k: int)
    requires
        0 <= k <= f.len(),
        encode_flags(f.take(k)) is Err,
    ensures
        encode_flags(f) == encode_flags(f.take(k)),
    decreases f.len(),
{
    if k < f.len() {
        assert(f.drop_last().take(k) =~= f.take(k));
        lemma_flags_prefix_err(f.drop_last(), k);
    } else {
        assert(f.take(k) =~= f);
    }
}

/// Once a prefix of a board list fails to encode, the whole list fails the same way.
pub proof fn lemma_boards_prefix_err(bs: Seq<BoardView>, k: int)
    requires
        0 <= k <= bs.len(),
        encode_boards(bs.take(k)) is Err,
    ensures
        encode_boards(bs) == encode_boards(bs.take(k)),
    decreases bs.len(),
{
    if k < bs.len() {
        assert(bs.drop_last().take(k) =~= bs.take(k));
        lemma_boards_prefix_err(bs.drop_last(), k);
    } else {
        assert(bs.take(k) =~= bs);
    }
}

/// Appends the ten flag fields of a world header, or reports the first that fails.
fn push_flags(out: &mut Vec<u8>, flags: &[String; 10]) -> (r: Result<(), EncodeError>)
    ensures
        match encode_flags(flags@.map_values(|s: String| s@)) {
            Ok(fb) => r is Ok && final(out)@ == old(out)@ + fb,
            Err(e) => r == Err::<(), EncodeError>(e),
        },
{
    let ghost fv = flags@.map_values(|s: String| s@);
    let ghost head = out@;
    let mut i: usize = 0;
    assert(fv.take(0) =~= Seq::<Seq<char>>::empty());
    assert(out@ =~= head + Seq::<u8>::empty());
    while i < 10
        invariant
            i <= 10,
            flags@.len() == 10,
            fv == flags@.map_values(|s: String| s@),
            encode_flags(fv.take(i as int)) matches Ok(fb) && out@ == head + fb,
        decreases 10 - i,
    {
        assert(fv.take(i + 1).drop_last() =~= fv.take(i as int));
        assert(fv.take(i + 1).last() == flags@[i as int]@);
        let ghost prev = out@;
        match push_string(out, 20, flags[i].as_str()) {
            Ok(()) => {},
            Err(e) => {
                proof {
                    lemma_flags_prefix_err(fv, i + 1);
                }
                return Err(e);
            },
        }
        i += 1;
        assert(out@ =~= head + encode_flags(fv.take(i as int))->Ok_0);
    }
    assert(fv.take(10) =~= fv);
    Ok(())
}

/// Appends the encodings of a list of boards, or reports the first that fails.
fn push_boards(out: &mut Vec<u8>, boards: &Vec<Board>) -> (r: Result<(), EncodeError>)
    ensures
        match encode_boards(boards@.map_values(|b: Board| b@)) {
            Ok(bb) => r is Ok && final(out)@ == old(out)@ + bb,
            Err(e) => r == Err::<(), EncodeError>(e),
        },
{
    let ghost bv = boards@.map_values(|b: Board| b@);
    let ghost head = out@;
    let mut i: usize = 0;
    assert(bv.take(0) =~= Seq::<BoardView>::empty());
    assert(out@ =~= head + Seq::<u8>::empty());
    while i < boards.len()
        invariant
            i <= boards.len(),
            bv == boards@.map_values(|b: Board| b@),
            encode_boards(bv.take(i as int)) matches Ok(bb) && out@ == head + bb,
        decreases boards.len() - i,
    {
        assert(bv.take(i + 1).drop_last() =~= bv.take(i as int));
        assert(bv.take(i + 1).last() == boards@[i as int]@);
        let mut bbytes = match boards[i].to_bytes() {
            Ok(b) => b,
            Err(e) => {
                proof {
                    lemma_boards_prefix_err(bv, i + 1);
                }
                return Err(e);
            },
        };
        out.append(&mut bbytes);
        i += 1;
        assert(out@ =~= head + encode_boards(bv.take(i as int))->Ok_0);
    }
    assert(bv.take(i as int) =~= bv);
    Ok(())
}

/// The board-count field of a world header for `n` boards: `n - 1`, kept to 16 bits.
fn count_field(n: usize) -> (r: u16)
    ensures
        le16(r as int) == le16(n - 1),
{
    let r: u16 = if n == 0 {
        65535
    } else {
        ((n - 1) % 65536) as u16
    };
    assert(le16(r as int) =~= le16(n - 1));
    r
}

impl World {
    /// Serialize this world: the 512-byte header, then each board.
    ///
    /// A name or flag that does not fit its 20-byte field gives that error; after them, a
    /// world without boards gives [`EncodeError::NoBoards`], and a board that cannot be
    /// written gives its error.
    pub fn to_bytes(&self) -> (r: Result<Vec<u8>, EncodeError>)
        ensures
            bytes_of(r) == encode_world(self@),
    {
        let mut out = self.head_bytes();
        let ghost h = out@;
        match push_string(&mut out, 20, self.name.as_str()) {
            Ok(()) => {},
            Err(e) => return Err(e),
        }
        let ghost nb = out@.skip(h.len() as int);
        assert(out@ =~= h + nb);
        let ghost hn = out@;
        match push_flags(&mut out, &self.flags) {
            Ok(()) => {},
            Err(e) => return Err(e),
        }
        let ghost fb = out@.skip(hn.len() as int);
        assert(out@ =~= hn + fb);
        if self.boards.len() == 0 {
            return Err(EncodeError::NoBoards);
        }
        let ghost hf = out@;
        push_i16(&mut out, self.time);
        push_i16(&mut out, self.time_ticks);
        push_bool(&mut out, self.saved_game);
        assert(out@ =~= hf + world_tail(self@));
        push_padding(&mut out, 247);
        match push_boards(&mut out, &self.boards) {
            Ok(()) => {},
            Err(e) => return Err(e),
        }
        Ok(out)
    }

    /// The 29 header bytes before the world's name.
    #[verifier::rlimit(50)]
    fn head_bytes(&self) -> (out: Vec<u8>)
        ensures
            out@ == world_head(self@),
    {
        let mut out: Vec<u8> = Vec::new();
        push_i16(&mut out, -1);
        assert(out@ =~= le16(-1));
        push_u16(&mut out, count_field(self.boards.len()));
        push_i16(&mut out, self.ammo);
        push_i16(&mut out, self.gems);
        let ghost a = out@;
        push_bool(&mut out, self.keys.blue);
        push_bool(&mut out, self.keys.green);
        push_bool(&mut out, self.keys.cyan);
        push_bool(&mut out, self.keys.red);
        push_bool(&mut out, self.keys.purple);
        push_bool(&mut out, self.keys.yellow);
        push_bool(&mut out, self.keys.white);
        assert(out@ =~= a + seq![
            bool_byte(self.keys.blue),
            bool_byte(self.keys.green),
            bool_byte(self.keys.cyan),
            bool_byte(self.keys.red),
            bool_byte(self.keys.purple),
            bool_byte(self.keys.yellow),
            bool_byte(self.keys.white),
        ]);
        push_i16(&mut out, self.health);
        push_i16(&mut out, self.starting_board);
        push_i16(&mut out, self.torches);
        push_i16(&mut out, self.torch_cycles);
        push_i16(&mut out, self.energizer_cycles);
        push_padding(&mut out, 2);
        push_i16(&mut out, self.score);
        assert(out@ == world_head(self@));
        out
    }
}

/// Once a prefix of a stat list fails to encode, the whole list fails the same way.
pub proof fn lemma_stats_prefix_err(s: Seq<StatView>, k: int)
    requires
        0 <= k <= s.len(),
        encode_stats(s.take(k)) is Err,
    ensures
        encode_stats(s) == encode_stats(s.take(k)),
    decreases s.len(),
{
    if k < s.len() {
        assert(s.drop_last().take(k) =~= s.take(k));
        lemma_stats_prefix_err(s.drop_last(), k);
    } else {
        assert(s.take(k) =~= s);
    }
}

/// The byte that stores a board exit.
fn exit_value(e: Option<u8>) -> (r: u8)
    ensures
        r == exit_byte(e),
{
    match e {
        Some(n) => n,
        None => 0,
    }
}

} // verus!
