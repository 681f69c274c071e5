use vstd::prelude::*;

use crate::bytes::{i16_at, u16_at};
use crate::errors::DecodeError;
use crate::text::{decode_multiline, decode_multiline_spec, decode_oneline, decode_oneline_spec};
use crate::roundtrip::{canonical_board, canonical_stat, canonical_world, oneline_fixed};
use crate::world::{Board, BoardView, Keys, Program, ProgramView, Stat, StatView, Tile, World, WorldView};

verus! {

/// The text of a field of capacity `cap` at position `p`: the length byte, capped at `cap`,
/// tells how many of the following bytes belong to the text.
pub open spec fn pstring_at(s: Seq<u8>, p: int, cap: int) -> Seq<char> {
    let n = if s[p] > cap {
        cap
    } else {
        s[p] as int
    };
    decode_oneline_spec(s.subrange(p + 1, p + 1 + n))
}

/// How many tiles a run stores: its count byte, where 0 stands for 256.
pub open spec fn run_count(b: u8) -> nat {
    if b == 0 {
        256
    } else {
        b as nat
    }
}

/// `n` copies of a tile.
pub open spec fn tile_run(n: nat, element: u8, color: u8) -> Seq<Tile> {
    Seq::new(n, |i: int| Tile { element, color })
}

/// Run-length encoded terrain from position `p`, with `filled` of the 1500 tiles already
/// read: the remaining tiles and the position after the last run; or `UnexpectedEof` when a
/// run is cut off, or `InvalidTileCount(1501)` when a run overflows the board.
pub open spec fn decode_tiles(s: Seq<u8>, p: int, filled: nat) -> Result<(Seq<Tile>, int), DecodeError>
    decreases 1500 - filled,
{
    if filled >= 1500 {
        Ok((Seq::empty(), p))
    } else if p < 0 || p + 3 > s.len() {
        Err(DecodeError::UnexpectedEof)
    } else {
        let n = run_count(s[p]);
        if filled + n > 1500 {
            Err(DecodeError::InvalidTileCount(1501))
        } else {
            match decode_tiles(s, p + 3, filled + n) {
                Err(e) => Err(e),
                Ok((rest, end)) => Ok((tile_run(n, s[p + 1], s[p + 2]) + rest, end)),
            }
        }
    }
}

/// The board exit that a byte stores: 0 is no exit.
pub open spec fn exit_of(b: u8) -> Option<u8> {
    if b == 0 {
        None
    } else {
        Some(b)
    }
}

/// The stat at position `q` and the position after it: 33 bytes of fixed fields, then, for
/// a non-negative length field, that many bytes of code; a negative length field binds the
/// stat to the stat whose index is its negation.
pub open spec fn decode_stat(s: Seq<u8>, q: int) -> Result<(StatView, int), DecodeError> {
    if q < 0 || q + 33 > s.len() {
        Err(DecodeError::UnexpectedEof)
    } else {
        let len = i16_at(s, q + 23);
        let head = StatView {
            x: s[q],
            y: s[q + 1],
            x_step: i16_at(s, q + 2),
            y_step: i16_at(s, q + 4),
            cycle: i16_at(s, q + 6),
            p1: s[q + 8],
            p2: s[q + 9],
            p3: s[q + 10],
            follower: i16_at(s, q + 11),
            leader: i16_at(s, q + 13),
            under: Tile { element: s[q + 15], color: s[q + 16] },
            instruction_pointer: i16_at(s, q + 21),
            program: ProgramView::Bound(0),
        };
        if len < 0 {
            Ok((StatView { program: ProgramView::Bound((-len) as u16), ..head }, q + 33))
        } else if q + 33 + len > s.len() {
            Err(DecodeError::UnexpectedEof)
        } else {
            Ok(
                (
                    StatView {
                        program: ProgramView::Own(
                            decode_multiline_spec(s.subrange(q + 33, q + 33 + len)),
                        ),
                        ..head
                    },
                    q + 33 + len,
                ),
            )
        }
    }
}

/// `n` stats one after the other from position `q`, and the position after them; or the
/// error of the first that cannot be read.
pub open spec fn decode_stats(s: Seq<u8>, q: int, n: nat) -> Result<(Seq<StatView>, int), DecodeError>
    decreases n,
{
    if n == 0 {
        Ok((Seq::empty(), q))
    } else {
        match decode_stats(s, q, (n - 1) as nat) {
            Err(e) => Err(e),
            Ok((ss, e)) => match decode_stat(s, e) {
                Err(err) => Err(err),
                Ok((st, e2)) => Ok((ss.push(st), e2)),
            },
        }
    }
}

/// A board from its bytes (starting with the 2-byte size field, which is not checked):
/// title, terrain, 88 bytes of board information ending with the stat count minus one, and
/// the stats. Bytes after the last stat are ignored.
#[verifier::opaque]
pub open spec fn decode_board(s: Seq<u8>) -> Result<BoardView, DecodeError> {
    if s.len() < 53 {
        Err(DecodeError::UnexpectedEof)
    } else {
        match decode_tiles(s, 53, 0) {
            Err(e) => Err(e),
            Ok((tiles, p)) => if p + 88 > s.len() {
                Err(DecodeError::UnexpectedEof)
            } else {
                let n = i16_at(s, p + 86);
                if n < -1 || n == 32767 {
                    Err(DecodeError::NegativeStatCount)
                } else {
                    match decode_stats(s, p + 88, (n + 1) as nat) {
                        Err(e) => Err(e),
                        Ok((stats, _)) => Ok(
                            BoardView {
                                name: pstring_at(s, 2, 50),
                                tiles,
                                max_shots: s[p],
                                is_dark: s[p + 1] != 0,
                                exit_north: exit_of(s[p + 2]),
                                exit_south: exit_of(s[p + 3]),
                                exit_west: exit_of(s[p + 4]),
                                exit_east: exit_of(s[p + 5]),
                                restart_on_zap: s[p + 6] != 0,
                                message: pstring_at(s, p + 7, 58),
                                enter_x: s[p + 66],
                                enter_y: s[p + 67],
                                time_limit: i16_at(s, p + 68),
                                stats,
                            },
                        ),
                    }
                }
            },
        }
    }
}

/// Cuts `k` boards out of a world's bytes from position `p`: each starts with a 16-bit size
/// field and takes that many bytes more. Gives the boards' bytes and the position after
/// them, or `UnexpectedEof` when the data ends first.
pub open spec fn slice_boards(s: Seq<u8>, p: int, k: nat) -> Result<(Seq<Seq<u8>>, int), DecodeError>
    decreases k,
{
    if k == 0 {
        Ok((Seq::empty(), p))
    } else {
        match slice_boards(s, p, (k - 1) as nat) {
            Err(e) => Err(e),
            Ok((chunks, e)) => if e < 0 || e + 2 > s.len() {
                Err(DecodeError::UnexpectedEof)
            } else if e + 2 + u16_at(s, e) > s.len() {
                Err(DecodeError::UnexpectedEof)
            } else {
                Ok((chunks.push(s.subrange(e, e + 2 + u16_at(s, e))), e + 2 + u16_at(s, e)))
            },
        }
    }
}

/// Boards decoded from their bytes in order, or the error of the first that fails.
pub open spec fn decode_boards(chunks: Seq<Seq<u8>>) -> Result<Seq<BoardView>, DecodeError>
    decreases chunks.len(),
{
    if chunks.len() == 0 {
        Ok(Seq::empty())
    } else {
        match decode_boards(chunks.drop_last()) {
            Err(e) => Err(e),
            Ok(bs) => match decode_board(chunks.last()) {
                Err(e) => Err(e),
                Ok(b) => Ok(bs.push(b)),
            },
        }
    }
}

/// A world from its bytes: the magic number `ff ff`, a 512-byte header, and as many boards as
/// the header's board count plus one (a count below -1 cannot be satisfied and reads as
/// `UnexpectedEof`). All boards are cut out before any is decoded.
#[verifier::opaque]
pub open spec fn decode_world(s: Seq<u8>) -> Result<WorldView, DecodeError> {
    if s.len() < 2 || s[0] != 0xff || s[1] != 0xff {
        Err(DecodeError::InvalidMagic)
    } else if s.len() < 512 {
        Err(DecodeError::UnexpectedEof)
    } else {
        let n = i16_at(s, 2);
        if n < -1 {
            Err(DecodeError::UnexpectedEof)
        } else {
            match slice_boards(s, 512, (n + 1) as nat) {
                Err(e) => Err(e),
                Ok((chunks, _)) => match decode_boards(chunks) {
                    Err(e) => Err(e),
                    Ok(boards) => Ok(
                        WorldView {
                            ammo: i16_at(s, 4),
                            gems: i16_at(s, 6),
                            keys: Keys {
                                blue: s[8] != 0,
                                green: s[9] != 0,
                                cyan: s[10] != 0,
                                red: s[11] != 0,
                                purple: s[12] != 0,
                                yellow: s[13] != 0,
                                white: s[14] != 0,
                            },
                            health: i16_at(s, 15),
                            starting_board: i16_at(s, 17),
                            torches: i16_at(s, 19),
                            torch_cycles: i16_at(s, 21),
                            energizer_cycles: i16_at(s, 23),
                            score: i16_at(s, 27),
                            name: pstring_at(s, 29, 20),
                            flags: Seq::new(10, |i: int| pstring_at(s, 50 + 21 * i, 20)),
                            time: i16_at(s, 260),
                            time_ticks: i16_at(s, 262),
                            saved_game: s[264] != 0,
                            boards,
                        },
                    ),
                },
            }
        }
    }
}

/// A decoder's result with the world seen through its view.
pub open spec fn world_of(r: Result<World, DecodeError>) -> Result<WorldView, DecodeError> {
    match r {
        Ok(w) => Ok(w@),
        Err(e) => Err(e),
    }
}

/// A decoder's result with the board seen through its view.
pub open spec fn board_of(r: Result<Board, DecodeError>) -> Result<BoardView, DecodeError> {
    match r {
        Ok(b) => Ok(b@),
        Err(e) => Err(e),
    }
}

/// The 16-bit number at position `p` of a byte slice.
fn read_i16(s: &[u8], p: usize) -> (r: i16)
    requires
        p + 2 <= s@.len(),
    ensures
        r == i16_at(s@, p as int),
{
    let u: i32 = s[p] as i32 + 256 * s[p + 1] as i32;
    if u >= 32768 {
        (u - 65536) as i16
    } else {
        u as i16
    }
}

/// The unsigned 16-bit number at position `p` of a byte slice.
fn read_u16(s: &[u8], p: usize) -> (r: u16)
    requires
        p + 2 <= s@.len(),
    ensures
        r == u16_at(s@, p as int),
{
    s[p] as u16 + 256 * s[p + 1] as u16
}

/// The text field of capacity `cap` at position `p`.
fn read_pstring(s: &[u8], p: usize, cap: u8) -> (r: String)
    requires
        p + 1 + cap <= s@.len(),
    ensures
        r@ == pstring_at(s@, p as int, cap as int),
        oneline_fixed(r@),
        r@.len() <= cap,
{
    let len = s[p];
    let n: usize = if len > cap {
        cap as usize
    } else {
        len as usize
    };
    decode_oneline(&s[p + 1..p + 1 + n])
}

/// Reads the terrain of a board into `tiles`, returning the position after the last run.
fn read_tiles(s: &[u8], tiles: &mut [Tile; 1500]) -> (r: Result<usize, DecodeError>)
    requires
        s@.len() >= 53,
    ensures
        match decode_tiles(s@, 53, 0) {
            Ok((t, end)) => r matches Ok(p) && p == end && final(tiles)@ == t,
            Err(e) => r == Err::<usize, DecodeError>(e),
        },
        r matches Ok(p) ==> 53 <= p <= s@.len(),
{
    let mut p: usize = 53;
    let mut filled: usize = 0;
    assert(tiles@.take(0) =~= Seq::<Tile>::empty());
    while filled < 1500
        invariant
            filled <= 1500,
            53 <= p <= s@.len(),
            tiles@.len() == 1500,
            match decode_tiles(s@, p as int, filled as nat) {
                Ok((rest, end)) => decode_tiles(s@, 53, 0) == Ok::<(Seq<Tile>, int), DecodeError>(
                    (tiles@.take(filled as int) + rest, end),
                ),
                Err(e) => decode_tiles(s@, 53, 0) == Err::<(Seq<Tile>, int), DecodeError>(e),
            },
        decreases 1500 - filled,
    {
        if s.len() - p < 3 {
            return Err(DecodeError::UnexpectedEof);
        }
        let count: usize = if s[p] == 0 {
            256
        } else {
            s[p] as usize
        };
        let tile = Tile { element: s[p + 1], color: s[p + 2] };
        if filled + count > 1500 {
            return Err(DecodeError::InvalidTileCount(1501));
        }
        let ghost before = tiles@;
        let mut k: usize = 0;
        while k < count
            invariant
                filled + count <= 1500,
                k <= count,
                tiles@.len() == 1500,
                forall|j: int| 0 <= j < filled ==> #[trigger] tiles@[j] == before[j],
                forall|j: int| filled <= j < filled + k ==> #[trigger] tiles@[j] == tile,
            decreases count - k,
        {
            tiles[filled + k] = tile;
            k += 1;
        }
        let ghost gp = p;
        let ghost gf = filled;
        let ghost run = tile_run(count as nat, s@[p + 1], s@[p + 2]);
        proof {
            assert(tiles@.take(filled + count) =~= before.take(filled as int) + run);
        }
        filled += count;
        p += 3;
        proof {
            match decode_tiles(s@, p as int, filled as nat) {
                Ok((rest, end)) => {
                    assert(decode_tiles(s@, gp as int, gf as nat) == Ok::<(Seq<Tile>, int), DecodeError>(
                        (run + rest, end),
                    ));
                    assert(before.take(gf as int) + (run + rest) =~= tiles@.take(filled as int) + rest);
                },
                Err(e) => {
                    assert(decode_tiles(s@, gp as int, gf as nat) == Err::<(Seq<Tile>, int), DecodeError>(e));
                },
            }
        }
    }
    assert(tiles@.take(1500) =~= tiles@);
    assert(tiles@ + Seq::<Tile>::empty() =~= tiles@);
    Ok(p)
}

/// The stat at position `q` and the position after it.
fn read_stat(s: &[u8], q: usize) -> (r: Result<(Stat, usize), DecodeError>)
    ensures
        match r {
            Ok((st, e)) => decode_stat(s@, q as int) == Ok::<(StatView, int), DecodeError>(
                (st@, e as int),
            ),
            Err(err) => decode_stat(s@, q as int) == Err::<(StatView, int), DecodeError>(err),
        },
        r matches Ok((st, _)) ==> canonical_stat(st@),
{
    if s.len() < 33 || q > s.len() - 33 {
        return Err(DecodeError::UnexpectedEof);
    }
    let len = read_i16(s, q + 23);
    let program;
    let end;
    if len < 0 {
        program = Program::Bound((-(len as i32)) as u16);
        end = q + 33;
    } else {
        let l = len as usize;
        if l > s.len() - (q + 33) {
            return Err(DecodeError::UnexpectedEof);
        }
        program = Program::Own(decode_multiline(&s[q + 33..q + 33 + l]));
        end = q + 33 + l;
    }
    let st = Stat {
        x: s[q],
        y: s[q + 1],
        x_step: read_i16(s, q + 2),
        y_step: read_i16(s, q + 4),
        cycle: read_i16(s, q + 6),
        p1: s[q + 8],
        p2: s[q + 9],
        p3: s[q + 10],
        follower: read_i16(s, q + 11),
        leader: read_i16(s, q + 13),
        under: Tile { element: s[q + 15], color: s[q + 16] },
        instruction_pointer: read_i16(s, q + 21),
        program,
    };
    Ok((st, end))
}

/// Once reading `k` stats fails, reading more fails the same way.
pub proof fn lemma_stats_err_extends(s: Seq<u8>, q: int, k: nat, n: nat)
    requires
        k <= n,
        decode_stats(s, q, k) is Err,
    ensures
        decode_stats(s, q, n) == decode_stats(s, q, k),
    decreases n,
{
    if n > k {
        lemma_stats_err_extends(s, q, k, (n - 1) as nat);
    }
}

/// Once cutting out `k` boards fails, cutting out more fails the same way.
pub proof fn lemma_slice_err_extends(s: Seq<u8>, p: int, k: nat, n: nat)
    requires
        k <= n,
        slice_boards(s, p, k) is Err,
    ensures
        slice_boards(s, p, n) == slice_boards(s, p, k),
    decreases n,
{
    if n > k {
        lemma_slice_err_extends(s, p, k, (n - 1) as nat);
    }
}

/// Once a prefix of the boards fails to decode, the whole list fails the same way.
pub proof fn lemma_boards_err_prefix(cs: Seq<Seq<u8>>, k: int)
    requires
        0 <= k <= cs.len(),
        decode_boards(cs.take(k)) is Err,
    ensures
        decode_boards(cs) == decode_boards(cs.take(k)),
    decreases cs.len(),
{
    if k < cs.len() {
        assert(cs.drop_last().take(k) =~= cs.take(k));
        lemma_boards_err_prefix(cs.drop_last(), k);
    } else {
        assert(cs.take(k) =~= cs);
    }
}

/// Reads `count` stats from position `q`.
fn read_stats(s: &[u8], q: usize, count: usize) -> (r: Result<Vec<Stat>, DecodeError>)
    ensures
        match decode_stats(s@, q as int, count as nat) {
            Ok((ss, _)) => r matches Ok(v) && v@.map_values(|x: Stat| x@) == ss,
            Err(e) => r == Err::<Vec<Stat>, DecodeError>(e),
        },
        r matches Ok(v) ==> forall|i: int| 0 <= i < v@.len() ==> canonical_stat(#[trigger] v@[i]@),
        r matches Ok(v) ==> v@.len() == count,
{
    let mut stats: Vec<Stat> = Vec::new();
    let mut pos = q;
    let mut i: usize = 0;
    assert(stats@.map_values(|x: Stat| x@) =~= Seq::<StatView>::empty());
    while i < count
        invariant
            i <= count,
            decode_stats(s@, q as int, i as nat) == Ok::<(Seq<StatView>, int), DecodeError>(
                (stats@.map_values(|x: Stat| x@), pos as int),
            ),
            forall|j: int| 0 <= j < stats@.len() ==> canonical_stat(#[trigger] stats@[j]@),
            stats@.len() == i,
        decreases count - i,
    {
        match read_stat(s, pos) {
            Ok((st, e)) => {
                let ghost before = stats@;
                stats.push(st);
                assert(stats@.map_values(|x: Stat| x@) =~= before.map_values(|x: Stat| x@).push(
                    st@,
                ));
                pos = e;
            },
            Err(e) => {
                proof {
                    lemma_stats_err_extends(s@, q as int, (i + 1) as nat, count as nat);
                }
                return Err(e);
            },
        }
        i += 1;
    }
    Ok(stats)
}

impl Board {
    /// Parse a board from bytes (including the 2-byte size header, whose value is not used).
    pub fn from_bytes(bytes: &[u8]) -> (r: Result<Board, DecodeError>)
        ensures
            board_of(r) == decode_board(bytes@),
            r matches Ok(b) ==> canonical_board(b@),
    {
        reveal(decode_board);
        if bytes.len() < 53 {
            return Err(DecodeError::UnexpectedEof);
        }
        let name = read_pstring(bytes, 2, 50);
        let mut tiles = [Tile { element: 0, color: 0 }; 1500];
        let p = match read_tiles(bytes, &mut tiles) {
            Ok(p) => p,
            Err(e) => return Err(e),
        };
        if bytes.len() - p < 88 {
            return Err(DecodeError::UnexpectedEof);
        }
        let n = read_i16(bytes, p + 86);
        if n < -1 || n == 32767 {
            return Err(DecodeError::NegativeStatCount);
        }
        let stats = match read_stats(bytes, p + 88, (n as i32 + 1) as usize) {
            Ok(v) => v,
            Err(e) => return Err(e),
        };
        let exit_north = if bytes[p + 2] == 0 {
            None
        } else {
            Some(bytes[p + 2])
        };
        let exit_south = if bytes[p + 3] == 0 {
            None
        } else {
            Some(bytes[p + 3])
        };
        let exit_west = if bytes[p + 4] == 0 {
            None
        } else {
            Some(bytes[p + 4])
        };
        let exit_east = if bytes[p + 5] == 0 {
            None
        } else {
            Some(bytes[p + 5])
        };
        let b = Board {
                name,
                tiles,
                max_shots: bytes[p],
                is_dark: bytes[p + 1] != 0,
                exit_north,
                exit_south,
                exit_west,
                exit_east,
                restart_on_zap: bytes[p + 6] != 0,
                message: read_pstring(bytes, p + 7, 58),
                enter_x: bytes[p + 66],
                enter_y: bytes[p + 67],
                time_limit: read_i16(bytes, p + 68),
                stats,
            };
        assert(forall|i: int| 0 <= i < b@.stats.len() ==> b@.stats[i] == #[trigger] b.stats@[i]@);
        Ok(b)
    }

    /// Parse a standalone .BRD file, which holds a board in the same format.
    pub fn from_brd_bytes(bytes: &[u8]) -> (r: Result<Board, DecodeError>)
        ensures
            board_of(r) == decode_board(bytes@),
            r matches Ok(b) ==> canonical_board(b@),
    {
        Board::from_bytes(bytes)
    }
}

/// Whether the byte ranges `v` of `s` hold the byte strings `chunks`.
pub open spec fn ranges_hold(s: Seq<u8>, v: Seq<(usize, usize)>, chunks: Seq<Seq<u8>>) -> bool {
    &&& v.len() == chunks.len()
    &&& forall|j: int|
        #![trigger v[j]]
        #![trigger chunks[j]]
        0 <= j < v.len() ==> v[j].0 <= v[j].1 && v[j].1 <= s.len() && chunks[j] == s.subrange(
            v[j].0 as int,
            v[j].1 as int,
        )
}

/// The byte ranges of `count` boards from position 512 of a world's bytes.
fn slice_board_ranges(s: &[u8], count: usize) -> (r: Result<Vec<(usize, usize)>, DecodeError>)
    requires
        s@.len() >= 512,
    ensures
        r matches Ok(v) ==> slice_boards(s@, 512, count as nat) is Ok && ranges_hold(
            s@,
            v@,
            slice_boards(s@, 512, count as nat)->Ok_0.0,
        ),
        r matches Err(e) ==> slice_boards(s@, 512, count as nat) == Err::<
            (Seq<Seq<u8>>, int),
            DecodeError,
        >(e),
        r matches Ok(v) ==> v@.len() == count,
{
    let mut ranges: Vec<(usize, usize)> = Vec::new();
    let mut p: usize = 512;
    let mut i: usize = 0;
    let ghost mut chunks: Seq<Seq<u8>> = Seq::empty();
    while i < count
        invariant
            i <= count,
            p <= s@.len(),
            slice_boards(s@, 512, i as nat) == Ok::<(Seq<Seq<u8>>, int), DecodeError>(
                (chunks, p as int),
            ),
            ranges_hold(s@, ranges@, chunks),
            ranges@.len() == i,
        decreases count - i,
    {
        if s.len() - p < 2 {
            proof {
                lemma_slice_err_extends(s@, 512, (i + 1) as nat, count as nat);
            }
            return Err(DecodeError::UnexpectedEof);
        }
        let size = read_u16(s, p) as usize;
        if s.len() - p - 2 < size {
            proof {
                lemma_slice_err_extends(s@, 512, (i + 1) as nat, count as nat);
            }
            return Err(DecodeError::UnexpectedEof);
        }
        let ghost old_ranges = ranges@;
        assert(old_ranges.len() == chunks.len());
        ranges.push((p, p + 2 + size));
        assert(ranges@.len() == old_ranges.len() + 1);
        proof {
            let old_chunks = chunks;
            assert(u16_at(s@, p as int) == size);
            assert(slice_boards(s@, 512, (i + 1) as nat) == Ok::<(Seq<Seq<u8>>, int), DecodeError>(
                (old_chunks.push(s@.subrange(p as int, p + 2 + size)), p + 2 + size),
            ));
            chunks = chunks.push(s@.subrange(p as int, p + 2 + size));
            assert(chunks.len() == old_chunks.len() + 1);
            assert(old_ranges.len() == old_chunks.len());
            assert forall|j: int|
                #![trigger ranges@[j]]
                #![trigger chunks[j]]
                0 <= j < ranges@.len() implies ranges@[j].0 <= ranges@[j].1
                && ranges@[j].1 <= s@.len() && chunks[j] == s@.subrange(
                ranges@[j].0 as int,
                ranges@[j].1 as int,
            ) by {
                if j < old_ranges.len() {
                    assert(ranges@[j] == old_ranges[j]);
                    assert(chunks[j] == old_chunks[j]);
                } else {
                    assert(j == old_ranges.len());
                    assert(ranges@[j] == (p, (p + 2 + size) as usize));
                    assert(chunks[j] == s@.subrange(p as int, p + 2 + size));
                }
            }
            assert(ranges@.len() == chunks.len());
            assert(ranges_hold(s@, ranges@, chunks));
        }
        p = p + 2 + size;
        i += 1;
    }
    Ok(ranges)
}

impl World {
    /// Parse a ZZT world (.ZZT or .SAV) from bytes.
    pub fn from_bytes(bytes: &[u8]) -> (r: Result<World, DecodeError>)
        ensures
            world_of(r) == decode_world(bytes@),
            r matches Ok(w) ==> canonical_world(w@),
    {
        reveal(decode_world);
        if bytes.len() < 2 || bytes[0] != 0xff || bytes[1] != 0xff {
            return Err(DecodeError::InvalidMagic);
        }
        if bytes.len() < 512 {
            return Err(DecodeError::UnexpectedEof);
        }
        let n = read_i16(bytes, 2);
        if n < -1 {
            return Err(DecodeError::UnexpectedEof);
        }
        let count = (n as i32 + 1) as usize;
        let ranges = match slice_board_ranges(bytes, count) {
            Ok(v) => v,
            Err(e) => return Err(e),
        };
        let ghost chunks = slice_boards(bytes@, 512, count as nat)->Ok_0.0;
        let mut boards: Vec<Board> = Vec::new();
        let mut i: usize = 0;
        assert(chunks.take(0) =~= Seq::<Seq<u8>>::empty());
        assert(boards@.map_values(|b: Board| b@) =~= Seq::<BoardView>::empty());
        while i < ranges.len()
            invariant
                i <= ranges.len(),
                bytes@.len() >= 512,
                bytes@[0] == 0xff && bytes@[1] == 0xff,
                n == i16_at(bytes@, 2),
                n >= -1,
                count == n + 1,
                slice_boards(bytes@, 512, count as nat) is Ok,
                chunks == slice_boards(bytes@, 512, count as nat)->Ok_0.0,
                ranges_hold(bytes@, ranges@, chunks),
                decode_boards(chunks.take(i as int)) == Ok::<Seq<BoardView>, DecodeError>(
                    boards@.map_values(|b: Board| b@),
                ),
                forall|j: int| 0 <= j < boards@.len() ==> canonical_board(#[trigger] boards@[j]@),
                boards@.len() == i,
                ranges@.len() == count,
            decreases ranges.len() - i,
        {
            let (a, b) = ranges[i];
            assert(chunks[i as int] == bytes@.subrange(a as int, b as int));
            assert(chunks.take(i + 1).drop_last() =~= chunks.take(i as int));
            assert(chunks.take(i + 1).last() == chunks[i as int]);
            match Board::from_bytes(&bytes[a..b]) {
                Ok(board) => {
                    let ghost before = boards@;
                    boards.push(board);
                    assert(boards@.map_values(|b: Board| b@) =~= before.map_values(
                        |b: Board| b@,
                    ).push(board@));
                },
                Err(e) => {
                    proof {
                        reveal(decode_world);
                        assert(decode_board(chunks[i as int]) == Err::<BoardView, DecodeError>(e));
                        assert(decode_boards(chunks.take(i + 1)) == Err::<Seq<BoardView>, DecodeError>(e));
                        lemma_boards_err_prefix(chunks, i + 1);
                    }
                    return Err(e);
                },
            }
            i += 1;
        }
        assert(chunks.take(i as int) =~= chunks);
        let flags = [
            read_pstring(bytes, 50, 20),
            read_pstring(bytes, 71, 20),
            read_pstring(bytes, 92, 20),
            read_pstring(bytes, 113, 20),
            read_pstring(bytes, 134, 20),
            read_pstring(bytes, 155, 20),
            read_pstring(bytes, 176, 20),
            read_pstring(bytes, 197, 20),
            read_pstring(bytes, 218, 20),
            read_pstring(bytes, 239, 20),
        ];
        let w = World {
            ammo: read_i16(bytes, 4),
            gems: read_i16(bytes, 6),
            keys: Keys {
                blue: bytes[8] != 0,
                green: bytes[9] != 0,
                cyan: bytes[10] != 0,
                red: bytes[11] != 0,
                purple: bytes[12] != 0,
                yellow: bytes[13] != 0,
                white: bytes[14] != 0,
            },
            health: read_i16(bytes, 15),
            starting_board: read_i16(bytes, 17),
            torches: read_i16(bytes, 19),
            torch_cycles: read_i16(bytes, 21),
            energizer_cycles: read_i16(bytes, 23),
            score: read_i16(bytes, 27),
            name: read_pstring(bytes, 29, 20),
            flags,
            time: read_i16(bytes, 260),
            time_ticks: read_i16(bytes, 262),
            saved_game: bytes[264] != 0,
            boards,
        };
        assert(w@.flags =~= Seq::new(10, |i: int| pstring_at(bytes@, 50 + 21 * i, 20)));
        assert(forall|i: int| 0 <= i < w@.boards.len() ==> w@.boards[i] == #[trigger] w.boards@[i]@);
        assert(forall|i: int| 0 <= i < 10 ==> w@.flags[i] == #[trigger] w.flags@[i]@);
        Ok(w)
    }
}


/// Cutting out `k` boards gives `k` byte strings, ending no earlier than where they start.
pub proof fn lemma_slice_boards_len(s: Seq<u8>, p: int, k: nat)
    ensures
        slice_boards(s, p, k) matches Ok((chunks, e)) ==> chunks.len() == k && e >= p,
    decreases k,
{
    if k > 0 {
        lemma_slice_boards_len(s, p, (k - 1) as nat);
    }
}

/// Decoding boards gives one board per byte string.
pub proof fn lemma_decode_boards_len(chunks: Seq<Seq<u8>>)
    ensures
        decode_boards(chunks) matches Ok(bs) ==> bs.len() == chunks.len(),
    decreases chunks.len(),
{
    if chunks.len() > 0 {
        lemma_decode_boards_len(chunks.drop_last());
    }
}

/// Cutting boards out from position `p` on reads only bytes from `p` on.
pub proof fn lemma_slice_boards_from(s1: Seq<u8>, s2: Seq<u8>, p: int, k: nat)
    requires
        0 <= p,
        s1.len() == s2.len(),
        forall|i: int| p <= i < s1.len() ==> s1[i] == s2[i],
    ensures
        slice_boards(s1, p, k) == slice_boards(s2, p, k),
    decreases k,
{
    if k > 0 {
        lemma_slice_boards_from(s1, s2, p, (k - 1) as nat);
        lemma_slice_boards_len(s1, p, (k - 1) as nat);
        match slice_boards(s1, p, (k - 1) as nat) {
            Ok((chunks, e)) => {
                if e >= 0 && e + 2 <= s1.len() {
                    assert(s1[e] == s2[e] && s1[e + 1] == s2[e + 1]);
                    let end = e + 2 + u16_at(s1, e);
                    if end <= s1.len() {
                        assert(s1.subrange(e, end) =~= s2.subrange(e, end));
                    }
                }
            },
            Err(_) => {},
        }
    }
}

/// A text field reads only its own bytes.
pub proof fn lemma_pstring_at_same(s1: Seq<u8>, s2: Seq<u8>, p: int, cap: int)
    requires
        0 <= p,
        0 <= cap,
        p + 1 + cap <= s1.len(),
        s1.len() == s2.len(),
        forall|i: int| p <= i < p + 1 + cap ==> s1[i] == s2[i],
    ensures
        pstring_at(s1, p, cap) == pstring_at(s2, p, cap),
{
    assert(s1[p] == s2[p]);
    let n = if s1[p] > cap {
        cap
    } else {
        s1[p] as int
    };
    assert(s1.subrange(p + 1, p + 1 + n) =~= s2.subrange(p + 1, p + 1 + n));
}

/// A decoded world's header fields are the numbers, flags and texts at fixed positions of
/// its bytes, and it has one board more than the count field at position 2 says.
pub proof fn lemma_world_fields(s: Seq<u8>)
    ensures
        decode_world(s) matches Ok(w) ==> {
            &&& s.len() >= 512
            &&& s[0] == 0xff && s[1] == 0xff
            &&& w.boards.len() == i16_at(s, 2) + 1
            &&& w.ammo == i16_at(s, 4)
            &&& w.gems == i16_at(s, 6)
            &&& w.keys.blue == (s[8] != 0)
            &&& w.keys.green == (s[9] != 0)
            &&& w.keys.cyan == (s[10] != 0)
            &&& w.keys.red == (s[11] != 0)
            &&& w.keys.purple == (s[12] != 0)
            &&& w.keys.yellow == (s[13] != 0)
            &&& w.keys.white == (s[14] != 0)
            &&& w.health == i16_at(s, 15)
            &&& w.starting_board == i16_at(s, 17)
            &&& w.torches == i16_at(s, 19)
            &&& w.torch_cycles == i16_at(s, 21)
            &&& w.energizer_cycles == i16_at(s, 23)
            &&& w.score == i16_at(s, 27)
            &&& w.name == pstring_at(s, 29, 20)
            &&& w.flags.len() == 10
            &&& forall|i: int| 0 <= i < 10 ==> #[trigger] w.flags[i] == pstring_at(s, 50 + 21 * i, 20)
            &&& w.time == i16_at(s, 260)
            &&& w.time_ticks == i16_at(s, 262)
            &&& w.saved_game == (s[264] != 0)
        },
{
    reveal(decode_world);
    if s.len() >= 512 && s[0] == 0xff && s[1] == 0xff && i16_at(s, 2) >= -1 {
        let k = (i16_at(s, 2) + 1) as nat;
        lemma_slice_boards_len(s, 512, k);
        match slice_boards(s, 512, k) {
            Ok((chunks, _)) => lemma_decode_boards_len(chunks),
            Err(_) => {},
        }
    }
}

/// The padding of a world's header, bytes 265 to 511, does not affect what the world decodes
/// to.
pub proof fn lemma_world_padding_ignored(s1: Seq<u8>, s2: Seq<u8>)
    requires
        s1.len() == s2.len(),
        forall|i: int| 0 <= i < s1.len() && !(265 <= i < 512) ==> s1[i] == s2[i],
    ensures
        decode_world(s1) == decode_world(s2),
{
    reveal(decode_world);
    if s1.len() >= 512 {
        assert forall|i: int| 512 <= i < s1.len() implies s1[i] == s2[i] by {}
        let n = i16_at(s1, 2);
        assert(i16_at(s2, 2) == n);
        if n >= -1 {
            lemma_slice_boards_from(s1, s2, 512, (n + 1) as nat);
        }
        lemma_pstring_at_same(s1, s2, 29, 20);
        assert forall|i: int| 0 <= i < 10 implies #[trigger] pstring_at(s1, 50 + 21 * i, 20) == pstring_at(
            s2,
            50 + 21 * i,
            20,
        ) by {
            lemma_pstring_at_same(s1, s2, 50 + 21 * i, 20);
        }
        assert(Seq::new(10, |i: int| pstring_at(s1, 50 + 21 * i, 20)) =~= Seq::new(
            10,
            |i: int| pstring_at(s2, 50 + 21 * i, 20),
        ));
        assert(s1[260] == s2[260] && s1[261] == s2[261] && s1[262] == s2[262] && s1[263]
            == s2[263] && s1[264] == s2[264]);
        assert(s1[4] == s2[4] && s1[5] == s2[5] && s1[6] == s2[6] && s1[7] == s2[7]);
        assert(s1[15] == s2[15] && s1[16] == s2[16] && s1[17] == s2[17] && s1[18] == s2[18]);
        assert(s1[19] == s2[19] && s1[20] == s2[20] && s1[21] == s2[21] && s1[22] == s2[22]);
        assert(s1[23] == s2[23] && s1[24] == s2[24] && s1[27] == s2[27] && s1[28] == s2[28]);
        assert(s1[8] == s2[8] && s1[9] == s2[9] && s1[10] == s2[10] && s1[11] == s2[11]);
        assert(s1[12] == s2[12] && s1[13] == s2[13] && s1[14] == s2[14]);
    } else if s1.len() >= 2 {
        assert(s1[0] == s2[0] && s1[1] == s2[1]);
    }
}

/// Where a decoded board's fields come from: the title at 2; after the terrain, which starts
/// at 53 and ends at `p`, the maximum shots at `p`, darkness at `p + 1`, the exits north,
/// south, west and east at `p + 2` to `p + 5` (0 meaning none), re-entry on zap at `p + 6`,
/// the message at `p + 7`, the entrance at `p + 66` and `p + 67`, the time limit at
/// `p + 68`, and the stat count minus one at `p + 86`, with the stats from `p + 88`.
pub proof fn lemma_board_fields(s: Seq<u8>)
    ensures
        decode_board(s) matches Ok(b) ==> decode_tiles(s, 53, 0) matches Ok((tiles, p)) && {
            &&& p + 88 <= s.len()
            &&& b.tiles == tiles
            &&& b.name == pstring_at(s, 2, 50)
            &&& b.max_shots == s[p]
            &&& b.is_dark == (s[p + 1] != 0)
            &&& b.exit_north == (if s[p + 2] == 0 { None } else { Some(s[p + 2]) })
            &&& b.exit_south == (if s[p + 3] == 0 { None } else { Some(s[p + 3]) })
            &&& b.exit_west == (if s[p + 4] == 0 { None } else { Some(s[p + 4]) })
            &&& b.exit_east == (if s[p + 5] == 0 { None } else { Some(s[p + 5]) })
            &&& b.restart_on_zap == (s[p + 6] != 0)
            &&& b.message == pstring_at(s, p + 7, 58)
            &&& b.enter_x == s[p + 66]
            &&& b.enter_y == s[p + 67]
            &&& b.time_limit == i16_at(s, p + 68)
            &&& decode_stats(s, p + 88, (i16_at(s, p + 86) + 1) as nat) matches Ok((stats, _))
                && b.stats == stats
        },
{
    reveal(decode_board);
}
} // verus!
