use vstd::prelude::*;

use crate::bytes::{bool_byte, i16_at, le16, lemma_le16_i16, lemma_le16_u16, pstring_spec, u16_at, zeros};
use crate::decode::{decode_world, decode_board, decode_boards, slice_boards, pstring_at, decode_stat, decode_stats, decode_tiles, run_count, tile_run};
use crate::encode::{encode_flags, encode_world, world_head, world_tail, board_body, encode_board, encode_board_body, encode_boards, exit_byte, encode_stat, encode_stats, encode_tiles, lemma_run_from, run_from, stat_head};
use crate::errors::DecodeError;
use crate::text::{
    decode_multiline_spec, decode_oneline_spec, encode_multiline_spec, encode_oneline_spec,
    lemma_multiline_len, lemma_oneline_len,
};
use crate::world::{BoardView, ProgramView, StatView, Tile, WorldView};

verus! {

/// Single-line text that encodes, and decodes back to itself.
pub open spec fn oneline_fixed(s: Seq<char>) -> bool {
    encode_oneline_spec(s) matches Ok(b) && decode_oneline_spec(b) == s
}

/// Multi-line text that encodes, and decodes back to itself.
pub open spec fn multiline_fixed(s: Seq<char>) -> bool {
    encode_multiline_spec(s) matches Ok(b) && decode_multiline_spec(b) == s
}

/// The form of every stat that decoding produces: a bound program names a stat index from 1
/// to 32768, and code is text that survives encoding, at most 32767 characters long.
pub open spec fn canonical_stat(st: StatView) -> bool {
    match st.program {
        ProgramView::Bound(i) => 1 <= i <= 32768,
        ProgramView::Own(code) => multiline_fixed(code) && code.len() <= 32767,
    }
}

/// The form of every board that decoding produces: 1500 tiles, texts that survive encoding
/// within their capacities, no exit stored as `Some(0)`, at most 32767 stats, all canonical.
pub open spec fn canonical_board(b: BoardView) -> bool {
    &&& b.tiles.len() == 1500
    &&& oneline_fixed(b.name)
    &&& b.name.len() <= 50
    &&& oneline_fixed(b.message)
    &&& b.message.len() <= 58
    &&& b.exit_north != Some(0u8)
    &&& b.exit_south != Some(0u8)
    &&& b.exit_west != Some(0u8)
    &&& b.exit_east != Some(0u8)
    &&& b.stats.len() <= 32767
    &&& forall|i: int| 0 <= i < b.stats.len() ==> canonical_stat(#[trigger] b.stats[i])
}

/// The form of every world that decoding produces: at most 32768 boards, a name and ten
/// flags that survive encoding within 20 characters, and canonical boards.
pub open spec fn canonical_world(w: WorldView) -> bool {
    &&& w.boards.len() <= 32768
    &&& oneline_fixed(w.name)
    &&& w.name.len() <= 20
    &&& w.flags.len() == 10
    &&& forall|i: int|
        0 <= i < 10 ==> oneline_fixed(#[trigger] w.flags[i]) && w.flags[i].len() <= 20
    &&& forall|i: int| 0 <= i < w.boards.len() ==> canonical_board(#[trigger] w.boards[i])
}

/// An element of a byte string found inside a larger one.
pub proof fn lemma_within(s: Seq<u8>, q: int, b: Seq<u8>, k: int)
    requires
        0 <= q,
        q + b.len() <= s.len(),
        s.subrange(q, q + b.len()) == b,
        0 <= k < b.len(),
    ensures
        s[q + k] == b[k],
{
    assert(s.subrange(q, q + b.len())[k] == s[q + k]);
}

/// A part of a byte string found inside a larger one is found there too.
pub proof fn lemma_within_part(s: Seq<u8>, q: int, b: Seq<u8>, i: int, j: int)
    requires
        0 <= q,
        q + b.len() <= s.len(),
        s.subrange(q, q + b.len()) == b,
        0 <= i <= j <= b.len(),
    ensures
        s.subrange(q + i, q + j) == b.subrange(i, j),
{
    assert(s.subrange(q + i, q + j) =~= b.subrange(i, j)) by {
        assert forall|k: int| 0 <= k < j - i implies s.subrange(q + i, q + j)[k] == b.subrange(
            i,
            j,
        )[k] by {
            lemma_within(s, q, b, i + k);
        }
    }
}

/// Reading a 16-bit field inside a byte string found at `q` gives the number written there.
pub proof fn lemma_within_i16(s: Seq<u8>, q: int, b: Seq<u8>, k: int, v: int)
    requires
        0 <= q,
        q + b.len() <= s.len(),
        s.subrange(q, q + b.len()) == b,
        0 <= k,
        k + 2 <= b.len(),
        b.subrange(k, k + 2) == le16(v),
        -32768 <= v <= 32767,
    ensures
        i16_at(s, q + k) as int == v,
{
    lemma_within(s, q, b, k);
    lemma_within(s, q, b, k + 1);
    assert(b[k] == b.subrange(k, k + 2)[0]);
    assert(b[k + 1] == b.subrange(k, k + 2)[1]);
    lemma_le16_i16(v, s, q + k);
}

/// Decoding an encoded canonical stat gives it back, ending right after its encoding.
pub proof fn lemma_stat_roundtrip(s: Seq<u8>, q: int, st: StatView)
    requires
        0 <= q,
        canonical_stat(st),
        encode_stat(st) is Ok,
        q + encode_stat(st)->Ok_0.len() <= s.len(),
        s.subrange(q, q + encode_stat(st)->Ok_0.len()) == encode_stat(st)->Ok_0,
    ensures
        decode_stat(s, q) == Ok::<(StatView, int), DecodeError>(
            (st, q + encode_stat(st)->Ok_0.len()),
        ),
{
    let b = encode_stat(st)->Ok_0;
    let h = stat_head(st);
    let a1 = seq![st.x, st.y];
    assert(a1.len() == 2);
    let a2 = seq![st.p1, st.p2, st.p3];
    assert(a2.len() == 3);
    let a3 = seq![st.under.element, st.under.color];
    assert(a3.len() == 2);
    assert(le16(st.x_step as int).len() == 2);
    assert(le16(st.y_step as int).len() == 2);
    assert(le16(st.cycle as int).len() == 2);
    assert(le16(st.follower as int).len() == 2);
    assert(le16(st.leader as int).len() == 2);
    assert(le16(st.instruction_pointer as int).len() == 2);
    assert(zeros(4).len() == 4);
    assert(h.len() == 23);
    assert(b.subrange(0, 23) =~= h);
    assert(b.len() >= 33);
    lemma_within(s, q, b, 0);
    lemma_within(s, q, b, 1);
    lemma_within(s, q, b, 8);
    lemma_within(s, q, b, 9);
    lemma_within(s, q, b, 10);
    lemma_within(s, q, b, 15);
    lemma_within(s, q, b, 16);
    assert(b.subrange(2, 4) =~= le16(st.x_step as int));
    lemma_within_i16(s, q, b, 2, st.x_step as int);
    assert(b.subrange(4, 6) =~= le16(st.y_step as int));
    lemma_within_i16(s, q, b, 4, st.y_step as int);
    assert(b.subrange(6, 8) =~= le16(st.cycle as int));
    lemma_within_i16(s, q, b, 6, st.cycle as int);
    assert(b.subrange(11, 13) =~= le16(st.follower as int));
    lemma_within_i16(s, q, b, 11, st.follower as int);
    assert(b.subrange(13, 15) =~= le16(st.leader as int));
    lemma_within_i16(s, q, b, 13, st.leader as int);
    assert(b.subrange(21, 23) =~= le16(st.instruction_pointer as int));
    lemma_within_i16(s, q, b, 21, st.instruction_pointer as int);
    match st.program {
        ProgramView::Bound(i) => {
            assert(b == h + le16(-(i as int)) + zeros(8));
            assert(b.subrange(23, 25) =~= le16(-(i as int)));
            lemma_within_i16(s, q, b, 23, -(i as int));
        },
        ProgramView::Own(code) => {
            let cb = encode_multiline_spec(code)->Ok_0;
            lemma_multiline_len(code);
            assert(b == h + le16(cb.len() as int) + zeros(8) + cb);
            assert(b.subrange(23, 25) =~= le16(cb.len() as int));
            lemma_within_i16(s, q, b, 23, cb.len() as int);
            assert(b.subrange(33, 33 + cb.len() as int) =~= cb);
            lemma_within_part(s, q, b, 33, 33 + cb.len() as int);
        },
    }
}

/// Decoding the run-length encoding of a board's remaining tiles gives those tiles back,
/// ending right after the encoding.
pub proof fn lemma_tiles_roundtrip(s: Seq<u8>, p: int, t: Seq<Tile>)
    requires
        0 <= p,
        t.len() <= 1500,
        p + encode_tiles(t).len() <= s.len(),
        s.subrange(p, p + encode_tiles(t).len()) == encode_tiles(t),
    ensures
        decode_tiles(s, p, (1500 - t.len()) as nat) == Ok::<(Seq<Tile>, int), DecodeError>(
            (t, p + encode_tiles(t).len()),
        ),
    decreases t.len(),
{
    if t.len() > 0 {
        let n = run_from(t, 1);
        lemma_run_from(t, 1);
        let rest = t.skip(n as int);
        let e = encode_tiles(t);
        let er = encode_tiles(rest);
        assert(e == seq![n as u8, t[0].element, t[0].color] + er);
        assert(s[p] == e[0]);
        assert(s[p + 1] == e[1]);
        assert(s[p + 2] == e[2]);
        assert(s.subrange(p + 3, p + 3 + er.len()) =~= er) by {
            assert forall|i: int| 0 <= i < er.len() implies s.subrange(p + 3, p + 3 + er.len())[i]
                == er[i] by {
                assert(s[p + 3 + i] == s.subrange(p, p + e.len())[3 + i]);
            }
        }
        lemma_tiles_roundtrip(s, p + 3, rest);
        assert(tile_run(n, t[0].element, t[0].color) + rest =~= t);
        let filled = (1500 - t.len()) as nat;
        assert(run_count(s[p]) == n);
        assert((filled + n) as nat == (1500 - rest.len()) as nat);
        assert(decode_tiles(s, p, filled) == Ok::<(Seq<Tile>, int), DecodeError>(
            (tile_run(n, s[p + 1], s[p + 2]) + rest, p + 3 + er.len()),
        ));
    } else {
        assert(t =~= Seq::<Tile>::empty());
    }
}

/// Decoding the encodings of canonical stats gives them back, ending right after them.
pub proof fn lemma_stats_roundtrip(s: Seq<u8>, q: int, ss: Seq<StatView>)
    requires
        0 <= q,
        forall|i: int| 0 <= i < ss.len() ==> canonical_stat(#[trigger] ss[i]),
        encode_stats(ss) is Ok,
        q + encode_stats(ss)->Ok_0.len() <= s.len(),
        s.subrange(q, q + encode_stats(ss)->Ok_0.len()) == encode_stats(ss)->Ok_0,
    ensures
        decode_stats(s, q, ss.len()) == Ok::<(Seq<StatView>, int), DecodeError>(
            (ss, q + encode_stats(ss)->Ok_0.len()),
        ),
    decreases ss.len(),
{
    let enc = encode_stats(ss)->Ok_0;
    if ss.len() > 0 {
        let init = ss.drop_last();
        let a = encode_stats(init)->Ok_0;
        let b = encode_stat(ss.last())->Ok_0;
        assert(enc == a + b);
        lemma_within_part(s, q, enc, 0, a.len() as int);
        assert(enc.subrange(0, a.len() as int) =~= a);
        assert forall|i: int| 0 <= i < init.len() implies canonical_stat(#[trigger] init[i]) by {
            assert(init[i] == ss[i]);
        }
        lemma_stats_roundtrip(s, q, init);
        lemma_within_part(s, q, enc, a.len() as int, enc.len() as int);
        assert(enc.subrange(a.len() as int, enc.len() as int) =~= b);
        assert(canonical_stat(ss[ss.len() - 1]));
        lemma_stat_roundtrip(s, q + a.len(), ss.last());
        assert(init.push(ss.last()) =~= ss);
    } else {
        assert(ss =~= Seq::<StatView>::empty());
    }
}

/// A byte string that starts with `a + x` holds `a` at its start and `x` right after it.
pub proof fn lemma_split(s: Seq<u8>, a: Seq<u8>, x: Seq<u8>)
    requires
        a.len() + x.len() <= s.len(),
        s.subrange(0, (a.len() + x.len()) as int) == a + x,
    ensures
        s.subrange(0, a.len() as int) == a,
        s.subrange(a.len() as int, (a.len() + x.len()) as int) == x,
{
    let al = a.len() as int;
    let xl = x.len() as int;
    assert(s.subrange(0, al) =~= a) by {
        assert forall|k: int| 0 <= k < al implies s.subrange(0, al)[k] == a[k] by {
            assert(s.subrange(0, al + xl)[k] == (a + x)[k]);
        }
    }
    assert(s.subrange(al, al + xl) =~= x) by {
        assert forall|k: int| 0 <= k < xl implies s.subrange(al, al + xl)[k] == x[k] by {
            assert(s.subrange(0, al + xl)[al + k] == (a + x)[al + k]);
        }
    }
}

/// A text field written for canonical text is `cap + 1` bytes long and reads back as the
/// text.
pub proof fn lemma_pstring_roundtrip(s: Seq<u8>, p: int, cap: u8, text: Seq<char>)
    requires
        0 <= p,
        oneline_fixed(text),
        pstring_spec(cap, text) is Ok,
        p + pstring_spec(cap, text)->Ok_0.len() <= s.len(),
        s.subrange(p, p + pstring_spec(cap, text)->Ok_0.len()) == pstring_spec(cap, text)->Ok_0,
    ensures
        pstring_spec(cap, text)->Ok_0.len() == cap + 1,
        pstring_at(s, p, cap as int) == text,
{
    let pb = pstring_spec(cap, text)->Ok_0;
    let eb = encode_oneline_spec(text)->Ok_0;
    assert(pb == seq![eb.len() as u8] + eb + zeros((cap - eb.len()) as nat));
    lemma_within(s, p, pb, 0);
    lemma_within_part(s, p, pb, 1, 1 + eb.len() as int);
    assert(pb.subrange(1, 1 + eb.len() as int) =~= eb);
}

/// Where the parts of an encoded board lie: the title at 2, the terrain at 53, and from the
/// end `p` of the terrain the board information, the message at `p + 7`, the entrance at
/// `p + 66`, the time limit at `p + 68`, the stat count at `p + 86` and the stats at `p + 88`.
pub proof fn lemma_board_layout(b: BoardView, tail: Seq<u8>)
    requires
        encode_board(b) is Ok,
    ensures
        ({
            let e = encode_board(b)->Ok_0;
            let s = e + tail;
            let nb = pstring_spec(50, b.name)->Ok_0;
            let mb = pstring_spec(58, b.message)->Ok_0;
            let sb = encode_stats(b.stats)->Ok_0;
            let te = encode_tiles(b.tiles);
            let p = 2 + nb.len() as int + te.len() as int;
            let m = mb.len() as int;
            &&& e.len() == p + 7 + m + 22 + sb.len()
            &&& s.subrange(2, 2 + nb.len() as int) == nb
            &&& s.subrange(2 + nb.len() as int, p) == te
            &&& s.subrange(p, p + 7) == seq![
                b.max_shots,
                bool_byte(b.is_dark),
                exit_byte(b.exit_north),
                exit_byte(b.exit_south),
                exit_byte(b.exit_west),
                exit_byte(b.exit_east),
                bool_byte(b.restart_on_zap),
            ]
            &&& s.subrange(p + 7, p + 7 + m) == mb
            &&& s.subrange(p + 7 + m, p + 9 + m) == seq![b.enter_x, b.enter_y]
            &&& s.subrange(p + 9 + m, p + 11 + m) == le16(b.time_limit as int)
            &&& s.subrange(p + 27 + m, p + 29 + m) == le16(b.stats.len() - 1)
            &&& s.subrange(p + 29 + m, e.len() as int) == sb
        }),
{
    let e = encode_board(b)->Ok_0;
    let s = e + tail;
    let nb = pstring_spec(50, b.name)->Ok_0;
    let mb = pstring_spec(58, b.message)->Ok_0;
    let sb = encode_stats(b.stats)->Ok_0;
    let body = board_body(b, nb, mb, sb);
    let te = encode_tiles(b.tiles);
    let info = seq![
        b.max_shots,
        bool_byte(b.is_dark),
        exit_byte(b.exit_north),
        exit_byte(b.exit_south),
        exit_byte(b.exit_west),
        exit_byte(b.exit_east),
        bool_byte(b.restart_on_zap),
    ];
    let ent = seq![b.enter_x, b.enter_y];
    let tl = le16(b.time_limit as int);
    let z = zeros(16);
    let cnt = le16(b.stats.len() - 1);
    let size = le16(body.len() as int);
    let p1 = size + nb;
    let p2 = p1 + te;
    let p3 = p2 + info;
    let p4 = p3 + mb;
    let p5 = p4 + ent;
    let p6 = p5 + tl;
    let p7 = p6 + z;
    let p8 = p7 + cnt;
    assert(e == size + body);
    assert(body == nb + te + info + mb + ent + tl + z + cnt + sb);
    assert(e =~= p8 + sb);
    assert(s.subrange(0, e.len() as int) =~= e);
    lemma_split(s, p8, sb);
    lemma_split(s, p7, cnt);
    lemma_split(s, p6, z);
    lemma_split(s, p5, tl);
    lemma_split(s, p4, ent);
    lemma_split(s, p3, mb);
    lemma_split(s, p2, info);
    lemma_split(s, p1, te);
    lemma_split(s, size, nb);
}

/// Decoding an encoded canonical board gives it back, whatever bytes follow the encoding.
#[verifier::rlimit(100)]
pub proof fn lemma_board_roundtrip(b: BoardView, tail: Seq<u8>)
    requires
        canonical_board(b),
        encode_board(b) is Ok,
    ensures
        decode_board(encode_board(b)->Ok_0 + tail) == Ok::<BoardView, DecodeError>(b),
{
    let s = encode_board(b)->Ok_0 + tail;
    let nb = pstring_spec(50, b.name)->Ok_0;
    let mb = pstring_spec(58, b.message)->Ok_0;
    let sb = encode_stats(b.stats)->Ok_0;
    let te = encode_tiles(b.tiles);
    let info = seq![
        b.max_shots,
        bool_byte(b.is_dark),
        exit_byte(b.exit_north),
        exit_byte(b.exit_south),
        exit_byte(b.exit_west),
        exit_byte(b.exit_east),
        bool_byte(b.restart_on_zap),
    ];
    let ent = seq![b.enter_x, b.enter_y];
    let tl = le16(b.time_limit as int);
    let cnt = le16(b.stats.len() - 1);
    reveal(decode_board);
    lemma_board_layout(b, tail);
    lemma_pstring_roundtrip(s, 2, 50, b.name);
    let p = 2 + nb.len() as int + te.len() as int;
    lemma_pstring_roundtrip(s, p + 7, 58, b.message);
    lemma_tiles_roundtrip(s, 53, b.tiles);
    assert forall|k: int| 0 <= k < 7 implies s[p + k] == #[trigger] info[k] by {
        lemma_within(s, p, info, k);
    }
    lemma_within(s, p + 66, ent, 0);
    lemma_within(s, p + 66, ent, 1);
    assert(tl.subrange(0, 2) =~= tl);
    lemma_within_i16(s, p + 68, tl, 0, b.time_limit as int);
    assert(cnt.subrange(0, 2) =~= cnt);
    lemma_within_i16(s, p + 86, cnt, 0, b.stats.len() - 1);
    lemma_stats_roundtrip(s, p + 88, b.stats);
    assert(info[0] == b.max_shots);
    assert(info[1] == bool_byte(b.is_dark));
    assert(info[2] == exit_byte(b.exit_north));
    assert(info[3] == exit_byte(b.exit_south));
    assert(info[4] == exit_byte(b.exit_west));
    assert(info[5] == exit_byte(b.exit_east));
    assert(info[6] == bool_byte(b.restart_on_zap));
}

/// The encodings of a list of boards, each on its own.
pub open spec fn board_encodings(bs: Seq<BoardView>) -> Seq<Seq<u8>> {
    Seq::new(bs.len(), |i: int| encode_board(bs[i])->Ok_0)
}

/// Cutting encoded canonical boards out of a byte string, and decoding them, gives the
/// boards back.
pub proof fn lemma_boards_roundtrip(s: Seq<u8>, p: int, bs: Seq<BoardView>)
    requires
        0 <= p,
        forall|i: int| 0 <= i < bs.len() ==> canonical_board(#[trigger] bs[i]),
        encode_boards(bs) is Ok,
        p + encode_boards(bs)->Ok_0.len() <= s.len(),
        s.subrange(p, p + encode_boards(bs)->Ok_0.len()) == encode_boards(bs)->Ok_0,
    ensures
        forall|i: int| 0 <= i < bs.len() ==> (#[trigger] encode_board(bs[i])) is Ok,
        slice_boards(s, p, bs.len()) == Ok::<(Seq<Seq<u8>>, int), DecodeError>(
            (board_encodings(bs), p + encode_boards(bs)->Ok_0.len()),
        ),
        decode_boards(board_encodings(bs)) == Ok::<Seq<BoardView>, DecodeError>(bs),
    decreases bs.len(),
{
    let eb = encode_boards(bs)->Ok_0;
    if bs.len() == 0 {
        assert(board_encodings(bs) =~= Seq::<Seq<u8>>::empty());
        assert(bs =~= Seq::<BoardView>::empty());
    } else {
        let init = bs.drop_last();
        let last = bs.last();
        let a = encode_boards(init)->Ok_0;
        let lb = encode_board(last)->Ok_0;
        assert(eb == a + lb);
        lemma_within_part(s, p, eb, 0, a.len() as int);
        assert(eb.subrange(0, a.len() as int) =~= a);
        assert forall|i: int| 0 <= i < init.len() implies canonical_board(#[trigger] init[i]) by {
            assert(init[i] == bs[i]);
        }
        lemma_boards_roundtrip(s, p, init);
        lemma_within_part(s, p, eb, a.len() as int, eb.len() as int);
        assert(eb.subrange(a.len() as int, eb.len() as int) =~= lb);
        let e = p + a.len();
        let sb = encode_board_body(last)->Ok_0;
        assert(lb == le16(sb.len() as int) + sb);
        lemma_within(s, e, lb, 0);
        lemma_within(s, e, lb, 1);
        lemma_le16_u16(sb.len() as int, s, e);
        assert(canonical_board(bs[bs.len() - 1]));
        lemma_board_roundtrip(last, Seq::empty());
        assert(lb + Seq::<u8>::empty() =~= lb);
        assert forall|i: int| 0 <= i < bs.len() implies (#[trigger] encode_board(bs[i])) is Ok by {
            if i < init.len() {
                assert(init[i] == bs[i]);
            }
        }
        assert(board_encodings(init).push(lb) =~= board_encodings(bs)) by {
            assert forall|i: int| 0 <= i < init.len() implies board_encodings(init)[i]
                == board_encodings(bs)[i] by {
                assert(init[i] == bs[i]);
            }
        }
        assert(board_encodings(bs).drop_last() =~= board_encodings(init));
        assert(init.push(last) =~= bs);
    }
}

/// The flag fields of a header: 21 bytes each, the `i`-th at offset `21 * i`.
pub proof fn lemma_flags_layout(f: Seq<Seq<char>>)
    requires
        encode_flags(f) is Ok,
    ensures
        encode_flags(f)->Ok_0.len() == 21 * f.len(),
        forall|i: int|
            0 <= i < f.len() ==> pstring_spec(20, #[trigger] f[i]) is Ok && encode_flags(
                f,
            )->Ok_0.subrange(21 * i, 21 * i + 21) == pstring_spec(20, f[i])->Ok_0,
    decreases f.len(),
{
    if f.len() > 0 {
        let init = f.drop_last();
        let a = encode_flags(init)->Ok_0;
        let last = pstring_spec(20, f.last())->Ok_0;
        lemma_flags_layout(init);
        let eb = encode_flags(f)->Ok_0;
        assert(eb == a + last);
        let eb2 = encode_oneline_spec(f.last())->Ok_0;
        assert(last == seq![eb2.len() as u8] + eb2 + zeros((20 - eb2.len()) as nat));
        assert(last.len() == 21);
        assert forall|i: int| 0 <= i < f.len() implies pstring_spec(20, #[trigger] f[i]) is Ok
            && eb.subrange(21 * i, 21 * i + 21) == pstring_spec(20, f[i])->Ok_0 by {
            if i < init.len() {
                assert(init[i] == f[i]);
                assert(eb.subrange(21 * i, 21 * i + 21) =~= a.subrange(21 * i, 21 * i + 21));
            } else {
                assert(eb.subrange(21 * i, 21 * i + 21) =~= last);
            }
        }
    }
}

/// Where the parts of an encoded world lie: the 29-byte head, the name at 29, the flags at
/// 50, the tail at 260, and the boards from 512 on.
pub proof fn lemma_world_layout(w: WorldView, tail: Seq<u8>)
    requires
        encode_world(w) is Ok,
        w.flags.len() == 10,
    ensures
        ({
            let e = encode_world(w)->Ok_0;
            let s = e + tail;
            &&& w.boards.len() > 0
            &&& e.len() == 512 + encode_boards(w.boards)->Ok_0.len()
            &&& s.subrange(0, 29) == world_head(w)
            &&& s.subrange(29, 50) == pstring_spec(20, w.name)->Ok_0
            &&& s.subrange(50, 260) == encode_flags(w.flags)->Ok_0
            &&& s.subrange(260, 265) == world_tail(w)
            &&& s.subrange(512, e.len() as int) == encode_boards(w.boards)->Ok_0
        }),
{
    let e = encode_world(w)->Ok_0;
    let s = e + tail;
    let h = world_head(w);
    let nb = pstring_spec(20, w.name)->Ok_0;
    let fb = encode_flags(w.flags)->Ok_0;
    let t = world_tail(w);
    let z = zeros(247);
    let bb = encode_boards(w.boards)->Ok_0;
    let e1 = encode_oneline_spec(w.name)->Ok_0;
    assert(nb == seq![e1.len() as u8] + e1 + zeros((20 - e1.len()) as nat));
    assert(nb.len() == 21);
    assert(h.len() == 29);
    assert(t.len() == 5);
    lemma_flags_layout(w.flags);
    assert(fb.len() == 210);
    let p1 = h + nb;
    let p2 = p1 + fb;
    let p3 = p2 + t;
    let p4 = p3 + z;
    assert(e == p4 + bb);
    assert(s.subrange(0, e.len() as int) =~= e);
    lemma_split(s, p4, bb);
    lemma_split(s, p3, z);
    lemma_split(s, p2, t);
    lemma_split(s, p1, fb);
    lemma_split(s, h, nb);
}

/// Where the fields of a world's head lie.
pub proof fn lemma_head_fields(w: WorldView)
    ensures
        ({
            let h = world_head(w);
            &&& h.len() == 29
            &&& h[0] == 0xff && h[1] == 0xff
            &&& h.subrange(2, 4) == le16(w.boards.len() - 1)
            &&& h.subrange(4, 6) == le16(w.ammo as int)
            &&& h.subrange(6, 8) == le16(w.gems as int)
            &&& h[8] == bool_byte(w.keys.blue)
            &&& h[9] == bool_byte(w.keys.green)
            &&& h[10] == bool_byte(w.keys.cyan)
            &&& h[11] == bool_byte(w.keys.red)
            &&& h[12] == bool_byte(w.keys.purple)
            &&& h[13] == bool_byte(w.keys.yellow)
            &&& h[14] == bool_byte(w.keys.white)
            &&& h.subrange(15, 17) == le16(w.health as int)
            &&& h.subrange(17, 19) == le16(w.starting_board as int)
            &&& h.subrange(19, 21) == le16(w.torches as int)
            &&& h.subrange(21, 23) == le16(w.torch_cycles as int)
            &&& h.subrange(23, 25) == le16(w.energizer_cycles as int)
            &&& h.subrange(27, 29) == le16(w.score as int)
        }),
{
    let h = world_head(w);
    assert(h.subrange(2, 4) =~= le16(w.boards.len() - 1));
    assert(h.subrange(4, 6) =~= le16(w.ammo as int));
    assert(h.subrange(6, 8) =~= le16(w.gems as int));
    assert(h.subrange(15, 17) =~= le16(w.health as int));
    assert(h.subrange(17, 19) =~= le16(w.starting_board as int));
    assert(h.subrange(19, 21) =~= le16(w.torches as int));
    assert(h.subrange(21, 23) =~= le16(w.torch_cycles as int));
    assert(h.subrange(23, 25) =~= le16(w.energizer_cycles as int));
    assert(h.subrange(27, 29) =~= le16(w.score as int));
}

/// The name and flags of an encoded canonical world read back as written.
pub proof fn lemma_world_texts(w: WorldView, tail: Seq<u8>)
    requires
        canonical_world(w),
        encode_world(w) is Ok,
    ensures
        ({
            let s = encode_world(w)->Ok_0 + tail;
            &&& pstring_at(s, 29, 20) == w.name
            &&& Seq::new(10, |i: int| pstring_at(s, 50 + 21 * i, 20)) == w.flags
        }),
{
    let s = encode_world(w)->Ok_0 + tail;
    lemma_world_layout(w, tail);
    let fb = encode_flags(w.flags)->Ok_0;
    lemma_pstring_roundtrip(s, 29, 20, w.name);
    lemma_flags_layout(w.flags);
    assert forall|i: int| 0 <= i < 10 implies #[trigger] pstring_at(s, 50 + 21 * i, 20) == w.flags[i] by {
        lemma_within_part(s, 50, fb, 21 * i, 21 * i + 21);
        lemma_pstring_roundtrip(s, 50 + 21 * i, 20, w.flags[i]);
    }
    assert(Seq::new(10, |i: int| pstring_at(s, 50 + 21 * i, 20)) =~= w.flags);
}

/// The header fields of an encoded canonical world read back as written.
pub proof fn lemma_world_header(w: WorldView, tail: Seq<u8>)
    requires
        canonical_world(w),
        encode_world(w) is Ok,
    ensures
        ({
            let s = encode_world(w)->Ok_0 + tail;
            &&& s.len() >= 512
            &&& s[0] == 0xff && s[1] == 0xff
            &&& i16_at(s, 2) == w.boards.len() - 1
            &&& i16_at(s, 4) == w.ammo
            &&& i16_at(s, 6) == w.gems
            &&& (s[8] != 0) == w.keys.blue
            &&& (s[9] != 0) == w.keys.green
            &&& (s[10] != 0) == w.keys.cyan
            &&& (s[11] != 0) == w.keys.red
            &&& (s[12] != 0) == w.keys.purple
            &&& (s[13] != 0) == w.keys.yellow
            &&& (s[14] != 0) == w.keys.white
            &&& i16_at(s, 15) == w.health
            &&& i16_at(s, 17) == w.starting_board
            &&& i16_at(s, 19) == w.torches
            &&& i16_at(s, 21) == w.torch_cycles
            &&& i16_at(s, 23) == w.energizer_cycles
            &&& i16_at(s, 27) == w.score
            &&& pstring_at(s, 29, 20) == w.name
            &&& Seq::new(10, |i: int| pstring_at(s, 50 + 21 * i, 20)) == w.flags
            &&& i16_at(s, 260) == w.time
            &&& i16_at(s, 262) == w.time_ticks
            &&& (s[264] != 0) == w.saved_game
        }),
{
    let s = encode_world(w)->Ok_0 + tail;
    lemma_world_layout(w, tail);
    lemma_head_fields(w);
    lemma_world_texts(w, tail);
    let h = world_head(w);
    let t = world_tail(w);
    lemma_within(s, 0, h, 0);
    lemma_within(s, 0, h, 1);
    lemma_within_i16(s, 0, h, 2, w.boards.len() - 1);
    lemma_within_i16(s, 0, h, 4, w.ammo as int);
    lemma_within_i16(s, 0, h, 6, w.gems as int);
    lemma_within(s, 0, h, 8);
    lemma_within(s, 0, h, 9);
    lemma_within(s, 0, h, 10);
    lemma_within(s, 0, h, 11);
    lemma_within(s, 0, h, 12);
    lemma_within(s, 0, h, 13);
    lemma_within(s, 0, h, 14);
    lemma_within_i16(s, 0, h, 15, w.health as int);
    lemma_within_i16(s, 0, h, 17, w.starting_board as int);
    lemma_within_i16(s, 0, h, 19, w.torches as int);
    lemma_within_i16(s, 0, h, 21, w.torch_cycles as int);
    lemma_within_i16(s, 0, h, 23, w.energizer_cycles as int);
    lemma_within_i16(s, 0, h, 27, w.score as int);
    assert(t.subrange(0, 2) =~= le16(w.time as int));
    lemma_within_i16(s, 260, t, 0, w.time as int);
    assert(t.subrange(2, 4) =~= le16(w.time_ticks as int));
    lemma_within_i16(s, 260, t, 2, w.time_ticks as int);
    lemma_within(s, 260, t, 4);
    assert(t[4] == bool_byte(w.saved_game));
}

/// A canonical world survives writing and reading: decoding the bytes that encoding gives,
/// whatever bytes follow them, yields the same world.
pub proof fn lemma_world_roundtrip(w: WorldView, tail: Seq<u8>)
    requires
        canonical_world(w),
        encode_world(w) is Ok,
    ensures
        decode_world(encode_world(w)->Ok_0 + tail) == Ok::<WorldView, DecodeError>(w),
{
    reveal(decode_world);
    let s = encode_world(w)->Ok_0 + tail;
    lemma_world_layout(w, tail);
    lemma_world_header(w, tail);
    lemma_boards_roundtrip(s, 512, w.boards);
}


/// Where a stat's fields lie in its bytes: x at 0 and y at 1, the x and y steps at 2 and 4,
/// the cycle at 6, parameters 1, 2 and 3 at 8, 9 and 10, the follower at 11, the leader at
/// 13, the tile underneath at 15 (element) and 16 (color), four zero bytes, the instruction
/// pointer at 21, the program's length field at 23 (the negated index of a bound program, or
/// the code's length), eight zero bytes, and then the code.
pub proof fn lemma_stat_bytes(st: StatView)
    requires
        encode_stat(st) is Ok,
    ensures
        ({
            let b = encode_stat(st)->Ok_0;
            &&& b.len() >= 33
            &&& b[0] == st.x
            &&& b[1] == st.y
            &&& i16_at(b, 2) == st.x_step
            &&& i16_at(b, 4) == st.y_step
            &&& i16_at(b, 6) == st.cycle
            &&& b[8] == st.p1
            &&& b[9] == st.p2
            &&& b[10] == st.p3
            &&& i16_at(b, 11) == st.follower
            &&& i16_at(b, 13) == st.leader
            &&& b[15] == st.under.element
            &&& b[16] == st.under.color
            &&& forall|i: int| (17 <= i < 21 || 25 <= i < 33) ==> #[trigger] b[i] == 0
            &&& i16_at(b, 21) == st.instruction_pointer
            &&& match st.program {
                ProgramView::Bound(i) => b.len() == 33 && u16_at(b, 23) == (65536 - i) % 65536,
                ProgramView::Own(code) => {
                    &&& b.len() == 33 + code.len()
                    &&& u16_at(b, 23) == code.len() % 65536
                    &&& b.subrange(33, b.len() as int) == encode_multiline_spec(code)->Ok_0
                },
            }
        }),
{
    let b = encode_stat(st)->Ok_0;
    let h = stat_head(st);
    assert(h.len() == 23);
    assert(b.subrange(0, 23) =~= h);
    assert forall|k: int| 0 <= k < 23 implies b[k] == h[k] by {
        assert(b.subrange(0, 23)[k] == b[k]);
    }
    let hx = le16(st.x_step as int);
    let hy = le16(st.y_step as int);
    let hc = le16(st.cycle as int);
    let hf = le16(st.follower as int);
    let hl = le16(st.leader as int);
    let hi = le16(st.instruction_pointer as int);
    assert(h == seq![st.x, st.y] + hx + hy + hc + seq![st.p1, st.p2, st.p3] + hf + hl + seq![
        st.under.element,
        st.under.color,
    ] + zeros(4) + hi);
    assert(h[2] == hx[0] && h[3] == hx[1]);
    assert(h[4] == hy[0] && h[5] == hy[1]);
    assert(h[6] == hc[0] && h[7] == hc[1]);
    assert(h[11] == hf[0] && h[12] == hf[1]);
    assert(h[13] == hl[0] && h[14] == hl[1]);
    assert(h[21] == hi[0] && h[22] == hi[1]);
    assert(h[17] == 0 && h[18] == 0 && h[19] == 0 && h[20] == 0);
    lemma_le16_i16(st.x_step as int, b, 2);
    lemma_le16_i16(st.y_step as int, b, 4);
    lemma_le16_i16(st.cycle as int, b, 6);
    lemma_le16_i16(st.follower as int, b, 11);
    lemma_le16_i16(st.leader as int, b, 13);
    lemma_le16_i16(st.instruction_pointer as int, b, 21);
    match st.program {
        ProgramView::Bound(i) => {
            let lf = le16(-(i as int));
            assert(b == h + lf + zeros(8));
            assert(le16((65536 - i) % 65536) =~= lf);
            lemma_le16_u16((65536 - i) % 65536, b, 23);
        },
        ProgramView::Own(code) => {
            let cb = encode_multiline_spec(code)->Ok_0;
            lemma_multiline_len(code);
            let lf = le16(cb.len() as int);
            assert(b == h + lf + zeros(8) + cb);
            assert(le16((cb.len() % 65536) as int) =~= lf);
            lemma_le16_u16((cb.len() % 65536) as int, b, 23);
            assert(b.subrange(33, b.len() as int) =~= cb);
        },
    }
}

/// Where a decoded stat's fields come from: the bytes at the same positions that writing
/// uses (see `lemma_stat_bytes`); a negative length field binds the stat to the stat whose
/// index is its negation and ends the stat after 33 bytes, and any other length is the
/// number of code bytes that follow.
pub proof fn lemma_stat_fields(s: Seq<u8>, q: int)
    ensures
        decode_stat(s, q) matches Ok((st, e)) ==> {
            &&& 0 <= q
            &&& q + 33 <= s.len()
            &&& st.x == s[q]
            &&& st.y == s[q + 1]
            &&& st.x_step == i16_at(s, q + 2)
            &&& st.y_step == i16_at(s, q + 4)
            &&& st.cycle == i16_at(s, q + 6)
            &&& st.p1 == s[q + 8]
            &&& st.p2 == s[q + 9]
            &&& st.p3 == s[q + 10]
            &&& st.follower == i16_at(s, q + 11)
            &&& st.leader == i16_at(s, q + 13)
            &&& st.under.element == s[q + 15]
            &&& st.under.color == s[q + 16]
            &&& st.instruction_pointer == i16_at(s, q + 21)
            &&& (i16_at(s, q + 23) < 0 ==> st.program == ProgramView::Bound(
                (-i16_at(s, q + 23)) as u16,
            ) && e == q + 33)
            &&& (i16_at(s, q + 23) >= 0 ==> st.program == ProgramView::Own(
                decode_multiline_spec(s.subrange(q + 33, q + 33 + i16_at(s, q + 23))),
            ) && e == q + 33 + i16_at(s, q + 23))
        },
{
}

/// The first run of encoded terrain: three bytes holding the run's length, then the
/// element and the color of the first tile; the run covers from 1 to 255 leading copies of
/// that tile, and stops early only at a different tile.
pub proof fn lemma_tiles_bytes(t: Seq<Tile>)
    requires
        t.len() > 0,
    ensures
        ({
            let e = encode_tiles(t);
            &&& e.len() >= 3
            &&& e[1] == t[0].element
            &&& e[2] == t[0].color
            &&& 1 <= e[0] <= 255
            &&& e[0] <= t.len()
            &&& forall|j: int| 0 <= j < e[0] ==> #[trigger] t[j] == t[0]
            &&& (e[0] < 255 && e[0] < t.len() ==> t[e[0] as int] != t[0])
        }),
{
    lemma_run_from(t, 1);
}

/// The first run of decoded terrain at `p`: as many copies as its first byte says (0
/// meaning 256) of the tile whose element is the next byte and whose color the one after.
pub proof fn lemma_tiles_fields(s: Seq<u8>, p: int, filled: nat)
    requires
        filled < 1500,
    ensures
        decode_tiles(s, p, filled) matches Ok((t, _)) ==> {
            let n = if s[p] == 0 { 256 } else { s[p] as int };
            &&& 0 <= p && p + 3 <= s.len()
            &&& n <= t.len()
            &&& forall|j: int| 0 <= j < n ==> #[trigger] t[j] == Tile { element: s[p + 1], color: s[p + 2] }
        },
{
}

/// A text field of capacity `cap`: its first byte is the text's length in bytes, the text's
/// bytes follow, and zeros fill the rest of the `cap + 1` bytes.
pub proof fn lemma_pstring_bytes(cap: u8, text: Seq<char>)
    requires
        pstring_spec(cap, text) is Ok,
    ensures
        ({
            let f = pstring_spec(cap, text)->Ok_0;
            let b = encode_oneline_spec(text)->Ok_0;
            &&& b.len() == text.len()
            &&& b.len() <= cap
            &&& f.len() == cap + 1
            &&& f[0] == text.len()
            &&& f.subrange(1, 1 + b.len() as int) == b
            &&& forall|i: int| 1 + b.len() <= i < cap + 1 ==> #[trigger] f[i] == 0
        }),
{
    let f = pstring_spec(cap, text)->Ok_0;
    let b = encode_oneline_spec(text)->Ok_0;
    lemma_oneline_len(text);
    assert(f == seq![b.len() as u8] + b + zeros((cap - b.len()) as nat));
    assert(f.subrange(1, 1 + b.len() as int) =~= b);
}
} // verus!