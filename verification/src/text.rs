use vstd::prelude::*;

use crate::chars::{push_char, str_chars};
use crate::errors::{bytes_of, EncodeError};

verus! {

/// The character that the CP437 table with symbols in the control range gives to a byte.
pub uninterp spec fn cp437_decode(byte: u8) -> char;

/// The byte that the CP437 table with symbols in the control range gives to a character,
/// if it has one.
pub uninterp spec fn cp437_encode(c: char) -> Option<u8>;

/// `codepage_437::CP437_WINGDINGS.decode`, a lookup in a table of 256 characters.
///
/// Trusted: the result is the table's entry for `byte` (named `cp437_decode`); encoding that
/// entry gives `byte` back (the encoder matches every table entry before any alternative
/// spelling, and the table's own entries for 0x00 and 0x20..=0x7E are those ASCII
/// characters); no entry of the table is a line feed (0x0A is drawn as U+25D9).
#[verifier::external_body]
fn decode_char(byte: u8) -> (c: char)
    ensures
        c == cp437_decode(byte),
        cp437_encode(c) == Some(byte),
        c != '\n',
{
    codepage_437::CP437_WINGDINGS.decode(byte)
}

/// `codepage_437::CP437_WINGDINGS.encode`.
///
/// Trusted: the result is `cp437_encode(c)`; a line feed has no byte (it is neither a
/// table entry, an alternative spelling, nor in the ASCII range that encodes as itself); and
/// a character that is the table's entry for a byte encodes to that byte (the encoder
/// matches every table entry, which are all distinct, before any alternative spelling).
#[verifier::external_body]
fn encode_char(c: char) -> (r: Option<u8>)
    ensures
        r == cp437_encode(c),
        c == '\n' ==> r is None,
        forall|b: u8| #[trigger] cp437_decode(b) == c ==> r == Some(b),
{
    codepage_437::CP437_WINGDINGS.encode(c)
}

/// A character that the table gives to some byte, as opposed to an alternative spelling
/// (such as `β` for the byte whose table entry is `ß`) or a character without a byte.
pub open spec fn table_char(c: char) -> bool {
    exists|b: u8| cp437_decode(b) == c
}

/// What a character of code reads back as after writing: the table's entry for byte 13
/// (the musical note `♪`) comes back as a line break, any other character as itself.
pub open spec fn code_char_read_back(c: char) -> char {
    if c == cp437_decode(13) {
        '\n'
    } else {
        c
    }
}

/// The characters that single-line text decodes to: one table character per byte.
pub open spec fn decode_oneline_spec(bytes: Seq<u8>) -> Seq<char> {
    bytes.map_values(|b: u8| cp437_decode(b))
}

/// The character that a byte of multi-line text decodes to: a carriage return ends a line.
pub open spec fn multiline_char(b: u8) -> char {
    if b == 13 {
        '\n'
    } else {
        cp437_decode(b)
    }
}

/// The characters that multi-line text decodes to.
pub open spec fn decode_multiline_spec(bytes: Seq<u8>) -> Seq<char> {
    bytes.map_values(|b: u8| multiline_char(b))
}

/// The byte that a character of multi-line text encodes to: a line break becomes a carriage
/// return.
pub open spec fn multiline_byte(c: char) -> Option<u8> {
    if c == '\n' {
        Some(13u8)
    } else {
        cp437_encode(c)
    }
}

/// Single-line text as bytes, or the first character that has no byte.
pub open spec fn encode_oneline_spec(s: Seq<char>) -> Result<Seq<u8>, EncodeError>
    decreases s.len(),
{
    if s.len() == 0 {
        Ok(Seq::empty())
    } else {
        match encode_oneline_spec(s.drop_last()) {
            Err(e) => Err(e),
            Ok(bytes) => match cp437_encode(s.last()) {
                Some(b) => Ok(bytes.push(b)),
                None => Err(EncodeError::EncodingError(s.last())),
            },
        }
    }
}

/// Multi-line text as bytes, or the first character that has no byte.
pub open spec fn encode_multiline_spec(s: Seq<char>) -> Result<Seq<u8>, EncodeError>
    decreases s.len(),
{
    if s.len() == 0 {
        Ok(Seq::empty())
    } else {
        match encode_multiline_spec(s.drop_last()) {
            Err(e) => Err(e),
            Ok(bytes) => match multiline_byte(s.last()) {
                Some(b) => Ok(bytes.push(b)),
                None => Err(EncodeError::EncodingError(s.last())),
            },
        }
    }
}

/// Once a prefix of single-line text fails to encode, the whole text fails the same way.
pub proof fn lemma_oneline_prefix_err(s: Seq<char>, k: int)
    requires
        0 <= k <= s.len(),
        encode_oneline_spec(s.take(k)) is Err,
    ensures
        encode_oneline_spec(s) == encode_oneline_spec(s.take(k)),
    decreases s.len(),
{
    if k < s.len() {
        assert(s.drop_last().take(k) =~= s.take(k));
        lemma_oneline_prefix_err(s.drop_last(), k);
    } else {
        assert(s.take(k) =~= s);
    }
}

/// Once a prefix of multi-line text fails to encode, the whole text fails the same way.
pub proof fn lemma_multiline_prefix_err(s: Seq<char>, k: int)
    requires
        0 <= k <= s.len(),
        encode_multiline_spec(s.take(k)) is Err,
    ensures
        encode_multiline_spec(s) == encode_multiline_spec(s.take(k)),
    decreases s.len(),
{
    if k < s.len() {
        assert(s.drop_last().take(k) =~= s.take(k));
        lemma_multiline_prefix_err(s.drop_last(), k);
    } else {
        assert(s.take(k) =~= s);
    }
}

/// Encoded single-line text has one byte per character.
pub proof fn lemma_oneline_len(s: Seq<char>)
    ensures
        encode_oneline_spec(s) matches Ok(b) ==> b.len() == s.len(),
    decreases s.len(),
{
    if s.len() > 0 {
        lemma_oneline_len(s.drop_last());
    }
}

/// Encoded multi-line text has one byte per character.
pub proof fn lemma_multiline_len(s: Seq<char>)
    ensures
        encode_multiline_spec(s) matches Ok(b) ==> b.len() == s.len(),
    decreases s.len(),
{
    if s.len() > 0 {
        lemma_multiline_len(s.drop_last());
    }
}

/// Serialize a multi-line code string for an object or a scroll.
///
/// Line breaks become carriage returns; a character without a CP437 equivalent gives
/// [`EncodeError::EncodingError`]. Each character becomes exactly one byte.
pub fn encode_multiline(input: &str) -> (r: Result<Vec<u8>, EncodeError>)
    ensures
        bytes_of(r) == encode_multiline_spec(input@),
        r matches Ok(v) ==> v@.len() == input@.len(),
        (forall|i: int| 0 <= i < input@.len() ==> #[trigger] input@[i] == '\n' || table_char(input@[i]))
            ==> (r matches Ok(v) && decode_multiline_spec(v@) == input@.map_values(
            |c: char| code_char_read_back(c),
        )),
{
    let cs = str_chars(input);
    let mut out: Vec<u8> = Vec::new();
    let mut i: usize = 0;
    while i < cs.len()
        invariant
            cs@ == input@,
            i <= cs.len(),
            encode_multiline_spec(cs@.take(i as int)) == Ok::<Seq<u8>, EncodeError>(out@),
            out@.len() == i,
            forall|j: int|
                0 <= j < i ==> (cs@[j] == '\n' || table_char(cs@[j])) ==> multiline_char(
                    #[trigger] out@[j],
                ) == code_char_read_back(cs@[j]),
        decreases cs.len() - i,
    {
        let c = cs[i];
        assert(cs@.take(i + 1).drop_last() =~= cs@.take(i as int));
        let b = if c == '\n' {
            Some(13u8)
        } else {
            encode_char(c)
        };
        match b {
            Some(b) => {
                proof {
                    if c != '\n' && table_char(c) {
                        let b0 = choose|b0: u8| cp437_decode(b0) == c;
                        assert(cp437_decode(b0) == c);
                        assert(cp437_decode(13u8) == c ==> b == 13);
                    }
                }
                out.push(b);
            },
            None => {
                proof {
                    lemma_multiline_prefix_err(cs@, i + 1);
                    if table_char(c) {
                        let b0 = choose|b0: u8| cp437_decode(b0) == c;
                        assert(cp437_decode(b0) == c);
                    }
                    assert(!(input@[i as int] == '\n' || table_char(input@[i as int])));
                }
                return Err(EncodeError::EncodingError(c));
            },
        }
        i += 1;
    }
    assert(cs@.take(i as int) =~= cs@);
    proof {
        if forall|j: int| 0 <= j < input@.len() ==> #[trigger] input@[j] == '\n' || table_char(
            input@[j],
        ) {
            assert(decode_multiline_spec(out@) =~= input@.map_values(
                |c: char| code_char_read_back(c),
            ));
        }
    }
    proof {
        lemma_multiline_len(input@);
    }
    Ok(out)
}

/// Deserialize a multi-line code string: one character per byte, carriage returns becoming
/// line breaks. Encoding the result gives the input back.
pub fn decode_multiline(input: &[u8]) -> (r: String)
    ensures
        r@ == decode_multiline_spec(input@),
        encode_multiline_spec(r@) == Ok::<Seq<u8>, EncodeError>(input@),
{
    let mut out = String::new();
    let mut i: usize = 0;
    assert(input@.take(0) =~= Seq::<u8>::empty());
    while i < input.len()
        invariant
            i <= input.len(),
            out@ == decode_multiline_spec(input@.take(i as int)),
            encode_multiline_spec(out@) == Ok::<Seq<u8>, EncodeError>(input@.take(i as int)),
        decreases input.len() - i,
    {
        let b = input[i];
        let c = if b == 13 {
            '\n'
        } else {
            decode_char(b)
        };
        let ghost before = out@;
        push_char(&mut out, c);
        assert(out@.drop_last() =~= before);
        assert(input@.take(i + 1) =~= input@.take(i as int).push(b));
        assert(out@ =~= decode_multiline_spec(input@.take(i + 1)));
        i += 1;
    }
    assert(input@.take(i as int) =~= input@);
    out
}

/// Serialize a single-line string, such as a board title.
///
/// Each character becomes one byte. A line break, or any character without a CP437
/// equivalent, gives [`EncodeError::EncodingError`]: in single-line fields ZZT draws byte 13
/// as a musical note.
pub fn encode_oneline(input: &str) -> (r: Result<Vec<u8>, EncodeError>)
    ensures
        bytes_of(r) == encode_oneline_spec(input@),
        r matches Ok(v) ==> v@.len() == input@.len(),
        input@.contains('\n') ==> r is Err,
        (forall|i: int| 0 <= i < input@.len() ==> table_char(#[trigger] input@[i])) ==> (r matches Ok(
            v,
        ) && decode_oneline_spec(v@) == input@),
{
    let cs = str_chars(input);
    let mut out: Vec<u8> = Vec::new();
    let mut i: usize = 0;
    while i < cs.len()
        invariant
            cs@ == input@,
            i <= cs.len(),
            encode_oneline_spec(cs@.take(i as int)) == Ok::<Seq<u8>, EncodeError>(out@),
            forall|j: int| 0 <= j < i ==> cs@[j] != '\n',
            out@.len() == i,
            forall|j: int|
                0 <= j < i ==> table_char(cs@[j]) ==> cp437_decode(#[trigger] out@[j]) == cs@[j],
        decreases cs.len() - i,
    {
        let c = cs[i];
        assert(cs@.take(i + 1).drop_last() =~= cs@.take(i as int));
        match encode_char(c) {
            Some(b) => {
                proof {
                    if table_char(c) {
                        let b0 = choose|b0: u8| cp437_decode(b0) == c;
                        assert(cp437_decode(b0) == c);
                    }
                }
                out.push(b);
            },
            None => {
                proof {
                    lemma_oneline_prefix_err(cs@, i + 1);
                    if table_char(c) {
                        let b0 = choose|b0: u8| cp437_decode(b0) == c;
                        assert(cp437_decode(b0) == c);
                    }
                    assert(!table_char(input@[i as int]));
                }
                return Err(EncodeError::EncodingError(c));
            },
        }
        i += 1;
    }
    assert(cs@.take(i as int) =~= cs@);
    proof {
        if forall|j: int| 0 <= j < input@.len() ==> table_char(#[trigger] input@[j]) {
            assert(decode_oneline_spec(out@) =~= input@);
        }
    }
    proof {
        lemma_oneline_len(input@);
    }
    Ok(out)
}

/// Deserialize a single-line string: one character per byte. Encoding the result gives the
/// input back.
pub fn decode_oneline(input: &[u8]) -> (r: String)
    ensures
        r@ == decode_oneline_spec(input@),
        encode_oneline_spec(r@) == Ok::<Seq<u8>, EncodeError>(input@),
{
    let mut out = String::new();
    let mut i: usize = 0;
    assert(input@.take(0) =~= Seq::<u8>::empty());
    while i < input.len()
        invariant
            i <= input.len(),
            out@ == decode_oneline_spec(input@.take(i as int)),
            encode_oneline_spec(out@) == Ok::<Seq<u8>, EncodeError>(input@.take(i as int)),
        decreases input.len() - i,
    {
        let b = input[i];
        let c = decode_char(b);
        let ghost before = out@;
        push_char(&mut out, c);
        assert(out@.drop_last() =~= before);
        assert(input@.take(i + 1) =~= input@.take(i as int).push(b));
        assert(out@ =~= decode_oneline_spec(input@.take(i + 1)));
        i += 1;
    }
    assert(input@.take(i as int) =~= input@);
    out
}

} // verus!
