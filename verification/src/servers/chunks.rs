//! Bodies in chunks: what was written is what is read.

use vstd::prelude::*;
use vstd::utf8::{
    decode_utf8, encode_utf8, encode_utf8_decode_utf8, encode_utf8_valid_utf8, is_ascii_chars,
    is_ascii_chars_encode_utf8, valid_utf8,
};

use crate::digits::{after_plus, digit, digit_value, hex, number, value};
use crate::servers::http::{
    bare, chunk_size, chunks, line_feed, line_stop, preceded, trailers, ChunkedView,
};
use crate::text::{before, lemma_position, trim, trim_end, trim_start, Class};

verus! {

/// Whether a character is a digit of a size.
spec fn is_hex(c: char) -> bool {
    ('0' <= c <= '9') || ('a' <= c <= 'f')
}

/// The digits of a number are read as that number.
proof fn lemma_hex(n: int)
    requires
        0 <= n,
    ensures
        value(hex(n), 16) == Some(n),
        hex(n).len() > 0,
        forall|i: int| 0 <= i < hex(n).len() ==> is_hex(#[trigger] hex(n)[i]),
    decreases n,
{
    reveal_with_fuel(value, 2);
    if n < 16 {
        let s = seq![digit(n)];
        assert(hex(n) =~= s);
        assert(s.drop_last() =~= Seq::<char>::empty());
        assert(s.last() == digit(n));
        assert(digit_value(digit(n), 16) == Some(n));
        assert(value(s, 16) == Some(n));
    } else {
        lemma_hex(n / 16);
        let front = hex(n / 16);
        let d = digit(n % 16);
        assert(hex(n) =~= front + seq![d]);
        assert(hex(n).drop_last() =~= front);
        assert(hex(n).last() == d);
        assert(digit_value(d, 16) == Some(n % 16));
        assert forall|i: int| 0 <= i < hex(n).len() implies is_hex(#[trigger] hex(n)[i]) by {
            if i < front.len() {
                assert(hex(n)[i] == front[i]);
            }
        }
    }
}

/// The line before a chunk of a size.
pub open spec fn size_line(n: int) -> Seq<char> {
    hex(n) + seq!['\r', '\n']
}

/// The line before a chunk is read as its size.
proof fn lemma_size_line(n: int)
    requires
        0 <= n <= u64::MAX,
    ensures
        chunk_size(size_line(n)) == Some(n),
        is_ascii_chars(size_line(n)),
{
    lemma_hex(n);
    let h = hex(n);
    let l = size_line(n);
    assert(l.drop_last() =~= h.push('\r'));
    assert(h.push('\r').drop_last() =~= h);
    assert(is_hex(h[h.len() - 1]));
    assert(is_hex(h[0]));
    reveal_with_fuel(trim_end, 3);
    assert(bare(l) == h);
    lemma_position(h, ';');
    assert forall|i: int| 0 <= i < h.len() implies h[i] != ';' by {
        assert(is_hex(h[i]));
    }
    assert(before(h, ';') =~= h);
    assert(trim_start(h, Class::Space) == h);
    assert(trim(h) == h);
    assert(after_plus(h) == h);
    assert(number(h, 16, u64::MAX as int) == Some(n));
    assert forall|i: int| 0 <= i < l.len() implies 0 <= #[trigger] l[i] < 128 by {
        if i < h.len() {
            assert(l[i] == h[i]);
            assert(is_hex(h[i]));
        }
    }
}

/// Where a line of plain text ends that stands in bytes.
proof fn lemma_line(pre: Seq<u8>, line: Seq<char>, rest: Seq<u8>, ended: bool)
    requires
        is_ascii_chars(line),
        line.len() > 0,
        line.last() == '\n',
        forall|i: int| 0 <= i < line.len() - 1 ==> #[trigger] line[i] != '\n',
    ensures
        ({
            let b = pre + encode_utf8(line) + rest;
            let i = pre.len() as int;
            &&& line_stop(b, i, ended) == Some(i + line.len())
            &&& i + line.len() <= b.len()
            &&& valid_utf8(b.subrange(i, i + line.len()))
            &&& decode_utf8(b.subrange(i, i + line.len())) == line
        }),
{
    let e = encode_utf8(line);
    let b = pre + e + rest;
    let i = pre.len() as int;
    is_ascii_chars_encode_utf8(line);
    encode_utf8_valid_utf8(line);
    encode_utf8_decode_utf8(line);
    assert(e.len() == line.len());
    assert(b.subrange(i, i + line.len()) =~= e);
    lemma_feed(b, i, line, i);
}

/// The first line end in bytes that hold a line of plain text.
proof fn lemma_feed(b: Seq<u8>, at: int, line: Seq<char>, i: int)
    requires
        0 <= at <= i < at + line.len() <= b.len(),
        line.last() == '\n',
        forall|j: int| 0 <= j < line.len() - 1 ==> #[trigger] line[j] != '\n',
        forall|j: int| 0 <= j < line.len() ==> b[at + j] == #[trigger] line[j] as u8,
        is_ascii_chars(line),
    ensures
        line_feed(b, i) == at + line.len() - 1,
    decreases at + line.len() - i,
{
    let c = line[i - at];
    assert(b[at + (i - at)] == c as u8);
    assert(0 <= c < 128);
    if i < at + line.len() - 1 {
        assert(c != '\n');
        lemma_feed(b, at, line, i + 1);
    } else {
        assert(c == '\n');
    }
}

/// A chunk as it is written.
pub open spec fn chunk_form(piece: Seq<u8>) -> Seq<u8> {
    encode_utf8(size_line(piece.len() as int)) + piece + seq![13u8, 10u8]
}

/// A body in chunks as it is written: each piece in a chunk of its own, and then
/// one without a size.
pub open spec fn chunked_form(pieces: Seq<Seq<u8>>) -> Seq<u8>
    decreases pieces.len(),
{
    if pieces.len() == 0 {
        encode_utf8(size_line(0)) + encode_utf8(seq!['\r', '\n'])
    } else {
        chunk_form(pieces[0]) + chunked_form(pieces.skip(1))
    }
}

/// The bytes of pieces, one after the other.
pub open spec fn pieces_bytes(pieces: Seq<Seq<u8>>) -> Seq<u8>
    decreases pieces.len(),
{
    if pieces.len() == 0 {
        Seq::empty()
    } else {
        pieces[0] + pieces_bytes(pieces.skip(1))
    }
}

proof fn lemma_last_chunk(pre: Seq<u8>, rest: Seq<u8>, ended: bool)
    ensures
        ({
            let form = chunked_form(Seq::<Seq<u8>>::empty());
            let b = pre + form + rest;
            chunks(b, pre.len() as int, ended) == ChunkedView::Done(
                Seq::empty(),
                (pre.len() + form.len()) as int,
            )
        }),
{
    let line = size_line(0);
    let end = seq!['\r', '\n'];
    let form = chunked_form(Seq::<Seq<u8>>::empty());
    let b = pre + form + rest;
    lemma_size_line(0);
    lemma_hex(0);
    assert(is_ascii_chars(end));
    assert(form =~= encode_utf8(line) + encode_utf8(end));
    assert(b =~= pre + encode_utf8(line) + (encode_utf8(end) + rest));
    assert forall|i: int| 0 <= i < line.len() - 1 implies #[trigger] line[i] != '\n' by {
        if i < hex(0).len() {
            assert(is_hex(hex(0)[i]));
        }
    }
    lemma_line(pre, line, encode_utf8(end) + rest, ended);
    is_ascii_chars_encode_utf8(line);
    is_ascii_chars_encode_utf8(end);
    let k: int = (pre.len() + line.len()) as int;
    let before_end = pre + encode_utf8(line);
    assert(b =~= before_end + encode_utf8(end) + rest);
    lemma_line(before_end, end, rest, ended);
    assert(before_end.len() == k);
    reveal_with_fuel(trim_end, 3);
    assert(end.drop_last() =~= seq!['\r']);
    assert(seq!['\r'].drop_last() =~= Seq::<char>::empty());
    assert(bare(end).len() == 0);
    assert(trailers(b, k, ended) == ChunkedView::Done(Seq::empty(), k + 2));
}

#[verifier::spinoff_prover]
#[verifier::rlimit(40)]
proof fn lemma_chunks(pre: Seq<u8>, pieces: Seq<Seq<u8>>, rest: Seq<u8>, ended: bool)
    requires
        forall|i: int| 0 <= i < pieces.len() ==> 0 < (#[trigger] pieces[i]).len() <= u64::MAX,
    ensures
        ({
            let form = chunked_form(pieces);
            chunks(pre + form + rest, pre.len() as int, ended) == ChunkedView::Done(
                pieces_bytes(pieces),
                (pre.len() + form.len()) as int,
            )
        }),
    decreases pieces.len(),
{
    if pieces.len() == 0 {
        assert(pieces =~= Seq::<Seq<u8>>::empty());
        lemma_last_chunk(pre, rest, ended);
    } else {
        let piece = pieces[0];
        let n = piece.len() as int;
        let more = pieces.skip(1);
        let line = size_line(n);
        let tail = chunked_form(more);
        let form = chunked_form(pieces);
        let b = pre + form + rest;
        lemma_size_line(n);
        lemma_hex(n);
        assert forall|i: int| 0 <= i < line.len() - 1 implies #[trigger] line[i] != '\n' by {
            if i < hex(n).len() {
                assert(is_hex(hex(n)[i]));
            }
        }
        let after = piece + seq![13u8, 10u8] + tail + rest;
        assert(b =~= pre + encode_utf8(line) + after);
        lemma_line(pre, line, after, ended);
        is_ascii_chars_encode_utf8(line);
        let k: int = (pre.len() + line.len()) as int;
        assert(b.subrange(k, k + n) =~= piece);
        assert(b[k + n] == 13 && b[k + n + 1] == 10);
        let next = pre + chunk_form(piece);
        assert(next.len() == k + n + 2);
        assert(b =~= next + tail + rest);
        assert forall|i: int| 0 <= i < more.len() implies 0 < (#[trigger] more[i]).len()
            <= u64::MAX by {
            assert(more[i] == pieces[i + 1]);
        }
        lemma_chunks(next, more, rest, ended);
        assert(chunks(b, pre.len() as int, ended) == preceded(
            piece,
            chunks(b, k + n + 2, ended),
        ));
    }
}

/// A body in chunks is read as it was written, in however many pieces it came,
/// and nothing of what follows it is touched.
pub proof fn chunked_bodies_are_read_back(pieces: Seq<Seq<u8>>, rest: Seq<u8>, ended: bool)
    requires
        forall|i: int| 0 <= i < pieces.len() ==> 0 < (#[trigger] pieces[i]).len() <= u64::MAX,
    ensures
        chunks(chunked_form(pieces) + rest, 0, ended) == ChunkedView::Done(
            pieces_bytes(pieces),
            chunked_form(pieces).len() as int,
        ),
{
    let none = Seq::<u8>::empty();
    lemma_chunks(none, pieces, rest, ended);
    assert(none + chunked_form(pieces) + rest =~= chunked_form(pieces) + rest);
}

} // verus!
