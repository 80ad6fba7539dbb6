//! Inbound framing: the bytes of one connection's stream, as they arrive in
//! pieces, cut into lines and read as text.

use crate::connection::Inbound;
use vstd::prelude::*;
use vstd::utf8::{decode_utf8, valid_utf8};

verus! {

/// The byte that ends a line.
pub const LINE_BREAK: u8 = 10;

/// The byte that may stand before a line break and is then no part of the
/// line.
pub const CARRIAGE_RETURN: u8 = 13;

/// No byte of `bytes` is a line break.
pub open spec fn unbroken(bytes: Seq<u8>) -> bool {
    forall|i: int| 0 <= i < bytes.len() ==> bytes[i] != LINE_BREAK
}

/// The lines that are complete in `bytes`: the stretches between line
/// breaks, each without its break, first to last.
pub open spec fn lines_in(bytes: Seq<u8>) -> Seq<Seq<u8>>
    decreases bytes.len(),
{
    if bytes.len() == 0 {
        Seq::empty()
    } else if bytes.last() == LINE_BREAK {
        lines_in(bytes.drop_last()).push(tail_of(bytes.drop_last()))
    } else {
        lines_in(bytes.drop_last())
    }
}

/// What follows the last line break in `bytes`: the beginning of a line that
/// is not complete yet.
pub open spec fn tail_of(bytes: Seq<u8>) -> Seq<u8>
    decreases bytes.len(),
{
    if bytes.len() == 0 || bytes.last() == LINE_BREAK {
        Seq::empty()
    } else {
        tail_of(bytes.drop_last()).push(bytes.last())
    }
}

/// The lines, each with a line break after it, one after the other.
pub open spec fn joined(lines: Seq<Seq<u8>>) -> Seq<u8>
    decreases lines.len(),
{
    if lines.len() == 0 {
        Seq::empty()
    } else {
        joined(lines.drop_last()) + lines.last().push(LINE_BREAK)
    }
}

/// A complete line without the carriage return that may end it.
pub open spec fn line_body(raw: Seq<u8>) -> Seq<u8> {
    if raw.len() > 0 && raw.last() == CARRIAGE_RETURN {
        raw.drop_last()
    } else {
        raw
    }
}

/// `got` is what reading `body` as text comes to: the line it encodes where
/// it is valid UTF-8, and a garbled line where it is not.
pub open spec fn is_reading_of(got: Inbound, body: Seq<u8>) -> bool {
    if valid_utf8(body) {
        got matches Inbound::Line(text) && text@ == decode_utf8(body)
    } else {
        got is Garbled
    }
}

/// `String::from_utf8`: the text that `bytes` encode where they are valid
/// UTF-8, and nothing where they are not.
#[verifier::external_body]
fn text_of(bytes: Vec<u8>) -> (text: Option<String>)
    ensures
        text is Some <==> valid_utf8(bytes@),
        text matches Some(s) ==> s@ == decode_utf8(bytes@),
{
    String::from_utf8(bytes).ok()
}

/// Reads the bytes of a line as text.
fn read_text(body: Vec<u8>) -> (got: Inbound)
    ensures
        is_reading_of(got, body@),
{
    match text_of(body) {
        Some(text) => Inbound::Line(text),
        None => Inbound::Garbled,
    }
}

/// Reads a complete line, without the carriage return that may end it, as
/// text.
fn read_line(raw: Vec<u8>) -> (got: Inbound)
    ensures
        is_reading_of(got, line_body(raw@)),
{
    let mut body = raw;
    let n = body.len();
    if n > 0 && body[n - 1] == CARRIAGE_RETURN {
        body.pop();
        assert(body@ =~= line_body(raw@));
    }
    read_text(body)
}

/// Bytes without a line break hold no complete line and are their own tail.
pub proof fn lemma_unbroken(bytes: Seq<u8>)
    requires
        unbroken(bytes),
    ensures
        lines_in(bytes) == Seq::<Seq<u8>>::empty(),
        tail_of(bytes) == bytes,
    decreases bytes.len(),
{
    if bytes.len() > 0 {
        lemma_unbroken(bytes.drop_last());
        assert(bytes.drop_last().push(bytes.last()) =~= bytes);
    } else {
        assert(bytes =~= Seq::<u8>::empty());
    }
}

/// Cutting loses and adds nothing: the complete lines, each with its break,
/// followed by the tail are the bytes again, and neither a line nor the tail
/// holds a line break.
pub proof fn lemma_split_rejoins(bytes: Seq<u8>)
    ensures
        joined(lines_in(bytes)) + tail_of(bytes) == bytes,
        unbroken(tail_of(bytes)),
        forall|k: int| 0 <= k < lines_in(bytes).len() ==> unbroken(#[trigger] lines_in(bytes)[k]),
    decreases bytes.len(),
{
    if bytes.len() > 0 {
        let front = bytes.drop_last();
        lemma_split_rejoins(front);
        assert(front.push(bytes.last()) =~= bytes);
        if bytes.last() == LINE_BREAK {
            let lines = lines_in(front).push(tail_of(front));
            assert(lines.drop_last() =~= lines_in(front));
            assert(joined(lines) + tail_of(bytes) =~= (joined(lines_in(front)) + tail_of(
                front,
            )).push(LINE_BREAK));
        } else {
            assert(joined(lines_in(bytes)) + tail_of(bytes) =~= (joined(lines_in(front)) + tail_of(
                front,
            )).push(bytes.last()));
        }
    } else {
        assert(joined(lines_in(bytes)) + tail_of(bytes) =~= bytes);
    }
}

/// How a stream is cut into pieces makes no difference: the lines of two
/// pieces, one after the other, are the lines of the first, and then the
/// lines of what the first left over followed by the second.
pub proof fn lemma_pieces(first: Seq<u8>, second: Seq<u8>)
    ensures
        lines_in(first + second) == lines_in(first) + lines_in(tail_of(first) + second),
        tail_of(first + second) == tail_of(tail_of(first) + second),
    decreases second.len(),
{
    if second.len() == 0 {
        assert(first + second =~= first);
        assert(tail_of(first) + second =~= tail_of(first));
        lemma_split_rejoins(first);
        lemma_unbroken(tail_of(first));
        assert(lines_in(first) + Seq::<Seq<u8>>::empty() =~= lines_in(first));
    } else {
        let front = second.drop_last();
        lemma_pieces(first, front);
        assert((first + second).drop_last() =~= first + front);
        assert((tail_of(first) + second).drop_last() =~= tail_of(first) + front);
        if second.last() == LINE_BREAK {
            assert(lines_in(first + second) =~= lines_in(first) + lines_in(
                tail_of(first) + second,
            ));
        }
    }
}

/// The reading end of one connection's stream: it takes the bytes as they
/// arrive and keeps the beginning of the line that is not complete yet.
pub struct LineReader {
    pending: Vec<u8>,
}

impl View for LineReader {
    type V = Seq<u8>;

    /// The bytes received since the last line break.
    closed spec fn view(&self) -> Seq<u8> {
        self.pending@
    }
}

impl LineReader {
    #[verifier::type_invariant]
    spec fn kept_unbroken(self) -> bool {
        unbroken(self.pending@)
    }

    /// A reader that has received nothing.
    pub fn new() -> (r: LineReader)
        ensures
            r@ == Seq::<u8>::empty(),
    {
        LineReader { pending: Vec::new() }
    }

    /// Takes the next piece of the stream and hands out the lines that it
    /// completes, first to last, each read as text without its line break and
    /// the carriage return that may stand before it. What follows the last
    /// line break is kept for the next piece.
    pub fn feed(&mut self, piece: &[u8]) -> (found: Vec<Inbound>)
        ensures
            final(self)@ == tail_of(old(self)@ + piece@),
            found@.len() == lines_in(old(self)@ + piece@).len(),
            forall|k: int|
                0 <= k < found@.len() ==> is_reading_of(
                    #[trigger] found@[k],
                    line_body(lines_in(old(self)@ + piece@)[k]),
                ),
    {
        proof {
            use_type_invariant(&*self);
            lemma_unbroken(self.pending@);
        }
        let mut found: Vec<Inbound> = Vec::new();
        let mut current: Vec<u8> = Vec::new();
        std::mem::swap(&mut current, &mut self.pending);
        let ghost before = current@;
        let mut i: usize = 0;
        assert(before + piece@.take(0) =~= before);
        while i < piece.len()
            invariant
                i <= piece.len(),
                self.pending@ == Seq::<u8>::empty(),
                unbroken(current@),
                current@ == tail_of(before + piece@.take(i as int)),
                found@.len() == lines_in(before + piece@.take(i as int)).len(),
                forall|k: int|
                    0 <= k < found@.len() ==> is_reading_of(
                        #[trigger] found@[k],
                        line_body(lines_in(before + piece@.take(i as int))[k]),
                    ),
            decreases piece.len() - i,
        {
            let byte = piece[i];
            let ghost seen = before + piece@.take(i as int);
            proof {
                assert(before + piece@.take(i + 1) =~= seen.push(byte));
                assert(seen.push(byte).drop_last() =~= seen);
            }
            if byte == LINE_BREAK {
                let mut raw: Vec<u8> = Vec::new();
                std::mem::swap(&mut raw, &mut current);
                found.push(read_line(raw));
            } else {
                current.push(byte);
            }
            i += 1;
        }
        assert(piece@.take(i as int) =~= piece@);
        self.pending = current;
        found
    }

    /// Ends the stream. Bytes that were received after the last line break
    /// are a last line, read as text as they are; with none there is no last
    /// line.
    pub fn finish(&mut self) -> (last: Option<Inbound>)
        ensures
            final(self)@ == Seq::<u8>::empty(),
            old(self)@.len() == 0 ==> last is None,
            old(self)@.len() > 0 ==> (last matches Some(got) && is_reading_of(got, old(self)@)),
    {
        let mut rest: Vec<u8> = Vec::new();
        std::mem::swap(&mut rest, &mut self.pending);
        if rest.len() == 0 {
            None
        } else {
            Some(read_text(rest))
        }
    }
}

} // verus!
