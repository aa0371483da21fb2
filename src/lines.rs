//! Splitting a child process's output, as it arrives in chunks of bytes, into
//! lines of text.
use vstd::prelude::*;
use vstd::utf8::{decode_utf8, valid_utf8};

use crate::scan::views;

verus! {

/// The byte that ends a line.
pub const NEWLINE: u8 = 10;

/// The byte that may stand before `NEWLINE` and is then not part of the line.
pub const RETURN: u8 = 13;

/// What reading `b` from the start leaves: the lines that a `NEWLINE` closed,
/// in order and without it, and the bytes after the last `NEWLINE`.
pub open spec fn split_state(b: Seq<u8>) -> (Seq<Seq<u8>>, Seq<u8>)
    decreases b.len(),
{
    if b.len() == 0 {
        (seq![], seq![])
    } else {
        let (lines, rest) = split_state(b.drop_last());
        if b.last() == NEWLINE {
            (lines.push(rest), seq![])
        } else {
            (lines, rest.push(b.last()))
        }
    }
}

/// A closed line without the `RETURN` that ended it, if one did.
pub open spec fn strip_return(l: Seq<u8>) -> Seq<u8> {
    if l.len() > 0 && l.last() == RETURN {
        l.drop_last()
    } else {
        l
    }
}

/// The text of the closed lines `ls` that are well-formed UTF-8, in order;
/// the others are dropped.
pub open spec fn delivered(ls: Seq<Seq<u8>>) -> Seq<Seq<char>>
    decreases ls.len(),
{
    if ls.len() == 0 {
        seq![]
    } else {
        let d = delivered(ls.drop_last());
        let l = strip_return(ls.last());
        if valid_utf8(l) {
            d.push(decode_utf8(l))
        } else {
            d
        }
    }
}

/// The text of the last, unclosed line `rest` at the end of the stream, if
/// there is one and it is well-formed UTF-8.
pub open spec fn last_line(rest: Seq<u8>) -> Option<Seq<char>> {
    if rest.len() > 0 && valid_utf8(rest) {
        Some(decode_utf8(rest))
    } else {
        None
    }
}

/// Relies on std's `String::from_utf8`: it accepts exactly the well-formed
/// UTF-8 byte sequences and returns the characters they encode.
#[verifier::external_body]
fn decode(bytes: Vec<u8>) -> (r: Option<String>)
    ensures
        r is Some <==> valid_utf8(bytes@),
        r is Some ==> r->0@ == decode_utf8(bytes@),
{
    String::from_utf8(bytes).ok()
}

/// Bytes that hold no `NEWLINE` close no line.
proof fn lemma_open_line(b: Seq<u8>)
    requires
        !b.contains(NEWLINE),
    ensures
        split_state(b) == (Seq::<Seq<u8>>::empty(), b),
    decreases b.len(),
{
    if b.len() > 0 {
        let p = b.drop_last();
        assert forall|k: int| 0 <= k < p.len() implies p[k] != NEWLINE by {
            assert(b.contains(b[k]));
        }
        lemma_open_line(p);
        assert(b.contains(b.last()));
        assert(p.push(b.last()) =~= b);
    }
}

/// Reading `x` and then `y` closes the lines of `x`, then those that the rest
/// of `x` and `y` close.
proof fn lemma_split_append(x: Seq<u8>, y: Seq<u8>)
    ensures
        split_state(x + y) == (
            split_state(x).0 + split_state(split_state(x).1 + y).0,
            split_state(split_state(x).1 + y).1,
        ),
    decreases y.len(),
{
    let r = split_state(x).1;
    if y.len() == 0 {
        assert(x + y =~= x);
        assert(r + y =~= r);
        lemma_open_rest(x);
        lemma_open_line(r);
        assert(split_state(x).0 + Seq::<Seq<u8>>::empty() =~= split_state(x).0);
    } else {
        let y0 = y.drop_last();
        lemma_split_append(x, y0);
        assert((x + y).drop_last() =~= x + y0);
        assert((r + y).drop_last() =~= r + y0);
        let inner = split_state(r + y0);
        if y.last() == NEWLINE {
            assert(split_state(x).0 + inner.0.push(inner.1) =~= (split_state(x).0 + inner.0).push(
                inner.1,
            ));
        }
    }
}

/// What is left after the last line end holds no line end.
proof fn lemma_open_rest(b: Seq<u8>)
    ensures
        !split_state(b).1.contains(NEWLINE),
    decreases b.len(),
{
    if b.len() > 0 {
        lemma_open_rest(b.drop_last());
        let r = split_state(b.drop_last()).1;
        if b.last() != NEWLINE {
            assert forall|k: int| 0 <= k < r.push(b.last()).len() implies r.push(b.last())[k]
                != NEWLINE by {
                if k < r.len() {
                    assert(r.contains(r[k]));
                }
            }
        }
    }
}

/// The text of the lines of `a` and then `b` is that of `a`, then that of `b`.
proof fn lemma_delivered_append(a: Seq<Seq<u8>>, b: Seq<Seq<u8>>)
    ensures
        delivered(a + b) == delivered(a) + delivered(b),
    decreases b.len(),
{
    if b.len() == 0 {
        assert(a + b =~= a);
        assert(delivered(a) + delivered(b) =~= delivered(a));
    } else {
        lemma_delivered_append(a, b.drop_last());
        assert((a + b).drop_last() =~= a + b.drop_last());
        let l = strip_return(b.last());
        if valid_utf8(l) {
            assert(delivered(a) + delivered(b.drop_last()).push(decode_utf8(l)) =~= (delivered(a)
                + delivered(b.drop_last())).push(decode_utf8(l)));
        }
    }
}

/// Lines do not depend on how the stream was cut into chunks: feeding `a`
/// and then `b` delivers, in order, the lines that feeding `a + b` at once
/// delivers, and leaves the same unclosed rest.
pub proof fn lemma_chunks_do_not_matter(pending: Seq<u8>, a: Seq<u8>, b: Seq<u8>)
    ensures
        delivered(split_state(pending + a).0) + delivered(
            split_state(split_state(pending + a).1 + b).0,
        ) == delivered(split_state(pending + a + b).0),
        split_state(split_state(pending + a).1 + b).1 == split_state(pending + a + b).1,
{
    lemma_split_append(pending + a, b);
    lemma_delivered_append(
        split_state(pending + a).0,
        split_state(split_state(pending + a).1 + b).0,
    );
}

/// The bytes of one output channel that have arrived after its last line end.
pub struct LineSplitter {
    pending: Vec<u8>,
}

impl View for LineSplitter {
    type V = Seq<u8>;

    closed spec fn view(&self) -> Seq<u8> {
        self.pending@
    }
}

impl LineSplitter {
    /// The splitter holds no line end: each one closes a line at once.
    pub open spec fn wf(&self) -> bool {
        !self@.contains(NEWLINE)
    }

    /// A splitter at the start of a stream.
    pub fn new() -> (r: LineSplitter)
        ensures
            r@ == Seq::<u8>::empty(),
            r.wf(),
    {
        LineSplitter { pending: Vec::new() }
    }

    /// Takes the next chunk of the stream and returns the text of each line
    /// that it closes, in order. A line ends at `NEWLINE`, and a `RETURN`
    /// just before it is cut; a line that is not well-formed UTF-8 is dropped.
    pub fn feed(&mut self, chunk: &[u8]) -> (r: Vec<String>)
        requires
            old(self).wf(),
        ensures
            final(self).wf(),
            final(self)@ == split_state(old(self)@ + chunk@).1,
            views(r@) == delivered(split_state(old(self)@ + chunk@).0),
    {
        let ghost start = self@;
        proof {
            lemma_open_line(start);
            assert(start + chunk@.take(0) =~= start);
        }
        let ghost mut closed: Seq<Seq<u8>> = Seq::empty();
        let mut out: Vec<String> = Vec::new();
        let mut i: usize = 0;
        while i < chunk.len()
            invariant
                i <= chunk.len(),
                split_state(start + chunk@.take(i as int)) == (closed, self@),
                views(out@) == delivered(closed),
                !self@.contains(NEWLINE),
            decreases chunk.len() - i,
        {
            let ghost before = start + chunk@.take(i as int);
            let ghost after = start + chunk@.take(i + 1);
            assert(after.drop_last() =~= before);
            assert(after.last() == chunk@[i as int]);
            let b = chunk[i];
            if b == NEWLINE {
                let mut line: Vec<u8> = Vec::new();
                core::mem::swap(&mut line, &mut self.pending);
                let ghost whole = line@;
                if line.len() > 0 && line[line.len() - 1] == RETURN {
                    line.pop();
                    assert(line@ =~= whole.drop_last());
                }
                assert(line@ == strip_return(whole));
                proof {
                    assert(closed.push(whole).drop_last() =~= closed);
                    closed = closed.push(whole);
                }
                match decode(line) {
                    Some(text) => {
                        assert(views(out@.push(text)) =~= views(out@).push(text@));
                        out.push(text);
                    },
                    None => {},
                }
                assert(!self@.contains(NEWLINE));
            } else {
                let ghost old_pending = self@;
                self.pending.push(b);
                assert forall|k: int| 0 <= k < self@.len() implies self@[k] != NEWLINE by {
                    if k < old_pending.len() {
                        assert(old_pending.contains(old_pending[k]));
                    }
                }
            }
            i = i + 1;
        }
        assert(chunk@.take(chunk.len() as int) =~= chunk@);
        out
    }

    /// Ends the stream: returns the text of the unclosed last line, if there
    /// is one and it is well-formed UTF-8, and leaves the splitter empty.
    pub fn finish(&mut self) -> (r: Option<String>)
        ensures
            final(self)@ == Seq::<u8>::empty(),
            final(self).wf(),
            r is Some <==> last_line(old(self)@) is Some,
            r is Some ==> r->0@ == last_line(old(self)@)->0,
    {
        let mut rest: Vec<u8> = Vec::new();
        core::mem::swap(&mut rest, &mut self.pending);
        if rest.len() == 0 {
            None
        } else {
            decode(rest)
        }
    }
}

} // verus!
