//! One connection: the identifiers that accepted connections get, what its
//! reader does with a line it has read, and the text of the lines that its
//! writer puts on the wire.

use crate::writer::{Action, Writer};
use vstd::prelude::*;
use vstd::string::*;

verus! {

/// Hands out connection identifiers: 0 first, then each time one more.
pub struct Acceptor {
    next: usize,
}

impl Acceptor {
    /// How many identifiers were handed out so far.
    pub closed spec fn issued(&self) -> nat {
        self.next as nat
    }

    /// An acceptor that has handed out nothing yet.
    pub fn new() -> (a: Acceptor)
        ensures
            a.issued() == 0,
    {
        Acceptor { next: 0 }
    }

    /// The identifier that the next connection gets.
    pub fn next_id(&self) -> (id: usize)
        ensures
            id == self.issued(),
    {
        self.next
    }

    /// The handle of a newly accepted connection that is reached through
    /// `sender`. Its identifier is the number of connections accepted before
    /// it, so identifiers grow by one and none comes twice.
    pub fn accept(&mut self, sender: std::sync::mpsc::Sender<String>) -> (w: Writer)
        requires
            old(self).issued() < usize::MAX,
        ensures
            w.spec_id() == old(self).issued(),
            w.spec_sender() == sender,
            final(self).issued() == old(self).issued() + 1,
    {
        let id = self.next;
        self.next = id + 1;
        Writer::new(id, sender)
    }
}

/// What reading one line from a connection's inbound stream came to.
pub enum Inbound {
    /// A complete line, without its terminator.
    Line(String),
    /// A line whose bytes are no valid text.
    Garbled,
    /// The stream failed.
    Failed,
    /// The stream ended.
    Closed,
}

/// What a connection's reader does next.
pub enum ReaderStep {
    /// Hand the command to the router, then read on.
    Forward(Action),
    /// Warn that a line was dropped, then read on.
    Skip,
    /// Report the failure and end.
    Abort,
    /// End without an error.
    Finish,
}

/// The step of the reader of connection `me` after a read that came to `got`.
///
/// A line, empty or not, is forwarded as it is, tagged with a handle of the
/// connection it came from. A garbled line is dropped and reading goes on; a
/// failed or ended stream ends the reader.
pub fn on_inbound(me: &Writer, got: Inbound) -> (step: ReaderStep)
    ensures
        match got {
            Inbound::Line(line) => step matches ReaderStep::Forward(Action::ToWriters(text, from))
                && text@ == line@ && from.spec_id() == me.spec_id(),
            Inbound::Garbled => step is Skip,
            Inbound::Failed => step is Abort,
            Inbound::Closed => step is Finish,
        },
{
    match got {
        Inbound::Line(line) => ReaderStep::Forward(Action::ToWriters(line, me.duplicate())),
        Inbound::Garbled => ReaderStep::Skip,
        Inbound::Failed => ReaderStep::Abort,
        Inbound::Closed => ReaderStep::Finish,
    }
}

/// What waiting on a connection's private channel came to.
pub enum Outbound {
    /// The next message that the router queued.
    Message(String),
    /// Every sending half of the channel is gone.
    Closed,
}

/// What a connection's writer does next.
pub enum WriterStep {
    /// Put the text on the wire; go on where that succeeds, end where it fails.
    Write(String),
    /// End: nothing will come any more.
    Finish,
}

/// The step of a connection's writer after a wait that came to `got`: a
/// message goes on the wire as one line of its own, a closed channel ends the
/// writer.
pub fn on_outbound(got: Outbound) -> (step: WriterStep)
    ensures
        match got {
            Outbound::Message(msg) => step matches WriterStep::Write(text) && text@ == wire_text(
                msg@,
            ),
            Outbound::Closed => step is Finish,
        },
{
    match got {
        Outbound::Message(msg) => WriterStep::Write(wire_line(&msg)),
        Outbound::Closed => WriterStep::Finish,
    }
}

/// Two messages written one after the other stand on the wire in that
/// order, each followed by its own line break: the first is not lost, the
/// two are not merged, and an empty message still takes a line.
pub proof fn lemma_wire_keeps_order(a: Seq<char>, b: Seq<char>)
    ensures
        ({
            let wire = wire_text(a) + wire_text(b);
            let n = a.len() as int;
            let m = b.len() as int;
            &&& wire.len() == n + m + 2
            &&& wire.subrange(0, n) == a
            &&& wire[n] == '\n'
            &&& wire.subrange(n + 1, n + 1 + m) == b
            &&& wire[n + 1 + m] == '\n'
        }),
{
    let wire = wire_text(a) + wire_text(b);
    let n = a.len() as int;
    let m = b.len() as int;
    assert(wire.subrange(0, n) =~= a);
    assert(wire.subrange(n + 1, n + 1 + m) =~= b);
}

/// The character of one decimal digit.
pub open spec fn digit(d: nat) -> char {
    if d == 0 {
        '0'
    } else if d == 1 {
        '1'
    } else if d == 2 {
        '2'
    } else if d == 3 {
        '3'
    } else if d == 4 {
        '4'
    } else if d == 5 {
        '5'
    } else if d == 6 {
        '6'
    } else if d == 7 {
        '7'
    } else if d == 8 {
        '8'
    } else {
        '9'
    }
}

/// `n` in decimal, without leading zeros.
pub open spec fn decimal(n: nat) -> Seq<char>
    decreases n,
{
    if n < 10 {
        seq![digit(n)]
    } else {
        decimal(n / 10).push(digit(n % 10))
    }
}

/// The text a new connection is greeted with.
pub open spec fn welcome_text(id: usize) -> Seq<char> {
    "server: connected as n°"@ + decimal(id as nat)
}

/// What goes on the wire for one message: the message, then a line break.
pub open spec fn wire_text(msg: Seq<char>) -> Seq<char> {
    msg.push('\n')
}

fn digit_str(d: usize) -> (s: &'static str)
    requires
        d < 10,
    ensures
        s@ == seq![digit(d as nat)],
{
    proof {
        reveal_strlit("0");
        reveal_strlit("1");
        reveal_strlit("2");
        reveal_strlit("3");
        reveal_strlit("4");
        reveal_strlit("5");
        reveal_strlit("6");
        reveal_strlit("7");
        reveal_strlit("8");
        reveal_strlit("9");
    }
    let s = if d == 0 {
        "0"
    } else if d == 1 {
        "1"
    } else if d == 2 {
        "2"
    } else if d == 3 {
        "3"
    } else if d == 4 {
        "4"
    } else if d == 5 {
        "5"
    } else if d == 6 {
        "6"
    } else if d == 7 {
        "7"
    } else if d == 8 {
        "8"
    } else {
        "9"
    };
    assert(s@ =~= seq![digit(d as nat)]);
    s
}

/// `n` written in decimal.
pub fn decimal_string(n: usize) -> (s: String)
    ensures
        s@ == decimal(n as nat),
    decreases n,
{
    if n < 10 {
        String::from_str(digit_str(n))
    } else {
        let mut s = decimal_string(n / 10);
        s.append(digit_str(n % 10));
        assert(s@ =~= decimal(n as nat));
        s
    }
}

/// The message that the writer of connection `id` sends before any other.
pub fn welcome_line(id: usize) -> (line: String)
    ensures
        line@ == welcome_text(id),
{
    let mut line = String::from_str("server: connected as n°");
    line.append(decimal_string(id).as_str());
    line
}

/// The text that a connection's writer puts on the wire for `msg`: the
/// message as it is, empty or not, and one line break after it.
pub fn wire_line(msg: &String) -> (text: String)
    ensures
        text@ == wire_text(msg@),
{
    let mut text = msg.clone();
    text.append("\n");
    proof {
        reveal_strlit("\n");
        assert(text@ =~= wire_text(msg@));
    }
    text
}

} // verus!
