//! The handle of one connection's outbound path, and the commands that the
//! router consumes.

use vstd::prelude::*;

verus! {

/// `std::sync::mpsc::Sender`, the sending half of a channel. Nothing inside it
/// is visible to the proofs: a value of it is only carried and handed on.
#[verifier::external_type_specification]
#[verifier::external_body]
#[verifier::reject_recursive_types(T)]
pub struct ExSender<T>(std::sync::mpsc::Sender<T>);

/// One connection's outbound path: the identifier it got when it was accepted,
/// and the sending half of its private channel.
///
/// Two handles stand for the same connection exactly when their identifiers
/// are equal; the channel takes no part in the comparison.
pub struct Writer {
    sender: std::sync::mpsc::Sender<String>,
    id: usize,
}

/// A command for the router.
pub enum Action {
    /// Queue the line for every registered connection but the one given.
    ToWriters(String, Writer),
    /// Add the connection to the registry.
    AddWriter(Writer),
    /// Remove the connection from the registry.
    RmWriter(Writer),
}

impl Writer {
    /// The identifier of the connection.
    pub closed spec fn spec_id(&self) -> usize {
        self.id
    }

    /// The sending half of the connection's channel.
    pub closed spec fn spec_sender(&self) -> std::sync::mpsc::Sender<String> {
        self.sender
    }

    /// A handle for connection `id` that sends on `sender`.
    pub fn new(id: usize, sender: std::sync::mpsc::Sender<String>) -> (w: Writer)
        ensures
            w.spec_id() == id,
            w.spec_sender() == sender,
    {
        Writer { sender, id }
    }

    /// The identifier of the connection.
    #[verifier::when_used_as_spec(spec_id)]
    pub fn id(&self) -> (id: usize)
        ensures
            id == self.spec_id(),
    {
        self.id
    }

    /// A second handle for the same connection, sending on the same channel.
    pub fn duplicate(&self) -> (w: Writer)
        ensures
            w.spec_id() == self.spec_id(),
    {
        Writer { sender: clone_sender(&self.sender), id: self.id }
    }

    /// Tries to queue `line` on the connection's channel and tells whether the
    /// channel took it.
    pub(crate) fn queue(&self, line: String) -> (queued: bool) {
        send_line(&self.sender, line)
    }
}

/// `Sender::send` on a channel of lines. The result is `true` when the channel
/// took the line and `false` when its receiving half is gone; which of the two
/// happens depends on the receiver, so nothing is claimed of it.
#[verifier::external_body]
fn send_line(sender: &std::sync::mpsc::Sender<String>, line: String) -> (queued: bool) {
    sender.send(line).is_ok()
}

/// `Sender::clone`: another sending half of the same channel. Nothing is
/// claimed of the result.
#[verifier::external_body]
fn clone_sender(sender: &std::sync::mpsc::Sender<String>) -> (other: std::sync::mpsc::Sender<
    String,
>) {
    sender.clone()
}

impl PartialEq for Writer {
    fn eq(&self, rhs: &Self) -> (r: bool) {
        self.id == rhs.id
    }
}

impl vstd::std_specs::cmp::PartialEqSpecImpl for Writer {
    open spec fn obeys_eq_spec() -> bool {
        true
    }

    open spec fn eq_spec(&self, rhs: &Self) -> bool {
        self.spec_id() == rhs.spec_id()
    }
}

} // verus!
