//! Moving `HEAD`.
use crate::bytes::copy_bytes;
use crate::object_id::ObjectId;
use vstd::prelude::*;
use vstd::utf8::encode_utf8;

verus! {

/// What a reference points to.
#[derive(Debug, PartialEq, Eq)]
pub enum Target {
    Object(ObjectId),
    /// Another reference, by its name.
    Symbolic(Vec<u8>),
}

/// What a reference has to point to before it is changed.
#[derive(Clone, Copy, Debug, PartialEq, Eq, Structural)]
pub enum PreviousValue {
    /// Whatever it is, or nothing.
    Any,
}

/// Where a change of a reference is logged.
#[derive(Clone, Copy, Debug, PartialEq, Eq, Structural)]
pub enum RefLog {
    /// The reference is changed, and the change is logged.
    AndReference,
}

/// How a change of a reference is logged.
#[derive(Debug, PartialEq, Eq)]
pub struct LogChange {
    pub mode: RefLog,
    pub force_create_reflog: bool,
    pub message: Vec<u8>,
}

/// A change of a reference.
#[derive(Debug, PartialEq, Eq)]
pub struct RefEdit {
    pub log: LogChange,
    pub expected: PreviousValue,
    pub new: Target,
    pub name: Vec<u8>,
    pub deref: bool,
}

/// What is said of a commit in the log of a reference, by the number of its parents.
pub open spec fn commit_type(num_parents: nat) -> Seq<char> {
    if num_parents == 0 {
        " (initial)"@
    } else if num_parents == 1 {
        ""@
    } else {
        " (merge)"@
    }
}

/// The title of a commit message on one line.
pub uninterp spec fn message_summary(message: Seq<u8>) -> Seq<u8>;

/// Whether a message is one line of printable ASCII characters without spaces around it.
pub open spec fn is_plain_title(message: Seq<u8>) -> bool {
    &&& message.len() > 0
    &&& forall|k: int| 0 <= k < message.len() ==> 0x20 <= #[trigger] message[k] < 0x7f
    &&& message.first() != 0x20
    &&& message.last() != 0x20
}

/// What stands before the title in the log of a reference.
pub open spec fn log_prefix(operation: Seq<char>, num_parents: nat) -> Seq<u8> {
    encode_utf8(operation) + encode_utf8(commit_type(num_parents)) + encode_utf8(": "@)
}

/// Calls `gix::reference::log::message`, which puts the operation, the kind of the commit and the
/// title of its message together. How the title is taken from a message is named; of that it is
/// stated that a plain title is taken as it is.
#[verifier::external_body]
fn reflog_message(operation: &str, message: &[u8], num_parents: usize) -> (r: Vec<u8>)
    ensures
        r@ == log_prefix(operation@, num_parents as nat) + message_summary(message@),
        is_plain_title(message@) ==> r@ == log_prefix(operation@, num_parents as nat) + message@,
{
    gix::reference::log::message(operation, gix::bstr::BStr::new(message), num_parents).into()
}

/// The change that points `HEAD` to `new_target`, with a log entry made of `operation`, `message`
/// and `num_parents`.
///
/// If `deref` is set and `HEAD` is symbolic, the reference that it points to is changed instead
/// of `HEAD` itself. The previous value does not matter.
pub fn update_head_reference(
    new_target: Target,
    deref: bool,
    operation: &str,
    message: &[u8],
    num_parents: usize,
) -> (r: RefEdit)
    ensures
        r.log.mode == RefLog::AndReference,
        !r.log.force_create_reflog,
        r.log.message@ == log_prefix(operation@, num_parents as nat) + message_summary(message@),
        is_plain_title(message@) ==> r.log.message@ == log_prefix(operation@, num_parents as nat)
            + message@,
        r.expected == PreviousValue::Any,
        r.new == new_target,
        r.name@ == encode_utf8("HEAD"@),
        r.deref == deref,
{
    RefEdit {
        log: LogChange {
            mode: RefLog::AndReference,
            force_create_reflog: false,
            message: reflog_message(operation, message, num_parents),
        },
        expected: PreviousValue::Any,
        new: new_target,
        name: copy_bytes("HEAD".as_bytes()),
        deref,
    }
}

} // verus!
