//! Messages to the editor, queued in order until they are written out.

use vstd::prelude::*;
use crate::diagnostic::Diagnostic;
use crate::progress::ProgressParams;

verus! {

/// How important a log message is.
#[derive(Clone, Copy, Debug, PartialEq, Eq, Structural)]
pub enum MessageType {
    Error,
    Warning,
    Info,
    Log,
}

/// A notification for the editor.
#[derive(Debug)]
pub enum OutgoingMessage {
    /// A message for the editor's log.
    LogMessage { message_type: MessageType, message: String },
    /// A progress notice.
    Progress(ProgressParams),
    /// A document's diagnostics, replacing those sent before.
    PublishDiagnostics { uri: String, diagnostics: Vec<Diagnostic>, version: Option<i32> },
}

/// The editor's side of the connection: what is to be sent to it, in order.
pub struct Client {
    outbox: Vec<OutgoingMessage>,
}

impl Client {
    /// The messages queued and not yet taken, oldest first.
    pub closed spec fn queued(&self) -> Seq<OutgoingMessage> {
        self.outbox@
    }

    pub fn new() -> (r: Self)
        ensures
            r.queued().len() == 0,
    {
        Client { outbox: Vec::new() }
    }

    /// Queues a message for the editor's log.
    pub fn log_message(&mut self, message_type: MessageType, message: String)
        ensures
            final(self).queued() == old(self).queued().push(
                OutgoingMessage::LogMessage { message_type, message },
            ),
    {
        self.outbox.push(OutgoingMessage::LogMessage { message_type, message });
    }

    /// Queues a progress notice.
    pub fn send_notification(&mut self, notification: ProgressParams)
        ensures
            final(self).queued() == old(self).queued().push(OutgoingMessage::Progress(notification)),
    {
        self.outbox.push(OutgoingMessage::Progress(notification));
    }

    /// Queues a document's diagnostics.
    pub fn publish_diagnostics(&mut self, uri: String, diagnostics: Vec<Diagnostic>, version: Option<i32>)
        ensures
            final(self).queued() == old(self).queued().push(
                OutgoingMessage::PublishDiagnostics { uri, diagnostics, version },
            ),
    {
        self.outbox.push(OutgoingMessage::PublishDiagnostics { uri, diagnostics, version });
    }

    /// Takes the queued messages, oldest first, leaving none.
    pub fn take_messages(&mut self) -> (r: Vec<OutgoingMessage>)
        ensures
            r@ == old(self).queued(),
            final(self).queued().len() == 0,
    {
        let mut out: Vec<OutgoingMessage> = Vec::new();
        std::mem::swap(&mut out, &mut self.outbox);
        out
    }
}

} // verus!
