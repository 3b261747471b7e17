use vstd::prelude::*;
use crate::message::ChatResponseMessage;

verus! {

/// The delivery capability of one session: the registry can try to push one
/// event through it, and the attempt can fail. It holds an actix `Recipient`,
/// of which the verifier sees nothing.
#[verifier::external_body]
pub struct Client {
    pub recipient: actix::Recipient<ChatResponseMessage>,
}

/// Calls `Recipient::do_send` and reports whether it returned `Ok`. actix
/// queues the event even where the receiver's mailbox is full, and returns an
/// error where the mailbox is closed. Whether it is closed depends on the
/// receiving session, so nothing is claimed of the outcome.
#[verifier::external_body]
pub(crate) fn deliver(client: &Client, msg: ChatResponseMessage) -> (delivered: bool)
{
    client.recipient.do_send(msg).is_ok()
}

/// Calls `rand::random::<usize>`. Any value may come back.
#[verifier::external_body]
pub(crate) fn draw_id() -> (id: usize)
{
    rand::random::<usize>()
}

} // verus!
