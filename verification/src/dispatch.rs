//! What is handed out when a message is executed, and how the outcome of
//! the call is reported.
//!
//! Executing a message is one call of the target action; the call itself is
//! made by whoever runs the relay. The relay hands out the call to make,
//! and is told whether it succeeded.

use vstd::prelude::*;
use crate::error::Error;
use crate::message::context_of;
use crate::message::get_context;
use crate::message::Context;
use crate::message::ContextView;
use crate::message::Message;
use crate::message::MessageView;

verus! {

/// The call that executes a message: the action of the target contract,
/// with the message's payload and, as a further argument after it, the
/// context of the execution.
#[derive(Debug)]
pub struct Invocation {
    pub contract: String,
    pub action: String,
    pub data: String,
    pub context: Context,
}

/// The mathematical value of an `Invocation`.
pub struct InvocationView {
    pub contract: Seq<char>,
    pub action: Seq<char>,
    pub data: Seq<char>,
    pub context: ContextView,
}

impl View for Invocation {
    type V = InvocationView;

    open spec fn view(&self) -> InvocationView {
        InvocationView {
            contract: self.contract@,
            action: self.action@,
            data: self.data@,
            context: self.context@,
        }
    }
}

/// The call that executes `message`, received in slot `id`.
pub open spec fn invocation_of(id: u64, message: MessageView) -> InvocationView {
    InvocationView {
        contract: message.content.contract,
        action: message.content.action,
        data: message.content.data,
        context: context_of(id, message),
    }
}

/// Builds the call that executes `message`, received in slot `id`.
pub fn invocation(id: u64, message: Message) -> (call: Invocation)
    ensures
        call@ == invocation_of(id, message@),
{
    let contract = message.content.contract.clone();
    let action = message.content.action.clone();
    let data = message.content.data.clone();
    Invocation { contract, action, data, context: get_context(id, message) }
}

/// Reports the outcome of the call that executed a message: `Ok(true)`
/// where the call succeeded, `ExecuteMessageFailed` where it did not.
pub fn execution_result(succeeded: bool) -> (result: Result<bool, Error>)
    ensures
        result == (if succeeded {
            Ok::<bool, Error>(true)
        } else {
            Err::<bool, Error>(Error::ExecuteMessageFailed)
        }),
{
    if succeeded {
        Ok(true)
    } else {
        Err(Error::ExecuteMessageFailed)
    }
}

} // verus!
