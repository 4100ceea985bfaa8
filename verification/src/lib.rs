//! The model of a TodoMVC application: the todo store, the templates that
//! render it, the controller that reacts to user actions and the scheduler
//! that passes messages between the controller and the view.

pub mod controller;
pub mod json;
pub mod scheduler;
pub mod store;
pub mod template;
pub mod text;
pub mod view;

use vstd::prelude::*;

use crate::controller::ControllerMessage;
use crate::view::{ViewMessage, ViewRequest};

verus! {

/// A message for the controller or for the view.
pub enum Message {
    Controller(ControllerMessage),
    View(ViewMessage),
}

/// A message for the controller or for the view, as plain values.
pub enum MessageData {
    Controller(ControllerMessage),
    View(ViewRequest),
}

impl View for Message {
    type V = MessageData;

    open spec fn view(&self) -> MessageData {
        match self {
            Message::Controller(m) => MessageData::Controller(*m),
            Message::View(m) => MessageData::View(m@),
        }
    }
}

} // verus!
