//! Display logic of the terminal interface.

pub mod chat_list;
pub mod cards;
pub mod chat_pane;
pub mod layout;
