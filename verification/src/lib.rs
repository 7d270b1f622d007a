//! Verified core of a terminal Slack client: message formatting, Slack
//! payload interpretation, input editing and chat-list state.

pub mod text;
pub mod unicode;
pub mod emoji_table;
pub mod formatting;
pub mod style;
pub mod mrkdwn;
pub mod models;
pub mod widgets;
pub mod slack;
pub mod messages;
pub mod input;
pub mod events;
pub mod ui;
pub mod keys;
pub mod navigation;
pub mod compose;
pub mod opening;
pub mod refresh;
pub mod workspace;
pub mod notify;
