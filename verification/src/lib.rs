//! An agent that works with a language model and tools, and the parts around
//! it.
//!
//! - [`driver`] is the turn: what an agent does next, whatever the model, the
//!   tools and the user bring. [`session`], [`history`] and [`message`] hold
//!   the conversation, [`agent`] and [`events`] what others see of it, and
//!   [`auto`] lets it go on by itself.
//! - [`tools`] are the tools: a shell, an editor, those by which the agent
//!   works on itself, and those of plugins. [`minimal`] puts the smallest set
//!   together, with the words that tell the agent who it is.
//! - [`bridge`] is a session with another program; [`rpc`], [`proto`],
//!   [`wire`] and [`services`] are what it is made of.
//! - [`llm`], [`face`] and [`runner`] bring language models to that program,
//!   and [`scripted`] is a model that follows a script.
//! - [`tui`] is the screen, [`plugin`] what an agent is put together from, and
//!   [`cli`] the command line.
//! - [`text`], [`order`] and [`json`] are what all of these are written with.
//!
//! None of it reads or writes anything outside: functions take what was read
//! and give what is to be done. What other crates compute comes through a few
//! functions whose contracts are not proved, but say what those crates promise;
//! they stand in `text`, `json`, `tui::scrollback` and `tui::selection`.

pub mod agent;
pub mod auto;
pub mod bridge;
pub mod cli;
pub mod driver;
pub mod events;
pub mod face;
pub mod history;
pub mod json;
pub mod llm;
pub mod message;
pub mod minimal;
pub mod order;
pub mod plugin;
pub mod proto;
pub mod rpc;
pub mod runner;
pub mod scripted;
pub mod services;
pub mod session;
pub mod text;
pub mod tools;
pub mod tui;
pub mod wire;
