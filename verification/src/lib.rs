//! A selector for tmux sessions on a remote host.
//!
//! The sessions of the host, those that run and those that the configuration
//! remembers, are shown in a list, grouped by project and ordered by their last
//! use. The user searches the list, attaches to a session, starts a new one, and
//! renames, moves and deletes sessions, one or many at a time.
//!
//! The library decides and computes; what talks to the terminal, the host and
//! the file system stands in the program around it. Each type has a view, a
//! mathematical model of what it says, and each function states over the views
//! what it returns or changes. Laws, stated as public proof functions, say what
//! holds of several functions together.
//!
//! - The state: [`app`] with its rows and actions, [`order`] and [`groups`] of
//!   what is displayed, [`browse`] and [`search`] for moving through it,
//!   [`select`] and [`prompt`] for picking and asking, [`moving`] between
//!   projects, and [`names`] for lists and sets of names.
//! - What the user does: [`events`] decides what a key or a click does, and
//!   [`tasks`] carries out what was decided.
//! - What is drawn: [`ui`] puts a frame together from [`table`], [`bar`] and
//!   [`popup`], in the terms of [`paint`]; [`mouse`] traces clicks back.
//! - The host: [`remote`] builds commands, with [`quote`] and [`ssh`], and
//!   [`probe`] reads the answers, with [`lines`], [`numbers`], [`stamp`] and
//!   [`calendar`].
//! - The files: [`config`] and [`archive`], over [`json`].
//! - [`options`] reads the command line, and [`text`] holds what the others
//!   share.
pub mod app;
pub mod archive;
pub mod bar;
pub mod browse;
pub mod calendar;
pub mod config;
pub mod events;
pub mod groups;
pub mod json;
pub mod lines;
pub mod mouse;
pub mod moving;
pub mod names;
pub mod numbers;
pub mod options;
pub mod order;
pub mod paint;
pub mod popup;
pub mod probe;
pub mod prompt;
pub mod quote;
pub mod remote;
pub mod search;
pub mod select;
pub mod ssh;
pub mod stamp;
pub mod table;
pub mod tasks;
pub mod text;
pub mod ui;
