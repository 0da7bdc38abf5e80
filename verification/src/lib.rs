//! The decisions of an event-driven reactor on non-blocking sockets, verified.
//!
//! A runtime polls sockets, each with a reactor that receives its messages and commands. This library
//! holds what is to be decided on the way; sockets, clocks and threads are left to the caller, who
//! performs what the library asks for and hands the outcome back.

mod bytes;
pub mod command;
pub mod deferred;
pub mod event_pass;
pub mod flat_storage;
pub mod listener;
pub mod msg_reader;
pub mod msg_sender;
pub mod poller;
pub mod reactor;
pub mod reactor_id;
pub mod read_history;
pub mod runtime;
pub mod sample;
pub mod send_history;
pub mod sock_table;
pub mod socket_io;
pub mod storage_history;
pub mod tcp_events;
pub mod text;
pub mod threaded_reactors;
pub mod threaded_sample;
pub mod utils;
