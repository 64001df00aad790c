//! The logic of a TV-show player: which episode of which show comes next, what
//! watching one changes, and how the player, its window and its control server
//! follow from that.

pub mod answering;
pub mod apiclient;
pub mod browsing;
pub mod catalog;
mod clock;
pub mod control;
pub mod counting;
pub mod edits;
pub mod engine;
pub mod filesync;
pub mod framing;
pub mod json;
pub mod laws;
pub mod library;
pub mod model;
pub mod oauth;
pub mod ordering;
pub mod origin;
pub mod outcomes;
pub mod paths;
pub mod playback_laws;
pub mod playing;
pub mod player;
pub mod queue;
pub mod read_back;
pub mod reading;
pub mod records;
pub mod replica;
pub mod revisions;
pub mod roundlogic;
pub mod rounds;
pub mod routes;
pub mod routing;
pub mod runloop;
pub mod runner;
pub mod scan;
pub mod scanning;
pub mod shell;
pub mod sorting;
pub mod spelling;
pub mod stats;
pub mod status;
pub mod stream;
pub mod sync;
pub mod tables;
pub mod telling;
pub mod text;
pub mod turns;
pub mod update;
pub mod watching;
pub mod web;
