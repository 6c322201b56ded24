//! A LAN-party soundboard engine: a tag-indexed audio catalogue, a randomized
//! playlist generator with usage throttling, a timestamp scheduler with a
//! grace window, and the playback state machine driving one media process.

pub mod autogrzybke;
pub mod benny;
pub mod clock;
pub mod player;
pub mod random;
pub mod request_form;
pub mod resource_catalogue;
pub mod schedule;
pub mod strutil;
pub mod volume_controler;
pub mod volume_controller;
