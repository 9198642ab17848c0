//! A data acquisition core for GET-based TPC readout.
//!
//! - Data: [`framer`] cuts the byte stream of a CoBo into frames, [`decode`] reads a frame,
//!   [`decoder`] turns batches of frames into batches of fragments ([`msg`]), and [`graw_writer`]
//!   splits the raw frames over files. [`geometry`] maps channels to strips.
//! - Control: [`command`] is what each component does about a command, [`sequencer`] starts and
//!   stops runs, [`controller`] and [`requests`] decide what an operator may ask for, and
//!   [`logbook`] says what is recorded of it. [`config`] fills in and checks the configuration,
//!   and [`cli`] reads arguments.
//! - Tests with real data: [`replay`] sends recorded files, and [`soak`], [`harness`],
//!   [`samples`], [`report`] and [`websocket`] make up the endurance test.
//! - [`bytes`], [`text`] and [`tally`] serve all of these.
//! - Laws that span several of these stand apart: [`layout`] on frames and their bytes, [`sheet`] on
//!   geometry files, [`ledger`] on the counters of a decoder, [`archive`] on those of a writer and on
//!   its files, [`talks`] on what is said while a run starts and stops, [`desk`] on what a controller
//!   makes of it, [`conduct`] on commands, [`settings`] on configurations, [`trial`] on the endurance
//!   test, [`papers`] on what is written down, and [`deeds`] on what single functions return.

pub mod bytes;
pub mod text;
pub mod tally;
pub mod framer;
pub mod decode;
pub mod msg;
pub mod command;
pub mod config;
pub mod cli;
pub mod decoder;
pub mod graw_writer;
pub mod geometry;
pub mod controller;
pub mod sequencer;
pub mod logbook;
pub mod requests;
pub mod replay;
pub mod websocket;
pub mod soak;
pub mod samples;
pub mod harness;
pub mod report;
pub mod layout;
pub mod sheet;
pub mod ledger;
pub mod archive;
pub mod talks;
pub mod desk;
pub mod conduct;
pub mod settings;
pub mod trial;
pub mod papers;
pub mod deeds;
