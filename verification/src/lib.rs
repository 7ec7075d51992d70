//! tuican: a terminal CAN bench. This crate holds everything that decides:
//! identifiers, the DBC bit codec, the periodic-send table, reaction rules,
//! adapter wire formats, and the cursor and layout arithmetic of the UI.

pub mod app;
pub mod bus;
pub mod canid;
pub mod cli;
pub mod config;
pub mod dbc;
pub mod fmt;
pub mod order;
pub mod paths;
pub mod rules;
pub mod startup;
pub mod text;
pub mod transport;
pub mod ui;
