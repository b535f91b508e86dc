//! Verified text logic behind a graphical front end for the Howdy face
//! authentication service: reading and editing PAM stacks and the Howdy
//! configuration, reading the output of the `howdy` command, and the state
//! that the front end shows.
#![allow(unused_imports)]

pub mod text;
pub mod stdcalls;
pub mod pam;
pub mod config;
pub mod numbers;
pub mod howdy;
pub mod devices;
pub mod backend;
