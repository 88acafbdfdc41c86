//! Text processing, reply selection and moderation logic of the AutoVirt Discord bot.
use vstd::prelude::*;

pub mod board;
pub mod commands;
pub mod db;
pub mod mommy;
pub mod rng;
pub mod rules;
pub mod text;
pub mod uwu;

verus! {
} // verus!
