//! Timed group-wagering rounds: the round session, its odds, the ledger it
//! debits and credits, settlement, and the supervisor that drives a round
//! from open to resolved; and a short memory of edited and deleted messages.

pub mod parse;
pub mod wager;
pub mod odds;
pub mod ledger;
pub mod outcome;
pub mod settlement;
pub mod round;
pub mod laws;
pub mod supervisor;
pub mod coordinator;
mod clock;
pub mod snipe;
