//! Tracks boxing matchups advertised on a betting exchange, estimates each
//! side's chance from record scores, and flags matchups where the exchange's
//! implied chance falls well short of that estimate.

pub mod boxer;
pub mod boxrec;
pub mod feed;
pub mod matchup;
pub mod odds;
pub mod page;
pub mod score;
pub mod text;
pub mod tracker;
