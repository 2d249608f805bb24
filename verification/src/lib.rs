pub mod accounts;
pub mod appraiser;
pub mod board;
pub mod command;
pub mod dice_rolling;
pub mod events;
pub mod game;
pub mod investment;
pub mod liquidation;
pub mod logs;
pub mod places;
pub mod player;
pub mod rules;
pub mod serialization;
pub mod strategy;
pub mod sums;
