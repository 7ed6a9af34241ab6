//! A room server for elimination rounds of rock-paper-scissors: the room
//! registry, each room's game state machine, the round resolver and the
//! messages that each operation hands out for delivery.

pub mod choice;
pub mod command;
pub mod resolver;
pub mod room;
pub mod shutdown;
pub mod responses;
pub mod registry;
