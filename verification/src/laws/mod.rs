//! What the operations of the gateway are for, stated of the operations themselves: each law
//! speaks of the arguments of a function and of what it returns.

pub mod callers;
pub mod declarations;
pub mod guests;
pub mod messages;
pub mod numbers;
pub mod operators;
pub mod overrides;
pub mod parameters;
pub mod policies;
pub mod providers;
pub mod routing;
pub mod services;
pub mod sessions;
pub mod text;
pub mod websockets;
