pub mod connections;
pub mod protocol;
pub mod responder;
pub mod sender;
pub mod xsk;
pub mod strategy;
pub mod shared;
pub mod completer;
pub mod printer;
pub mod receiver;
pub mod scanner;
pub mod session;
