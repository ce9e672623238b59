//! What the couch bot decides, apart from how it talks to the world.
//!
//! The heart of the library answers messages with canned responses: a
//! message is cut into lower-case words, every rule of a response table is
//! matched against the words, and the responses of the rules that fire are
//! resolved into what is to be delivered. Around it stand the smaller
//! decisions of the bot: how the couch lies, whose birthday it is, what a
//! nickname template expands to and what the rankings say.
//!
//! Everything here is computation on plain values with a contract that is
//! proved of the code. Receiving messages, looking tables up and delivering
//! what was decided is left to the program that uses the library.

pub mod autonick;
pub mod birthday;
pub mod chance;
pub mod decimal;
pub mod dispatch;
pub mod orientation;
pub mod ranking;
pub mod reaction;
pub mod response;
pub mod table;
pub mod text;
pub mod tokenizer;
pub mod trigger;
pub mod user;
