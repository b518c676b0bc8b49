use vstd::prelude::*;

verus! {

/// The application's settings.
#[derive(Debug, Clone)]
pub struct Settings {
    pub current_bot: Option<u8>,
}

/// A bot as stored.
#[derive(Debug, Clone)]
pub struct Bot {
    pub id: u8,
    pub name: String,
    pub token: String,
    pub description: String,
}

/// A command of a bot, with the code piece it runs.
#[derive(Debug, Clone)]
pub struct Command {
    pub id: u8,
    pub name: String,
    pub bot_id: u8,
    pub code_id: u8,
}

/// The source text of a script.
#[derive(Debug, Clone)]
pub struct CodePiece {
    pub id: u8,
    pub code: String,
}

} // verus!
