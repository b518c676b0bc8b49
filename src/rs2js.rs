use vstd::prelude::*;

use crate::errors::MakerError;

verus! {

/// An event sent to the user interface.
#[derive(Debug, Clone)]
pub enum SenderType {
    RunningBotsUpdate(RunningBotsUpdate),
    Error(Error),
}

impl SenderType {
    /// The name of the channel the event goes out on.
    pub fn get_sender_id(&self) -> (r: &'static str)
        ensures
            r@ == match self {
                SenderType::RunningBotsUpdate(_) => "running_bots_update"@,
                SenderType::Error(_) => "error"@,
            },
    {
        proof {
            reveal_strlit("running_bots_update");
            reveal_strlit("error");
        }
        match self {
            SenderType::RunningBotsUpdate(_) => "running_bots_update",
            SenderType::Error(_) => "error",
        }
    }
}

/// The identifiers of the bots now running.
#[derive(Debug, Clone)]
pub struct RunningBotsUpdate {
    pub list: Vec<u8>,
}

/// An error to show to the user.
#[derive(Debug, Clone)]
pub struct Error {
    pub error: MakerError,
}

} // verus!
