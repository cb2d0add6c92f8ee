//! The forms the bot shows to ask for a command's details, as the text the
//! user typed into each field.
use vstd::prelude::*;

verus! {

/// The form of the `close` command.
pub struct CloseModal {
    /// The price paid to close, e.g. `0.10`.
    pub premium: String,
}

/// The form of the `roll` command.
pub struct RollModal {
    /// The new expiration date, `YYYY-MM-DD`.
    pub exp: String,
    /// The premium paid to close the current contract.
    pub premium_loss: String,
    /// The premium received for the new contract.
    pub premium_gain: String,
    /// The new strike; empty keeps the current one.
    pub strike: Option<String>,
}

/// The form of the `split` command.
pub struct SplitModal {
    /// How many contracts go to the new position.
    pub quantity: String,
}

} // verus!
