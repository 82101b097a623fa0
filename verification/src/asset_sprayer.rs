//! What is taken from the answer of the model that generates assets.

use vstd::prelude::*;

verus! {

#[derive(Clone, Copy, Debug, PartialEq, Eq, Structural)]
pub enum AssetSprayerError {
    /// The first choice holds no text.
    EmptyChoice,
    Io,
    MissingEndFetch,
    /// The answer holds no choice.
    NoChoices,
    OpenAI,
    Reqwest,
    SerdeYaml,
    Unreachable,
}

/// The text of the first of the choices that the model gave; each choice is
/// its text, or nothing where it has none.
pub fn first_choice(choices: Vec<Option<String>>) -> (r: Result<String, AssetSprayerError>)
    ensures
        r == if choices@.len() == 0 {
            Err::<String, AssetSprayerError>(AssetSprayerError::NoChoices)
        } else {
            match choices@[0] {
                Some(text) => Ok(text),
                None => Err(AssetSprayerError::EmptyChoice),
            }
        },
{
    let mut choices = choices;
    if choices.len() == 0 {
        return Err(AssetSprayerError::NoChoices);
    }
    match choices.swap_remove(0) {
        Some(text) => Ok(text),
        None => Err(AssetSprayerError::EmptyChoice),
    }
}

} // verus!
