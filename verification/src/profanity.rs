//! Optional profanity replacement, backed by the `censor` crate's word
//! lists. With no extra words loaded it censors only the built-in lists;
//! the message pipeline does not call it unless the embedding program
//! wires it in.

use vstd::prelude::*;

verus! {

#[verifier::external_type_specification]
#[verifier::external_body]
pub struct ExCensor(censor::Censor);

/// A profanity filter holding a censor word collection.
pub struct ProfFilter {
    censor: censor::Censor,
}

impl ProfFilter {
    pub fn new() -> ProfFilter {
        ProfFilter { censor: standard_censor() }
    }

    /// Adds one word to the censored collection.
    pub fn add_word(&mut self, word: &str) {
        censor_add(&mut self.censor, word);
    }

    /// Replaces censored words in `string` with `#` characters.
    pub fn filter(&self, string: &str) -> String {
        censor_replace(&self.censor, string)
    }
}

/// Relies on `censor::Censor`'s `Add`: the union of the standard, sex, and
/// zealous word lists.
#[verifier::external_body]
fn standard_censor() -> censor::Censor {
    censor::Censor::Sex + censor::Censor::Zealous + censor::Censor::Standard
}

/// Relies on `censor::Censor`'s `AddAssign<&str>`: adds one word to the
/// collection.
#[verifier::external_body]
fn censor_add(c: &mut censor::Censor, word: &str) {
    *c += word;
}

/// Relies on `censor::Censor::replace`: rewrites censored words using the
/// (non-empty) grawlix `"#"`, so the call does not panic.
#[verifier::external_body]
fn censor_replace(c: &censor::Censor, string: &str) -> String {
    c.replace(string, "#")
}

} // verus!
