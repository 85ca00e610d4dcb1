//! What the player is started with.

use vstd::prelude::*;

use crate::text::{contains_text, same_text, texts};

verus! {

/// The argument that asks for the demonstration.
pub const SAMPLE_ARGUMENT: &'static str = "--sample";

/// The file of the settings, by default.
pub const DEFAULT_CONFIG: &'static str = "config.toml";

/// The file of the settings, where `first` is the first argument.
pub fn config_file(first: Option<String>) -> (r: String)
    ensures
        r@ == (match first {
            Some(argument) => if argument@ == SAMPLE_ARGUMENT@ {
                DEFAULT_CONFIG@
            } else {
                argument@
            },
            None => DEFAULT_CONFIG@,
        }),
        first is None ==> r@ == "config.toml"@,
        first matches Some(argument) ==> r@ == if argument@ == "--sample"@ {
            "config.toml"@
        } else {
            argument@
        },
{
    match first {
        Some(argument) => if same_text(argument.as_str(), SAMPLE_ARGUMENT) {
            DEFAULT_CONFIG.to_owned()
        } else {
            argument
        },
        None => DEFAULT_CONFIG.to_owned(),
    }
}

/// Whether the demonstration is asked for.
pub fn sample_mode(arguments: &Vec<String>) -> (r: bool)
    ensures
        r == texts(arguments@).contains(SAMPLE_ARGUMENT@),
        r == exists|i: int| 0 <= i < arguments@.len() && (#[trigger] arguments@[i])@ == "--sample"@,
{
    let ghost views = texts(arguments@);
    proof {
        if views.contains("--sample"@) {
            let i = choose|i: int| 0 <= i < views.len() && views[i] == "--sample"@;
            assert(arguments@[i]@ == "--sample"@);
        }
        if exists|i: int| 0 <= i < arguments@.len() && (#[trigger] arguments@[i])@ == "--sample"@ {
            let i = choose|i: int|
                0 <= i < arguments@.len() && (#[trigger] arguments@[i])@ == "--sample"@;
            assert(views[i] == "--sample"@);
        }
    }
    contains_text(arguments, SAMPLE_ARGUMENT)
}

} // verus!
