//! A process memory scanner and editor, as a verified library: parsing `/proc/<pid>/maps`,
//! scanning raw memory for values and narrowing the match set as they change, storing matches
//! compactly, reading values back and encoding values to write, and the terminal front end's
//! state machine, key bindings, settings and theme.
//!
//! Everything that touches the operating system (attaching with `ptrace`, reading and writing
//! `/proc/<pid>/mem`, files, the terminal) and every floating-point computation happens in the
//! program around this library, which hands plain values in and takes plain values back.

use vstd::prelude::*;

pub mod error;
pub mod interrupt;
pub mod text;
pub mod value;
pub mod swath;
pub mod sets;
pub mod maps;
pub mod scanroutines;
pub mod session;
pub mod focus;
pub mod settings;
pub mod cli;
pub mod scanform;
pub mod appstate;
pub mod changes;
pub mod jobs;
pub mod matchlist;
pub mod proclist;
pub mod transitions;
pub mod keymap;
pub mod input;
pub mod theme;
pub mod hexview;

verus! {

/// Returns a greeting for the given name: `"Hello, "`, the name, then `"!"`.
pub fn greet(name: &str) -> (res: String)
    ensures
        res@ == "Hello, "@ + name@ + "!"@,
{
    let mut res = String::from_str("Hello, ");
    res.append(name);
    res.append("!");
    res
}

/// Returns a second greeting for the given name: `"Hello again, "`, the name, then `"!"`.
pub fn extra_greet(name: &str) -> (res: String)
    ensures
        res@ == "Hello again, "@ + name@ + "!"@,
{
    let mut res = String::from_str("Hello again, ");
    res.append(name);
    res.append("!");
    res
}

} // verus!
