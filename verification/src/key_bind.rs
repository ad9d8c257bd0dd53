//! The key bindings a mode of the file manager matches key presses against.

use vstd::prelude::*;
use crate::shortcuts::Action;
use crate::shortcuts::Binding;
use crate::shortcuts::KeyBindAction;
use crate::shortcuts::Mode;
use crate::shortcuts::resolved_binds;

verus! {

/// The bindings of `mode`, from the layered map of the shortcuts configuration.
pub fn key_binds(mode: &Mode, resolved: Vec<(Binding, KeyBindAction)>) -> (r: Vec<(Binding, Action)>)
    ensures
        r@ == resolved_binds(resolved@, *mode),
{
    crate::shortcuts::key_binds(mode, resolved)
}

} // verus!
