//! The child display window's decision state: a read-only mirror of the
//! puzzle picture. All it tracks is which texture it currently shows; the
//! texture contents themselves are a rendering resource of the shell.

use vstd::prelude::*;

verus! {

/// The child window's state: the handle of the texture it mirrors.
#[derive(Clone, Copy, PartialEq, Eq, Structural, Debug)]
pub struct DisplayWindow {
    pub texture: u64,
}

impl DisplayWindow {
    pub fn new(texture: u64) -> (r: Self)
        ensures
            r.texture == texture,
    {
        DisplayWindow { texture }
    }

    /// A new picture is ready: mirror it from now on.
    pub fn update_texture(&mut self, tex: u64)
        ensures
            *final(self) == (DisplayWindow { texture: tex }),
    {
        self.texture = tex;
    }
}

} // verus!
