use vstd::prelude::*;

verus! {

/// Handle on the program's event loop; the loop itself runs outside the
/// library.
pub struct MainLoop {}

impl MainLoop {
    pub fn new() -> (r: MainLoop)
        ensures
            r == (MainLoop {}),
    {
        MainLoop {}
    }
}

} // verus!
