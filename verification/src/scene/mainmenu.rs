use vstd::prelude::*;

verus! {

/// The main menu scene; it holds no state yet.
#[derive(Clone, Copy, Debug, PartialEq, Eq, Structural)]
pub struct MainMenu {}

impl MainMenu {
    /// A main menu, initialised.
    pub fn New() -> (r: Self)
        ensures
            r == (MainMenu {}),
    {
        let mut s = Self {};
        s.Init();
        s
    }

    fn Init(&mut self)
        ensures
            *final(self) == *old(self),
    {
    }

    /// Loads the menu from `_savePath`; the menu has nothing to load.
    pub fn Load(&mut self, _savePath: &str)
        ensures
            *final(self) == *old(self),
    {
    }

    /// Saves the menu; the menu has nothing to save.
    pub fn Save(&self) {
    }

    /// Releases the menu; the menu holds nothing to release.
    pub fn Destroy(&mut self)
        ensures
            *final(self) == *old(self),
    {
    }
}

} // verus!
