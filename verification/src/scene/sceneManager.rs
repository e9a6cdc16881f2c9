use vstd::prelude::*;

verus! {

/// Which scene is shown.
#[derive(Clone, Copy, Debug, PartialEq, Eq, Structural)]
pub enum SceneState {
    MainMenu,
    WorldScene,
}

} // verus!
