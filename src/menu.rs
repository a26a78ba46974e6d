//! Scene kinds and the start menu scene.
use vstd::prelude::*;

verus! {

/// The kinds of scene the application can show.
#[derive(Debug, Clone, Copy, PartialEq, Eq, Structural)]
pub enum SceneType {
    Menu,
    Game,
}

/// The start menu. It has no content yet and hands over to the game at once.
#[derive(Debug, Clone, Copy, PartialEq, Eq, Structural)]
pub struct MenuScene;

impl MenuScene {
    pub fn new() -> (r: Self)
        ensures
            r == MenuScene,
    {
        MenuScene
    }

    /// The scene to switch to when the menu starts: the game.
    pub fn next_scene(&self) -> (r: SceneType)
        ensures
            r == SceneType::Game,
    {
        SceneType::Game
    }
}

} // verus!
