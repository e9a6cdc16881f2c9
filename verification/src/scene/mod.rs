pub mod mainmenu;
pub mod sceneManager;
