pub mod animation;
pub mod coroutines;
pub mod scene;
pub mod state_machine;
