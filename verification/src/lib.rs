#![allow(non_snake_case)]
#![allow(non_camel_case_types)]

pub mod world;
pub mod util;
pub mod renderer;
pub mod ecs;
pub mod registry;
pub mod event;
pub mod scene;

