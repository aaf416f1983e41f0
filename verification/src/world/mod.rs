pub mod small_world;
