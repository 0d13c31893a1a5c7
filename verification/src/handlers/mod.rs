//! What the pages show and how their actions are answered.
pub mod system;
