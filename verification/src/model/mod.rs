pub mod text;
pub mod time;
pub mod task;
pub mod slot;
pub mod plan;
