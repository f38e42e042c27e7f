pub mod model;
pub mod scheduler;
pub mod applock;
pub mod records;
pub mod queries;
pub mod rows;
