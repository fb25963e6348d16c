//! Skill storage and update planning.
pub mod text;
pub mod metadata;
pub mod order;
pub mod storage;
pub mod update;
pub mod report;
pub mod summary;
