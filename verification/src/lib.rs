//! Turns a tree of Java sources into PlantUML class diagrams, one per
//! top-level package.

pub mod text;
pub mod spacing;
pub mod names;
pub mod table;
pub mod deps;
pub mod declarations;
pub mod diagram;
