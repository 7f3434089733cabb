//! Core logic of a terminal Gantt-chart planner: projects made of tasks with
//! dependencies and sub-tasks, a personal todo list, undo/redo history and the
//! key-driven editing state machine.

pub mod date;
pub mod text;
pub mod model;
pub mod lookup;
pub mod hierarchy;
pub mod schedule;
pub mod renumber;
pub mod app;
pub mod history;
pub mod projects;
pub mod outline;
pub mod labels;
pub mod task_ops;
pub mod todo;
pub mod nav;
pub mod edit;
pub mod session;
pub mod keys;
pub mod layout;
pub mod archive;
pub mod subtasks;
pub mod chart;
pub mod schedule_laws;
pub mod key_laws;
pub mod outline_laws;
