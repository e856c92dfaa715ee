//! A verified task tracker core: an ordered registry of named tasks with
//! first-match lookup, in-place edit, removal, and whole-collection
//! persistence as a JSON document, proved to round-trip.

mod codec;
mod registry;
mod task;

pub use codec::{lemma_save_load_round_trip, parse_doc, parse_tasks, render_doc, render_tasks};
pub use registry::{command_from_str, find_index, lemma_find_index_first, lemma_remove_keeps_order,
    Command, TasksManager};
pub use task::{priority_from_str, Priority, Task, TaskView, Timestamp};
