//! A verified recurring-task dispatcher: a registration table of named jobs
//! with fixed repeat intervals, drained into a min-priority queue of pending
//! occurrences that the hosting process pops, fires, and reinserts forever.

pub mod scheduler;
