//! Datapoint editing for a goal-tracking service: a tab-separated table
//! codec for a goal's recent datapoints, and the reconciliation that turns an
//! edited table into the create, update and delete requests that reproduce
//! the edit.

mod clock;
mod datapoint;
mod goals;
mod number;
mod reconcile;
mod round_trip;
mod table;

pub use clock::TIMESTAMP_LAYOUT;
pub use datapoint::{Datapoint, DatapointView, EditableDatapoint, EditableView};
pub use goals::{
    day_number, format_goal, has_entry_on, has_entry_today, lists_before, local_day,
    safebuf_color, GoalColor, GoalLine, GoalSummary,
};
pub use number::{numbers_equal, same_number, Number, NumberView};
pub use reconcile::{
    lemma_schedule_sends_deletions_last, reconcile, schedule, Operation, OperationView,
    Reconciliation,
};
pub use round_trip::{keeps, lemma_round_trip};
pub use table::{
    encode_table, lemma_missing_value_rejects_table, read_datapoints_tsv, scan_table,
    scan_table_local, write_datapoints_tsv, RowError, TableError, TableRow, TableRowView,
};
