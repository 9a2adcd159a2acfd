use vstd::prelude::*;

use crate::number::{Number, NumberView};

verus! {

/// A datapoint as the service holds it.
#[derive(Debug)]
pub struct Datapoint {
    /// Assigned by the service; unique among a goal's datapoints.
    pub id: String,
    /// Seconds since the Unix epoch.
    pub timestamp: i64,
    pub value: Number,
    pub comment: Option<String>,
}

/// A row of an edited table. A row without an id is a new datapoint; the
/// other fields are present on every row that a decoded table yields.
#[derive(Debug)]
pub struct EditableDatapoint {
    pub id: Option<String>,
    /// Seconds since the Unix epoch.
    pub timestamp: Option<i64>,
    pub value: Option<Number>,
    pub comment: Option<String>,
}

/// What a `Datapoint` holds, for contracts.
pub struct DatapointView {
    pub id: Seq<char>,
    pub timestamp: i64,
    pub value: NumberView,
    pub comment: Option<Seq<char>>,
}

/// What an `EditableDatapoint` holds, for contracts.
pub struct EditableView {
    pub id: Option<Seq<char>>,
    pub timestamp: Option<i64>,
    pub value: Option<NumberView>,
    pub comment: Option<Seq<char>>,
}

pub open spec fn text_view(s: Option<String>) -> Option<Seq<char>> {
    match s {
        Some(t) => Some(t@),
        None => None,
    }
}

pub open spec fn number_view(n: Option<Number>) -> Option<NumberView> {
    match n {
        Some(v) => Some(v@),
        None => None,
    }
}

impl View for Datapoint {
    type V = DatapointView;

    open spec fn view(&self) -> DatapointView {
        DatapointView {
            id: self.id@,
            timestamp: self.timestamp,
            value: self.value@,
            comment: text_view(self.comment),
        }
    }
}

impl View for EditableDatapoint {
    type V = EditableView;

    open spec fn view(&self) -> EditableView {
        EditableView {
            id: text_view(self.id),
            timestamp: self.timestamp,
            value: number_view(self.value),
            comment: text_view(self.comment),
        }
    }
}

pub open spec fn datapoints_view(s: Seq<Datapoint>) -> Seq<DatapointView> {
    s.map_values(|d: Datapoint| d@)
}

pub open spec fn editables_view(s: Seq<EditableDatapoint>) -> Seq<EditableView> {
    s.map_values(|d: EditableDatapoint| d@)
}

pub open spec fn strings_view(s: Seq<String>) -> Seq<Seq<char>> {
    s.map_values(|t: String| t@)
}

pub fn clone_text(s: &Option<String>) -> (r: Option<String>)
    ensures
        r == *s,
{
    match s {
        Some(t) => Some(t.clone()),
        None => None,
    }
}

pub fn clone_number(n: &Option<Number>) -> (r: Option<Number>)
    ensures
        r == *n,
{
    match n {
        Some(v) => Some(v.clone()),
        None => None,
    }
}

impl Clone for Datapoint {
    fn clone(&self) -> (r: Self)
        ensures
            r == *self,
    {
        Datapoint {
            id: self.id.clone(),
            timestamp: self.timestamp,
            value: self.value.clone(),
            comment: clone_text(&self.comment),
        }
    }
}

impl Clone for EditableDatapoint {
    fn clone(&self) -> (r: Self)
        ensures
            r == *self,
    {
        EditableDatapoint {
            id: clone_text(&self.id),
            timestamp: self.timestamp,
            value: clone_number(&self.value),
            comment: clone_text(&self.comment),
        }
    }
}

impl<'a> From<&'a Datapoint> for EditableDatapoint {
    /// The row that leaves `dp` as it is.
    fn from(dp: &'a Datapoint) -> (r: EditableDatapoint) {
        EditableDatapoint {
            id: Some(dp.id.clone()),
            timestamp: Some(dp.timestamp),
            value: Some(dp.value.clone()),
            comment: clone_text(&dp.comment),
        }
    }
}

impl<'a> vstd::std_specs::convert::FromSpecImpl<&'a Datapoint> for EditableDatapoint {
    open spec fn obeys_from_spec() -> bool {
        true
    }

    open spec fn from_spec(dp: &'a Datapoint) -> EditableDatapoint {
        EditableDatapoint {
            id: Some(dp.id),
            timestamp: Some(dp.timestamp),
            value: Some(dp.value),
            comment: dp.comment,
        }
    }
}

} // verus!
