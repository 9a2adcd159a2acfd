use vstd::prelude::*;

use crate::datapoint::{
    clone_number, clone_text, datapoints_view, editables_view, strings_view, Datapoint,
    DatapointView, EditableDatapoint, EditableView,
};
use crate::number::{numbers_equal, same_number, zero_view, Number, NumberView};

verus! {

/// A request to the service.
#[allow(inconsistent_fields)]
#[derive(Debug)]
pub enum Operation {
    /// Replace the fields of an existing datapoint.
    Update {
        id: String,
        timestamp: Option<i64>,
        value: Option<Number>,
        comment: Option<String>,
    },
    /// Add a datapoint.
    Create { timestamp: Option<i64>, value: Number, comment: Option<String> },
    /// Remove a datapoint.
    Delete { id: String },
}

/// What an `Operation` holds, for contracts.
#[allow(inconsistent_fields)]
pub enum OperationView {
    Update {
        id: Seq<char>,
        timestamp: Option<i64>,
        value: Option<NumberView>,
        comment: Option<Seq<char>>,
    },
    Create { timestamp: Option<i64>, value: NumberView, comment: Option<Seq<char>> },
    Delete { id: Seq<char> },
}

impl View for Operation {
    type V = OperationView;

    open spec fn view(&self) -> OperationView {
        match self {
            Operation::Update { id, timestamp, value, comment } => OperationView::Update {
                id: id@,
                timestamp: *timestamp,
                value: crate::datapoint::number_view(*value),
                comment: crate::datapoint::text_view(*comment),
            },
            Operation::Create { timestamp, value, comment } => OperationView::Create {
                timestamp: *timestamp,
                value: value@,
                comment: crate::datapoint::text_view(*comment),
            },
            Operation::Delete { id } => OperationView::Delete { id: id@ },
        }
    }
}

pub open spec fn operations_view(s: Seq<Operation>) -> Seq<OperationView> {
    s.map_values(|o: Operation| o@)
}

/// The outcome of comparing an edited table with the datapoints it was
/// made from.
#[derive(Debug)]
pub struct Reconciliation {
    /// Requests that reproduce the edit: updates and creations in the order
    /// of the table's rows, then deletions in the order of the datapoints.
    pub operations: Vec<Operation>,
    /// Ids of rows that name no datapoint, in the order of the rows.
    pub orphans: Vec<String>,
}

/// The index of the last datapoint with this id.
pub open spec fn position_of(before: Seq<DatapointView>, id: Seq<char>) -> Option<int>
    decreases before.len(),
{
    if before.len() == 0 {
        None
    } else if before.last().id == id {
        Some(before.len() - 1)
    } else {
        position_of(before.drop_last(), id)
    }
}

/// A comment as text; no comment is the empty text.
pub open spec fn comment_text(c: Option<Seq<char>>) -> Seq<char> {
    match c {
        Some(s) => s,
        None => Seq::empty(),
    }
}

/// The row changes the datapoint: its value, timestamp or comment is not
/// the datapoint's.
pub open spec fn differs(orig: DatapointView, row: EditableView) -> bool {
    ||| match row.value {
        Some(v) => !numbers_equal(v.bits, orig.value.bits),
        None => true,
    }
    ||| row.timestamp != Some(orig.timestamp)
    ||| comment_text(row.comment) != comment_text(orig.comment)
}

/// What one row of the table asks for.
pub open spec fn row_operations(before: Seq<DatapointView>, row: EditableView) -> Seq<
    OperationView,
> {
    match row.id {
        None => seq![
            OperationView::Create {
                timestamp: row.timestamp,
                value: match row.value {
                    Some(v) => v,
                    None => zero_view(),
                },
                comment: row.comment,
            },
        ],
        Some(id) => match position_of(before, id) {
            Some(i) => if differs(before[i], row) {
                seq![
                    OperationView::Update {
                        id,
                        timestamp: row.timestamp,
                        value: row.value,
                        comment: row.comment,
                    },
                ]
            } else {
                Seq::empty()
            },
            None => Seq::empty(),
        },
    }
}

/// The updates and creations that the rows ask for, in the order of the rows.
pub open spec fn edit_operations(before: Seq<DatapointView>, after: Seq<EditableView>) -> Seq<
    OperationView,
>
    decreases after.len(),
{
    if after.len() == 0 {
        Seq::empty()
    } else {
        edit_operations(before, after.drop_last()) + row_operations(before, after.last())
    }
}

/// The ids of the rows that name no datapoint, in the order of the rows.
pub open spec fn orphan_ids(before: Seq<DatapointView>, after: Seq<EditableView>) -> Seq<
    Seq<char>,
>
    decreases after.len(),
{
    if after.len() == 0 {
        Seq::empty()
    } else {
        let rest = orphan_ids(before, after.drop_last());
        match after.last().id {
            Some(id) => if position_of(before, id) is None {
                rest.push(id)
            } else {
                rest
            },
            None => rest,
        }
    }
}

/// Some row carries this id.
pub open spec fn mentions(after: Seq<EditableView>, id: Seq<char>) -> bool {
    exists|j: int| 0 <= j < after.len() && #[trigger] after[j].id == Some(id)
}

/// The datapoint at `i` is removed: no row carries its id. Of datapoints
/// that share an id, the last one stands for them.
pub open spec fn is_deleted(before: Seq<DatapointView>, after: Seq<EditableView>, i: int) -> bool {
    position_of(before, before[i].id) == Some(i) && !mentions(after, before[i].id)
}

/// The deletions among the first `n` datapoints, in their order.
pub open spec fn deletions(before: Seq<DatapointView>, after: Seq<EditableView>, n: int) -> Seq<
    OperationView,
>
    decreases n,
{
    if n <= 0 {
        Seq::empty()
    } else {
        deletions(before, after, n - 1) + if is_deleted(before, after, n - 1) {
            seq![OperationView::Delete { id: before[n - 1].id }]
        } else {
            Seq::empty()
        }
    }
}

/// Every request that turns `before` into `after`: the rows' updates and
/// creations, then the deletions.
pub open spec fn planned_operations(before: Seq<DatapointView>, after: Seq<EditableView>) -> Seq<
    OperationView,
> {
    edit_operations(before, after) + deletions(before, after, before.len() as int)
}

pub(crate) proof fn lemma_position_of(before: Seq<DatapointView>, id: Seq<char>)
    ensures
        match position_of(before, id) {
            Some(i) => 0 <= i < before.len() && before[i].id == id && forall|k: int|
                i < k < before.len() ==> before[k].id != id,
            None => forall|k: int| 0 <= k < before.len() ==> before[k].id != id,
        },
    decreases before.len(),
{
    if before.len() > 0 {
        let rest = before.drop_last();
        lemma_position_of(rest, id);
        assert forall|k: int| 0 <= k < rest.len() implies rest[k] == before[k] by {}
    }
}

/// Finds the index of the last datapoint with the id `id`.
fn find_datapoint(before: &Vec<Datapoint>, id: &String) -> (r: Option<usize>)
    ensures
        match r {
            Some(i) => position_of(datapoints_view(before@), id@) == Some(i as int),
            None => position_of(datapoints_view(before@), id@) is None,
        },
{
    let ghost bv = datapoints_view(before@);
    let mut found: Option<usize> = None;
    let mut i: usize = 0;
    while i < before.len()
        invariant
            i <= before.len(),
            bv == datapoints_view(before@),
            match found {
                Some(k) => position_of(bv.take(i as int), id@) == Some(k as int),
                None => position_of(bv.take(i as int), id@) is None,
            },
        decreases before.len() - i,
    {
        assert(bv.take(i as int + 1).drop_last() =~= bv.take(i as int));
        if before[i].id == *id {
            found = Some(i);
        }
        i = i + 1;
    }
    assert(bv.take(i as int) =~= bv);
    found
}

proof fn lemma_take_last<T>(s: Seq<T>, j: int)
    requires
        0 <= j < s.len(),
    ensures
        s.take(j + 1).drop_last() =~= s.take(j),
        s.take(j + 1).last() == s[j],
{
}

/// Computes the requests that turn the datapoints `before` into the rows
/// `after`, and the ids of rows that name no datapoint.
pub fn reconcile(before: &Vec<Datapoint>, after: &Vec<EditableDatapoint>) -> (r: Reconciliation)
    ensures
        operations_view(r.operations@) == planned_operations(
            datapoints_view(before@),
            editables_view(after@),
        ),
        strings_view(r.orphans@) == orphan_ids(datapoints_view(before@), editables_view(after@)),
{
    let ghost bv = datapoints_view(before@);
    let ghost av = editables_view(after@);
    let mut operations: Vec<Operation> = Vec::new();
    let mut orphans: Vec<String> = Vec::new();
    let mut kept: Vec<bool> = Vec::new();
    let mut k: usize = 0;
    while k < before.len()
        invariant
            k <= before.len(),
            kept@.len() == k,
            forall|i: int| 0 <= i < k ==> !kept@[i],
        decreases before.len() - k,
    {
        kept.push(false);
        k = k + 1;
    }
    let mut j: usize = 0;
    while j < after.len()
        invariant
            j <= after.len(),
            bv == datapoints_view(before@),
            av == editables_view(after@),
            kept@.len() == before@.len(),
            operations_view(operations@) == edit_operations(bv, av.take(j as int)),
            strings_view(orphans@) == orphan_ids(bv, av.take(j as int)),
            forall|i: int|
                0 <= i < kept@.len() ==> (kept@[i] <==> (position_of(bv, bv[i].id) == Some(i)
                    && mentions(av.take(j as int), bv[i].id))),
        decreases after.len() - j,
    {
        proof {
            lemma_take_last(av, j as int);
        }
        let ghost old_ops = operations@;
        let ghost old_kept = kept@;
        let row = &after[j];
        match &row.id {
            None => {
                let value = match &row.value {
                    Some(v) => v.clone(),
                    None => Number::zero(),
                };
                operations.push(
                    Operation::Create {
                        timestamp: row.timestamp,
                        value,
                        comment: clone_text(&row.comment),
                    },
                );
                assert(operations_view(operations@) =~= operations_view(old_ops) + row_operations(
                    bv,
                    av[j as int],
                ));
            },
            Some(id) => {
                match find_datapoint(before, id) {
                    Some(i) => {
                        proof {
                            lemma_position_of(bv, id@);
                        }
                        let orig = &before[i];
                        let value_same = match &row.value {
                            Some(v) => same_number(v.bits, orig.value.bits),
                            None => false,
                        };
                        let time_same = match row.timestamp {
                            Some(t) => t == orig.timestamp,
                            None => false,
                        };
                        let comment_same = comment_matches(&row.comment, &orig.comment);
                        if !(value_same && time_same && comment_same) {
                            operations.push(
                                Operation::Update {
                                    id: id.clone(),
                                    timestamp: row.timestamp,
                                    value: clone_number(&row.value),
                                    comment: clone_text(&row.comment),
                                },
                            );
                        }
                        assert(operations_view(operations@) =~= operations_view(old_ops)
                            + row_operations(bv, av[j as int]));
                        kept.set(i, true);
                        assert forall|x: int| 0 <= x < kept@.len() implies (kept@[x] <==> (
                        position_of(bv, bv[x].id) == Some(x) && mentions(
                            av.take(j as int + 1),
                            bv[x].id,
                        ))) by {
                            let at = av.take(j as int + 1);
                            if x == i as int {
                                assert(at[j as int].id == Some(bv[x].id));
                            } else if mentions(at, bv[x].id) && position_of(bv, bv[x].id) == Some(
                                x,
                            ) {
                                let w = choose|w: int|
                                    0 <= w < at.len() && #[trigger] at[w].id == Some(bv[x].id);
                                if w == j as int {
                                    assert(bv[x].id == id@);
                                    assert(false);
                                }
                                assert(av.take(j as int)[w].id == Some(bv[x].id));
                            }
                            if old_kept[x] {
                                let w = choose|w: int|
                                    0 <= w < av.take(j as int).len() && #[trigger] av.take(
                                        j as int,
                                    )[w].id == Some(bv[x].id);
                                assert(at[w].id == Some(bv[x].id));
                            }
                        }
                    },
                    None => {
                        proof {
                            lemma_position_of(bv, id@);
                        }
                        let ghost old_orphans = orphans@;
                        orphans.push(id.clone());
                        assert(strings_view(orphans@) =~= strings_view(old_orphans).push(id@));
                        assert(operations_view(operations@) =~= operations_view(old_ops)
                            + row_operations(bv, av[j as int]));
                        assert forall|x: int| 0 <= x < kept@.len() implies (kept@[x] <==> (
                        position_of(bv, bv[x].id) == Some(x) && mentions(
                            av.take(j as int + 1),
                            bv[x].id,
                        ))) by {
                            let at = av.take(j as int + 1);
                            if mentions(at, bv[x].id) {
                                let w = choose|w: int|
                                    0 <= w < at.len() && #[trigger] at[w].id == Some(bv[x].id);
                                if w == j as int {
                                    assert(false);
                                }
                                assert(av.take(j as int)[w].id == Some(bv[x].id));
                            }
                            if old_kept[x] {
                                let w = choose|w: int|
                                    0 <= w < av.take(j as int).len() && #[trigger] av.take(
                                        j as int,
                                    )[w].id == Some(bv[x].id);
                                assert(at[w].id == Some(bv[x].id));
                            }
                        }
                    },
                }
            },
        }
        j = j + 1;
    }
    assert(av.take(j as int) =~= av);
    let ghost edits = operations@;
    let mut i: usize = 0;
    while i < before.len()
        invariant
            i <= before.len(),
            bv == datapoints_view(before@),
            av == editables_view(after@),
            kept@.len() == before@.len(),
            forall|x: int|
                0 <= x < kept@.len() ==> (kept@[x] <==> (position_of(bv, bv[x].id) == Some(x)
                    && mentions(av, bv[x].id))),
            operations_view(edits) == edit_operations(bv, av),
            operations_view(operations@) == operations_view(edits) + deletions(bv, av, i as int),
        decreases before.len() - i,
    {
        let ghost old_ops = operations@;
        let last = find_datapoint(before, &before[i].id);
        let stands = match last {
            Some(p) => p == i,
            None => false,
        };
        proof {
            lemma_position_of(bv, bv[i as int].id);
        }
        if stands && !kept[i] {
            operations.push(Operation::Delete { id: before[i].id.clone() });
            assert(operations_view(operations@) =~= operations_view(old_ops).push(
                OperationView::Delete { id: bv[i as int].id },
            ));
        }
        assert(operations_view(operations@) =~= operations_view(edits) + deletions(
            bv,
            av,
            i as int + 1,
        ));
        i = i + 1;
    }
    Reconciliation { operations, orphans }
}

impl Clone for Operation {
    fn clone(&self) -> (r: Self)
        ensures
            r == *self,
    {
        match self {
            Operation::Update { id, timestamp, value, comment } => Operation::Update {
                id: id.clone(),
                timestamp: *timestamp,
                value: clone_number(value),
                comment: clone_text(comment),
            },
            Operation::Create { timestamp, value, comment } => Operation::Create {
                timestamp: *timestamp,
                value: value.clone(),
                comment: clone_text(comment),
            },
            Operation::Delete { id } => Operation::Delete { id: id.clone() },
        }
    }
}

pub open spec fn is_deletion(o: OperationView) -> bool {
    o is Delete
}

/// The updates and creations among `ops`, in their order.
pub open spec fn changes(ops: Seq<OperationView>) -> Seq<OperationView>
    decreases ops.len(),
{
    if ops.len() == 0 {
        Seq::empty()
    } else if is_deletion(ops.last()) {
        changes(ops.drop_last())
    } else {
        changes(ops.drop_last()).push(ops.last())
    }
}

/// The deletions among `ops`, in their order.
pub open spec fn removals(ops: Seq<OperationView>) -> Seq<OperationView>
    decreases ops.len(),
{
    if ops.len() == 0 {
        Seq::empty()
    } else if is_deletion(ops.last()) {
        removals(ops.drop_last()).push(ops.last())
    } else {
        removals(ops.drop_last())
    }
}

/// The order in which requests are sent: updates and creations first,
/// deletions last, each group in the order it was computed.
pub open spec fn scheduled(ops: Seq<OperationView>) -> Seq<OperationView> {
    changes(ops) + removals(ops)
}

/// Puts the requests in the order in which they are sent to the service.
pub fn schedule(ops: &Vec<Operation>) -> (r: Vec<Operation>)
    ensures
        operations_view(r@) == scheduled(operations_view(ops@)),
{
    let ghost ov = operations_view(ops@);
    let mut first: Vec<Operation> = Vec::new();
    let mut last: Vec<Operation> = Vec::new();
    let mut i: usize = 0;
    while i < ops.len()
        invariant
            i <= ops.len(),
            ov == operations_view(ops@),
            operations_view(first@) == changes(ov.take(i as int)),
            operations_view(last@) == removals(ov.take(i as int)),
        decreases ops.len() - i,
    {
        proof {
            lemma_take_last(ov, i as int);
        }
        let ghost old_first = first@;
        let ghost old_last = last@;
        let op = ops[i].clone();
        match op {
            Operation::Delete { .. } => {
                last.push(op);
                assert(operations_view(last@) =~= operations_view(old_last).push(ov[i as int]));
            },
            _ => {
                first.push(op);
                assert(operations_view(first@) =~= operations_view(old_first).push(ov[i as int]));
            },
        }
        i = i + 1;
    }
    assert(ov.take(i as int) =~= ov);
    let ghost f = first@;
    let ghost l = last@;
    first.append(&mut last);
    assert(operations_view(first@) =~= operations_view(f) + operations_view(l));
    first
}

proof fn lemma_changes_removals(ops: Seq<OperationView>)
    ensures
        forall|p: int| 0 <= p < changes(ops).len() ==> !is_deletion(#[trigger] changes(ops)[p]),
        forall|p: int| 0 <= p < removals(ops).len() ==> is_deletion(#[trigger] removals(ops)[p]),
        changes(ops).to_multiset().add(removals(ops).to_multiset()) =~= ops.to_multiset(),
    decreases ops.len(),
{
    broadcast use vstd::seq_lib::group_to_multiset_ensures;
    broadcast use vstd::multiset::group_multiset_axioms;

    if ops.len() > 0 {
        let rest = ops.drop_last();
        lemma_changes_removals(rest);
        assert(rest.push(ops.last()) =~= ops);
    }
}

/// Sending requests in schedule order issues every update and creation
/// before any deletion, and sends each computed request exactly once.
pub proof fn lemma_schedule_sends_deletions_last(ops: Seq<OperationView>)
    ensures
        forall|p: int, q: int|
            0 <= p < q < scheduled(ops).len() && is_deletion(#[trigger] scheduled(ops)[p])
                ==> is_deletion(#[trigger] scheduled(ops)[q]),
        scheduled(ops).to_multiset() =~= ops.to_multiset(),
{
    broadcast use vstd::seq_lib::lemma_multiset_commutative;

    lemma_changes_removals(ops);
    let c = changes(ops);
    let r = removals(ops);
    assert forall|p: int, q: int|
        0 <= p < q < scheduled(ops).len() && is_deletion(#[trigger] scheduled(ops)[p])
            implies is_deletion(#[trigger] scheduled(ops)[q]) by {
        if p < c.len() {
            assert(scheduled(ops)[p] == c[p]);
        }
        assert(scheduled(ops)[q] == r[q - c.len()]);
    }
}

/// Compares two comments as text, no comment being the empty text.
fn comment_matches(a: &Option<String>, b: &Option<String>) -> (r: bool)
    ensures
        r == (comment_text(crate::datapoint::text_view(*a)) == comment_text(
            crate::datapoint::text_view(*b),
        )),
{
    let empty = String::new();
    let x = match a {
        Some(s) => s,
        None => &empty,
    };
    let y = match b {
        Some(s) => s,
        None => &empty,
    };
    *x == *y
}

} // verus!
