use vstd::prelude::*;

use crate::clock::{local_instant, local_text, TIMESTAMP_LAYOUT};
use crate::datapoint::{DatapointView, EditableView};
use crate::number::numbers_equal;
use crate::reconcile::{
    comment_text, differs, edit_operations, deletions, is_deleted, mentions, orphan_ids,
    planned_operations, position_of, row_operations, lemma_position_of,
};
use crate::table::{
    data_lines, decoded, editable_from, encoded, encoded_rows, header_line, row_line,
    scanned_row, scanned_table, split, strip_cr, text_lines, RowError, TableError, TableRowView,
};

verus! {

/// No tab and no line feed in `s`.
pub open spec fn plain(s: Seq<char>) -> bool {
    forall|k: int| 0 <= k < s.len() ==> s[k] != '\t' && s[k] != '\n'
}

/// The table written at `offset` keeps `d` intact: its timestamp renders as
/// plain text that reads back as the same instant, its value text, comment
/// and id are plain, and its id is not empty and does not end in a carriage
/// return.
pub open spec fn keeps(d: DatapointView, offset: i32) -> bool {
    &&& match local_text(d.timestamp, offset, TIMESTAMP_LAYOUT@) {
        Some(stamp) => plain(stamp) && local_instant(stamp, offset, TIMESTAMP_LAYOUT@) == Some(
            d.timestamp,
        ),
        None => false,
    }
    &&& plain(d.value.text)
    &&& plain(comment_text(d.comment))
    &&& plain(d.id)
    &&& d.id.len() > 0
    &&& d.id.last() != '\r'
}

pub open spec fn stamp_of(d: DatapointView, offset: i32) -> Seq<char> {
    match local_text(d.timestamp, offset, TIMESTAMP_LAYOUT@) {
        Some(stamp) => stamp,
        None => Seq::empty(),
    }
}

/// The data lines of the table of `dps`, without line feeds.
pub open spec fn table_lines(dps: Seq<DatapointView>, offset: i32) -> Seq<Seq<char>>
    decreases dps.len(),
{
    if dps.len() == 0 {
        Seq::empty()
    } else {
        table_lines(dps.drop_last(), offset).push(row_line(stamp_of(dps.last(), offset), dps.last()))
    }
}

/// The fields that the table gives back for `d`.
pub open spec fn row_of(d: DatapointView) -> TableRowView {
    TableRowView {
        timestamp: d.timestamp,
        value_text: d.value.text,
        comment: comment_text(d.comment),
        id: Some(d.id),
    }
}

proof fn lemma_split_len(s: Seq<char>, sep: char)
    ensures
        split(s, sep).len() >= 1,
    decreases s.len(),
{
    if s.len() > 0 {
        lemma_split_len(s.drop_last(), sep);
    }
}

proof fn lemma_split_plain(s: Seq<char>, sep: char)
    requires
        forall|k: int| 0 <= k < s.len() ==> s[k] != sep,
    ensures
        split(s, sep) == seq![s],
    decreases s.len(),
{
    if s.len() > 0 {
        lemma_split_plain(s.drop_last(), sep);
        assert(s.drop_last().push(s.last()) =~= s);
        assert(seq![s.drop_last()].update(0, s.drop_last().push(s.last())) =~= seq![s]);
    } else {
        assert(s =~= Seq::<char>::empty());
    }
}

proof fn lemma_split_concat(x: Seq<char>, y: Seq<char>, sep: char)
    ensures
        split(x + seq![sep] + y, sep) == split(x, sep) + split(y, sep),
    decreases y.len(),
{
    let z = x + seq![sep] + y;
    if y.len() == 0 {
        assert(z.drop_last() =~= x);
        assert(split(z, sep) =~= split(x, sep) + split(y, sep));
    } else {
        lemma_split_concat(x, y.drop_last(), sep);
        lemma_split_len(y.drop_last(), sep);
        assert(z.drop_last() =~= x + seq![sep] + y.drop_last());
        let p = split(x, sep);
        let q = split(y.drop_last(), sep);
        if y.last() == sep {
            assert(split(z, sep) =~= p + q.push(Seq::empty()));
        } else {
            let pq = p + q;
            assert(pq.last() == q.last());
            assert(pq.update(pq.len() - 1, pq.last().push(y.last())) =~= p + q.update(
                q.len() - 1,
                q.last().push(y.last()),
            ));
        }
    }
}

proof fn lemma_row_fields(d: DatapointView, offset: i32)
    requires
        keeps(d, offset),
    ensures
        split(row_line(stamp_of(d, offset), d), '\t') == seq![
            stamp_of(d, offset),
            d.value.text,
            comment_text(d.comment),
            d.id,
        ],
        scanned_row(row_line(stamp_of(d, offset), d), offset) == Ok::<TableRowView, RowError>(
            row_of(d),
        ),
        forall|k: int|
            0 <= k < row_line(stamp_of(d, offset), d).len() ==> row_line(stamp_of(d, offset), d)[k]
                != '\n',
        strip_cr(row_line(stamp_of(d, offset), d)) == row_line(stamp_of(d, offset), d),
{
    let s = stamp_of(d, offset);
    let v = d.value.text;
    let c = comment_text(d.comment);
    let t = seq!['\t'];
    lemma_split_plain(s, '\t');
    lemma_split_plain(v, '\t');
    lemma_split_plain(c, '\t');
    lemma_split_plain(d.id, '\t');
    lemma_split_concat(s, v, '\t');
    lemma_split_concat(s + t + v, c, '\t');
    lemma_split_concat(s + t + v + t + c, d.id, '\t');
    let line = row_line(s, d);
    assert(line =~= s + t + v + t + c + t + d.id);
    assert(split(line, '\t') =~= seq![s, v, c, d.id]);
    assert forall|k: int| 0 <= k < line.len() implies line[k] != '\n' by {
        let a = s.len();
        let b = a + 1 + v.len();
        let e = b + 1 + c.len();
        if k < a {
            assert(line[k] == s[k]);
        } else if k == a || k == b || k == e {
        } else if k < b {
            assert(line[k] == v[k - a - 1]);
        } else if k < e {
            assert(line[k] == c[k - b - 1]);
        } else {
            assert(line[k] == d.id[k - e - 1]);
        }
    }
    assert(line.last() == d.id.last());
    assert(scanned_row(line, offset) =~= Ok::<TableRowView, RowError>(row_of(d)));
}

proof fn lemma_body_lines(dps: Seq<DatapointView>, offset: i32, w: Seq<char>)
    requires
        forall|i: int| 0 <= i < dps.len() ==> keeps(#[trigger] dps[i], offset),
        forall|k: int| 0 <= k < w.len() ==> w[k] != '\n',
    ensures
        encoded_rows(dps, offset) is Ok,
        split(encoded_rows(dps, offset)->Ok_0 + w, '\n') == table_lines(dps, offset).push(w),
    decreases dps.len(),
{
    if dps.len() == 0 {
        lemma_split_plain(w, '\n');
        assert(Seq::<char>::empty() + w =~= w);
    } else {
        let rest = dps.drop_last();
        let d = dps.last();
        assert(keeps(dps[dps.len() - 1], offset));
        lemma_row_fields(d, offset);
        let line = row_line(stamp_of(d, offset), d);
        lemma_body_lines(rest, offset, line);
        let body = encoded_rows(rest, offset)->Ok_0;
        lemma_split_concat(body + line, w, '\n');
        assert(encoded_rows(dps, offset)->Ok_0 + w =~= (body + line) + seq!['\n'] + w);
        lemma_split_plain(w, '\n');
    }
}

proof fn lemma_table_lines(dps: Seq<DatapointView>, offset: i32)
    requires
        forall|i: int| 0 <= i < dps.len() ==> keeps(#[trigger] dps[i], offset),
    ensures
        table_lines(dps, offset).len() == dps.len(),
        forall|i: int|
            0 <= i < dps.len() ==> #[trigger] table_lines(dps, offset)[i] == row_line(
                stamp_of(dps[i], offset),
                dps[i],
            ),
    decreases dps.len(),
{
    if dps.len() > 0 {
        lemma_table_lines(dps.drop_last(), offset);
    }
}

proof fn lemma_decoded_all(rows: Seq<Result<TableRowView, RowError>>, values: Seq<Option<u64>>)
    requires
        values.len() >= rows.len(),
        forall|i: int| 0 <= i < rows.len() ==> #[trigger] rows[i] is Ok,
        forall|i: int| 0 <= i < rows.len() ==> #[trigger] values[i] is Some,
    ensures
        decoded(rows, values) is Ok,
        decoded(rows, values)->Ok_0.len() == rows.len(),
        forall|i: int|
            0 <= i < rows.len() ==> #[trigger] decoded(rows, values)->Ok_0[i] == editable_from(
                rows[i]->Ok_0,
                values[i]->Some_0,
            ),
    decreases rows.len(),
{
    if rows.len() > 0 {
        lemma_decoded_all(rows.drop_last(), values);
        assert(rows.last() == rows[rows.len() - 1]);
    }
}

/// The rows change nothing: each names the datapoint it came from, with its
/// fields as they were.
pub open spec fn quiet(before: Seq<DatapointView>, row: EditableView) -> bool {
    match row.id {
        Some(id) => match position_of(before, id) {
            Some(i) => !differs(before[i], row),
            None => false,
        },
        None => false,
    }
}

proof fn lemma_quiet_rows(before: Seq<DatapointView>, after: Seq<EditableView>)
    requires
        forall|j: int| 0 <= j < after.len() ==> quiet(before, #[trigger] after[j]),
    ensures
        edit_operations(before, after).len() == 0,
        orphan_ids(before, after).len() == 0,
    decreases after.len(),
{
    if after.len() > 0 {
        assert(quiet(before, after[after.len() - 1]));
        lemma_quiet_rows(before, after.drop_last());
        assert(row_operations(before, after.last()).len() == 0);
    }
}

proof fn lemma_no_deletions(before: Seq<DatapointView>, after: Seq<EditableView>, n: int)
    requires
        0 <= n <= before.len(),
        forall|i: int| 0 <= i < before.len() ==> mentions(after, #[trigger] before[i].id),
    ensures
        deletions(before, after, n).len() == 0,
    decreases n,
{
    if n > 0 {
        lemma_no_deletions(before, after, n - 1);
        assert(mentions(after, before[n - 1].id));
        assert(!is_deleted(before, after, n - 1));
    }
}

/// Writing datapoints as a table and reading the table back unchanged asks
/// for no request and reports no orphan row, where each datapoint survives
/// the text form (see `keeps`), ids are unique, and reading each value
/// field gives back a number equal to the datapoint's value.
pub proof fn lemma_round_trip(dps: Seq<DatapointView>, offset: i32, values: Seq<Option<u64>>)
    requires
        forall|i: int| 0 <= i < dps.len() ==> keeps(#[trigger] dps[i], offset),
        forall|i: int, j: int| 0 <= i < j < dps.len() ==> dps[i].id != dps[j].id,
        values.len() == dps.len(),
        forall|i: int|
            0 <= i < dps.len() ==> (#[trigger] values[i] matches Some(bits) && numbers_equal(
                bits,
                dps[i].value.bits,
            )),
    ensures
        encoded(dps, offset) is Ok,
        decoded(scanned_table(encoded(dps, offset)->Ok_0, offset), values) is Ok,
        planned_operations(
            dps,
            decoded(scanned_table(encoded(dps, offset)->Ok_0, offset), values)->Ok_0,
        ).len() == 0,
        orphan_ids(dps, decoded(scanned_table(encoded(dps, offset)->Ok_0, offset), values)->Ok_0).len()
            == 0,
{
    let empty = Seq::<char>::empty();
    lemma_body_lines(dps, offset, empty);
    lemma_table_lines(dps, offset);
    let body = encoded_rows(dps, offset)->Ok_0;
    let text = encoded(dps, offset)->Ok_0;
    let tl = table_lines(dps, offset);
    assert(body + empty =~= body);
    let h = "TIMESTAMP\tVALUE\tCOMMENT\tID"@;
    reveal_strlit("TIMESTAMP\tVALUE\tCOMMENT\tID\n");
    reveal_strlit("TIMESTAMP\tVALUE\tCOMMENT\tID");
    assert(header_line() =~= h + seq!['\n']);
    assert(text =~= h + seq!['\n'] + body);
    lemma_split_plain(h, '\n');
    lemma_split_concat(h, body, '\n');
    let parts = split(text, '\n');
    assert(parts =~= seq![h] + tl.push(empty));
    assert(h.last() == 'D');
    assert(parts.drop_last() =~= seq![h] + tl);
    assert forall|i: int| 0 <= i < dps.len() implies strip_cr(#[trigger] tl[i]) == tl[i] by {
        assert(keeps(dps[i], offset));
        lemma_row_fields(dps[i], offset);
    }
    let lines = text_lines(text);
    assert(lines =~= seq![h] + tl);
    assert(data_lines(text) =~= tl);
    let rows = scanned_table(text, offset);
    assert forall|i: int| 0 <= i < dps.len() implies #[trigger] rows[i] == Ok::<
        TableRowView,
        RowError,
    >(row_of(dps[i])) by {
        assert(keeps(dps[i], offset));
        lemma_row_fields(dps[i], offset);
    }
    assert forall|i: int| 0 <= i < rows.len() implies #[trigger] rows[i] is Ok by {
        assert(rows[i] == Ok::<TableRowView, RowError>(row_of(dps[i])));
    }
    assert forall|i: int| 0 <= i < rows.len() implies #[trigger] values[i] is Some by {
        assert(values[i] matches Some(_));
    }
    lemma_decoded_all(rows, values);
    let after = decoded(rows, values)->Ok_0;
    assert forall|j: int| 0 <= j < after.len() implies quiet(dps, #[trigger] after[j]) by {
        assert(rows[j] == Ok::<TableRowView, RowError>(row_of(dps[j])));
        assert(after[j] == editable_from(row_of(dps[j]), values[j]->Some_0));
        lemma_position_of(dps, dps[j].id);
        assert(values[j] matches Some(_));
    }
    lemma_quiet_rows(dps, after);
    assert forall|i: int| 0 <= i < dps.len() implies mentions(after, #[trigger] dps[i].id) by {
        assert(rows[i] == Ok::<TableRowView, RowError>(row_of(dps[i])));
        assert(after[i].id == Some(dps[i].id));
    }
    lemma_no_deletions(dps, after, dps.len() as int);
}

} // verus!
