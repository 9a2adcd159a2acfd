use vstd::prelude::*;
use vstd::std_specs::iter::IteratorSpec;

use crate::clock::{
    current_offset, format_local, local_instant, local_text, parse_local, TIMESTAMP_LAYOUT,
};
use crate::datapoint::{
    datapoints_view, editables_view, strings_view, text_view, Datapoint, DatapointView,
    EditableDatapoint, EditableView,
};
use crate::number::{Number, NumberView};
use crate::reconcile::comment_text;

verus! {

/// Why a table could not be written or read.
#[derive(Clone, Copy, Debug, PartialEq, Eq, Structural)]
pub enum TableError {
    /// The machine's offset from UTC could not be determined.
    NoLocalOffset,
    /// The datapoint at this index has a timestamp that cannot be written.
    UnrenderableTimestamp { row: usize },
    /// The data row at this index has no value field.
    MissingValue { row: usize },
    /// The data row at this index has a timestamp that cannot be read.
    BadTimestamp { row: usize },
    /// The data row at this index has a value that is not a number.
    BadValue { row: usize },
}

/// Why a single data row could not be read.
#[derive(Clone, Copy, Debug, PartialEq, Eq, Structural)]
pub enum RowError {
    MissingValue,
    BadTimestamp,
}

/// The fields of a data row, its value not yet read as a number.
#[derive(Debug)]
pub struct TableRow {
    /// Seconds since the Unix epoch.
    pub timestamp: i64,
    pub value_text: String,
    pub comment: String,
    pub id: Option<String>,
}

/// What a `TableRow` holds, for contracts.
pub struct TableRowView {
    pub timestamp: i64,
    pub value_text: Seq<char>,
    pub comment: Seq<char>,
    pub id: Option<Seq<char>>,
}

impl View for TableRow {
    type V = TableRowView;

    open spec fn view(&self) -> TableRowView {
        TableRowView {
            timestamp: self.timestamp,
            value_text: self.value_text@,
            comment: self.comment@,
            id: text_view(self.id),
        }
    }
}

pub open spec fn scan_view(r: Result<TableRow, RowError>) -> Result<TableRowView, RowError> {
    match r {
        Ok(row) => Ok(row@),
        Err(e) => Err(e),
    }
}

pub open spec fn scans_view(s: Seq<Result<TableRow, RowError>>) -> Seq<
    Result<TableRowView, RowError>,
> {
    s.map_values(|r: Result<TableRow, RowError>| scan_view(r))
}

/// The first line of every table.
pub open spec fn header_line() -> Seq<char> {
    "TIMESTAMP\tVALUE\tCOMMENT\tID\n"@
}

/// The pieces of `s` between occurrences of `sep`; there is always at least
/// one.
pub open spec fn split(s: Seq<char>, sep: char) -> Seq<Seq<char>>
    decreases s.len(),
{
    if s.len() == 0 {
        seq![Seq::empty()]
    } else {
        let parts = split(s.drop_last(), sep);
        if s.last() == sep {
            parts.push(Seq::empty())
        } else {
            parts.update(parts.len() - 1, parts.last().push(s.last()))
        }
    }
}

/// A line without the carriage return of a CRLF ending.
pub open spec fn strip_cr(line: Seq<char>) -> Seq<char> {
    if line.len() > 0 && line.last() == '\r' {
        line.drop_last()
    } else {
        line
    }
}

/// The lines of a text, as a buffered reader yields them: split at line
/// feeds, a carriage return before a line feed dropped, and no empty line
/// after a final line feed.
pub open spec fn text_lines(s: Seq<char>) -> Seq<Seq<char>> {
    let parts = split(s, '\n');
    let ended = parts.drop_last().map_values(|l: Seq<char>| strip_cr(l));
    if parts.last().len() == 0 {
        ended
    } else {
        ended.push(parts.last())
    }
}

/// The lines after the first, which is the header.
pub open spec fn data_lines(s: Seq<char>) -> Seq<Seq<char>> {
    let lines = text_lines(s);
    if lines.len() == 0 {
        lines
    } else {
        lines.drop_first()
    }
}

/// A data line read at `offset`: its first two fields are required, a
/// missing comment is empty, and a missing or empty id is none.
pub open spec fn scanned_row(line: Seq<char>, offset: i32) -> Result<TableRowView, RowError> {
    let f = split(line, '\t');
    if f.len() < 2 {
        Err(RowError::MissingValue)
    } else {
        match local_instant(f[0], offset, TIMESTAMP_LAYOUT@) {
            None => Err(RowError::BadTimestamp),
            Some(t) => Ok(
                TableRowView {
                    timestamp: t,
                    value_text: f[1],
                    comment: if f.len() >= 3 {
                        f[2]
                    } else {
                        Seq::empty()
                    },
                    id: if f.len() >= 4 && f[3].len() > 0 {
                        Some(f[3])
                    } else {
                        None
                    },
                },
            ),
        }
    }
}

pub open spec fn scanned_table(s: Seq<char>, offset: i32) -> Seq<Result<TableRowView, RowError>> {
    data_lines(s).map_values(|l: Seq<char>| scanned_row(l, offset))
}

/// The row that a scanned line gives once its value has been read as `bits`.
pub open spec fn editable_from(row: TableRowView, bits: u64) -> EditableView {
    EditableView {
        id: row.id,
        timestamp: Some(row.timestamp),
        value: Some(NumberView { bits, text: row.value_text }),
        comment: Some(row.comment),
    }
}

/// The rows of a table from its scanned lines and the numbers read from
/// their value fields; the first line that fails decides the error.
pub open spec fn decoded(rows: Seq<Result<TableRowView, RowError>>, values: Seq<Option<u64>>) -> Result<
    Seq<EditableView>,
    TableError,
>
    decreases rows.len(),
{
    if rows.len() == 0 {
        Ok(Seq::empty())
    } else {
        let n = rows.len() - 1;
        match decoded(rows.drop_last(), values) {
            Err(e) => Err(e),
            Ok(done) => match rows.last() {
                Err(RowError::MissingValue) => Err(TableError::MissingValue { row: n as usize }),
                Err(RowError::BadTimestamp) => Err(TableError::BadTimestamp { row: n as usize }),
                Ok(row) => match values[n] {
                    None => Err(TableError::BadValue { row: n as usize }),
                    Some(bits) => Ok(done.push(editable_from(row, bits))),
                },
            },
        }
    }
}

/// The table line of a datapoint whose timestamp renders as `stamp`.
pub open spec fn row_line(stamp: Seq<char>, d: DatapointView) -> Seq<char> {
    stamp + seq!['\t'] + d.value.text + seq!['\t'] + comment_text(d.comment) + seq!['\t'] + d.id
}

/// The data lines of a table, each ended by a line feed; the first
/// datapoint whose timestamp cannot be rendered decides the error.
pub open spec fn encoded_rows(dps: Seq<DatapointView>, offset: i32) -> Result<Seq<char>, TableError>
    decreases dps.len(),
{
    if dps.len() == 0 {
        Ok(Seq::empty())
    } else {
        match encoded_rows(dps.drop_last(), offset) {
            Err(e) => Err(e),
            Ok(body) => match local_text(dps.last().timestamp, offset, TIMESTAMP_LAYOUT@) {
                None => Err(TableError::UnrenderableTimestamp { row: (dps.len() - 1) as usize }),
                Some(stamp) => Ok(body + row_line(stamp, dps.last()) + seq!['\n']),
            },
        }
    }
}

/// The table of `dps` with times shown at `offset`.
pub open spec fn encoded(dps: Seq<DatapointView>, offset: i32) -> Result<Seq<char>, TableError> {
    match encoded_rows(dps, offset) {
        Ok(body) => Ok(header_line() + body),
        Err(e) => Err(e),
    }
}

pub open spec fn text_result_view(r: Result<String, TableError>) -> Result<Seq<char>, TableError> {
    match r {
        Ok(s) => Ok(s@),
        Err(e) => Err(e),
    }
}

pub open spec fn editables_result_view(r: Result<Vec<EditableDatapoint>, TableError>) -> Result<
    Seq<EditableView>,
    TableError,
> {
    match r {
        Ok(v) => Ok(editables_view(v@)),
        Err(e) => Err(e),
    }
}

proof fn lemma_encoded_rows_prefix(dps: Seq<DatapointView>, offset: i32, n: int)
    requires
        0 <= n <= dps.len(),
        encoded_rows(dps.take(n), offset) is Err,
    ensures
        encoded_rows(dps, offset) == encoded_rows(dps.take(n), offset),
    decreases dps.len() - n,
{
    if n < dps.len() {
        assert(dps.take(n + 1).drop_last() =~= dps.take(n));
        lemma_encoded_rows_prefix(dps, offset, n + 1);
    } else {
        assert(dps.take(n) =~= dps);
    }
}

proof fn lemma_decoded_prefix(
    rows: Seq<Result<TableRowView, RowError>>,
    values: Seq<Option<u64>>,
    n: int,
)
    requires
        0 <= n <= rows.len(),
        decoded(rows.take(n), values) is Err,
    ensures
        decoded(rows, values) == decoded(rows.take(n), values),
    decreases rows.len() - n,
{
    if n < rows.len() {
        assert(rows.take(n + 1).drop_last() =~= rows.take(n));
        lemma_decoded_prefix(rows, values, n + 1);
    } else {
        assert(rows.take(n) =~= rows);
    }
}

/// Writes the table of `datapoints`, in their order, with times shown at
/// `offset` seconds east of UTC.
pub fn encode_table(datapoints: &Vec<Datapoint>, offset: i32) -> (r: Result<String, TableError>)
    ensures
        text_result_view(r) == encoded(datapoints_view(datapoints@), offset),
{
    let ghost dv = datapoints_view(datapoints@);
    let mut out = String::from_str("TIMESTAMP\tVALUE\tCOMMENT\tID\n");
    let ghost mut body: Seq<char> = Seq::empty();
    let mut i: usize = 0;
    while i < datapoints.len()
        invariant
            i <= datapoints.len(),
            dv == datapoints_view(datapoints@),
            encoded_rows(dv.take(i as int), offset) == Ok::<Seq<char>, TableError>(body),
            out@ == header_line() + body,
        decreases datapoints.len() - i,
    {
        assert(dv.take(i as int + 1).drop_last() =~= dv.take(i as int));
        assert(dv.take(i as int + 1).last() == dv[i as int]);
        let dp = &datapoints[i];
        assert(dv[i as int] == dp@);
        match format_local(dp.timestamp, offset, TIMESTAMP_LAYOUT) {
            None => {
                proof {
                    lemma_encoded_rows_prefix(dv, offset, i as int + 1);
                }
                return Err(TableError::UnrenderableTimestamp { row: i });
            },
            Some(stamp) => {
                let ghost before = out@;
                out.append(stamp.as_str());
                out.append("\t");
                out.append(dp.value.text.as_str());
                out.append("\t");
                match &dp.comment {
                    Some(c) => out.append(c.as_str()),
                    None => {},
                }
                out.append("\t");
                out.append(dp.id.as_str());
                out.append("\n");
                proof {
                    reveal_strlit("\t");
                    reveal_strlit("\n");
                    let line = row_line(stamp@, dv[i as int]) + seq!['\n'];
                    assert(out@ =~= before + line);
                    let next = dv.take(i as int + 1);
                    assert(next.len() > 0);
                    assert(encoded_rows(next.drop_last(), offset) == Ok::<Seq<char>, TableError>(body));
                    assert(local_text(next.last().timestamp, offset, TIMESTAMP_LAYOUT@) == Some(stamp@));
                    assert(body + row_line(stamp@, next.last()) + seq!['\n'] == body + line);
                    assert(encoded_rows(next, offset) == Ok::<Seq<char>, TableError>(body + line));
                    body = body + line;
                }
            },
        }
        i = i + 1;
    }
    assert(dv.take(i as int) =~= dv);
    Ok(out)
}

/// Writes the table of `datapoints` with times shown at the machine's
/// offset from UTC, as it is now.
pub fn write_datapoints_tsv(datapoints: &Vec<Datapoint>) -> (r: Result<String, TableError>)
    ensures
        r matches Err(TableError::NoLocalOffset) || exists|offset: i32|
            text_result_view(r) == encoded(datapoints_view(datapoints@), offset),
{
    match current_offset() {
        None => Err(TableError::NoLocalOffset),
        Some(offset) => encode_table(datapoints, offset),
    }
}

fn chars_of(s: &str) -> (r: Vec<char>)
    ensures
        r@ == s@,
{
    let mut it = s.chars();
    let mut out: Vec<char> = Vec::new();
    loop
        invariant
            out@ + it.remaining() == s@,
            it.decrease() is Some,
        ensures
            out@ == s@,
        decreases it.decrease()->0,
    {
        match it.next() {
            Some(c) => {
                out.push(c);
                assert(out@ + it.remaining() =~= s@);
            },
            None => {
                assert(out@ =~= s@);
                break ;
            },
        }
    }
    out
}

/// Splits `s` at every `sep`.
fn split_on(s: &str, sep: char) -> (r: Vec<String>)
    ensures
        strings_view(r@) == split(s@, sep),
        r@.len() >= 1,
{
    let chars = chars_of(s);
    let mut parts: Vec<String> = Vec::new();
    let mut start: usize = 0;
    let mut k: usize = 0;
    assert(s@.take(0) =~= Seq::<char>::empty());
    assert(s@.subrange(0, 0) =~= Seq::<char>::empty());
    assert(strings_view(parts@).push(s@.subrange(0, 0)) =~= seq![Seq::<char>::empty()]);
    while k < chars.len()
        invariant
            k <= chars.len(),
            start <= k,
            chars@ == s@,
            split(s@.take(k as int), sep) == strings_view(parts@).push(
                s@.subrange(start as int, k as int),
            ),
        decreases chars.len() - k,
    {
        let ghost old_parts = strings_view(parts@);
        assert(s@.take(k as int + 1).drop_last() =~= s@.take(k as int));
        assert(s@.take(k as int + 1).last() == chars@[k as int]);
        if chars[k] == sep {
            let piece = String::from_str(s.substring_char(start, k));
            parts.push(piece);
            assert(strings_view(parts@) =~= old_parts.push(s@.subrange(start as int, k as int)));
            start = k + 1;
            assert(s@.subrange(start as int, start as int) =~= Seq::<char>::empty());
        } else {
            assert(s@.subrange(start as int, k as int).push(chars@[k as int]) =~= s@.subrange(
                start as int,
                k as int + 1,
            ));
            assert(old_parts.push(s@.subrange(start as int, k as int)).update(
                old_parts.len() as int,
                s@.subrange(start as int, k as int + 1),
            ) =~= old_parts.push(s@.subrange(start as int, k as int + 1)));
        }
        k = k + 1;
    }
    assert(s@.take(k as int) =~= s@);
    let ghost old_parts = strings_view(parts@);
    parts.push(String::from_str(s.substring_char(start, k)));
    assert(strings_view(parts@) =~= old_parts.push(s@.subrange(start as int, k as int)));
    parts
}

fn strip_carriage_return(line: &String) -> (r: String)
    ensures
        r@ == strip_cr(line@),
{
    let n = line.as_str().unicode_len();
    if n > 0 && line.as_str().get_char(n - 1) == '\r' {
        let cut = String::from_str(line.as_str().substring_char(0, n - 1));
        assert(cut@ =~= line@.drop_last());
        cut
    } else {
        line.clone()
    }
}

/// Splits a text into lines as a buffered reader does.
fn lines_of(s: &str) -> (r: Vec<String>)
    ensures
        strings_view(r@) == text_lines(s@),
{
    let parts = split_on(s, '\n');
    let ghost pv = strings_view(parts@);
    let last = parts.len() - 1;
    let mut out: Vec<String> = Vec::new();
    let mut i: usize = 0;
    while i < last
        invariant
            i <= last,
            last == parts@.len() - 1,
            pv == strings_view(parts@),
            strings_view(out@) =~= pv.take(i as int).map_values(|l: Seq<char>| strip_cr(l)),
        decreases last - i,
    {
        let ghost before = strings_view(out@);
        out.push(strip_carriage_return(&parts[i]));
        assert(pv.take(i as int + 1) =~= pv.take(i as int).push(pv[i as int]));
        assert(strings_view(out@) =~= before.push(strip_cr(pv[i as int])));
        i = i + 1;
    }
    assert(pv.take(last as int) =~= pv.drop_last());
    if parts[last].as_str().unicode_len() > 0 {
        let ghost before = strings_view(out@);
        out.push(parts[last].clone());
        assert(strings_view(out@) =~= before.push(pv.last()));
    }
    out
}

/// Reads one data line.
fn scan_row(line: &String, offset: i32) -> (r: Result<TableRow, RowError>)
    ensures
        scan_view(r) == scanned_row(line@, offset),
{
    let f = split_on(line.as_str(), '\t');
    let ghost fv = strings_view(f@);
    assert(fv.len() == f@.len());
    if f.len() < 2 {
        return Err(RowError::MissingValue);
    }
    assert(fv[0] == f@[0]@ && fv[1] == f@[1]@);
    match parse_local(f[0].as_str(), offset, TIMESTAMP_LAYOUT) {
        None => Err(RowError::BadTimestamp),
        Some(timestamp) => {
            let comment = if f.len() >= 3 {
                assert(fv[2] == f@[2]@);
                f[2].clone()
            } else {
                String::new()
            };
            let id = if f.len() >= 4 && f[3].as_str().unicode_len() > 0 {
                assert(fv[3] == f@[3]@);
                Some(f[3].clone())
            } else {
                None
            };
            let row = TableRow { timestamp, value_text: f[1].clone(), comment, id };
            assert(row@ == scanned_row(line@, offset)->Ok_0);
            Ok(row)
        },
    }
}

/// Reads the data lines of a table, with times taken as local times at
/// `offset` seconds east of UTC. The first line is the header and is not
/// read. Each line gives its fields or why it failed; the values are read
/// as numbers by `read_datapoints_tsv`.
pub fn scan_table(text: &str, offset: i32) -> (r: Vec<Result<TableRow, RowError>>)
    ensures
        scans_view(r@) == scanned_table(text@, offset),
{
    let lines = lines_of(text);
    let ghost lv = strings_view(lines@);
    let ghost dl = data_lines(text@);
    let mut out: Vec<Result<TableRow, RowError>> = Vec::new();
    if lines.len() == 0 {
        assert(scans_view(out@) =~= scanned_table(text@, offset));
        return out;
    }
    assert(dl =~= lv.drop_first());
    let mut i: usize = 1;
    while i < lines.len()
        invariant
            1 <= i <= lines.len(),
            lv == strings_view(lines@),
            dl == lv.drop_first(),
            scans_view(out@) =~= dl.take(i - 1).map_values(|l: Seq<char>| scanned_row(l, offset)),
        decreases lines.len() - i,
    {
        let ghost before = scans_view(out@);
        out.push(scan_row(&lines[i], offset));
        assert(dl[i - 1] == lines@[i as int]@);
        assert(dl.take(i as int) =~= dl.take(i - 1).push(dl[i - 1]));
        assert(scans_view(out@) =~= before.push(scanned_row(dl[i - 1], offset)));
        i = i + 1;
    }
    assert(dl.take(i - 1) =~= dl);
    out
}

/// Reads the data lines of a table with times taken as local times at the
/// machine's offset from UTC, as it is now.
pub fn scan_table_local(text: &str) -> (r: Result<Vec<Result<TableRow, RowError>>, TableError>)
    ensures
        match r {
            Ok(rows) => exists|offset: i32| scans_view(rows@) == scanned_table(text@, offset),
            Err(e) => e == TableError::NoLocalOffset,
        },
{
    match current_offset() {
        None => Err(TableError::NoLocalOffset),
        Some(offset) => Ok(scan_table(text, offset)),
    }
}

/// Builds the rows of an edited table from its scanned lines and, for each
/// line, the number read from its value field (`None` where the field is
/// not a number). Nothing is returned but the first error where any line
/// fails.
pub fn read_datapoints_tsv(
    rows: &Vec<Result<TableRow, RowError>>,
    values: &Vec<Option<u64>>,
) -> (r: Result<Vec<EditableDatapoint>, TableError>)
    requires
        values@.len() == rows@.len(),
    ensures
        editables_result_view(r) == decoded(scans_view(rows@), values@),
{
    let ghost sv = scans_view(rows@);
    let mut out: Vec<EditableDatapoint> = Vec::new();
    let mut i: usize = 0;
    assert(sv.take(0) =~= Seq::<Result<TableRowView, RowError>>::empty());
    assert(editables_view(out@) =~= Seq::<EditableView>::empty());
    while i < rows.len()
        invariant
            i <= rows.len(),
            values@.len() == rows@.len(),
            sv == scans_view(rows@),
            decoded(sv.take(i as int), values@) == Ok::<Seq<EditableView>, TableError>(
                editables_view(out@),
            ),
        decreases rows.len() - i,
    {
        let ghost next = sv.take(i as int + 1);
        assert(next.drop_last() =~= sv.take(i as int));
        assert(next.last() == scan_view(rows@[i as int]));
        match &rows[i] {
            Err(RowError::MissingValue) => {
                proof {
                    lemma_decoded_prefix(sv, values@, i as int + 1);
                }
                return Err(TableError::MissingValue { row: i });
            },
            Err(RowError::BadTimestamp) => {
                proof {
                    lemma_decoded_prefix(sv, values@, i as int + 1);
                }
                return Err(TableError::BadTimestamp { row: i });
            },
            Ok(row) => match values[i] {
                None => {
                    proof {
                        lemma_decoded_prefix(sv, values@, i as int + 1);
                    }
                    return Err(TableError::BadValue { row: i });
                },
                Some(bits) => {
                    let ghost before = editables_view(out@);
                    out.push(
                        EditableDatapoint {
                            id: crate::datapoint::clone_text(&row.id),
                            timestamp: Some(row.timestamp),
                            value: Some(Number { bits, text: row.value_text.clone() }),
                            comment: Some(row.comment.clone()),
                        },
                    );
                    assert(editables_view(out@) =~= before.push(editable_from(row@, bits)));
                },
            },
        }
        i = i + 1;
    }
    assert(sv.take(i as int) =~= sv);
    Ok(out)
}

/// A table in which any data line lacks its value field is rejected as a
/// whole, whatever the other lines hold.
pub proof fn lemma_missing_value_rejects_table(
    text: Seq<char>,
    offset: i32,
    values: Seq<Option<u64>>,
    k: int,
)
    requires
        0 <= k < data_lines(text).len(),
        split(data_lines(text)[k], '\t').len() < 2,
    ensures
        decoded(scanned_table(text, offset), values) is Err,
{
    let rows = scanned_table(text, offset);
    let first = rows.take(k + 1);
    assert(first.drop_last() =~= rows.take(k));
    assert(first.last() == rows[k]);
    assert(rows[k] == Err::<TableRowView, RowError>(RowError::MissingValue));
    assert(decoded(first, values) is Err);
    lemma_decoded_prefix(rows, values, k + 1);
}

} // verus!
