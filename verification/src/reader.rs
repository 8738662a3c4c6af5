//! The result reader: parses the remote's tab-separated log text.
//!
//! The first line is the header: its fields are split on tabs, trimmed,
//! and empty trailing fields dropped; no types are attached. Every later
//! non-empty line is a row: its fields are split on tabs, the literal
//! token `NULL` becomes a null cell, anything else a text cell.

use vstd::prelude::*;

use crate::error::QueryError;
use crate::executor::QueryResult;
use crate::text::{
    chars_of, eq_chars, split_char, split_spec, string_of, trim, trim_spec, seq_views,
};
use crate::value::{cols_view, row_view, vv, Column, ColumnValue, Row, ValueView};

verus! {

/// The first line of the text: everything before the first newline.
pub open spec fn first_line(s: Seq<char>) -> Seq<char> {
    split_spec(s, '\n')[0]
}

/// Header fields: each field trimmed, empty fields dropped.
pub open spec fn clean_fields(fs: Seq<Seq<char>>) -> Seq<Seq<char>>
    decreases fs.len(),
{
    if fs.len() == 0 {
        Seq::<Seq<char>>::empty()
    } else {
        let t = trim_spec(fs[0]);
        let rest = clean_fields(fs.drop_first());
        if t.len() > 0 {
            seq![t] + rest
        } else {
            rest
        }
    }
}

/// Names made into untyped columns.
pub open spec fn untyped_cols(names: Seq<Seq<char>>) -> Seq<(Seq<char>, Option<Seq<char>>)> {
    names.map_values(|name: Seq<char>| (name, Option::<Seq<char>>::None))
}

/// The header the reader produces for `s`: one untyped column per
/// non-empty trimmed field of the first line.
pub open spec fn header_spec(s: Seq<char>) -> Seq<(Seq<char>, Option<Seq<char>>)> {
    untyped_cols(clean_fields(split_spec(first_line(s), '\t')))
}

/// A line with one trailing carriage return removed, as `lines` does.
pub open spec fn chop_cr(l: Seq<char>) -> Seq<char> {
    if l.len() > 0 && l.last() == '\r' {
        l.drop_last()
    } else {
        l
    }
}

/// The non-empty lines among `ls`, each with a trailing carriage return
/// removed.
pub open spec fn kept_lines(ls: Seq<Seq<char>>) -> Seq<Seq<char>>
    decreases ls.len(),
{
    if ls.len() == 0 {
        Seq::<Seq<char>>::empty()
    } else {
        let l = chop_cr(ls[0]);
        let rest = kept_lines(ls.drop_first());
        if l.len() > 0 {
            seq![l] + rest
        } else {
            rest
        }
    }
}

/// The value of one row field: the literal `NULL` is a null cell,
/// anything else a text cell.
pub open spec fn field_value(f: Seq<char>) -> ValueView {
    if f == "NULL"@ {
        ValueView::Null
    } else {
        ValueView::Text(f)
    }
}

/// The cells of one row line.
pub open spec fn row_of_line(l: Seq<char>) -> Seq<ValueView> {
    split_spec(l, '\t').map_values(|f: Seq<char>| field_value(f))
}

/// The rows the reader produces for `s`: one per non-empty line after
/// the first.
pub open spec fn rows_spec(s: Seq<char>) -> Seq<Seq<ValueView>> {
    kept_lines(split_spec(s, '\n').drop_first()).map_values(|l: Seq<char>| row_of_line(l))
}

/// A result backed by the remote's raw log text.
pub struct ReaderQueryResult {
    text: String,
}

impl ReaderQueryResult {
    /// The raw text this result reads from.
    pub closed spec fn text_spec(&self) -> Seq<char> {
        self.text@
    }

    /// A result over the given log text.
    pub fn new(text: String) -> (r: Self)
        ensures
            r.text_spec() == text@,
    {
        ReaderQueryResult { text }
    }

    /// The header columns: the first line's fields, trimmed, empties
    /// dropped, untyped.
    pub fn get_columns(&self) -> (r: Vec<Column>)
        ensures
            cols_view(r@) == header_spec(self.text_spec()),
    {
        let chars = chars_of(self.text.as_str());
        let lines = split_char(&chars, '\n');
        let fields = split_char(&lines[0], '\t');
        let n = fields.len();
        let mut cols: Vec<Column> = Vec::new();
        proof {
            assert(seq_views(fields@).skip(n as int) =~= Seq::<Seq<char>>::empty());
            assert(cols_view(cols@) =~= untyped_cols(clean_fields(seq_views(fields@).skip(n as int))));
        }
        let mut i: usize = n;
        while i > 0
            invariant
                i <= n,
                n == fields@.len(),
                cols_view(cols@) == untyped_cols(clean_fields(seq_views(fields@).skip(i as int))),
            decreases i,
        {
            i -= 1;
            let t = trim(&fields[i]);
            let ghost fs = seq_views(fields@).skip(i as int);
            proof {
                assert(fs[0] == fields@[i as int]@);
                assert(fs.drop_first() =~= seq_views(fields@).skip(i as int + 1));
            }
            if t.len() > 0 {
                let name = string_of(&t);
                cols.insert(0, Column { name, ty: None });
                proof {
                    assert(cols_view(cols@) =~= seq![(t@, Option::<Seq<char>>::None)]
                        + untyped_cols(clean_fields(seq_views(fields@).skip(i as int + 1))));
                    lemma_map_values_prepend(
                        clean_fields(seq_views(fields@).skip(i as int + 1)),
                        t@,
                    );
                }
            }
            proof {
                assert(cols_view(cols@) =~= untyped_cols(clean_fields(seq_views(fields@).skip(i as int))));
            }
        }
        proof {
            assert(seq_views(fields@).skip(0) =~= seq_views(fields@));
            assert(first_line(self.text_spec()) == lines@[0]@);
        }
        cols
    }

    /// The rows: one per non-empty line after the first, the token
    /// `NULL` decoded as a null cell, every other field as text.
    pub fn get_rows(&self) -> (r: Vec<Row>)
        ensures
            r@.len() == rows_spec(self.text_spec()).len(),
            forall|i: int|
                0 <= i < r@.len() ==> row_view(r@[i]@) == rows_spec(self.text_spec())[i],
    {
        let chars = chars_of(self.text.as_str());
        let lines = split_char(&chars, '\n');
        let n = lines.len();
        let mut rows: Vec<Row> = Vec::new();
        let ghost all = seq_views(lines@).drop_first();
        proof {
            assert(all.skip(n - 1) =~= Seq::<Seq<char>>::empty());
        }
        let mut i: usize = n;
        while i > 1
            invariant
                1 <= i <= n || (n == 0 && i == n),
                n == lines@.len(),
                n >= 1,
                all == seq_views(lines@).drop_first(),
                rows@.len() == kept_lines(all.skip(i - 1)).len(),
                forall|k: int|
                    0 <= k < rows@.len() ==> row_view(rows@[k]@) == kept_lines(all.skip(i - 1)).map_values(
                        |l: Seq<char>| row_of_line(l),
                    )[k],
            decreases i,
        {
            i -= 1;
            let mut line = lines[i].clone();
            proof {
                assert(line@ == lines@[i as int]@);
                assert(all.skip(i - 1)[0] == lines@[i as int]@);
                assert(all.skip(i - 1).drop_first() =~= all.skip(i as int));
            }
            if line.len() > 0 && line[line.len() - 1] == '\r' {
                line.pop();
            }
            proof {
                assert(line@ =~= chop_cr(all.skip(i - 1)[0]));
            }
            if line.len() > 0 {
                let row = row_cells(&line);
                rows.insert(0, row);
            }
            proof {
                let kl = kept_lines(all.skip(i - 1));
                assert(kl.map_values(|l: Seq<char>| row_of_line(l)).len() == kl.len());
            }
        }
        proof {
            if n > 1 {
                assert(all.skip(0) =~= all);
            } else {
                assert(all =~= Seq::<Seq<char>>::empty());
            }
            assert(rows_spec(self.text_spec()) == kept_lines(all).map_values(
                |l: Seq<char>| row_of_line(l),
            ));
        }
        rows
    }
}

/// The cells of one row line.
fn row_cells(line: &Vec<char>) -> (r: Row)
    ensures
        row_view(r@) == row_of_line(line@),
{
    let fields = split_char(line, '\t');
    let m = fields.len();
    let null_text = chars_of("NULL");
    let mut row: Vec<ColumnValue> = Vec::new();
    let mut j: usize = 0;
    while j < m
        invariant
            j <= m,
            m == fields@.len(),
            null_text@ == "NULL"@,
            row@.len() == j,
            forall|k: int| 0 <= k < j ==> vv(row@[k]) == field_value(seq_views(fields@)[k]),
        decreases m - j,
    {
        if eq_chars(&fields[j], &null_text) {
            row.push(ColumnValue::Null);
        } else {
            row.push(ColumnValue::Text(string_of(&fields[j])));
        }
        j += 1;
    }
    proof {
        assert(row_view(row@) =~= split_spec(line@, '\t').map_values(
            |f: Seq<char>| field_value(f),
        ));
    }
    row
}

/// Mapping the untyped-column maker over a prepended name is the
/// prepended pair.
proof fn lemma_map_values_prepend(rest: Seq<Seq<char>>, t: Seq<char>)
    ensures
        untyped_cols(seq![t] + rest) == seq![(t, Option::<Seq<char>>::None)] + untyped_cols(rest),
{
    assert(untyped_cols(seq![t] + rest) =~= seq![(t, Option::<Seq<char>>::None)] + untyped_cols(
        rest,
    ));
}

impl QueryResult for ReaderQueryResult {
    open spec fn data_ens(
        self,
        cols: Result<Vec<Column>, QueryError>,
        rows: Vec<Result<Row, QueryError>>,
    ) -> bool {
        &&& cols matches Ok(cs) && cols_view(cs@) == header_spec(self.text_spec())
        &&& rows@.len() == rows_spec(self.text_spec()).len()
        &&& forall|i: int|
            0 <= i < rows@.len() ==> (#[trigger] rows@[i] matches Ok(row) && row_view(row@)
                == rows_spec(self.text_spec())[i])
    }

    fn get_data(self) -> (r: (Result<Vec<Column>, QueryError>, Vec<Result<Row, QueryError>>)) {
        let cols = self.get_columns();
        let raw = self.get_rows();
        let n = raw.len();
        let ghost spec_rows = rows_spec(self.text_spec());
        let mut rows: Vec<Result<Row, QueryError>> = Vec::new();
        let mut i: usize = 0;
        let ghost raw0 = raw@;
        let mut rem = raw;
        proof {
            assert(raw0.skip(0) =~= raw0);
        }
        let mut idx: usize = 0;
        while idx < n
            invariant
                idx <= n,
                n == raw0.len(),
                rem@ == raw0.skip(idx as int),
                rows@.len() == idx,
                forall|k: int|
                    0 <= k < idx ==> (#[trigger] rows@[k] matches Ok(row) && row_view(row@)
                        == row_view(raw0[k]@)),
            decreases n - idx,
        {
            let row = rem.remove(0);
            proof {
                assert(raw0.skip(idx as int)[0] == raw0[idx as int]);
                assert(raw0.skip(idx as int).drop_first() =~= raw0.skip(idx as int + 1));
            }
            rows.push(Ok(row));
            idx += 1;
        }
        (Ok(cols), rows)
    }
}

} // verus!
