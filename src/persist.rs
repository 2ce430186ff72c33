//! The flat file format: one line per record, three delimited fields
//! (description, completion flag, category), no header line.
use vstd::prelude::*;
use vstd::string::StringExecFns;
use vstd::string::StrSliceExecFns;
use vstd::utf8::encode_utf8;

use crate::record::{views, TaskView, TodoItem};
use crate::store::string_views;
use crate::text::str_eq;

verus! {

/// `f` with each quote character doubled.
pub open spec fn double_quotes(f: Seq<char>) -> Seq<char>
    decreases f.len(),
{
    if f.len() == 0 {
        Seq::empty()
    } else {
        (if f[0] == '"' {
            seq!['"', '"']
        } else {
            seq![f[0]]
        }) + double_quotes(f.drop_first())
    }
}

/// A field that has to stand in quotes: it holds the delimiter, a quote or a
/// line break.
pub open spec fn needs_quotes(f: Seq<char>) -> bool {
    exists|i: int|
        0 <= i < f.len() && (#[trigger] f[i] == ',' || f[i] == '"' || f[i] == '\r' || f[i] == '\n')
}

/// A field in quotes, with its quotes doubled.
pub open spec fn quoted(f: Seq<char>) -> Seq<char> {
    seq!['"'] + double_quotes(f) + seq!['"']
}

/// A field as it stands in a line of the file: in quotes where it needs them
/// or where every field of the line is quoted, as it is otherwise.
pub open spec fn csv_field(f: Seq<char>, quote_all: bool) -> Seq<char> {
    if quote_all || needs_quotes(f) {
        quoted(f)
    } else {
        f
    }
}

/// A line of three fields, with its terminator.
pub open spec fn csv_line(a: Seq<char>, b: Seq<char>, c: Seq<char>, quote_all: bool) -> Seq<
    char,
> {
    csv_field(a, quote_all) + seq![','] + csv_field(b, quote_all) + seq![','] + csv_field(
        c,
        quote_all,
    ) + seq!['\n']
}

/// The text starts with a byte order mark, which the reader drops.
pub open spec fn starts_with_bom(s: Seq<char>) -> bool {
    s.len() > 0 && s[0] == '\u{feff}'
}

/// The line of a row of three fields: all fields are quoted where the first
/// one starts with a byte order mark, so that the mark is read back.
pub open spec fn row_line(row: Seq<Seq<char>>) -> Seq<char> {
    csv_line(row[0], row[1], row[2], starts_with_bom(row[0]))
}

/// Rows of three fields each, written one after the other.
pub open spec fn csv_document(rows: Seq<Seq<Seq<char>>>) -> Seq<char>
    decreases rows.len(),
{
    if rows.len() == 0 {
        Seq::empty()
    } else {
        csv_document(rows.drop_last()) + row_line(rows.last())
    }
}

/// Every row has three fields.
pub open spec fn three_fields(rows: Seq<Seq<Seq<char>>>) -> bool {
    forall|k: int| 0 <= k < rows.len() ==> (#[trigger] rows[k]).len() == 3
}


/// The records that the delimited-text reader finds in the bytes of a file,
/// each as its fields, or as nothing where the reader failed on it.
pub uninterp spec fn csv_rows_of(bytes: Seq<u8>) -> Seq<Option<Seq<Seq<char>>>>;

/// What a list of read records holds, as plain values.
pub open spec fn row_views(r: Seq<Option<Vec<String>>>) -> Seq<Option<Seq<Seq<char>>>> {
    r.map_values(
        |o: Option<Vec<String>>|
            match o {
                Some(v) => Some(string_views(v@)),
                None => None,
            },
    )
}

/// Relies on csv::Writer with no header row and otherwise the default
/// configuration, whose quote style is `QuoteStyle::Necessary`: the fields
/// are joined by commas and ended by a line feed, and a field holding a
/// comma, a quote, a carriage return or a line feed is put in quotes, with
/// its quotes doubled. With `quote_all` the style is `QuoteStyle::Always`,
/// which puts every field in quotes.
#[verifier::external_body]
fn write_csv_line(a: &str, b: &str, c: &str, quote_all: bool) -> (r: String)
    ensures
        r@ == csv_line(a@, b@, c@, quote_all),
{
    let style = if quote_all { csv::QuoteStyle::Always } else { csv::QuoteStyle::Necessary };
    let mut wtr = csv::WriterBuilder::new().has_headers(false).quote_style(style).from_writer(
        Vec::new(),
    );
    let _ = wtr.write_record([a, b, c]);
    String::from_utf8(wtr.into_inner().unwrap_or_default()).unwrap_or_default()
}

/// Relies on csv::Reader with no header row and records of any length: each
/// record's fields, in order, and an error for a record that is not UTF-8.
/// The UTF-8 bytes of text that the writer above produced from rows of three
/// fields read back as those rows, unless a byte order mark opens the text.
#[verifier::external_body]
fn read_csv_records(bytes: &[u8]) -> (r: Vec<Option<Vec<String>>>)
    ensures
        row_views(r@) == csv_rows_of(bytes@),
        forall|rows: Seq<Seq<Seq<char>>>|
            three_fields(rows) && encode_utf8(#[trigger] csv_document(rows)) == bytes@
                && !starts_with_bom(csv_document(rows)) ==> row_views(r@) == rows.map_values(
                |x: Seq<Seq<char>>| Some(x),
            ),
{
    let mut rdr = csv::ReaderBuilder::new().has_headers(false).flexible(true).from_reader(bytes);
    rdr.records().map(|rec| rec.ok().map(|rec| rec.iter().map(String::from).collect())).collect()
}

/// The token for `true`.
pub open spec fn true_token() -> Seq<char> {
    seq!['t', 'r', 'u', 'e']
}

/// The token for `false`.
pub open spec fn false_token() -> Seq<char> {
    seq!['f', 'a', 'l', 's', 'e']
}

/// How a completion flag is written.
pub open spec fn flag_token(b: bool) -> Seq<char> {
    if b {
        true_token()
    } else {
        false_token()
    }
}

/// The fields of a record, in file order.
pub open spec fn record_row(t: TaskView) -> Seq<Seq<char>> {
    seq![t.description, flag_token(t.completed), t.category]
}

/// The rows of a list of records.
pub open spec fn record_rows(s: Seq<TaskView>) -> Seq<Seq<Seq<char>>> {
    s.map_values(|t: TaskView| record_row(t))
}

/// The record that a row of fields holds, if it is one.
pub open spec fn row_record(row: Seq<Seq<char>>) -> Option<TaskView> {
    if row.len() == 3 && (row[1] == true_token() || row[1] == false_token()) {
        Some(TaskView { description: row[0], completed: row[1] == true_token(), category: row[2] })
    } else {
        None
    }
}

/// The records among the read rows, in order; the others are skipped.
pub open spec fn parse_rows(rows: Seq<Option<Seq<Seq<char>>>>) -> Seq<TaskView>
    decreases rows.len(),
{
    if rows.len() == 0 {
        Seq::empty()
    } else {
        let rest = parse_rows(rows.drop_last());
        match rows.last() {
            Some(row) => match row_record(row) {
                Some(t) => rest.push(t),
                None => rest,
            },
            None => rest,
        }
    }
}

/// The token that a completion flag is written as.
pub fn flag_str(b: bool) -> (r: &'static str)
    ensures
        r@ == flag_token(b),
{
    if b {
        proof {
            reveal_strlit("true");
        }
        "true"
    } else {
        proof {
            reveal_strlit("false");
        }
        "false"
    }
}

/// The file text for the given records.
pub fn encode_records(records: &Vec<TodoItem>) -> (r: String)
    ensures
        r@ == csv_document(record_rows(views(records@))),
{
    let mut out = String::new();
    let mut i: usize = 0;
    while i < records.len()
        invariant
            i <= records@.len(),
            out@ == csv_document(record_rows(views(records@).take(i as int))),
        decreases records@.len() - i,
    {
        let t = &records[i];
        let d = t.description.as_str();
        let quote_all = d.unicode_len() > 0 && d.get_char(0) == '\u{feff}';
        let line = write_csv_line(d, flag_str(t.completed), t.category.as_str(), quote_all);
        out.append(line.as_str());
        proof {
            let s = views(records@);
            let rows = record_rows(s.take(i + 1));
            assert(rows.drop_last() =~= record_rows(s.take(i as int)));
            assert(rows.last() == record_row(t@));
        }
        i = i + 1;
    }
    assert(views(records@).take(records@.len() as int) =~= views(records@));
    out
}

/// The records among the read rows, in order: a row is kept where it has
/// three fields and the second is `true` or `false`.
pub fn records_from_rows(rows: &Vec<Option<Vec<String>>>) -> (r: Vec<TodoItem>)
    ensures
        views(r@) == parse_rows(row_views(rows@)),
{
    let mut r: Vec<TodoItem> = Vec::new();
    let mut i: usize = 0;
    while i < rows.len()
        invariant
            i <= rows@.len(),
            views(r@) == parse_rows(row_views(rows@).take(i as int)),
        decreases rows@.len() - i,
    {
        let ghost r0 = views(r@);
        proof {
            assert(row_views(rows@).take(i + 1).drop_last() =~= row_views(rows@).take(i as int));
        }
        match &rows[i] {
            Some(row) => {
                let ghost sv = string_views(row@);
                assert(row_views(rows@).take(i + 1).last() == Some(sv));
                if row.len() == 3 {
                    proof {
                        reveal_strlit("true");
                        reveal_strlit("false");
                        assert("true"@ =~= true_token());
                        assert("false"@ =~= false_token());
                    }
                    let t = str_eq(row[1].as_str(), "true");
                    let f = str_eq(row[1].as_str(), "false");
                    assert(sv[0] == row[0]@ && sv[1] == row[1]@ && sv[2] == row[2]@);
                    if t || f {
                        let item = TodoItem::new(row[0].as_str(), t, row[2].as_str());
                        r.push(item);
                        proof {
                            assert(views(r@) =~= r0.push(item@));
                        }
                    }
                }
            },
            None => {
                assert(row_views(rows@).take(i + 1).last() == None::<Seq<Seq<char>>>);
            },
        }
        i = i + 1;
    }
    assert(row_views(rows@).take(rows@.len() as int) =~= row_views(rows@));
    r
}

/// Rows of records read back as those records.
pub proof fn lemma_parse_record_rows(s: Seq<TaskView>)
    ensures
        parse_rows(record_rows(s).map_values(|x: Seq<Seq<char>>| Some(x))) == s,
    decreases s.len(),
{
    reveal_strlit("true");
    if s.len() > 0 {
        let rows = record_rows(s).map_values(|x: Seq<Seq<char>>| Some(x));
        assert(rows.drop_last() =~= record_rows(s.drop_last()).map_values(
            |x: Seq<Seq<char>>| Some(x),
        ));
        lemma_parse_record_rows(s.drop_last());
        let t = s.last();
        assert(true_token() != false_token()) by {
            assert(true_token().len() != false_token().len());
        }
        assert(row_record(record_row(t)) == Some(t));
        assert(s =~= s.drop_last().push(t));
    }
}

/// A written document never opens with a byte order mark.
pub proof fn lemma_document_has_no_bom(rows: Seq<Seq<Seq<char>>>)
    requires
        three_fields(rows),
    ensures
        !starts_with_bom(csv_document(rows)),
    decreases rows.len(),
{
    if rows.len() > 1 {
        lemma_document_has_no_bom(rows.drop_last());
        lemma_document_nonempty(rows.drop_last());
    } else if rows.len() == 1 {
        let row = rows.last();
        assert(rows[0].len() == 3);
        assert(csv_document(rows.drop_last()).len() == 0);
        assert(csv_document(rows) =~= row_line(row));
    }
}

/// A document of at least one row is not empty.
pub proof fn lemma_document_nonempty(rows: Seq<Seq<Seq<char>>>)
    requires
        rows.len() > 0,
    ensures
        csv_document(rows).len() > 0,
{
}

/// The records in the bytes of a file. A record that is not three fields,
/// with `true` or `false` second, or that is not UTF-8, is skipped. The bytes
/// of text written by `encode_records` load back as the records it was
/// written from.
pub fn load_records(bytes: &[u8]) -> (r: Vec<TodoItem>)
    ensures
        views(r@) == parse_rows(csv_rows_of(bytes@)),
        forall|rows: Seq<Seq<Seq<char>>>|
            three_fields(rows) && encode_utf8(#[trigger] csv_document(rows)) == bytes@
                && !starts_with_bom(csv_document(rows)) ==> views(r@) == parse_rows(
                rows.map_values(|x: Seq<Seq<char>>| Some(x)),
            ),
        forall|records: Seq<TaskView>|
            encode_utf8(#[trigger] csv_document(record_rows(records))) == bytes@ ==> views(r@)
                == records,
{
    let rows = read_csv_records(bytes);
    let r = records_from_rows(&rows);
    assert forall|records: Seq<TaskView>|
        encode_utf8(#[trigger] csv_document(record_rows(records))) == bytes@ implies views(r@)
        == records by {
        let rr = record_rows(records);
        assert(three_fields(rr));
        lemma_document_has_no_bom(rr);
        lemma_parse_record_rows(records);
    }
    r
}

} // verus!
