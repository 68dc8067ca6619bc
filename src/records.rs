//! Rows of a tabular extract: column name to raw text, and their parsing
//! from CSV bytes.
use vstd::prelude::*;

verus! {

/// One record of an extract: its fields as (column, raw text) pairs.
#[derive(Clone, Debug)]
pub struct Row {
    pub fields: Vec<(String, String)>,
}

/// The value of a column: the last field of that name, if any.
pub open spec fn field_value(fields: Seq<(Seq<char>, Seq<char>)>, k: Seq<char>) -> Option<Seq<char>>
    decreases fields.len(),
{
    if fields.len() == 0 {
        None
    } else if fields.last().0 == k {
        Some(fields.last().1)
    } else {
        field_value(fields.drop_last(), k)
    }
}

/// The value of a column, or the empty text when the row has none.
pub open spec fn field_or_empty(fields: Seq<(Seq<char>, Seq<char>)>, k: Seq<char>) -> Seq<char> {
    match field_value(fields, k) {
        Some(v) => v,
        None => Seq::empty(),
    }
}

/// The value of the last pair with a given key.
pub fn lookup<'a>(fields: &'a Vec<(String, String)>, key: &str) -> (r: Option<&'a String>)
    ensures
        match r {
            Some(v) => field_value(fields.deep_view(), key@) == Some(v@),
            None => field_value(fields.deep_view(), key@) is None,
        },
{
    let ghost fv = fields.deep_view();
    let k = String::from_str(key);
    let mut i = fields.len();
    assert(fv.take(i as int) == fv);
    while i > 0
        invariant
            i <= fields.len(),
            k@ == key@,
            fv == fields.deep_view(),
            field_value(fv, key@) == field_value(fv.take(i as int), key@),
        decreases i,
    {
        let ghost t = fv.take(i as int);
        assert(t.drop_last() == fv.take(i - 1));
        assert(t.last() == fv[i - 1]);
        assert(fv[i - 1] == (fields@[i - 1].0@, fields@[i - 1].1@));
        if fields[i - 1].0 == k {
            return Some(&fields[i - 1].1);
        }
        i -= 1;
    }
    None
}

impl Row {
    pub open spec fn view(&self) -> Seq<(Seq<char>, Seq<char>)> {
        self.fields.deep_view()
    }

    /// A row with no fields.
    pub fn new() -> (r: Row)
        ensures
            r@ == Seq::<(Seq<char>, Seq<char>)>::empty(),
    {
        let r = Row { fields: Vec::new() };
        assert(r@ =~= Seq::<(Seq<char>, Seq<char>)>::empty());
        r
    }

    /// Adds a field at the end.
    pub fn push_field(&mut self, key: String, value: String)
        ensures
            final(self)@ == old(self)@.push((key@, value@)),
    {
        let ghost before = self@;
        self.fields.push((key, value));
        assert(self@ =~= before.push((key@, value@)));
    }

    /// The value of a column.
    pub fn get(&self, key: &str) -> (r: Option<&String>)
        ensures
            match r {
                Some(v) => field_value(self@, key@) == Some(v@),
                None => field_value(self@, key@) is None,
            },
    {
        lookup(&self.fields, key)
    }

    /// The value of a column, or the empty text.
    pub fn get_or_empty(&self, key: &str) -> (r: String)
        ensures
            r@ == field_or_empty(self@, key@),
    {
        match self.get(key) {
            Some(v) => v.clone(),
            None => String::new(),
        }
    }
}

/// The header and the records that a CSV text holds, as the `csv` crate
/// reads them, or nothing when the reader reports an error.
pub uninterp spec fn csv_table_of(data: Seq<u8>) -> Option<(Seq<Seq<char>>, Seq<Seq<Seq<char>>>)>;

/// Relies on `csv::Reader` over a byte slice, with its default settings: the
/// first record is the header, and both the table and whether the reader
/// reports an error depend on the bytes alone.
#[verifier::external_body]
fn read_csv_table(data: &[u8]) -> (r: Option<(Vec<String>, Vec<Vec<String>>)>)
    ensures
        match r {
            Some(t) => csv_table_of(data@) == Some((t.0.deep_view(), t.1.deep_view())),
            None => csv_table_of(data@) is None,
        },
{
    let mut reader = csv::Reader::from_reader(data);
    let headers: Vec<String> = reader.headers().ok()?.iter().map(String::from).collect();
    let mut records = Vec::new();
    for record in reader.records() {
        records.push(record.ok()?.iter().map(String::from).collect());
    }
    Some((headers, records))
}

/// A record paired with the header, column by column, up to the shorter of
/// the two.
pub open spec fn zip_fields(headers: Seq<Seq<char>>, values: Seq<Seq<char>>) -> Seq<(Seq<char>, Seq<char>)> {
    Seq::new(
        if headers.len() < values.len() { headers.len() } else { values.len() },
        |j: int| (headers[j], values[j]),
    )
}

/// Pairs each record with the header.
pub fn rows_from_table(headers: &Vec<String>, records: &Vec<Vec<String>>) -> (r: Vec<Row>)
    ensures
        r.len() == records.len(),
        forall|i: int| 0 <= i < r.len() ==> #[trigger] r[i]@ == zip_fields(headers.deep_view(), records.deep_view()[i]),
{
    let mut rows: Vec<Row> = Vec::new();
    for i in 0..records.len()
        invariant
            rows.len() == i,
            forall|k: int| 0 <= k < i ==> #[trigger] rows[k]@ == zip_fields(headers.deep_view(), records.deep_view()[k]),
    {
        let rec = &records[i];
        let n = if headers.len() < rec.len() { headers.len() } else { rec.len() };
        let mut row = Row::new();
        for j in 0..n
            invariant
                n <= headers.len(),
                n <= rec.len(),
                row@ == zip_fields(headers.deep_view(), rec.deep_view()).take(j as int),
        {
            let ghost before = row@;
            row.push_field(headers[j].clone(), rec[j].clone());
            assert(row@ =~= zip_fields(headers.deep_view(), rec.deep_view()).take(j + 1));
        }
        assert(zip_fields(headers.deep_view(), rec.deep_view()).take(n as int) =~= zip_fields(headers.deep_view(), rec.deep_view()));
        assert(records.deep_view()[i as int] == rec.deep_view());
        rows.push(row);
    }
    rows
}

/// Parses the records of a CSV text into rows keyed by the header; gives
/// nothing exactly when the text is not a table the reader accepts.
pub fn parse_rows(data: &[u8]) -> (r: Option<Vec<Row>>)
    ensures
        r is Some <==> csv_table_of(data@) is Some,
        r matches Some(rows) ==> (csv_table_of(data@) matches Some(t) && rows.len() == t.1.len()
            && forall|i: int| 0 <= i < rows.len() ==> #[trigger] rows[i]@ == zip_fields(t.0, t.1[i])),
{
    match read_csv_table(data) {
        Some((headers, records)) => Some(rows_from_table(&headers, &records)),
        None => None,
    }
}

} // verus!
