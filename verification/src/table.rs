//! The survey table and its CSV reader.
use vstd::prelude::*;
use crate::text::{chars_of, concat_strings, decimal, decimal_string, push_char, string_from_chars};

verus! {

/// How the values of a column are to be read.
#[derive(Clone, Copy, Debug, PartialEq, Eq, Structural)]
pub enum TableColumnType {
    Unset,
    Numerical,
    Categorical,
}

/// One column of the survey table: its title, type, cells and whether it takes part.
#[derive(Clone)]
pub struct TableColumn {
    pub title: String,
    pub column_type: TableColumnType,
    pub column_entries: Vec<String>,
    pub enabled: bool,
}

/// The survey table: its columns, the rows left out, and the row count.
pub struct TableData {
    pub columns: Vec<TableColumn>,
    pub excluded_rows: Vec<u32>,
    pub number_rows: u32,
}

/// A column taken as plain values.
pub struct ColumnView {
    pub title: Seq<char>,
    pub column_type: TableColumnType,
    pub column_entries: Seq<Seq<char>>,
    pub enabled: bool,
}

/// A table taken as plain values.
pub struct TableView {
    pub columns: Seq<ColumnView>,
    pub excluded_rows: Seq<u32>,
    pub number_rows: u32,
}

impl View for TableColumn {
    type V = ColumnView;

    open spec fn view(&self) -> ColumnView {
        ColumnView {
            title: self.title@,
            column_type: self.column_type,
            column_entries: self.column_entries.deep_view(),
            enabled: self.enabled,
        }
    }
}

impl View for TableData {
    type V = TableView;

    open spec fn view(&self) -> TableView {
        TableView {
            columns: self.columns@.map_values(|c: TableColumn| c@),
            excluded_rows: self.excluded_rows@,
            number_rows: self.number_rows,
        }
    }
}

/// A table with no columns and no rows.
pub open spec fn empty_table() -> TableView {
    TableView { columns: seq![], excluded_rows: seq![], number_rows: 0 }
}

impl Default for TableData {
    fn default() -> (r: Self)
        ensures
            r@ == empty_table(),
    {
        let r = TableData { columns: Vec::new(), excluded_rows: Vec::new(), number_rows: 0 };
        assert(r@.columns =~= Seq::<ColumnView>::empty());
        r
    }
}

/// The table shown after a CSV import: the imported one when the file was
/// picked, read and parsed; otherwise the project's saved table, or an
/// empty table when the project has none.
pub fn choose_imported_table(imported: Option<TableData>, saved: Option<TableData>) -> (r: TableData)
    ensures
        imported matches Some(t) ==> r@ == t@,
        imported is None ==> (saved matches Some(t) ==> r@ == t@),
        imported is None && saved is None ==> r@ == empty_table(),
{
    match imported {
        Some(t) => t,
        None => match saved {
            Some(t) => t,
            None => TableData::default(),
        },
    }
}

/// Scanning state of the CSV field splitter after some prefix of a line.
pub struct SplitState {
    pub fields: Seq<Seq<char>>,
    pub current: Seq<char>,
    pub in_quotes: bool,
}

/// The splitter's state after reading `s`: a double quote toggles quoting and is
/// dropped, a comma outside quotes ends the current field, every other
/// character joins the current field.
pub open spec fn split_scan(s: Seq<char>) -> SplitState
    decreases s.len(),
{
    if s.len() == 0 {
        SplitState { fields: seq![], current: seq![], in_quotes: false }
    } else {
        let st = split_scan(s.drop_last());
        let c = s.last();
        if c == '"' {
            SplitState { fields: st.fields, current: st.current, in_quotes: !st.in_quotes }
        } else if c == ',' && !st.in_quotes {
            SplitState { fields: st.fields.push(st.current), current: seq![], in_quotes: st.in_quotes }
        } else {
            SplitState { fields: st.fields, current: st.current.push(c), in_quotes: st.in_quotes }
        }
    }
}

/// The fields of one CSV line.
pub open spec fn csv_fields(s: Seq<char>) -> Seq<Seq<char>> {
    let st = split_scan(s);
    st.fields.push(st.current)
}

/// A line without the carriage return that ends it, if any.
pub open spec fn strip_cr(l: Seq<char>) -> Seq<char> {
    if l.len() > 0 && l.last() == '\r' {
        l.drop_last()
    } else {
        l
    }
}

/// Lines finished by a line feed after reading `s`, and the unfinished rest.
pub open spec fn line_scan(s: Seq<char>) -> (Seq<Seq<char>>, Seq<char>)
    decreases s.len(),
{
    if s.len() == 0 {
        (seq![], seq![])
    } else {
        let (done, cur) = line_scan(s.drop_last());
        if s.last() == '\n' {
            (done.push(strip_cr(cur)), seq![])
        } else {
            (done, cur.push(s.last()))
        }
    }
}

/// The lines of `s` as std's `str::lines` gives them: split at `\n`, a `\r`
/// before that `\n` dropped, and no empty last line after a final `\n`.
pub open spec fn text_lines(s: Seq<char>) -> Seq<Seq<char>> {
    let (done, cur) = line_scan(s);
    if cur.len() == 0 {
        done
    } else {
        done.push(cur)
    }
}

/// The cells of column `j`: field `j` of each row that has one, in row order.
pub open spec fn column_cells(rows: Seq<Seq<Seq<char>>>, j: int) -> Seq<Seq<char>>
    decreases rows.len(),
{
    if rows.len() == 0 {
        seq![]
    } else {
        let prev = column_cells(rows.drop_last(), j);
        if j < rows.last().len() {
            prev.push(rows.last()[j])
        } else {
            prev
        }
    }
}

/// The data rows of a CSV text: the fields of every line after the header.
pub open spec fn csv_body(csv: Seq<char>) -> Seq<Seq<Seq<char>>> {
    text_lines(csv).skip(1).map_values(|l: Seq<char>| csv_fields(l))
}

/// The header fields of a CSV text.
pub open spec fn csv_headers(csv: Seq<char>) -> Seq<Seq<char>> {
    csv_fields(text_lines(csv)[0])
}

/// Data row `i` has more fields than there are headers.
pub open spec fn row_too_long(csv: Seq<char>, i: int) -> bool {
    0 <= i < csv_body(csv).len() && csv_body(csv)[i].len() > csv_headers(csv).len()
}

/// The table that a well-formed CSV text describes.
pub open spec fn csv_table(csv: Seq<char>) -> TableView {
    let headers = csv_headers(csv);
    let body = csv_body(csv);
    TableView {
        columns: Seq::new(
            headers.len(),
            |j: int|
                ColumnView {
                    title: headers[j],
                    column_type: TableColumnType::Unset,
                    column_entries: column_cells(body, j),
                    enabled: true,
                },
        ),
        excluded_rows: seq![],
        number_rows: body.len() as u32,
    }
}

fn lines_of(s: &Vec<char>) -> (r: Vec<String>)
    ensures
        r.deep_view() == text_lines(s@),
{
    let mut done: Vec<String> = Vec::new();
    let mut cur = String::new();
    let mut cur_len: usize = 0;
    let mut i: usize = 0;
    while i < s.len()
        invariant
            i <= s.len(),
            cur_len == cur@.len(),
            cur_len <= i,
            (done.deep_view(), cur@) == line_scan(s@.take(i as int)),
        decreases s.len() - i,
    {
        let c = s[i];
        assert(s@.take(i + 1).drop_last() =~= s@.take(i as int));
        if c == '\n' {
            let cs = chars_of(cur.as_str());
            let line = if cs.len() > 0 && cs[cs.len() - 1] == '\r' {
                string_from_chars(&cs, 0, cs.len() - 1)
            } else {
                string_from_chars(&cs, 0, cs.len())
            };
            assert(cs@.subrange(0, cs.len() as int) =~= cs@);
            assert(cs@.subrange(0, cs.len() - 1) =~= cs@.drop_last());
            let ghost prev = done.deep_view();
            done.push(line);
            assert(done.deep_view() =~= prev.push(strip_cr(cur@)));
            cur = String::new();
            cur_len = 0;
        } else {
            push_char(&mut cur, c);
            cur_len = cur_len + 1;
        }
        i = i + 1;
    }
    assert(s@.take(s.len() as int) =~= s@);
    if cur_len > 0 {
        let ghost prev = done.deep_view();
        done.push(cur);
        assert(done.deep_view() =~= prev.push(text_lines(s@).last()));
    }
    done
}

/// The header row of a parsed table, or the number of the first data row
/// (counted from 0) that has more fields than the header.
fn first_long_row(rows: &Vec<Vec<String>>, width: usize) -> (r: Option<usize>)
    ensures
        match r {
            Some(i) => i < rows.len() && rows@[i as int].len() > width
                && forall|k: int| 0 <= k < i ==> rows@[k].len() <= width,
            None => forall|k: int| 0 <= k < rows.len() ==> rows@[k].len() <= width,
        },
{
    let mut i: usize = 0;
    while i < rows.len()
        invariant
            i <= rows.len(),
            forall|k: int| 0 <= k < i ==> rows@[k].len() <= width,
        decreases rows.len() - i,
    {
        if rows[i].len() > width {
            return Some(i);
        }
        i = i + 1;
    }
    None
}

fn column_of(rows: &Vec<Vec<String>>, j: usize) -> (r: Vec<String>)
    ensures
        r.deep_view() == column_cells(rows@.map_values(|f: Vec<String>| f.deep_view()), j as int),
{
    let ghost deep = rows@.map_values(|f: Vec<String>| f.deep_view());
    let mut r: Vec<String> = Vec::new();
    let mut i: usize = 0;
    while i < rows.len()
        invariant
            i <= rows.len(),
            deep == rows@.map_values(|f: Vec<String>| f.deep_view()),
            r.deep_view() == column_cells(deep.take(i as int), j as int),
        decreases rows.len() - i,
    {
        assert(deep.take(i + 1).drop_last() =~= deep.take(i as int));
        assert(deep.take(i + 1).last() == rows@[i as int].deep_view());
        if j < rows[i].len() {
            let ghost prev = r.deep_view();
            let cell = rows[i][j].clone();
            r.push(cell);
            assert(r.deep_view() =~= prev.push(rows@[i as int].deep_view()[j as int]));
        }
        i = i + 1;
    }
    assert(deep.take(rows.len() as int) =~= deep);
    r
}

/// Fields joined by commas.
pub open spec fn join_fields(fields: Seq<Seq<char>>) -> Seq<char>
    decreases fields.len(),
{
    if fields.len() == 0 {
        seq![]
    } else if fields.len() == 1 {
        fields[0]
    } else {
        join_fields(fields.drop_last()) + seq![','] + fields.last()
    }
}

/// A field holding neither a comma nor a double quote.
pub open spec fn plain_field(f: Seq<char>) -> bool {
    !f.contains(',') && !f.contains('"')
}

proof fn lemma_scan_plain_suffix(a: Seq<char>, b: Seq<char>)
    requires
        plain_field(b),
        !split_scan(a).in_quotes,
    ensures
        split_scan(a + b) == (SplitState {
            fields: split_scan(a).fields,
            current: split_scan(a).current + b,
            in_quotes: false,
        }),
    decreases b.len(),
{
    if b.len() == 0 {
        assert(a + b =~= a);
        assert(split_scan(a).current + b =~= split_scan(a).current);
    } else {
        let pre = b.drop_last();
        assert(plain_field(pre)) by {
            if pre.contains(',') {
                let k = choose|k: int| 0 <= k < pre.len() && pre[k] == ',';
                assert(b[k] == ',');
            }
            if pre.contains('"') {
                let k = choose|k: int| 0 <= k < pre.len() && pre[k] == '"';
                assert(b[k] == '"');
            }
        }
        lemma_scan_plain_suffix(a, pre);
        assert((a + b).drop_last() =~= a + pre);
        assert((a + b).last() == b.last());
        assert(b[b.len() - 1] != ',' && b[b.len() - 1] != '"');
        assert(split_scan(a).current + pre.push(b.last()) =~= split_scan(a).current + b);
        assert(pre.push(b.last()) =~= b);
        assert((split_scan(a).current + pre).push(b.last()) =~= split_scan(a).current + b);
    }
}

proof fn lemma_scan_join(fields: Seq<Seq<char>>)
    requires
        fields.len() >= 1,
        forall|k: int| 0 <= k < fields.len() ==> plain_field(#[trigger] fields[k]),
    ensures
        split_scan(join_fields(fields)) == (SplitState {
            fields: fields.drop_last(),
            current: fields.last(),
            in_quotes: false,
        }),
    decreases fields.len(),
{
    if fields.len() == 1 {
        let e: Seq<char> = seq![];
        assert(split_scan(e) == (SplitState { fields: seq![], current: seq![], in_quotes: false }));
        lemma_scan_plain_suffix(e, fields[0]);
        assert(e + fields[0] =~= fields[0]);
        assert(fields.drop_last() =~= Seq::<Seq<char>>::empty());
        assert(Seq::<char>::empty() + fields[0] =~= fields[0]);
    } else {
        let prev = fields.drop_last();
        assert forall|k: int| 0 <= k < prev.len() implies plain_field(#[trigger] prev[k]) by {
            assert(prev[k] == fields[k]);
        }
        lemma_scan_join(prev);
        let head = join_fields(prev) + seq![','];
        assert(head.drop_last() =~= join_fields(prev));
        assert(split_scan(head) == (SplitState { fields: prev, current: seq![], in_quotes: false })) by {
            assert(prev.drop_last().push(prev.last()) =~= prev);
        }
        assert(plain_field(fields.last())) by {
            assert(fields.last() == fields[fields.len() - 1]);
        }
        lemma_scan_plain_suffix(head, fields.last());
        assert(Seq::<char>::empty() + fields.last() =~= fields.last());
    }
}

/// Fields holding no comma and no double quote, joined by commas, split
/// back into the same fields.
pub proof fn law_split_join_roundtrip(fields: Seq<Seq<char>>)
    requires
        fields.len() >= 1,
        forall|k: int| 0 <= k < fields.len() ==> plain_field(#[trigger] fields[k]),
    ensures
        csv_fields(join_fields(fields)) == fields,
{
    lemma_scan_join(fields);
    assert(fields.drop_last().push(fields.last()) =~= fields);
}

proof fn lemma_scan_quoted_suffix(a: Seq<char>, b: Seq<char>)
    requires
        !b.contains('"'),
        split_scan(a).in_quotes,
    ensures
        split_scan(a + b) == (SplitState {
            fields: split_scan(a).fields,
            current: split_scan(a).current + b,
            in_quotes: true,
        }),
    decreases b.len(),
{
    if b.len() == 0 {
        assert(a + b =~= a);
        assert(split_scan(a).current + b =~= split_scan(a).current);
    } else {
        let pre = b.drop_last();
        assert(!pre.contains('"')) by {
            if pre.contains('"') {
                let k = choose|k: int| 0 <= k < pre.len() && pre[k] == '"';
                assert(b[k] == '"');
            }
        }
        lemma_scan_quoted_suffix(a, pre);
        assert((a + b).drop_last() =~= a + pre);
        assert(b[b.len() - 1] != '"');
        assert((split_scan(a).current + pre).push(b.last()) =~= split_scan(a).current + b);
    }
}

/// A field between double quotes is one field, commas included, and the
/// quotes are dropped.
pub proof fn law_quoted_field(f: Seq<char>)
    requires
        !f.contains('"'),
    ensures
        csv_fields(seq!['"'] + f + seq!['"']) == seq![f],
{
    let open: Seq<char> = seq!['"'];
    let e: Seq<char> = seq![];
    assert(open.drop_last() =~= e);
    assert(split_scan(e) == (SplitState { fields: seq![], current: seq![], in_quotes: false }));
    assert(open.last() == '"');
    assert(split_scan(open) == (SplitState { fields: seq![], current: seq![], in_quotes: true }));
    lemma_scan_quoted_suffix(open, f);
    let body = open + f;
    let line = body + seq!['"'];
    assert(line.drop_last() =~= body);
    assert(line.last() == '"');
    assert(Seq::<char>::empty() + f =~= f);
    assert(split_scan(body) == (SplitState { fields: seq![], current: f, in_quotes: true }));
    assert(split_scan(line) == (SplitState { fields: seq![], current: f, in_quotes: false }));
    assert(Seq::<Seq<char>>::empty().push(f) =~= seq![f]);
}

impl TableData {
    /// Reads a CSV text. The first line gives the column titles; every later
    /// line gives one row, its fields filling the columns from the left. A
    /// text with no line fails with "Bad CSV headers"; a row with more fields
    /// than there are titles fails with "Bad CSV at line N", N counting data
    /// rows from 0.
    pub fn from_csv(csv: String) -> (r: Result<Self, String>)
        ensures
            text_lines(csv@).len() == 0 ==> (r matches Err(e) && e@ == "Bad CSV headers"@),
            text_lines(csv@).len() > 0 && (exists|i: int| row_too_long(csv@, i))
                ==> (r matches Err(e) && exists|i: int|
                    #![trigger row_too_long(csv@, i)]
                    row_too_long(csv@, i)
                    && (forall|k: int| 0 <= k < i ==> !row_too_long(csv@, k))
                    && e@ == "Bad CSV at line "@ + decimal(i as nat)),
            text_lines(csv@).len() > 0 && (forall|i: int| !row_too_long(csv@, i))
                ==> (r matches Ok(t) && t@ == csv_table(csv@)),
    {
        let cs = chars_of(csv.as_str());
        let lines = lines_of(&cs);
        if lines.len() == 0 {
            return Err("Bad CSV headers".to_owned());
        }
        let headers = Self::split_csv(&lines[0].as_str());
        let ghost body_spec = csv_body(csv@);
        let mut rows: Vec<Vec<String>> = Vec::new();
        let mut k: usize = 1;
        while k < lines.len()
            invariant
                1 <= k <= lines.len(),
                lines.deep_view() == text_lines(csv@),
                body_spec == csv_body(csv@),
                rows.len() == k - 1,
                forall|m: int| 0 <= m < k - 1 ==> rows@[m].deep_view() == body_spec[m],
            decreases lines.len() - k,
        {
            let fields = Self::split_csv(&lines[k].as_str());
            assert(fields.deep_view() == body_spec[k - 1]);
            rows.push(fields);
            k = k + 1;
        }
        let ghost deep = rows@.map_values(|f: Vec<String>| f.deep_view());
        assert(deep =~= body_spec);
        match first_long_row(&rows, headers.len()) {
            Some(i) => {
                assert(row_too_long(csv@, i as int));
                let prefix = "Bad CSV at line ".to_owned();
                let number = decimal_string(i);
                return Err(concat_strings(&prefix, &number));
            },
            None => {},
        }
        let mut columns: Vec<TableColumn> = Vec::new();
        let mut j: usize = 0;
        while j < headers.len()
            invariant
                j <= headers.len(),
                headers.deep_view() == csv_headers(csv@),
                deep == body_spec,
                body_spec == csv_body(csv@),
                deep == rows@.map_values(|f: Vec<String>| f.deep_view()),
                columns.len() == j,
                forall|m: int| 0 <= m < j ==> (#[trigger] columns@[m])@ == csv_table(csv@).columns[m],
            decreases headers.len() - j,
        {
            let entries = column_of(&rows, j);
            let title = headers[j].clone();
            assert(title@ == csv_headers(csv@)[j as int]);
            let column = TableColumn {
                title,
                column_type: TableColumnType::Unset,
                column_entries: entries,
                enabled: true,
            };
            assert(column@ == csv_table(csv@).columns[j as int]);
            columns.push(column);
            j = j + 1;
        }
        let t = TableData {
            columns,
            number_rows: #[verifier::truncate] ((lines.len() - 1) as u32),
            excluded_rows: Vec::new(),
        };
        assert(t@.columns =~= csv_table(csv@).columns);
        Ok(t)
    }

    /// Splits one CSV line into its fields: commas separate fields except
    /// between double quotes, and the quotes themselves are dropped.
    pub fn split_csv(input_string: &&str) -> (r: Vec<String>)
        ensures
            r.deep_view() == csv_fields(input_string@),
    {
        let cs = chars_of(*input_string);
        let mut split_out: Vec<String> = Vec::new();
        let mut cur_string = String::new();
        let mut in_quotes = false;
        let mut i: usize = 0;
        assert(cs@.take(0) =~= Seq::<char>::empty());
        assert(split_out.deep_view() =~= Seq::<Seq<char>>::empty());
        while i < cs.len()
            invariant
                i <= cs.len(),
                cs@ == input_string@,
                split_scan(cs@.take(i as int)) == (SplitState {
                    fields: split_out.deep_view(),
                    current: cur_string@,
                    in_quotes,
                }),
            decreases cs.len() - i,
        {
            let c = cs[i];
            assert(cs@.take(i + 1).drop_last() =~= cs@.take(i as int));
            if c == '"' {
                in_quotes = !in_quotes;
            } else if c == ',' && !in_quotes {
                let ghost prev = split_out.deep_view();
                let ghost cur = cur_string@;
                split_out.push(cur_string);
                assert(split_out.deep_view() =~= prev.push(cur));
                cur_string = String::new();
            } else {
                push_char(&mut cur_string, c);
            }
            i = i + 1;
        }
        assert(cs@.take(cs.len() as int) =~= cs@);
        let ghost prev = split_out.deep_view();
        let ghost cur = cur_string@;
        split_out.push(cur_string);
        assert(split_out.deep_view() =~= prev.push(cur));
        split_out
    }
}

} // verus!
