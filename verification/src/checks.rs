//! The checks run on the table before the model is configured, and the
//! list of rows left out.
use vstd::prelude::*;
use crate::table::{TableColumnType, TableData, TableView};

verus! {

/// The outcome of a table check: whether it passed and, if not, the column
/// `x` and row `y` it points at (`-1` where it points at none).
#[derive(Clone, Copy, Debug, PartialEq, Eq, Structural)]
pub struct CheckResult {
    pub ok: bool,
    pub x: i32,
    pub y: i32,
}

/// `s` without the first element equal to `x`, or `s` when there is none.
pub open spec fn remove_first<A>(s: Seq<A>, x: A) -> Seq<A>
    decreases s.len(),
{
    if s.len() == 0 {
        s
    } else if s[0] == x {
        s.drop_first()
    } else {
        seq![s[0]] + remove_first(s.drop_first(), x)
    }
}

/// The list of left-out rows after a row's box is ticked (`checked`: the row
/// is taken back, its first mention removed) or cleared (the row is added).
pub open spec fn mutated_rows(rows: Seq<i32>, checked: bool, row: i32) -> Seq<i32> {
    if checked {
        remove_first(rows, row)
    } else {
        rows.push(row)
    }
}

proof fn lemma_remove_first_at<A>(s: Seq<A>, x: A, i: int)
    requires
        0 <= i < s.len(),
        s[i] == x,
        forall|k: int| 0 <= k < i ==> s[k] != x,
    ensures
        remove_first(s, x) == s.remove(i),
    decreases s.len(),
{
    if i > 0 {
        lemma_remove_first_at(s.drop_first(), x, i - 1);
        assert(s.remove(i) =~= seq![s[0]] + s.drop_first().remove(i - 1));
    }
}

proof fn lemma_remove_first_absent<A>(s: Seq<A>, x: A)
    requires
        !s.contains(x),
    ensures
        remove_first(s, x) == s,
    decreases s.len(),
{
    if s.len() > 0 {
        assert(s[0] != x);
        assert(!s.drop_first().contains(x)) by {
            if s.drop_first().contains(x) {
                let k = choose|k: int| 0 <= k < s.drop_first().len() && s.drop_first()[k] == x;
                assert(s[k + 1] == x);
            }
        }
        lemma_remove_first_absent(s.drop_first(), x);
        assert(seq![s[0]] + s.drop_first() =~= s);
    }
}

/// Clearing a row's box and then ticking it again gives back the list the
/// row was not in.
pub proof fn law_exclude_then_include(rows: Seq<i32>, row: i32)
    requires
        !rows.contains(row),
    ensures
        mutated_rows(mutated_rows(rows, false, row), true, row) == rows,
{
    let pushed = rows.push(row);
    assert(pushed[rows.len() as int] == row);
    assert forall|k: int| 0 <= k < rows.len() implies pushed[k] != row by {
        assert(pushed[k] == rows[k]);
    }
    lemma_remove_first_at(pushed, row, rows.len() as int);
    assert(pushed.remove(rows.len() as int) =~= rows);
}

/// The left-out rows after a row's box changes: ticking it (`checked`)
/// removes the row's first mention, clearing it appends the row.
pub fn get_mutated_excluded_rows(array: Vec<i32>, checked: bool, row: i32) -> (r: Vec<i32>)
    ensures
        r@ == mutated_rows(array@, checked, row),
{
    let mut vec = array;
    if checked {
        let mut i: usize = 0;
        while i < vec.len()
            invariant
                i <= vec.len(),
                vec@ == array@,
                checked,
                forall|k: int| 0 <= k < i ==> vec@[k] != row,
            decreases vec.len() - i,
        {
            if vec[i] == row {
                proof {
                    lemma_remove_first_at(vec@, row, i as int);
                }
                vec.remove(i);
                return vec;
            }
            i = i + 1;
        }
        proof {
            lemma_remove_first_absent(vec@, row);
        }
        vec
    } else {
        vec.push(row);
        vec
    }
}

/// Whether `row` is among the left-out rows.
pub fn table_contains(array: &Vec<i32>, row: i32) -> (r: bool)
    ensures
        r == array@.contains(row),
{
    let mut i: usize = 0;
    while i < array.len()
        invariant
            i <= array.len(),
            forall|k: int| 0 <= k < i ==> array@[k] != row,
        decreases array.len() - i,
    {
        if array[i] == row {
            return true;
        }
        i = i + 1;
    }
    false
}

/// Whether `x` is in `v`.
pub fn row_listed(v: &Vec<u32>, x: u32) -> (r: bool)
    ensures
        r == v@.contains(x),
{
    let mut i: usize = 0;
    while i < v.len()
        invariant
            i <= v.len(),
            forall|k: int| 0 <= k < i ==> v@[k] != x,
        decreases v.len() - i,
    {
        if v[i] == x {
            return true;
        }
        i = i + 1;
    }
    false
}

/// Row `y` is left out of the table.
pub open spec fn row_excluded(t: TableView, y: int) -> bool {
    t.excluded_rows.contains(y as u32)
}

/// Cell `(x, y)` is empty, in a column that takes part, on a row that is not left out.
pub open spec fn missing_cell(t: TableView, x: int, y: int) -> bool {
    &&& 0 <= x < t.columns.len()
    &&& 0 <= y < t.columns[x].column_entries.len()
    &&& t.columns[x].enabled
    &&& t.columns[x].column_entries[y].len() == 0
    &&& !row_excluded(t, y)
}

/// Finds the first empty cell that matters, scanning column by column and
/// each column from the top.
pub fn check_all_cells_have_value(table: &TableData) -> (r: CheckResult)
    ensures
        r.ok <==> (forall|x: int, y: int| !missing_cell(table@, x, y)),
        r.ok ==> r.x == -1 && r.y == -1,
        !r.ok ==> exists|x: int, y: int|
            #![trigger missing_cell(table@, x, y)]
            missing_cell(table@, x, y) && r.x == x as i32 && r.y == y as i32
            && (forall|x2: int, y2: int| x2 < x ==> !missing_cell(table@, x2, y2))
            && (forall|y2: int| y2 < y ==> !missing_cell(table@, x, y2)),
{
    let mut x: usize = 0;
    while x < table.columns.len()
        invariant
            x <= table.columns.len(),
            forall|x2: int, y2: int| x2 < x ==> !missing_cell(table@, x2, y2),
        decreases table.columns.len() - x,
    {
        let column = &table.columns[x];
        assert(column@ == table@.columns[x as int]);
        let mut y: usize = 0;
        while y < column.column_entries.len()
            invariant
                x < table.columns.len(),
                column@ == table@.columns[x as int],
                y <= column.column_entries.len(),
                forall|x2: int, y2: int| x2 < x ==> !missing_cell(table@, x2, y2),
                forall|y2: int| y2 < y ==> !missing_cell(table@, x as int, y2),
            decreases column.column_entries.len() - y,
        {
            let empty = column.column_entries[y].as_str().is_empty();
            assert(column.column_entries.deep_view()[y as int] == column.column_entries@[y as int]@);
            if empty && column.enabled && !row_listed(&table.excluded_rows, #[verifier::truncate] (y as u32)) {
                assert(missing_cell(table@, x as int, y as int));
                return CheckResult { ok: false, x: #[verifier::truncate] (x as i32), y: #[verifier::truncate] (y as i32) };
            }
            y = y + 1;
        }
        assert forall|y2: int| !missing_cell(table@, x as int, y2) by {
            if 0 <= y2 < column.column_entries.len() {
            }
        }
        x = x + 1;
    }
    assert forall|x2: int, y2: int| !missing_cell(table@, x2, y2) by {
        if x2 >= x {
        }
    }
    CheckResult { ok: true, x: -1, y: -1 }
}

/// Column `x` takes part but has no type chosen.
pub open spec fn untyped_column(t: TableView, x: int) -> bool {
    0 <= x < t.columns.len() && t.columns[x].column_type == TableColumnType::Unset && t.columns[x].enabled
}

/// Column `x` takes part but has an empty title.
pub open spec fn untitled_column(t: TableView, x: int) -> bool {
    0 <= x < t.columns.len() && t.columns[x].title.len() == 0 && t.columns[x].enabled
}

/// Checks that every column that takes part has a type and a title. The
/// column pointed at is the first untitled one, else the first untyped one.
pub fn check_all_columns_set(table: &TableData) -> (r: CheckResult)
    ensures
        r.ok <==> (forall|x: int| !untyped_column(table@, x) && !untitled_column(table@, x)),
        r.y == -1,
        (exists|x: int| untitled_column(table@, x)) ==> exists|x: int|
            #![trigger untitled_column(table@, x)]
            untitled_column(table@, x) && r.x == x as i32
            && forall|k: int| 0 <= k < x ==> !untitled_column(table@, k),
        (forall|x: int| !untitled_column(table@, x)) && (exists|x: int| untyped_column(table@, x))
            ==> exists|x: int|
            #![trigger untyped_column(table@, x)]
            untyped_column(table@, x) && r.x == x as i32
            && forall|k: int| 0 <= k < x ==> !untyped_column(table@, k),
        (forall|x: int| !untyped_column(table@, x) && !untitled_column(table@, x)) ==> r.x == -1,
{
    let mut untyped: Option<usize> = None;
    let mut untitled: Option<usize> = None;
    let mut i: usize = 0;
    while i < table.columns.len()
        invariant
            i <= table.columns.len(),
            match untyped {
                Some(u) => u < i && untyped_column(table@, u as int)
                    && forall|k: int| 0 <= k < u ==> !untyped_column(table@, k),
                None => forall|k: int| 0 <= k < i ==> !untyped_column(table@, k),
            },
            match untitled {
                Some(u) => u < i && untitled_column(table@, u as int)
                    && forall|k: int| 0 <= k < u ==> !untitled_column(table@, k),
                None => forall|k: int| 0 <= k < i ==> !untitled_column(table@, k),
            },
        decreases table.columns.len() - i,
    {
        let column = &table.columns[i];
        assert(column@ == table@.columns[i as int]);
        if untyped.is_none() && column.enabled && column.column_type == TableColumnType::Unset {
            untyped = Some(i);
        }
        if untitled.is_none() && column.enabled && column.title.as_str().is_empty() {
            untitled = Some(i);
        }
        i = i + 1;
    }
    assert forall|k: int| k >= table.columns.len() implies !untyped_column(table@, k)
        && !untitled_column(table@, k) by {}
    let mut x: i32 = -1;
    if let Some(u) = untyped {
        x = #[verifier::truncate] (u as i32);
    }
    if let Some(u) = untitled {
        x = #[verifier::truncate] (u as i32);
    }
    CheckResult { ok: untyped.is_none() && untitled.is_none(), x, y: -1 }
}

/// Cell `(x, y)` is in a numerical column that takes part, on a row that is
/// not left out, and does not read as a number (`parses[x][y]` false).
pub open spec fn non_numeric_cell(t: TableView, parses: Seq<Vec<bool>>, x: int, y: int) -> bool {
    &&& 0 <= x < t.columns.len()
    &&& 0 <= y < t.columns[x].column_entries.len()
    &&& t.columns[x].enabled
    &&& t.columns[x].column_type == TableColumnType::Numerical
    &&& !parses[x]@[y]
    &&& !row_excluded(t, y)
}

/// Checks that every cell of the numerical columns reads as a number.
/// `parses[x][y]` tells whether cell `(x, y)` reads as a number. When some
/// do not, the cell pointed at is the last of them, scanning column by
/// column and each column from the top.
pub fn check_numerical_check(table: &TableData, parses: &Vec<Vec<bool>>) -> (r: CheckResult)
    requires
        parses@.len() == table@.columns.len(),
        forall|x: int| 0 <= x < parses@.len() ==> (#[trigger] parses@[x])@.len() == table@.columns[x].column_entries.len(),
    ensures
        r.ok <==> (forall|x: int, y: int| !non_numeric_cell(table@, parses@, x, y)),
        r.ok ==> r.x == -1 && r.y == -1,
        !r.ok ==> exists|x: int, y: int|
            #![trigger non_numeric_cell(table@, parses@, x, y)]
            non_numeric_cell(table@, parses@, x, y)
            && r.x == x as i32 && r.y == y as i32
            && (forall|x2: int, y2: int| x2 > x ==> !non_numeric_cell(table@, parses@, x2, y2))
            && (forall|y2: int| y2 > y ==> !non_numeric_cell(table@, parses@, x, y2)),
{
    let ghost p = parses@;
    let mut last: Option<(usize, usize)> = None;
    let mut x: usize = 0;
    while x < table.columns.len()
        invariant
            x <= table.columns.len(),
            p == parses@,
            parses@.len() == table@.columns.len(),
            forall|k: int| 0 <= k < parses@.len() ==> (#[trigger] parses@[k])@.len() == table@.columns[k].column_entries.len(),
            match last {
                Some((lx, ly)) => lx < x && non_numeric_cell(table@, p, lx as int, ly as int)
                    && (forall|x2: int, y2: int| lx < x2 < x ==> !non_numeric_cell(table@, p, x2, y2))
                    && (forall|y2: int| y2 > ly ==> !non_numeric_cell(table@, p, lx as int, y2)),
                None => forall|x2: int, y2: int| x2 < x ==> !non_numeric_cell(table@, p, x2, y2),
            },
        decreases table.columns.len() - x,
    {
        let column = &table.columns[x];
        assert(column@ == table@.columns[x as int]);
        if column.enabled && column.column_type == TableColumnType::Numerical {
            let mut y: usize = 0;
            let ghost before = last;
            while y < column.column_entries.len()
                invariant
                    x < table.columns.len(),
                    column@ == table@.columns[x as int],
                    column.enabled,
                    column.column_type == TableColumnType::Numerical,
                    p == parses@,
                    parses@[x as int]@.len() == column.column_entries.len(),
                    parses@.len() == table@.columns.len(),
                    y <= column.column_entries.len(),
                    match before {
                        Some((lx, ly)) => lx < x && non_numeric_cell(table@, p, lx as int, ly as int)
                            && (forall|x2: int, y2: int| lx < x2 < x ==> !non_numeric_cell(table@, p, x2, y2))
                            && (forall|y2: int| y2 > ly ==> !non_numeric_cell(table@, p, lx as int, y2)),
                        None => forall|x2: int, y2: int| x2 < x ==> !non_numeric_cell(table@, p, x2, y2),
                    },
                    match last {
                        Some((lx, ly)) => (lx == x && ly < y && non_numeric_cell(table@, p, lx as int, ly as int)
                            && forall|y2: int| ly < y2 < y ==> !non_numeric_cell(table@, p, x as int, y2))
                            || (last == before && forall|y2: int| 0 <= y2 < y ==> !non_numeric_cell(table@, p, x as int, y2)),
                        None => before is None && forall|y2: int| 0 <= y2 < y ==> !non_numeric_cell(table@, p, x as int, y2),
                    },
                decreases column.column_entries.len() - y,
            {
                if !parses[x][y] && !row_listed(&table.excluded_rows, #[verifier::truncate] (y as u32)) {
                    assert(non_numeric_cell(table@, p, x as int, y as int));
                    last = Some((x, y));
                }
                y = y + 1;
            }
        } else {
            assert forall|y2: int| !non_numeric_cell(table@, p, x as int, y2) by {}
        }
        x = x + 1;
    }
    match last {
        Some((lx, ly)) => {
            assert forall|x2: int, y2: int| x2 > lx implies !non_numeric_cell(table@, p, x2, y2) by {
                if x2 < x {
                }
            }
            CheckResult { ok: false, x: #[verifier::truncate] (lx as i32), y: #[verifier::truncate] (ly as i32) }
        },
        None => {
            assert forall|x2: int, y2: int| !non_numeric_cell(table@, p, x2, y2) by {
                if x2 < x {
                }
            }
            CheckResult { ok: true, x: -1, y: -1 }
        },
    }
}

/// Checks that the table has at least one row and one column.
pub fn check_table_empty(table: &TableData) -> (r: CheckResult)
    ensures
        r == (CheckResult {
            ok: table@.number_rows != 0 && table@.columns.len() != 0,
            x: -1i32,
            y: -1i32,
        }),
{
    CheckResult { ok: table.number_rows != 0 && table.columns.len() != 0, x: -1, y: -1 }
}

} // verus!
