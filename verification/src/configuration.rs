//! The configuration step: which columns may serve as features or target,
//! the scored questions, and the model setup it ends with.
use vstd::prelude::*;
use crate::ml::{ConfigurationLock, LockView, OutputColumnData, OutputView, distinct_values};
use crate::savefile::{ConfigurationSettings, EntryView, SaveFile, SaveFileView, ScoredRegressionEntry, SettingsView, entries_view, text_option, with_entries};
use crate::sorting::{sorted_distinct, strictly_sorted};
use crate::table::{ColumnView, TableColumn, TableColumnType, TableData, TableView};
use crate::text::{copy_strings, strings_contain};
use crate::checks::row_listed;

verus! {

/// The name shown for "no column chosen" in the chosen language.
pub open spec fn unset_text(french: bool) -> Seq<char> {
    if french { "Vide"@ } else { "Unset"@ }
}

/// The name shown for "no column chosen".
pub fn unset_label(french: bool) -> (r: String)
    ensures
        r@ == unset_text(french),
{
    if french {
        "Vide".to_owned()
    } else {
        "Unset".to_owned()
    }
}

/// A column name as shown in the chosen language: the "no column" name is
/// given in that language, every other name is kept.
pub open spec fn translated(s: Seq<char>, french: bool) -> Seq<char> {
    if s == "Unset"@ && french {
        "Vide"@
    } else if s == "Vide"@ && !french {
        "Unset"@
    } else {
        s
    }
}

/// The name shown for a chosen column, "no column" when none was chosen.
pub open spec fn selected_label(selected: Option<Seq<char>>, french: bool) -> Seq<char> {
    translated(
        match selected {
            Some(s) => s,
            None => "Unset"@,
        },
        french,
    )
}

fn translate(s: String, french: bool) -> (r: String)
    ensures
        r@ == translated(s@, french),
{
    let unset = "Unset".to_owned();
    let vide = "Vide".to_owned();
    let mut out = s;
    if out == unset && french {
        out = "Vide".to_owned();
    }
    if out == vide && !french {
        out = "Unset".to_owned();
    }
    proof {
        reveal_strlit("Unset");
        reveal_strlit("Vide");
        assert("Unset"@ != "Vide"@) by {
            assert("Unset"@.len() != "Vide"@.len());
        }
    }
    out
}

/// The name shown for the chosen column of a tab.
pub fn selected_column_label(selected: Option<String>, french: bool) -> (r: String)
    ensures
        r@ == selected_label(text_option(selected), french),
{
    let s = match selected {
        Some(s) => s,
        None => "Unset".to_owned(),
    };
    translate(s, french)
}

/// Showing a name in a language twice shows it as once; and the "no column"
/// name shown in French and then in English is the English one.
pub proof fn law_translation_stable(s: Seq<char>, french: bool)
    ensures
        translated(translated(s, french), french) == translated(s, french),
        (s == "Unset"@ || s == "Vide"@) ==> translated(translated(s, true), false) == "Unset"@,
{
    reveal_strlit("Unset");
    reveal_strlit("Vide");
    assert("Unset"@ != "Vide"@) by {
        assert("Unset"@.len() != "Vide"@.len());
    }
}

/// Column `c` takes part and has type `ty`.
pub open spec fn enabled_of_type(c: ColumnView, ty: TableColumnType) -> bool {
    c.enabled && c.column_type == ty
}

/// The titles of the columns that take part and have type `ty`, in order.
pub open spec fn titles_of_type(cols: Seq<ColumnView>, ty: TableColumnType) -> Seq<Seq<char>>
    decreases cols.len(),
{
    if cols.len() == 0 {
        seq![]
    } else {
        let prev = titles_of_type(cols.drop_last(), ty);
        if enabled_of_type(cols.last(), ty) {
            prev.push(cols.last().title)
        } else {
            prev
        }
    }
}

fn column_names_of_type(table: &TableData, ty: TableColumnType, french: bool) -> (r: Vec<String>)
    ensures
        r.deep_view() == seq![unset_text(french)] + titles_of_type(table@.columns, ty),
{
    let mut out: Vec<String> = Vec::new();
    out.push(unset_label(french));
    let ghost cols = table@.columns;
    let mut i: usize = 0;
    while i < table.columns.len()
        invariant
            i <= table.columns.len(),
            cols == table@.columns,
            out.deep_view() == seq![unset_text(french)] + titles_of_type(cols.take(i as int), ty),
        decreases table.columns.len() - i,
    {
        let column = &table.columns[i];
        assert(cols.take(i + 1).drop_last() =~= cols.take(i as int));
        assert(cols.take(i + 1).last() == column@);
        if column.enabled && column.column_type == ty {
            let ghost prev = out.deep_view();
            out.push(column.title.clone());
            assert(out.deep_view() =~= prev.push(column@.title));
        }
        i = i + 1;
    }
    assert(cols.take(table.columns.len() as int) =~= cols);
    out
}

/// The choices for the simple-regression target: "no column", then the
/// titles of the numerical columns that take part.
pub fn numerical_column_names(table: &TableData, french: bool) -> (r: Vec<String>)
    ensures
        r.deep_view() == seq![unset_text(french)] + titles_of_type(table@.columns, TableColumnType::Numerical),
        r.deep_view()[0] == unset_text(french),
        forall|t: Seq<char>| #[trigger] r.deep_view().drop_first().contains(t) ==> exists|k: int| #![trigger table@.columns[k]]
            0 <= k < table@.columns.len() && table@.columns[k].title == t && table@.columns[k].enabled
            && table@.columns[k].column_type == TableColumnType::Numerical,
        forall|k: int| 0 <= k < table@.columns.len() && #[trigger] table@.columns[k].enabled
            && table@.columns[k].column_type == TableColumnType::Numerical
            ==> r.deep_view().drop_first().contains(table@.columns[k].title),
{
    let r = column_names_of_type(table, TableColumnType::Numerical, french);
    proof {
        assert(r.deep_view().drop_first() =~= titles_of_type(table@.columns, TableColumnType::Numerical));
        law_choices_are_enabled_columns(table@.columns, TableColumnType::Numerical);
    }
    r
}

/// The choices for a scored question: "no column", then the titles of the
/// categorical columns that take part.
pub fn categorical_column_names(table: &TableData, french: bool) -> (r: Vec<String>)
    ensures
        r.deep_view() == seq![unset_text(french)] + titles_of_type(table@.columns, TableColumnType::Categorical),
        r.deep_view()[0] == unset_text(french),
        forall|t: Seq<char>| #[trigger] r.deep_view().drop_first().contains(t) ==> exists|k: int| #![trigger table@.columns[k]]
            0 <= k < table@.columns.len() && table@.columns[k].title == t && table@.columns[k].enabled
            && table@.columns[k].column_type == TableColumnType::Categorical,
        forall|k: int| 0 <= k < table@.columns.len() && #[trigger] table@.columns[k].enabled
            && table@.columns[k].column_type == TableColumnType::Categorical
            ==> r.deep_view().drop_first().contains(table@.columns[k].title),
{
    let r = column_names_of_type(table, TableColumnType::Categorical, french);
    proof {
        assert(r.deep_view().drop_first() =~= titles_of_type(table@.columns, TableColumnType::Categorical));
        law_choices_are_enabled_columns(table@.columns, TableColumnType::Categorical);
    }
    r
}

/// The cells of a column on the rows that are not left out, in row order.
pub open spec fn kept_cells(entries: Seq<Seq<char>>, excluded: Seq<u32>) -> Seq<Seq<char>>
    decreases entries.len(),
{
    if entries.len() == 0 {
        seq![]
    } else {
        let prev = kept_cells(entries.drop_last(), excluded);
        if excluded.contains((entries.len() - 1) as u32) {
            prev
        } else {
            prev.push(entries.last())
        }
    }
}

/// Column `c` can be a binary target: it takes part, is categorical, and its
/// rows that are not left out hold exactly two distinct answers.
pub open spec fn is_binary_column(c: ColumnView, excluded: Seq<u32>) -> bool {
    enabled_of_type(c, TableColumnType::Categorical)
        && distinct_values(kept_cells(c.column_entries, excluded)).len() == 2
}

/// The titles of the columns that can be a binary target, in order.
pub open spec fn binary_titles(cols: Seq<ColumnView>, excluded: Seq<u32>) -> Seq<Seq<char>>
    decreases cols.len(),
{
    if cols.len() == 0 {
        seq![]
    } else {
        let prev = binary_titles(cols.drop_last(), excluded);
        if is_binary_column(cols.last(), excluded) {
            prev.push(cols.last().title)
        } else {
            prev
        }
    }
}

fn kept_distinct_count(column: &TableColumn, excluded: &Vec<u32>) -> (r: usize)
    ensures
        r == distinct_values(kept_cells(column@.column_entries, excluded@)).len(),
{
    let ghost cells = column@.column_entries;
    let mut seen: Vec<String> = Vec::new();
    let mut i: usize = 0;
    while i < column.column_entries.len()
        invariant
            i <= column.column_entries.len(),
            cells == column@.column_entries,
            seen.deep_view() == distinct_values(kept_cells(cells.take(i as int), excluded@)),
            seen.len() <= i,
        decreases column.column_entries.len() - i,
    {
        let s = &column.column_entries[i];
        assert(cells.take(i + 1).drop_last() =~= cells.take(i as int));
        assert(cells.take(i + 1).last() == s@);
        let ghost kept_before = kept_cells(cells.take(i as int), excluded@);
        if !row_listed(excluded, #[verifier::truncate] (i as u32)) {
            let ghost kept_now = kept_before.push(s@);
            assert(kept_now.drop_last() =~= kept_before);
            if !strings_contain(&seen, s) {
                let ghost prev = seen.deep_view();
                seen.push(s.clone());
                assert(seen.deep_view() =~= prev.push(s@));
            }
        }
        i = i + 1;
    }
    assert(cells.take(column.column_entries.len() as int) =~= cells);
    seen.len()
}

/// The choices for the binary target: "no column", then the titles of the
/// categorical columns that take part and whose kept rows hold exactly two
/// distinct answers.
pub fn binary_column_names(table: &TableData, french: bool) -> (r: Vec<String>)
    ensures
        r.deep_view() == seq![unset_text(french)] + binary_titles(table@.columns, table@.excluded_rows),
        r.deep_view()[0] == unset_text(french),
        forall|t: Seq<char>| #[trigger] r.deep_view().drop_first().contains(t) ==> exists|k: int| #![trigger table@.columns[k]]
            0 <= k < table@.columns.len() && table@.columns[k].title == t && table@.columns[k].enabled
            && table@.columns[k].column_type == TableColumnType::Categorical
            && distinct_values(kept_cells(table@.columns[k].column_entries, table@.excluded_rows)).len() == 2,
        forall|k: int| 0 <= k < table@.columns.len() && #[trigger] table@.columns[k].enabled
            && table@.columns[k].column_type == TableColumnType::Categorical
            && distinct_values(kept_cells(table@.columns[k].column_entries, table@.excluded_rows)).len() == 2
            ==> r.deep_view().drop_first().contains(table@.columns[k].title),
{
    let mut out: Vec<String> = Vec::new();
    out.push(unset_label(french));
    let ghost cols = table@.columns;
    let mut i: usize = 0;
    while i < table.columns.len()
        invariant
            i <= table.columns.len(),
            cols == table@.columns,
            out.deep_view() == seq![unset_text(french)] + binary_titles(cols.take(i as int), table@.excluded_rows),
        decreases table.columns.len() - i,
    {
        let column = &table.columns[i];
        assert(cols.take(i + 1).drop_last() =~= cols.take(i as int));
        assert(cols.take(i + 1).last() == column@);
        if column.enabled && column.column_type == TableColumnType::Categorical
            && kept_distinct_count(column, &table.excluded_rows) == 2 {
            let ghost prev = out.deep_view();
            out.push(column.title.clone());
            assert(out.deep_view() =~= prev.push(column@.title));
        }
        i = i + 1;
    }
    assert(cols.take(table.columns.len() as int) =~= cols);
    proof {
        assert(out.deep_view().drop_first() =~= binary_titles(table@.columns, table@.excluded_rows));
        law_binary_choices_have_two_answers(table@.columns, table@.excluded_rows);
    }
    out
}

proof fn lemma_choice_has_column(cols: Seq<ColumnView>, ty: TableColumnType, i: int) -> (k: int)
    requires
        0 <= i < titles_of_type(cols, ty).len(),
    ensures
        0 <= k < cols.len(),
        cols[k].title == titles_of_type(cols, ty)[i],
        cols[k].enabled,
        cols[k].column_type == ty,
    decreases cols.len(),
{
    let p = cols.drop_last();
    let pt = titles_of_type(p, ty);
    if i < pt.len() {
        let k = lemma_choice_has_column(p, ty, i);
        assert(cols[k] == p[k]);
        k
    } else {
        (cols.len() - 1) as int
    }
}

proof fn lemma_column_is_choice(cols: Seq<ColumnView>, ty: TableColumnType, k: int)
    requires
        0 <= k < cols.len(),
        cols[k].enabled,
        cols[k].column_type == ty,
    ensures
        titles_of_type(cols, ty).contains(cols[k].title),
    decreases cols.len(),
{
    let p = cols.drop_last();
    let t = titles_of_type(cols, ty);
    let pt = titles_of_type(p, ty);
    if k < p.len() {
        assert(p[k] == cols[k]);
        lemma_column_is_choice(p, ty, k);
        let q = choose|q: int| 0 <= q < pt.len() && pt[q] == p[k].title;
        assert(t[q] == pt[q]);
    } else {
        assert(t[t.len() - 1] == cols[k].title);
    }
}

/// Every choice offered for a column type is the title of a column of that
/// type that takes part, and every such column is offered.
pub proof fn law_choices_are_enabled_columns(cols: Seq<ColumnView>, ty: TableColumnType)
    ensures
        forall|t: Seq<char>| #[trigger] titles_of_type(cols, ty).contains(t) ==> exists|k: int| #![trigger cols[k]]
            0 <= k < cols.len() && cols[k].title == t && cols[k].enabled && cols[k].column_type == ty,
        forall|k: int| 0 <= k < cols.len() && #[trigger] cols[k].enabled && cols[k].column_type == ty
            ==> titles_of_type(cols, ty).contains(cols[k].title),
{
    assert forall|t: Seq<char>| #[trigger] titles_of_type(cols, ty).contains(t) implies exists|k: int| #![trigger cols[k]]
        0 <= k < cols.len() && cols[k].title == t && cols[k].enabled && cols[k].column_type == ty by {
        let i = choose|i: int| 0 <= i < titles_of_type(cols, ty).len() && titles_of_type(cols, ty)[i] == t;
        let k = lemma_choice_has_column(cols, ty, i);
        assert(cols[k].title == t);
    }
    assert forall|k: int| 0 <= k < cols.len() && #[trigger] cols[k].enabled && cols[k].column_type == ty
        implies titles_of_type(cols, ty).contains(cols[k].title) by {
        lemma_column_is_choice(cols, ty, k);
    }
}

proof fn lemma_binary_choice_has_column(cols: Seq<ColumnView>, excluded: Seq<u32>, i: int) -> (k: int)
    requires
        0 <= i < binary_titles(cols, excluded).len(),
    ensures
        0 <= k < cols.len(),
        cols[k].title == binary_titles(cols, excluded)[i],
        cols[k].enabled,
        cols[k].column_type == TableColumnType::Categorical,
        distinct_values(kept_cells(cols[k].column_entries, excluded)).len() == 2,
    decreases cols.len(),
{
    let p = cols.drop_last();
    let pt = binary_titles(p, excluded);
    if i < pt.len() {
        let k = lemma_binary_choice_has_column(p, excluded, i);
        assert(cols[k] == p[k]);
        k
    } else {
        (cols.len() - 1) as int
    }
}

proof fn lemma_binary_column_is_choice(cols: Seq<ColumnView>, excluded: Seq<u32>, k: int)
    requires
        0 <= k < cols.len(),
        cols[k].enabled,
        cols[k].column_type == TableColumnType::Categorical,
        distinct_values(kept_cells(cols[k].column_entries, excluded)).len() == 2,
    ensures
        binary_titles(cols, excluded).contains(cols[k].title),
    decreases cols.len(),
{
    let p = cols.drop_last();
    let t = binary_titles(cols, excluded);
    let pt = binary_titles(p, excluded);
    if k < p.len() {
        assert(p[k] == cols[k]);
        lemma_binary_column_is_choice(p, excluded, k);
        let q = choose|q: int| 0 <= q < pt.len() && pt[q] == p[k].title;
        assert(t[q] == pt[q]);
    } else {
        assert(t[t.len() - 1] == cols[k].title);
    }
}

/// Every binary-target choice is the title of a categorical column that
/// takes part and whose rows not left out hold exactly two distinct answers,
/// and every such column is offered.
pub proof fn law_binary_choices_have_two_answers(cols: Seq<ColumnView>, excluded: Seq<u32>)
    ensures
        forall|t: Seq<char>| #[trigger] binary_titles(cols, excluded).contains(t) ==> exists|k: int| #![trigger cols[k]]
            0 <= k < cols.len() && cols[k].title == t
            && cols[k].enabled && cols[k].column_type == TableColumnType::Categorical
            && distinct_values(kept_cells(cols[k].column_entries, excluded)).len() == 2,
        forall|k: int| 0 <= k < cols.len() && #[trigger] cols[k].enabled
            && cols[k].column_type == TableColumnType::Categorical
            && distinct_values(kept_cells(cols[k].column_entries, excluded)).len() == 2
            ==> binary_titles(cols, excluded).contains(cols[k].title),
{
    assert forall|t: Seq<char>| #[trigger] binary_titles(cols, excluded).contains(t) implies exists|k: int| #![trigger cols[k]]
        0 <= k < cols.len() && cols[k].title == t
        && cols[k].enabled && cols[k].column_type == TableColumnType::Categorical
        && distinct_values(kept_cells(cols[k].column_entries, excluded)).len() == 2 by {
        let i = choose|i: int| 0 <= i < binary_titles(cols, excluded).len() && binary_titles(cols, excluded)[i] == t;
        let k = lemma_binary_choice_has_column(cols, excluded, i);
        assert(cols[k].title == t);
    }
    assert forall|k: int| 0 <= k < cols.len() && #[trigger] cols[k].enabled
        && cols[k].column_type == TableColumnType::Categorical
        && distinct_values(kept_cells(cols[k].column_entries, excluded)).len() == 2
        implies binary_titles(cols, excluded).contains(cols[k].title) by {
        lemma_binary_column_is_choice(cols, excluded, k);
    }
}

/// Every binary-target choice is also a categorical choice, in the same order.
pub proof fn law_binary_titles_are_categorical(cols: Seq<ColumnView>, excluded: Seq<u32>)
    ensures
        binary_titles(cols, excluded).to_set().subset_of(titles_of_type(cols, TableColumnType::Categorical).to_set()),
    decreases cols.len(),
{
    if cols.len() > 0 {
        law_binary_titles_are_categorical(cols.drop_last(), excluded);
        let b = binary_titles(cols.drop_last(), excluded);
        let c = titles_of_type(cols.drop_last(), TableColumnType::Categorical);
        assert forall|t: Seq<char>| binary_titles(cols, excluded).to_set().contains(t)
            implies titles_of_type(cols, TableColumnType::Categorical).to_set().contains(t) by {
            let bb = binary_titles(cols, excluded);
            let cc = titles_of_type(cols, TableColumnType::Categorical);
            let k = choose|k: int| 0 <= k < bb.len() && bb[k] == t;
            if k < b.len() {
                assert(b[k] == t);
                assert(b.to_set().contains(t));
                assert(c.to_set().contains(t));
                let q = choose|q: int| 0 <= q < c.len() && c[q] == t;
                assert(cc[q] == t);
            } else {
                assert(cc[cc.len() - 1] == t);
            }
        }
    }
}

/// The index of the first column titled `title` (of type `ty`, when given).
pub open spec fn first_column(cols: Seq<ColumnView>, title: Seq<char>, ty: Option<TableColumnType>) -> Option<int>
    decreases cols.len(),
{
    if cols.len() == 0 {
        None
    } else if cols[0].title == title && (match ty { Some(t) => cols[0].column_type == t, None => true }) {
        Some(0)
    } else {
        match first_column(cols.drop_first(), title, ty) {
            Some(k) => Some(k + 1),
            None => None,
        }
    }
}

proof fn lemma_first_column(cols: Seq<ColumnView>, title: Seq<char>, ty: Option<TableColumnType>, i: int)
    requires
        0 <= i <= cols.len(),
        forall|k: int| 0 <= k < i ==> !(#[trigger] cols[k].title == title && (match ty { Some(t) => cols[k].column_type == t, None => true })),
        i < cols.len() ==> cols[i].title == title && (match ty { Some(t) => cols[i].column_type == t, None => true }),
    ensures
        first_column(cols, title, ty) == (if i < cols.len() { Some(i) } else { None::<int> }),
    decreases cols.len(),
{
    if cols.len() > 0 && i > 0 {
        lemma_first_column(cols.drop_first(), title, ty, i - 1);
    }
}

/// The first column titled `title` (of type `ty`, when given).
pub fn find_column(columns: &Vec<TableColumn>, title: &String, ty: Option<TableColumnType>) -> (r: Option<usize>)
    ensures
        match r {
            Some(k) => first_column(columns@.map_values(|c: TableColumn| c@), title@, ty) == Some(k as int)
                && k < columns.len(),
            None => first_column(columns@.map_values(|c: TableColumn| c@), title@, ty) is None,
        },
{
    let ghost cols = columns@.map_values(|c: TableColumn| c@);
    let mut i: usize = 0;
    while i < columns.len()
        invariant
            i <= columns.len(),
            cols == columns@.map_values(|c: TableColumn| c@),
            forall|k: int| 0 <= k < i ==> !(#[trigger] cols[k].title == title@ && (match ty { Some(t) => cols[k].column_type == t, None => true })),
        decreases columns.len() - i,
    {
        let column = &columns[i];
        assert(cols[i as int] == column@);
        let type_ok = match ty {
            Some(t) => column.column_type == t,
            None => true,
        };
        if column.title == *title && type_ok {
            proof {
                lemma_first_column(cols, title@, ty, i as int);
            }
            return Some(i);
        }
        i = i + 1;
    }
    proof {
        lemma_first_column(cols, title@, ty, i as int);
    }
    None
}

/// The question `e` reads a column that exists (the first one titled so)
/// and takes part.
pub open spec fn entry_is_current(cols: Seq<ColumnView>, e: EntryView) -> bool {
    match first_column(cols, e.column_title, None) {
        Some(k) => cols[k].enabled,
        None => false,
    }
}

/// Question `e` with its column name shown in the chosen language.
pub open spec fn shown_entry(e: EntryView, french: bool) -> EntryView {
    EntryView {
        column_title: translated(e.column_title, french),
        correct_answer: e.correct_answer,
        answers: e.answers,
        correct_points: e.correct_points,
        incorrect_points: e.incorrect_points,
    }
}

/// The questions whose column still takes part, names shown in the chosen language.
pub open spec fn current_entries(entries: Seq<EntryView>, cols: Seq<ColumnView>, french: bool) -> Seq<EntryView>
    decreases entries.len(),
{
    if entries.len() == 0 {
        seq![]
    } else {
        let prev = current_entries(entries.drop_last(), cols, french);
        if entry_is_current(cols, entries.last()) {
            prev.push(shown_entry(entries.last(), french))
        } else {
            prev
        }
    }
}

/// The questions whose column is gone or no longer takes part.
pub open spec fn stale_entries(entries: Seq<EntryView>, cols: Seq<ColumnView>) -> Seq<EntryView>
    decreases entries.len(),
{
    if entries.len() == 0 {
        seq![]
    } else {
        let prev = stale_entries(entries.drop_last(), cols);
        if entry_is_current(cols, entries.last()) {
            prev
        } else {
            prev.push(entries.last())
        }
    }
}

proof fn lemma_first_column_found(cols: Seq<ColumnView>, title: Seq<char>, ty: Option<TableColumnType>)
    ensures
        first_column(cols, title, ty) matches Some(k) ==> 0 <= k < cols.len() && cols[k].title == title
            && (match ty { Some(t) => cols[k].column_type == t, None => true }),
    decreases cols.len(),
{
    if cols.len() > 0 {
        lemma_first_column_found(cols.drop_first(), title, ty);
    }
}

proof fn lemma_shown_entry_source(entries: Seq<EntryView>, cols: Seq<ColumnView>, french: bool, i: int) -> (j: int)
    requires
        0 <= i < current_entries(entries, cols, french).len(),
    ensures
        0 <= j < entries.len(),
        current_entries(entries, cols, french)[i] == shown_entry(entries[j], french),
        entry_is_current(cols, entries[j]),
    decreases entries.len(),
{
    let p = entries.drop_last();
    let pc = current_entries(p, cols, french);
    if i < pc.len() {
        let j = lemma_shown_entry_source(p, cols, french, i);
        assert(entries[j] == p[j]);
        j
    } else {
        (entries.len() - 1) as int
    }
}

proof fn lemma_entries_split(entries: Seq<EntryView>, cols: Seq<ColumnView>, french: bool)
    ensures
        current_entries(entries, cols, french).len() + stale_entries(entries, cols).len() == entries.len(),
        forall|e: EntryView| #[trigger] stale_entries(entries, cols).contains(e) ==> entries.contains(e),
    decreases entries.len(),
{
    if entries.len() > 0 {
        let p = entries.drop_last();
        lemma_entries_split(p, cols, french);
        let st = stale_entries(entries, cols);
        let ps = stale_entries(p, cols);
        assert forall|e: EntryView| #[trigger] st.contains(e) implies entries.contains(e) by {
            let q = choose|q: int| 0 <= q < st.len() && st[q] == e;
            if q < ps.len() {
                assert(ps[q] == e);
                assert(ps.contains(e));
                let r = choose|r: int| 0 <= r < p.len() && p[r] == e;
                assert(entries[r] == e);
            } else {
                assert(entries[entries.len() - 1] == e);
            }
        }
    }
}

/// Reloading the saved questions changes none of them: each one shown is a
/// saved question whose column exists and takes part, with the same right
/// answer, answers and points, its column name kept or only switched
/// between the two "no column" names; each one removed is a saved question;
/// together they are as many as the saved ones.
pub proof fn law_shown_entries_keep_saved_fields(entries: Seq<EntryView>, cols: Seq<ColumnView>, french: bool)
    ensures
        forall|e: EntryView| #[trigger] current_entries(entries, cols, french).contains(e) ==> exists|j: int| #![trigger entries[j]]
            0 <= j < entries.len()
            && e.correct_answer == entries[j].correct_answer
            && e.answers == entries[j].answers
            && e.correct_points == entries[j].correct_points
            && e.incorrect_points == entries[j].incorrect_points
            && (e.column_title == entries[j].column_title
                || (entries[j].column_title == "Unset"@ && e.column_title == "Vide"@)
                || (entries[j].column_title == "Vide"@ && e.column_title == "Unset"@))
            && exists|k: int| #![trigger cols[k]] 0 <= k < cols.len() && cols[k].title == entries[j].column_title && cols[k].enabled,
        forall|e: EntryView| #[trigger] stale_entries(entries, cols).contains(e) ==> entries.contains(e),
        current_entries(entries, cols, french).len() + stale_entries(entries, cols).len() == entries.len(),
{
    let ce = current_entries(entries, cols, french);
    assert forall|e: EntryView| #[trigger] ce.contains(e) implies exists|j: int| #![trigger entries[j]]
        0 <= j < entries.len()
        && e.correct_answer == entries[j].correct_answer
        && e.answers == entries[j].answers
        && e.correct_points == entries[j].correct_points
        && e.incorrect_points == entries[j].incorrect_points
        && (e.column_title == entries[j].column_title
            || (entries[j].column_title == "Unset"@ && e.column_title == "Vide"@)
            || (entries[j].column_title == "Vide"@ && e.column_title == "Unset"@))
        && exists|k: int| #![trigger cols[k]] 0 <= k < cols.len() && cols[k].title == entries[j].column_title && cols[k].enabled by {
        let i = choose|i: int| 0 <= i < ce.len() && ce[i] == e;
        let j = lemma_shown_entry_source(entries, cols, french, i);
        let k = first_column(cols, entries[j].column_title, None).unwrap();
        lemma_first_column_found(cols, entries[j].column_title, None);
        assert(cols[k].title == entries[j].column_title && cols[k].enabled);
        assert(e == shown_entry(entries[j], french));
    }
    lemma_entries_split(entries, cols, french);
}

/// Splits the saved scored questions into those to show (their column
/// exists and takes part; names shown in the chosen language) and those to
/// remove from the project.
pub fn load_scored_regression_entries(entries: &Vec<ScoredRegressionEntry>, table: &TableData, french: bool) -> (r: (Vec<ScoredRegressionEntry>, Vec<ScoredRegressionEntry>))
    ensures
        entries_view(r.0@) == current_entries(entries_view(entries@), table@.columns, french),
        entries_view(r.1@) == stale_entries(entries_view(entries@), table@.columns),
        forall|e: EntryView| #[trigger] entries_view(r.0@).contains(e) ==> exists|j: int| #![trigger entries@[j]]
            0 <= j < entries@.len()
            && e.correct_answer == entries@[j].correct_answer@
            && e.answers == entries@[j].answers.deep_view()
            && e.correct_points == entries@[j].correct_points
            && e.incorrect_points == entries@[j].incorrect_points
            && (e.column_title == entries@[j].column_title@
                || (entries@[j].column_title@ == "Unset"@ && e.column_title == "Vide"@)
                || (entries@[j].column_title@ == "Vide"@ && e.column_title == "Unset"@))
            && exists|k: int| #![trigger table@.columns[k]] 0 <= k < table@.columns.len()
                && table@.columns[k].title == entries@[j].column_title@ && table@.columns[k].enabled,
        forall|e: EntryView| #[trigger] entries_view(r.1@).contains(e) ==> entries_view(entries@).contains(e),
        r.0.len() + r.1.len() == entries.len(),
{
    let ghost ev = entries_view(entries@);
    let mut shown: Vec<ScoredRegressionEntry> = Vec::new();
    let mut stale: Vec<ScoredRegressionEntry> = Vec::new();
    let mut i: usize = 0;
    while i < entries.len()
        invariant
            i <= entries.len(),
            ev == entries_view(entries@),
            entries_view(shown@) == current_entries(ev.take(i as int), table@.columns, french),
            entries_view(stale@) == stale_entries(ev.take(i as int), table@.columns),
        decreases entries.len() - i,
    {
        let e = &entries[i];
        assert(ev.take(i + 1).drop_last() =~= ev.take(i as int));
        assert(ev.take(i + 1).last() == e@);
        let found = find_column(&table.columns, &e.column_title, None);
        let current = match found {
            Some(k) => table.columns[k].enabled,
            None => false,
        };
        if current {
            let copy = e.duplicate();
            let shown_entry_value = ScoredRegressionEntry {
                column_title: translate(copy.column_title, french),
                correct_answer: copy.correct_answer,
                answers: copy.answers,
                correct_points: copy.correct_points,
                incorrect_points: copy.incorrect_points,
            };
            let ghost prev = entries_view(shown@);
            shown.push(shown_entry_value);
            assert(entries_view(shown@) =~= prev.push(shown_entry(e@, french)));
        } else {
            let ghost prev = entries_view(stale@);
            stale.push(e.duplicate());
            assert(entries_view(stale@) =~= prev.push(e@));
        }
        i = i + 1;
    }
    assert(ev.take(entries.len() as int) =~= ev);
    proof {
        law_shown_entries_keep_saved_fields(ev, table@.columns, french);
        let cur = entries_view(shown@);
        assert forall|e: EntryView| #[trigger] cur.contains(e) implies exists|j: int| #![trigger entries@[j]]
            0 <= j < entries@.len()
            && e.correct_answer == entries@[j].correct_answer@
            && e.answers == entries@[j].answers.deep_view()
            && e.correct_points == entries@[j].correct_points
            && e.incorrect_points == entries@[j].incorrect_points
            && (e.column_title == entries@[j].column_title@
                || (entries@[j].column_title@ == "Unset"@ && e.column_title == "Vide"@)
                || (entries@[j].column_title@ == "Vide"@ && e.column_title == "Unset"@))
            && exists|k: int| #![trigger table@.columns[k]] 0 <= k < table@.columns.len()
                && table@.columns[k].title == entries@[j].column_title@ && table@.columns[k].enabled by {
            let j = choose|j: int| #![trigger ev[j]]
                0 <= j < ev.len()
                && e.correct_answer == ev[j].correct_answer
                && e.answers == ev[j].answers
                && e.correct_points == ev[j].correct_points
                && e.incorrect_points == ev[j].incorrect_points
                && (e.column_title == ev[j].column_title
                    || (ev[j].column_title == "Unset"@ && e.column_title == "Vide"@)
                    || (ev[j].column_title == "Vide"@ && e.column_title == "Unset"@))
                && exists|k: int| #![trigger table@.columns[k]] 0 <= k < table@.columns.len()
                    && table@.columns[k].title == ev[j].column_title && table@.columns[k].enabled;
            assert(ev[j] == entries@[j]@);
        }
    }
    (shown, stale)
}

/// Some question reads column `title`.
pub open spec fn has_entry_titled(entries: Seq<EntryView>, title: Seq<char>) -> bool {
    exists|i: int| 0 <= i < entries.len() && #[trigger] entries[i].column_title == title
}

/// `answers` are the distinct values of `cells`, in increasing order.
pub open spec fn sorted_answers_of(answers: Seq<Seq<char>>, cells: Seq<Seq<char>>) -> bool {
    strictly_sorted(answers) && forall|v: Seq<char>| answers.contains(v) <==> cells.contains(v)
}

/// The question added for column `title` with the given answers: worth no
/// points yet, its right answer the first of them.
pub open spec fn new_entry(title: Seq<char>, answers: Seq<Seq<char>>) -> EntryView {
    EntryView {
        column_title: title,
        correct_answer: answers[0],
        answers,
        correct_points: 0,
        incorrect_points: 0,
    }
}

/// Adds a scored question for column `entry_title` unless one exists: its
/// answers are the distinct cells of the first column of that title in
/// increasing order, the first of them marked right, no points yet. The
/// list is unchanged when the title has a question already or no column.
pub fn add_scored_regression_entry(entry_title: String, array: Vec<ScoredRegressionEntry>, table: &TableData) -> (r: Vec<ScoredRegressionEntry>)
    requires
        !has_entry_titled(entries_view(array@), entry_title@)
            ==> match first_column(table@.columns, entry_title@, None) {
                Some(k) => table@.columns[k].column_entries.len() > 0,
                None => true,
            },
    ensures
        (has_entry_titled(entries_view(array@), entry_title@) || first_column(table@.columns, entry_title@, None) is None)
            ==> entries_view(r@) == entries_view(array@),
        !has_entry_titled(entries_view(array@), entry_title@) ==> (first_column(table@.columns, entry_title@, None) matches Some(k)
            ==> exists|answers: Seq<Seq<char>>|
                sorted_answers_of(answers, table@.columns[k].column_entries)
                && #[trigger] entries_view(r@) == entries_view(array@).push(new_entry(entry_title@, answers))),
{
    let mut v = array;
    let ghost ev = entries_view(v@);
    let mut i: usize = 0;
    while i < v.len()
        invariant
            i <= v.len(),
            ev == entries_view(v@),
            ev == entries_view(array@),
            forall|k: int| 0 <= k < i ==> ev[k].column_title != entry_title@,
        decreases v.len() - i,
    {
        if v[i].column_title == entry_title {
            assert(ev[i as int].column_title == entry_title@);
            return v;
        }
        i = i + 1;
    }
    assert(!has_entry_titled(ev, entry_title@));
    let ghost cols = table@.columns;
    assert(cols == table.columns@.map_values(|c: TableColumn| c@));
    match find_column(&table.columns, &entry_title, None) {
        Some(k) => {
            let column = &table.columns[k];
            assert(column@ == cols[k as int]);
            let answers = sorted_distinct(&column.column_entries);
            assert(column@.column_entries.len() > 0);
            assert(column@.column_entries.contains(column@.column_entries[0]));
            assert(answers.len() > 0) by {
                assert(answers.deep_view().contains(column@.column_entries[0]));
            }
            let correct = answers[0].clone();
            let entry = ScoredRegressionEntry {
                column_title: entry_title,
                correct_answer: correct,
                answers: copy_strings(&answers),
                correct_points: 0,
                incorrect_points: 0,
            };
            assert(entry@ == new_entry(entry_title@, answers.deep_view()));
            v.push(entry);
            assert(entries_view(v@) =~= ev.push(new_entry(entry_title@, answers.deep_view())));
            assert(sorted_answers_of(answers.deep_view(), table@.columns[k as int].column_entries));
            v
        },
        None => v,
    }
}

/// Adding a question for a column that has none and then removing that
/// column's question gives back the list it started from.
pub proof fn law_add_then_remove_entry(entries: Seq<EntryView>, e: EntryView)
    requires
        !has_entry_titled(entries, e.column_title),
    ensures
        crate::savefile::remove_first_titled(entries.push(e), e.column_title) == entries,
    decreases entries.len(),
{
    if entries.len() == 0 {
        assert(entries.push(e).drop_first() =~= entries);
    } else {
        let rest = entries.drop_first();
        assert(!has_entry_titled(rest, e.column_title)) by {
            if has_entry_titled(rest, e.column_title) {
                let i = choose|i: int| 0 <= i < rest.len() && #[trigger] rest[i].column_title == e.column_title;
                assert(entries[i + 1].column_title == e.column_title);
            }
        }
        assert(entries[0].column_title != e.column_title) by {
            if entries[0].column_title == e.column_title {
                assert(has_entry_titled(entries, e.column_title));
            }
        }
        law_add_then_remove_entry(rest, e);
        assert(entries.push(e).drop_first() =~= rest.push(e));
        assert(seq![entries[0]] + rest =~= entries);
    }
}

/// Two sorted answer lists for the same cells are the same list.
pub proof fn law_sorted_answers_unique(a: Seq<Seq<char>>, b: Seq<Seq<char>>, cells: Seq<Seq<char>>)
    requires
        sorted_answers_of(a, cells),
        sorted_answers_of(b, cells),
    ensures
        a == b,
{
    crate::sorting::lemma_sorted_same_contents_equal(a, b);
}

/// Whether some question is worth no points at all, right or wrong.
pub fn check_contains_zero_entry(array: &Vec<ScoredRegressionEntry>) -> (r: bool)
    ensures
        r == exists|i: int| 0 <= i < array@.len() && (#[trigger] array@[i]).correct_points == 0 && array@[i].incorrect_points == 0,
{
    let mut i: usize = 0;
    while i < array.len()
        invariant
            i <= array.len(),
            forall|k: int| 0 <= k < i ==> !((#[trigger] array@[k]).correct_points == 0 && array@[k].incorrect_points == 0),
        decreases array.len() - i,
    {
        if array[i].correct_points == 0 && array[i].incorrect_points == 0 {
            return true;
        }
        i = i + 1;
    }
    false
}

/// The rows among the first `n` that are not left out, in order.
pub open spec fn kept_rows(n: nat, excluded: Seq<u32>) -> Seq<nat>
    decreases n,
{
    if n == 0 {
        seq![]
    } else {
        let prev = kept_rows((n - 1) as nat, excluded);
        if excluded.contains((n - 1) as u32) {
            prev
        } else {
            prev.push((n - 1) as nat)
        }
    }
}

/// The kept rows are, in increasing order, exactly the rows below `n` that
/// are not left out.
pub proof fn law_kept_rows(n: nat, excluded: Seq<u32>)
    ensures
        forall|j: int| 0 <= j < kept_rows(n, excluded).len() ==>
            #[trigger] kept_rows(n, excluded)[j] < n && !excluded.contains(kept_rows(n, excluded)[j] as u32),
        forall|j1: int, j2: int| 0 <= j1 < j2 < kept_rows(n, excluded).len() ==>
            #[trigger] kept_rows(n, excluded)[j1] < #[trigger] kept_rows(n, excluded)[j2],
        forall|r: nat| r < n && !excluded.contains(r as u32) ==> #[trigger] kept_rows(n, excluded).contains(r),
    decreases n,
{
    if n > 0 {
        let m = (n - 1) as nat;
        law_kept_rows(m, excluded);
        let k = kept_rows(n, excluded);
        let pk = kept_rows(m, excluded);
        assert forall|r: nat| r < n && !excluded.contains(r as u32) implies #[trigger] k.contains(r) by {
            if r < m {
                assert(pk.contains(r));
                let q = choose|q: int| 0 <= q < pk.len() && pk[q] == r;
                assert(k[q] == pk[q]);
            } else {
                assert(k[k.len() - 1] == r);
            }
        }
    }
}

/// The kept cells of a column are its cells on the kept rows, in order.
pub proof fn law_kept_cells_follow_kept_rows(entries: Seq<Seq<char>>, excluded: Seq<u32>)
    ensures
        kept_cells(entries, excluded).len() == kept_rows(entries.len(), excluded).len(),
        forall|j: int| 0 <= j < kept_cells(entries, excluded).len() ==>
            #[trigger] kept_cells(entries, excluded)[j] == entries[kept_rows(entries.len(), excluded)[j] as int],
    decreases entries.len(),
{
    if entries.len() > 0 {
        let p = entries.drop_last();
        law_kept_cells_follow_kept_rows(p, excluded);
        law_kept_rows(p.len(), excluded);
        let kc = kept_cells(entries, excluded);
        let pc = kept_cells(p, excluded);
        let kr = kept_rows(entries.len(), excluded);
        let pr = kept_rows(p.len(), excluded);
        assert((entries.len() - 1) as nat == p.len());
        assert forall|j: int| 0 <= j < kc.len() implies #[trigger] kc[j] == entries[kr[j] as int] by {
            if j < pc.len() {
                assert(pr[j] < p.len());
                assert(kc[j] == pc[j]);
                assert(kr[j] == pr[j]);
                assert(p[pr[j] as int] == entries[pr[j] as int]);
            } else {
                assert(kr[j] == p.len());
            }
        }
    }
}

/// The points question `e` gives row `row`: its points if the row's answer
/// in the question's column is the right one, minus its penalty otherwise.
pub open spec fn question_points(cols: Seq<ColumnView>, e: EntryView, row: int) -> int {
    match first_column(cols, e.column_title, None) {
        Some(k) => if cols[k].column_entries[row] == e.correct_answer {
            e.correct_points as int
        } else {
            -(e.incorrect_points as int)
        },
        None => 0,
    }
}

/// The total score of row `row` over the questions `qs`.
pub open spec fn row_score(cols: Seq<ColumnView>, qs: Seq<EntryView>, row: int) -> int
    decreases qs.len(),
{
    if qs.len() == 0 {
        0
    } else {
        row_score(cols, qs.drop_last(), row) + question_points(cols, qs.last(), row)
    }
}

/// The feature columns of type `ty`: those that take part, are not the
/// target `output_name`, and are not among `skip`; each with its cells on
/// the kept rows.
pub open spec fn feature_columns(
    cols: Seq<ColumnView>,
    excluded: Seq<u32>,
    ty: TableColumnType,
    output_name: Seq<char>,
    skip: Seq<Seq<char>>,
) -> Seq<(Seq<char>, Seq<Seq<char>>)>
    decreases cols.len(),
{
    if cols.len() == 0 {
        seq![]
    } else {
        let prev = feature_columns(cols.drop_last(), excluded, ty, output_name, skip);
        let c = cols.last();
        if enabled_of_type(c, ty) && c.title != output_name && !skip.contains(c.title) {
            prev.push((c.title, kept_cells(c.column_entries, excluded)))
        } else {
            prev
        }
    }
}

/// The columns the scored questions read.
pub open spec fn entry_titles(qs: Seq<EntryView>) -> Seq<Seq<char>> {
    qs.map_values(|e: EntryView| e.column_title)
}

/// The target's name and values for the selected tab: the chosen numerical
/// column (all rows); the score of each kept row, named "score"; or the
/// chosen binary column (all rows).
pub open spec fn lock_output(t: TableView, s: SettingsView) -> (Seq<char>, OutputView) {
    if s.tab_selected == 0 {
        let name = s.simple_regression_column.unwrap();
        let k = first_column(t.columns, name, Some(TableColumnType::Numerical)).unwrap();
        (name, OutputView::Regressive(t.columns[k].column_entries))
    } else if s.tab_selected == 1 {
        ("score"@, OutputView::Scored(
            kept_rows(t.number_rows as nat, t.excluded_rows).map_values(|r: nat| row_score(t.columns, s.scored_regression_data, r as int) as i128),
        ))
    } else {
        let name = s.binary_regression_column.unwrap();
        let k = first_column(t.columns, name, Some(TableColumnType::Categorical)).unwrap();
        (name, OutputView::BinaryClassificatory(t.columns[k].column_entries))
    }
}

/// The model setup for a table and configuration: the target of the
/// selected tab; as features, every numerical column and every categorical
/// column not read by a scored question, except the target.
pub open spec fn lock_of(t: TableView, s: SettingsView) -> LockView {
    let (name, output) = lock_output(t, s);
    LockView {
        numerical_columns: feature_columns(t.columns, t.excluded_rows, TableColumnType::Numerical, name, seq![]),
        categorical_columns: feature_columns(t.columns, t.excluded_rows, TableColumnType::Categorical, name, entry_titles(s.scored_regression_data)),
        output_name: name,
        output_data: output,
    }
}

proof fn lemma_feature_has_column(
    cols: Seq<ColumnView>,
    excluded: Seq<u32>,
    ty: TableColumnType,
    output_name: Seq<char>,
    skip: Seq<Seq<char>>,
    i: int,
) -> (k: int)
    requires
        0 <= i < feature_columns(cols, excluded, ty, output_name, skip).len(),
    ensures
        0 <= k < cols.len(),
        cols[k].title == feature_columns(cols, excluded, ty, output_name, skip)[i].0,
        cols[k].enabled,
        cols[k].column_type == ty,
        cols[k].title != output_name,
        !skip.contains(cols[k].title),
        feature_columns(cols, excluded, ty, output_name, skip)[i].1 == kept_cells(cols[k].column_entries, excluded),
    decreases cols.len(),
{
    let p = cols.drop_last();
    let pf = feature_columns(p, excluded, ty, output_name, skip);
    if i < pf.len() {
        let k = lemma_feature_has_column(p, excluded, ty, output_name, skip, i);
        assert(cols[k] == p[k]);
        k
    } else {
        (cols.len() - 1) as int
    }
}

proof fn lemma_column_is_feature(
    cols: Seq<ColumnView>,
    excluded: Seq<u32>,
    ty: TableColumnType,
    output_name: Seq<char>,
    skip: Seq<Seq<char>>,
    k: int,
)
    requires
        0 <= k < cols.len(),
        cols[k].enabled,
        cols[k].column_type == ty,
        cols[k].title != output_name,
        !skip.contains(cols[k].title),
    ensures
        feature_columns(cols, excluded, ty, output_name, skip).contains(
            (cols[k].title, kept_cells(cols[k].column_entries, excluded))),
    decreases cols.len(),
{
    let p = cols.drop_last();
    let f = feature_columns(cols, excluded, ty, output_name, skip);
    let pf = feature_columns(p, excluded, ty, output_name, skip);
    let c = (cols[k].title, kept_cells(cols[k].column_entries, excluded));
    if k < p.len() {
        assert(p[k] == cols[k]);
        lemma_column_is_feature(p, excluded, ty, output_name, skip, k);
        let q = choose|q: int| 0 <= q < pf.len() && pf[q] == c;
        assert(f[q] == pf[q]);
    } else {
        assert(f[f.len() - 1] == c);
    }
}

/// The feature columns of a type are exactly the columns of that type that
/// take part, other than the target and those named in `skip`, each with
/// its cells on the rows not left out.
pub proof fn law_feature_columns_are_kept_columns(
    cols: Seq<ColumnView>,
    excluded: Seq<u32>,
    ty: TableColumnType,
    output_name: Seq<char>,
    skip: Seq<Seq<char>>,
)
    ensures
        forall|c: (Seq<char>, Seq<Seq<char>>)| #[trigger] feature_columns(cols, excluded, ty, output_name, skip).contains(c) ==>
            c.0 != output_name && !skip.contains(c.0) && exists|k: int| #![trigger cols[k]]
                0 <= k < cols.len() && cols[k].title == c.0 && cols[k].enabled && cols[k].column_type == ty
                && c.1 == kept_cells(cols[k].column_entries, excluded),
        forall|k: int| 0 <= k < cols.len() && #[trigger] cols[k].enabled && cols[k].column_type == ty
            && cols[k].title != output_name && !skip.contains(cols[k].title)
            ==> feature_columns(cols, excluded, ty, output_name, skip).contains(
                (cols[k].title, kept_cells(cols[k].column_entries, excluded))),
{
    let f = feature_columns(cols, excluded, ty, output_name, skip);
    assert forall|c: (Seq<char>, Seq<Seq<char>>)| #[trigger] f.contains(c) implies
        c.0 != output_name && !skip.contains(c.0) && exists|k: int| #![trigger cols[k]]
            0 <= k < cols.len() && cols[k].title == c.0 && cols[k].enabled && cols[k].column_type == ty
            && c.1 == kept_cells(cols[k].column_entries, excluded) by {
        let i = choose|i: int| 0 <= i < f.len() && f[i] == c;
        let k = lemma_feature_has_column(cols, excluded, ty, output_name, skip, i);
        assert(cols[k].title == c.0);
    }
    assert forall|k: int| 0 <= k < cols.len() && #[trigger] cols[k].enabled && cols[k].column_type == ty
        && cols[k].title != output_name && !skip.contains(cols[k].title)
        implies f.contains((cols[k].title, kept_cells(cols[k].column_entries, excluded))) by {
        lemma_column_is_feature(cols, excluded, ty, output_name, skip, k);
    }
}

/// In the model setup, whatever the tab: no feature is the target; no
/// categorical feature is a column that a scored question reads; every
/// feature is a column of its type that takes part, with its cells on the
/// rows not left out.
pub proof fn law_lock_features(t: TableView, s: SettingsView)
    ensures
        forall|c: (Seq<char>, Seq<Seq<char>>)| #[trigger] lock_of(t, s).categorical_columns.contains(c) ==>
            c.0 != lock_of(t, s).output_name
            && (forall|q: int| 0 <= q < s.scored_regression_data.len() ==> #[trigger] s.scored_regression_data[q].column_title != c.0)
            && exists|k: int| #![trigger t.columns[k]]
                0 <= k < t.columns.len() && t.columns[k].title == c.0 && t.columns[k].enabled
                && t.columns[k].column_type == TableColumnType::Categorical
                && c.1 == kept_cells(t.columns[k].column_entries, t.excluded_rows),
        forall|c: (Seq<char>, Seq<Seq<char>>)| #[trigger] lock_of(t, s).numerical_columns.contains(c) ==>
            c.0 != lock_of(t, s).output_name
            && exists|k: int| #![trigger t.columns[k]]
                0 <= k < t.columns.len() && t.columns[k].title == c.0 && t.columns[k].enabled
                && t.columns[k].column_type == TableColumnType::Numerical
                && c.1 == kept_cells(t.columns[k].column_entries, t.excluded_rows),
{
    let (name, output) = lock_output(t, s);
    let skip = entry_titles(s.scored_regression_data);
    law_feature_columns_are_kept_columns(t.columns, t.excluded_rows, TableColumnType::Numerical, name, seq![]);
    law_feature_columns_are_kept_columns(t.columns, t.excluded_rows, TableColumnType::Categorical, name, skip);
    assert forall|c: (Seq<char>, Seq<Seq<char>>)| #[trigger] lock_of(t, s).categorical_columns.contains(c) implies
        (forall|q: int| 0 <= q < s.scored_regression_data.len() ==> #[trigger] s.scored_regression_data[q].column_title != c.0) by {
        assert forall|q: int| 0 <= q < s.scored_regression_data.len() implies #[trigger] s.scored_regression_data[q].column_title != c.0 by {
            assert(skip[q] == s.scored_regression_data[q].column_title);
        }
    }
}

/// What the selected tab needs is there: the chosen column of the right
/// type, or for scoring, where some row is kept, each question's column with
/// a cell on every kept row.
pub open spec fn lock_inputs_present(t: TableView, s: SettingsView) -> bool {
    &&& s.tab_selected == 0 ==> (s.simple_regression_column matches Some(n)
        && first_column(t.columns, n, Some(TableColumnType::Numerical)) is Some)
    &&& (s.tab_selected == 1 && kept_rows(t.number_rows as nat, t.excluded_rows).len() > 0) ==> forall|q: int| 0 <= q < s.scored_regression_data.len() ==>
        (first_column(t.columns, #[trigger] s.scored_regression_data[q].column_title, None) matches Some(k)
        && forall|j: int| 0 <= j < kept_rows(t.number_rows as nat, t.excluded_rows).len()
            ==> #[trigger] kept_rows(t.number_rows as nat, t.excluded_rows)[j] < t.columns[k].column_entries.len())
    &&& s.tab_selected == 2 ==> (s.binary_regression_column matches Some(n)
        && first_column(t.columns, n, Some(TableColumnType::Categorical)) is Some)
}

fn kept_column_cells(entries: &Vec<String>, excluded: &Vec<u32>) -> (r: Vec<String>)
    ensures
        r.deep_view() == kept_cells(entries.deep_view(), excluded@),
{
    let ghost cells = entries.deep_view();
    let mut out: Vec<String> = Vec::new();
    let mut i: usize = 0;
    while i < entries.len()
        invariant
            i <= entries.len(),
            cells == entries.deep_view(),
            out.deep_view() == kept_cells(cells.take(i as int), excluded@),
        decreases entries.len() - i,
    {
        assert(cells.take(i + 1).drop_last() =~= cells.take(i as int));
        assert(cells.take(i + 1).last() == entries@[i as int]@);
        if !row_listed(excluded, #[verifier::truncate] (i as u32)) {
            let ghost prev = out.deep_view();
            out.push(entries[i].clone());
            assert(out.deep_view() =~= prev.push(entries@[i as int]@));
        }
        i = i + 1;
    }
    assert(cells.take(entries.len() as int) =~= cells);
    out
}

fn entry_titled(entries: &Vec<ScoredRegressionEntry>, title: &String) -> (r: bool)
    ensures
        r == entry_titles(entries_view(entries@)).contains(title@),
{
    let ghost ts = entry_titles(entries_view(entries@));
    let mut i: usize = 0;
    while i < entries.len()
        invariant
            i <= entries.len(),
            ts == entry_titles(entries_view(entries@)),
            forall|k: int| 0 <= k < i ==> ts[k] != title@,
        decreases entries.len() - i,
    {
        if entries[i].column_title == *title {
            assert(ts[i as int] == title@);
            return true;
        }
        i = i + 1;
    }
    false
}

fn features_of_type(table: &TableData, ty: TableColumnType, output_name: &String, skip: &Vec<ScoredRegressionEntry>) -> (r: Vec<(String, Vec<String>)>)
    ensures
        r@.map_values(|c: (String, Vec<String>)| crate::ml::named_column_view(c))
            == feature_columns(table@.columns, table@.excluded_rows, ty, output_name@, entry_titles(entries_view(skip@))),
{
    let ghost cols = table@.columns;
    let ghost skip_titles = entry_titles(entries_view(skip@));
    let mut out: Vec<(String, Vec<String>)> = Vec::new();
    let mut i: usize = 0;
    while i < table.columns.len()
        invariant
            i <= table.columns.len(),
            cols == table@.columns,
            skip_titles == entry_titles(entries_view(skip@)),
            out@.map_values(|c: (String, Vec<String>)| crate::ml::named_column_view(c))
                == feature_columns(cols.take(i as int), table@.excluded_rows, ty, output_name@, skip_titles),
        decreases table.columns.len() - i,
    {
        let column = &table.columns[i];
        assert(cols.take(i + 1).drop_last() =~= cols.take(i as int));
        assert(cols.take(i + 1).last() == column@);
        if column.enabled && column.column_type == ty && !(column.title == *output_name)
            && !entry_titled(skip, &column.title) {
            let cells = kept_column_cells(&column.column_entries, &table.excluded_rows);
            let ghost prev = out@.map_values(|c: (String, Vec<String>)| crate::ml::named_column_view(c));
            let item = (column.title.clone(), cells);
            out.push(item);
            assert(out@.map_values(|c: (String, Vec<String>)| crate::ml::named_column_view(c))
                =~= prev.push(crate::ml::named_column_view(item)));
        }
        i = i + 1;
    }
    assert(cols.take(table.columns.len() as int) =~= cols);
    out
}

/// The score of one row over the questions `qs`.
fn score_row(table: &TableData, qs: &Vec<ScoredRegressionEntry>, row: usize) -> (r: i128)
    requires
        forall|q: int| 0 <= q < qs@.len() ==>
            (first_column(table@.columns, #[trigger] entries_view(qs@)[q].column_title, None) matches Some(k)
            && row < table@.columns[k].column_entries.len()),
    ensures
        r == row_score(table@.columns, entries_view(qs@), row as int),
{
    let ghost ev = entries_view(qs@);
    let mut score: i128 = 0;
    let mut j: usize = 0;
    while j < qs.len()
        invariant
            j <= qs.len(),
            ev == entries_view(qs@),
            forall|q: int| 0 <= q < qs@.len() ==>
                (first_column(table@.columns, #[trigger] ev[q].column_title, None) matches Some(k)
                && row < table@.columns[k].column_entries.len()),
            score == row_score(table@.columns, ev.take(j as int), row as int),
            -(j as int) * 4294967295 <= score <= (j as int) * 4294967295,
        decreases qs.len() - j,
    {
        let question = &qs[j];
        assert(ev[j as int] == question@);
        assert(ev.take(j + 1).drop_last() =~= ev.take(j as int));
        assert(ev.take(j + 1).last() == question@);
        assert(ev[j as int].column_title == question.column_title@);
        assert(table@.columns == table.columns@.map_values(|c: TableColumn| c@));
        let found = find_column(&table.columns, &question.column_title, None);
        let k = match found {
            Some(k) => k,
            None => {
                assert(false);
                0
            },
        };
        let column = &table.columns[k];
        assert(column@ == table@.columns[k as int]);
        assert(column.column_entries.deep_view()[row as int] == column.column_entries@[row as int]@);
        if column.column_entries[row] == question.correct_answer {
            score = score + question.correct_points as i128;
        } else {
            score = score - question.incorrect_points as i128;
        }
        j = j + 1;
    }
    assert(ev.take(qs.len() as int) =~= ev);
    score
}

fn copy_column_cells(table: &TableData, k: usize) -> (r: Vec<String>)
    requires
        k < table@.columns.len(),
    ensures
        r.deep_view() == table@.columns[k as int].column_entries,
{
    let column = &table.columns[k];
    assert(column@ == table@.columns[k as int]);
    copy_strings(&column.column_entries)
}

/// Fixes the model setup when configuration ends (see `lock_of`); `None`
/// when the selected tab is not one of the three.
pub fn configuration_lock(table: &TableData, settings: &ConfigurationSettings) -> (r: Option<ConfigurationLock>)
    requires
        lock_inputs_present(table@, settings@),
    ensures
        settings.tab_selected > 2 ==> r is None,
        settings.tab_selected <= 2 ==> (r matches Some(l) && l@ == lock_of(table@, settings@)),
        r matches Some(l) ==> forall|c: (Seq<char>, Seq<Seq<char>>)| #[trigger] l@.categorical_columns.contains(c) ==>
            c.0 != l@.output_name
            && (forall|q: int| 0 <= q < settings@.scored_regression_data.len()
                ==> #[trigger] settings@.scored_regression_data[q].column_title != c.0)
            && exists|k: int| #![trigger table@.columns[k]]
                0 <= k < table@.columns.len() && table@.columns[k].title == c.0 && table@.columns[k].enabled
                && table@.columns[k].column_type == TableColumnType::Categorical
                && c.1 == kept_cells(table@.columns[k].column_entries, table@.excluded_rows),
        r matches Some(l) ==> forall|c: (Seq<char>, Seq<Seq<char>>)| #[trigger] l@.numerical_columns.contains(c) ==>
            c.0 != l@.output_name
            && exists|k: int| #![trigger table@.columns[k]]
                0 <= k < table@.columns.len() && table@.columns[k].title == c.0 && table@.columns[k].enabled
                && table@.columns[k].column_type == TableColumnType::Numerical
                && c.1 == kept_cells(table@.columns[k].column_entries, table@.excluded_rows),
{
    proof {
        law_lock_features(table@, settings@);
    }
    let ghost t = table@;
    let ghost s = settings@;
    let (output_name, output_data) = if settings.tab_selected == 0 {
        let name = match &settings.simple_regression_column {
            Some(n) => n.clone(),
            None => {
                return None;
            },
        };
        let k = match find_column(&table.columns, &name, Some(TableColumnType::Numerical)) {
            Some(k) => k,
            None => {
                return None;
            },
        };
        let cells = copy_column_cells(table, k);
        (name, OutputColumnData::Regressive(cells))
    } else if settings.tab_selected == 1 {
        let qs = &settings.scored_regression_data;
        let ghost kept = kept_rows(t.number_rows as nat, t.excluded_rows);
        let mut scores: Vec<i128> = Vec::new();
        let mut index: u32 = 0;
        while index < table.number_rows
            invariant
                index <= table.number_rows,
                t == table@,
                s == settings@,
                s.tab_selected == 1,
                lock_inputs_present(t, s),
                kept == kept_rows(t.number_rows as nat, t.excluded_rows),
                qs@ == settings.scored_regression_data@,
                scores@ == kept_rows(index as nat, t.excluded_rows).map_values(|r: nat| row_score(t.columns, s.scored_regression_data, r as int) as i128),
            decreases table.number_rows - index,
        {
            if !row_listed(&table.excluded_rows, index) {
                proof {
                    lemma_kept_rows_prefix(t.number_rows as nat, index as nat, t.excluded_rows);
                    let j = kept_rows(index as nat, t.excluded_rows).len() as int;
                    assert(kept[j] == index as nat);
                    assert forall|q: int| 0 <= q < qs@.len() implies
                        (first_column(table@.columns, #[trigger] entries_view(qs@)[q].column_title, None) matches Some(k)
                        && index < table@.columns[k].column_entries.len()) by {
                        assert(entries_view(qs@)[q] == s.scored_regression_data[q]);
                    }
                }
                let value = score_row(table, qs, index as usize);
                let ghost prev = scores@;
                scores.push(value);
                proof {
                    let f = |r: nat| row_score(t.columns, s.scored_regression_data, r as int) as i128;
                    assert(kept_rows((index + 1) as nat, t.excluded_rows) == kept_rows(index as nat, t.excluded_rows).push(index as nat));
                    assert(scores@ =~= kept_rows((index + 1) as nat, t.excluded_rows).map_values(f));
                }
            } else {
                assert(kept_rows((index + 1) as nat, t.excluded_rows) == kept_rows(index as nat, t.excluded_rows));
            }
            index = index + 1;
        }
        ("score".to_owned(), OutputColumnData::Scored(scores))
    } else if settings.tab_selected == 2 {
        let name = match &settings.binary_regression_column {
            Some(n) => n.clone(),
            None => {
                return None;
            },
        };
        let k = match find_column(&table.columns, &name, Some(TableColumnType::Categorical)) {
            Some(k) => k,
            None => {
                return None;
            },
        };
        let cells = copy_column_cells(table, k);
        (name, OutputColumnData::BinaryClassificatory(cells))
    } else {
        return None;
    };
    let no_skip: Vec<ScoredRegressionEntry> = Vec::new();
    assert(entry_titles(entries_view(no_skip@)) =~= Seq::<Seq<char>>::empty());
    let numerical_columns = features_of_type(table, TableColumnType::Numerical, &output_name, &no_skip);
    let categorical_columns = features_of_type(table, TableColumnType::Categorical, &output_name, &settings.scored_regression_data);
    let lock = ConfigurationLock { numerical_columns, categorical_columns, output_name, output_data };
    Some(lock)
}

/// Whether what the selected tab needs is there (see `lock_inputs_present`).
pub fn lock_inputs_ready(table: &TableData, settings: &ConfigurationSettings) -> (r: bool)
    ensures
        r == lock_inputs_present(table@, settings@),
{
    let ghost t = table@;
    let ghost s = settings@;
    assert(t.columns == table.columns@.map_values(|c: TableColumn| c@));
    if settings.tab_selected == 0 {
        match &settings.simple_regression_column {
            Some(n) => find_column(&table.columns, n, Some(TableColumnType::Numerical)).is_some(),
            None => false,
        }
    } else if settings.tab_selected == 1 {
        let mut any_kept = false;
        let mut row: u32 = 0;
        while row < table.number_rows
            invariant
                row <= table.number_rows,
                t == table@,
                any_kept == (kept_rows(row as nat, t.excluded_rows).len() > 0),
            decreases table.number_rows - row,
        {
            if !row_listed(&table.excluded_rows, row) {
                any_kept = true;
            }
            row = row + 1;
        }
        if !any_kept {
            return true;
        }
        let qs = &settings.scored_regression_data;
        let mut j: usize = 0;
        while j < qs.len()
            invariant
                j <= qs.len(),
                kept_rows(t.number_rows as nat, t.excluded_rows).len() > 0,
                t == table@,
                s == settings@,
                settings.tab_selected == 1,
                t.columns == table.columns@.map_values(|c: TableColumn| c@),
                qs@ == settings.scored_regression_data@,
                forall|q: int| 0 <= q < j ==>
                    (first_column(t.columns, #[trigger] s.scored_regression_data[q].column_title, None) matches Some(k)
                    && forall|m: int| 0 <= m < kept_rows(t.number_rows as nat, t.excluded_rows).len()
                        ==> #[trigger] kept_rows(t.number_rows as nat, t.excluded_rows)[m] < t.columns[k].column_entries.len()),
            decreases qs.len() - j,
        {
            let question = &qs[j];
            assert(s.scored_regression_data[j as int] == question@);
            let k = match find_column(&table.columns, &question.column_title, None) {
                Some(k) => k,
                None => {
                    assert(first_column(t.columns, s.scored_regression_data[j as int].column_title, None) is None);
                    assert(s.tab_selected == 1);
                    return false;
                },
            };
            assert(first_column(t.columns, s.scored_regression_data[j as int].column_title, None) == Some(k as int));
            let len = table.columns[k].column_entries.len();
            assert(table.columns@[k as int]@.column_entries.len() == len);
            let mut index: u32 = 0;
            while index < table.number_rows
                invariant
                    index <= table.number_rows,
                    kept_rows(t.number_rows as nat, t.excluded_rows).len() > 0,
                    t == table@,
                    s == settings@,
                    settings.tab_selected == 1,
                    j < s.scored_regression_data.len(),
                    first_column(t.columns, s.scored_regression_data[j as int].column_title, None) == Some(k as int),
                    k < t.columns.len(),
                    len == t.columns[k as int].column_entries.len(),
                    forall|m: int| 0 <= m < kept_rows(index as nat, t.excluded_rows).len()
                        ==> #[trigger] kept_rows(index as nat, t.excluded_rows)[m] < len,
                decreases table.number_rows - index,
            {
                if !row_listed(&table.excluded_rows, index) {
                    if index as usize >= len {
                        proof {
                            lemma_kept_rows_prefix(t.number_rows as nat, index as nat, t.excluded_rows);
                            let m = kept_rows(index as nat, t.excluded_rows).len() as int;
                            assert(kept_rows(t.number_rows as nat, t.excluded_rows)[m] >= len);
                            assert(s.tab_selected == 1);
                            assert(!(first_column(t.columns, s.scored_regression_data[j as int].column_title, None) matches Some(k2)
                                && forall|m2: int| 0 <= m2 < kept_rows(t.number_rows as nat, t.excluded_rows).len()
                                    ==> #[trigger] kept_rows(t.number_rows as nat, t.excluded_rows)[m2] < t.columns[k2].column_entries.len()));
                        }
                        return false;
                    }
                    assert(kept_rows((index + 1) as nat, t.excluded_rows) == kept_rows(index as nat, t.excluded_rows).push(index as nat));
                } else {
                    assert(kept_rows((index + 1) as nat, t.excluded_rows) == kept_rows(index as nat, t.excluded_rows));
                }
                index = index + 1;
            }
            j = j + 1;
        }
        true
    } else if settings.tab_selected == 2 {
        match &settings.binary_regression_column {
            Some(n) => find_column(&table.columns, n, Some(TableColumnType::Categorical)).is_some(),
            None => false,
        }
    } else {
        true
    }
}

proof fn lemma_kept_rows_prefix(n: nat, m: nat, excluded: Seq<u32>)
    requires
        m < n,
        !excluded.contains(m as u32),
    ensures
        kept_rows(n, excluded).len() > kept_rows(m, excluded).len(),
        kept_rows(n, excluded)[kept_rows(m, excluded).len() as int] == m,
    decreases n - m,
{
    if n == m + 1 {
    } else {
        lemma_kept_rows_prefix((n - 1) as nat, m, excluded);
    }
}

/// The project with a new choice of regression column.
pub open spec fn with_simple_column(s: SaveFileView, column: Seq<char>) -> SaveFileView {
    SaveFileView {
        conf_settings: SettingsView { simple_regression_column: Some(column), ..s.conf_settings },
        ..s
    }
}

/// The project with a new choice of binary target column.
pub open spec fn with_binary_column(s: SaveFileView, column: Seq<char>) -> SaveFileView {
    SaveFileView {
        conf_settings: SettingsView { binary_regression_column: Some(column), ..s.conf_settings },
        ..s
    }
}

/// The project with a new selected tab.
pub open spec fn with_tab(s: SaveFileView, tab: u32) -> SaveFileView {
    SaveFileView { conf_settings: SettingsView { tab_selected: tab, ..s.conf_settings }, ..s }
}

/// The tab index a window is given for the stored tab number, read back as a
/// signed 32-bit number.
pub open spec fn shown_tab(tab: u32) -> i32 {
    tab as i32
}

/// The tab number stored for a tab index the window gives, taken as an
/// unsigned 32-bit number.
pub open spec fn stored_tab(index: i32) -> u32 {
    index as u32
}

/// Records the chosen regression column in the project; nothing else changes.
pub fn choose_simple_column(save_file: SaveFile, column: String) -> (r: SaveFile)
    ensures
        r@ == with_simple_column(save_file@, column@),
{
    let mut r = save_file;
    r.conf_settings.simple_regression_column = Some(column);
    r
}

/// Records the chosen binary target column in the project; nothing else
/// changes.
pub fn choose_binary_column(save_file: SaveFile, column: String) -> (r: SaveFile)
    ensures
        r@ == with_binary_column(save_file@, column@),
{
    let mut r = save_file;
    r.conf_settings.binary_regression_column = Some(column);
    r
}

/// Records the selected tab in the project; nothing else changes.
pub fn choose_tab(save_file: SaveFile, index: i32) -> (r: SaveFile)
    ensures
        r@ == with_tab(save_file@, stored_tab(index)),
{
    let mut r = save_file;
    r.conf_settings.tab_selected = #[verifier::truncate] (index as u32);
    r
}

/// The selected tab of a project, as the window's index.
pub fn tab_index(settings: &ConfigurationSettings) -> (r: i32)
    ensures
        r == shown_tab(settings.tab_selected),
{
    #[verifier::truncate] (settings.tab_selected as i32)
}

/// Records the scored questions in the project; nothing else changes.
pub fn replace_scored_entries(save_file: SaveFile, entries: Vec<ScoredRegressionEntry>) -> (r: SaveFile)
    ensures
        r@ == with_entries(save_file@, entries_view(entries@)),
{
    let mut r = save_file;
    r.conf_settings.scored_regression_data = entries;
    r
}

/// A column chosen for a tab is shown back as chosen, in either language,
/// unless its name is one of the "no column" names.
pub proof fn law_chosen_column_shown_back(s: SaveFileView, column: Seq<char>, french: bool)
    requires
        column != "Unset"@,
        column != "Vide"@,
    ensures
        selected_label(with_simple_column(s, column).conf_settings.simple_regression_column, french) == column,
        selected_label(with_binary_column(s, column).conf_settings.binary_regression_column, french) == column,
{
}

/// A tab index the window gives is given back as it was, for every index.
pub proof fn law_chosen_tab_shown_back(s: SaveFileView, index: i32)
    ensures
        shown_tab(with_tab(s, stored_tab(index)).conf_settings.tab_selected) == index,
{
    assert((index as u32) as i32 == index) by (bit_vector);
}

} // verus!
