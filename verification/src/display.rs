//! What the screen shows that is decided rather than drawn: the widths of
//! the task table's columns, which rows stand out, and what each day of a
//! task's bar in the chart looks like.
use vstd::prelude::*;
use crate::model::{Task, TaskModel, ProjectData, tasks_model};
use crate::app::{App, AppModel, FocusArea, ProjectField, HighlightMode, InputMode, TaskField};
use crate::date::{day_in_range, date_format, month_format, formatted_date, format_date, month_of, day_of_month, calendar_month, calendar_day, add_days};
use crate::model::task_dates_valid;
use crate::text::{chars_of, concat, copy_chars, decimal, decimal_text, signed_decimal, signed_decimal_text};
use crate::editing::{joined_ids, join_ids};

verus! {

/// The number of columns the text takes on a terminal, as
/// `unicode_width::UnicodeWidthStr::width` counts them.
pub uninterp spec fn display_width(text: Seq<char>) -> usize;

/// Calls `unicode_width::UnicodeWidthStr::width`. Trusted: the result is
/// named by `display_width`, a function of the text alone.
#[verifier::external_body]
pub(crate) fn text_width(text: &Vec<char>) -> (r: usize)
    ensures
        r == display_width(text@),
{
    let s: String = text.iter().collect();
    unicode_width::UnicodeWidthStr::width(s.as_str())
}

/// The spaces added to every column.
pub const PADDING: u16 = 2u16;

/// The widest of the texts, or 0 for none.
pub open spec fn widest(texts: Seq<Seq<char>>) -> int
    decreases texts.len(),
{
    if texts.len() == 0 {
        0
    } else {
        let m = widest(texts.drop_last());
        let w = display_width(texts.last()) as int;
        if w > m { w } else { m }
    }
}

/// The width the dependency list of a task takes: the ids, in decimal,
/// and two columns between each two of them.
pub open spec fn deps_width(deps: Seq<u32>) -> int
    decreases deps.len(),
{
    if deps.len() == 0 {
        0
    } else if deps.len() == 1 {
        display_width(decimal(deps[0] as nat)) as int
    } else {
        deps_width(deps.drop_last()) + display_width(decimal(deps.last() as nat)) + 2
    }
}

/// The widest dependency list, or 0 for none.
pub open spec fn widest_deps(tasks: Seq<TaskModel>) -> int
    decreases tasks.len(),
{
    if tasks.len() == 0 {
        0
    } else {
        let m = widest_deps(tasks.drop_last());
        let w = deps_width(tasks.last().dependencies);
        if w > m { w } else { m }
    }
}

/// The larger of two integers.
pub open spec fn larger(a: int, b: int) -> int {
    if a > b { a } else { b }
}

/// The width of a column whose contents are at most `content` wide and
/// whose header is `header` wide, plus `extra`: the larger of the two,
/// cut to 16 bits as `as u16` cuts, plus `extra`.
pub open spec fn column_width(content: int, header: int, extra: int) -> int {
    (larger(content, header) as u16) + extra
}

/// The widths of the seven columns of the task table.
pub open spec fn column_widths(tasks: Seq<TaskModel>) -> Seq<int> {
    seq![
        column_width(widest(tasks.map_values(|t: TaskModel| decimal(t.id as nat))), display_width("ID"@) as int, PADDING as int),
        column_width(widest(tasks.map_values(|t: TaskModel| t.name)), display_width("Name"@) as int, 12 + PADDING),
        column_width(widest(tasks.map_values(|t: TaskModel| t.assigned_to)), display_width("Assigned"@) as int, PADDING as int),
        column_width(0, display_width("mm/dd/yyyy"@) as int, PADDING as int),
        column_width(display_width("Dur"@) as int, 4, PADDING as int),
        column_width(display_width("Prog%"@) as int, 4, PADDING as int),
        column_width(widest_deps(tasks), display_width("Deps"@) as int, PADDING as int),
    ]
}

/// Computing the widths does not panic: no sum exceeds `usize` and no
/// width exceeds `u16`.
pub open spec fn column_widths_fit(tasks: Seq<TaskModel>) -> bool {
    &&& forall|i: int| 0 <= i < tasks.len() ==> deps_width(#[trigger] tasks[i].dependencies) <= usize::MAX
    &&& forall|k: int| 0 <= k < 7 ==> #[trigger] column_widths(tasks)[k] <= u16::MAX
}

/// The four columns whose width depends on the tasks are wide enough that
/// cutting them to 16 bits changes nothing.
pub open spec fn widths_uncut(tasks: Seq<TaskModel>) -> bool {
    &&& larger(widest(tasks.map_values(|t: TaskModel| decimal(t.id as nat))), display_width("ID"@) as int) <= u16::MAX
    &&& larger(widest(tasks.map_values(|t: TaskModel| t.name)), display_width("Name"@) as int) <= u16::MAX
    &&& larger(widest(tasks.map_values(|t: TaskModel| t.assigned_to)), display_width("Assigned"@) as int) <= u16::MAX
    &&& larger(widest_deps(tasks), display_width("Deps"@) as int) <= u16::MAX
}

proof fn lemma_widest_bounds(s: Seq<Seq<char>>)
    ensures
        widest(s) >= 0,
        forall|j: int| 0 <= j < s.len() ==> display_width(#[trigger] s[j]) <= widest(s),
        widest(s) == 0 || exists|j: int| 0 <= j < s.len() && widest(s) == display_width(#[trigger] s[j]),
    decreases s.len(),
{
    if s.len() > 0 {
        let r = s.drop_last();
        lemma_widest_bounds(r);
        assert forall|j: int| 0 <= j < s.len() implies display_width(#[trigger] s[j]) <= widest(s) by {
            if j < s.len() - 1 {
                assert(s[j] == r[j]);
            }
        }
        if widest(s) != 0 {
            if widest(s) == display_width(s.last()) {
                assert(widest(s) == display_width(s[s.len() - 1]));
            } else {
                let j = choose|j: int| 0 <= j < r.len() && widest(r) == display_width(#[trigger] r[j]);
                assert(s[j] == r[j]);
            }
        }
    }
}

proof fn lemma_widest_insert(s: Seq<Seq<char>>, i: int, x: Seq<char>)
    requires
        0 <= i <= s.len(),
    ensures
        widest(s) <= widest(s.insert(i, x)),
{
    lemma_widest_bounds(s);
    lemma_widest_bounds(s.insert(i, x));
    if widest(s) != 0 {
        let j = choose|j: int| 0 <= j < s.len() && widest(s) == display_width(#[trigger] s[j]);
        if j < i {
            assert(s.insert(i, x)[j] == s[j]);
        } else {
            assert(s.insert(i, x)[j + 1] == s[j]);
        }
    }
}

proof fn lemma_widest_deps_bounds(s: Seq<TaskModel>)
    ensures
        widest_deps(s) >= 0,
        forall|j: int| 0 <= j < s.len() ==> deps_width((#[trigger] s[j]).dependencies) <= widest_deps(s),
        widest_deps(s) == 0 || exists|j: int| 0 <= j < s.len() && widest_deps(s) == deps_width((#[trigger] s[j]).dependencies),
    decreases s.len(),
{
    if s.len() > 0 {
        let r = s.drop_last();
        lemma_widest_deps_bounds(r);
        assert forall|j: int| 0 <= j < s.len() implies deps_width((#[trigger] s[j]).dependencies) <= widest_deps(s) by {
            if j < s.len() - 1 {
                assert(s[j] == r[j]);
            }
        }
        if widest_deps(s) != 0 {
            if widest_deps(s) == deps_width(s.last().dependencies) {
                assert(widest_deps(s) == deps_width(s[s.len() - 1].dependencies));
            } else {
                let j = choose|j: int| 0 <= j < r.len() && widest_deps(r) == deps_width((#[trigger] r[j]).dependencies);
                assert(s[j] == r[j]);
            }
        }
    }
}

proof fn lemma_widest_deps_insert(s: Seq<TaskModel>, i: int, x: TaskModel)
    requires
        0 <= i <= s.len(),
    ensures
        widest_deps(s) <= widest_deps(s.insert(i, x)),
{
    lemma_widest_deps_bounds(s);
    lemma_widest_deps_bounds(s.insert(i, x));
    if widest_deps(s) != 0 {
        let j = choose|j: int| 0 <= j < s.len() && widest_deps(s) == deps_width((#[trigger] s[j]).dependencies);
        if j < i {
            assert(s.insert(i, x)[j] == s[j]);
        } else {
            assert(s.insert(i, x)[j + 1] == s[j]);
        }
    }
}

/// Adding a task, at any row, never narrows a column of the task table,
/// as long as no width of the longer table is cut to 16 bits.
pub proof fn law_adding_a_task_never_narrows_a_column(tasks: Seq<TaskModel>, i: int, t: TaskModel)
    requires
        0 <= i <= tasks.len(),
        widths_uncut(tasks.insert(i, t)),
    ensures
        forall|k: int| 0 <= k < 7 ==> #[trigger] column_widths(tasks)[k] <= column_widths(tasks.insert(i, t))[k],
{
    let u = tasks.insert(i, t);
    let f_id = |t: TaskModel| decimal(t.id as nat);
    let f_name = |t: TaskModel| t.name;
    let f_as = |t: TaskModel| t.assigned_to;
    assert(u.map_values(f_id) =~= tasks.map_values(f_id).insert(i, f_id(t)));
    assert(u.map_values(f_name) =~= tasks.map_values(f_name).insert(i, f_name(t)));
    assert(u.map_values(f_as) =~= tasks.map_values(f_as).insert(i, f_as(t)));
    lemma_widest_insert(tasks.map_values(f_id), i, f_id(t));
    lemma_widest_insert(tasks.map_values(f_name), i, f_name(t));
    lemma_widest_insert(tasks.map_values(f_as), i, f_as(t));
    lemma_widest_deps_insert(tasks, i, t);
    lemma_widest_bounds(tasks.map_values(f_id));
    lemma_widest_bounds(tasks.map_values(f_name));
    lemma_widest_bounds(tasks.map_values(f_as));
    lemma_widest_deps_bounds(tasks);
    assert forall|k: int| 0 <= k < 7 implies #[trigger] column_widths(tasks)[k] <= column_widths(u)[k] by {
        if k == 0 {} else if k == 1 {} else if k == 2 {} else if k == 3 {} else if k == 4 {} else if k == 5 {} else {}
    }
}

fn widest_of(texts: &Vec<Vec<char>>) -> (r: usize)
    ensures
        r == widest(texts@.map_values(|t: Vec<char>| t@)),
{
    let ghost ts = texts@.map_values(|t: Vec<char>| t@);
    let mut m: usize = 0;
    for i in 0..texts.len()
        invariant
            ts == texts@.map_values(|t: Vec<char>| t@),
            m == widest(ts.take(i as int)),
    {
        assert(ts.take(i + 1).drop_last() =~= ts.take(i as int));
        let w = text_width(&texts[i]);
        if w > m {
            m = w;
        }
    }
    assert(ts.take(texts.len() as int) =~= ts);
    m
}

fn deps_width_of(deps: &Vec<u32>) -> (r: usize)
    requires
        deps_width(deps@) <= usize::MAX,
    ensures
        r == deps_width(deps@),
{
    let mut total: usize = 0;
    for i in 0..deps.len()
        invariant
            deps_width(deps@) <= usize::MAX,
            total == deps_width(deps@.take(i as int)),
    {
        assert(deps@.take(i + 1).drop_last() =~= deps@.take(i as int));
        proof { lemma_deps_width_prefix(deps@, i + 1); }
        let w = text_width(&decimal_text(deps[i] as u64));
        if i == 0 {
            assert(deps@.take(1) =~= seq![deps@[0]]);
            total = w;
        } else {
            total = total + w + 2;
        }
    }
    assert(deps@.take(deps.len() as int) =~= deps@);
    total
}

proof fn lemma_deps_width_prefix(deps: Seq<u32>, k: int)
    requires
        0 <= k <= deps.len(),
    ensures
        deps_width(deps.take(k)) <= deps_width(deps),
    decreases deps.len(),
{
    if k < deps.len() {
        assert(deps.drop_last().take(k) =~= deps.take(k));
        lemma_deps_width_prefix(deps.drop_last(), k);
    } else {
        assert(deps.take(k) =~= deps);
    }
}

/// The widths of the seven columns of the current project's task table:
/// ID, name, assignee, start, duration, progress, dependencies.
pub fn calculate_column_widths(project: &ProjectData) -> (r: [u16; 7])
    requires
        column_widths_fit(project@.tasks),
    ensures
        forall|k: int| 0 <= k < 7 ==> r@[k] as int == #[trigger] column_widths(project@.tasks)[k],
{
    let ghost tm = project@.tasks;
    let mut ids: Vec<Vec<char>> = Vec::new();
    let mut names: Vec<Vec<char>> = Vec::new();
    let mut assigned: Vec<Vec<char>> = Vec::new();
    let mut deps_max: usize = 0;
    for i in 0..project.tasks.len()
        invariant
            tm == tasks_model(project.tasks@),
            column_widths_fit(tm),
            ids@.len() == i,
            names@.len() == i,
            assigned@.len() == i,
            forall|j: int| 0 <= j < i ==> (#[trigger] ids@[j])@ == decimal(tm[j].id as nat),
            forall|j: int| 0 <= j < i ==> (#[trigger] names@[j])@ == tm[j].name,
            forall|j: int| 0 <= j < i ==> (#[trigger] assigned@[j])@ == tm[j].assigned_to,
            deps_max == widest_deps(tm.take(i as int)),
    {
        let t = &project.tasks[i];
        ids.push(decimal_text(t.id as u64));
        names.push(crate::text::copy_chars(&t.name));
        assigned.push(crate::text::copy_chars(&t.assigned_to));
        assert(tm.take(i + 1).drop_last() =~= tm.take(i as int));
        assert(tm[i as int] == t@);
        assert(deps_width(tm[i as int].dependencies) <= usize::MAX);
        let w = deps_width_of(&t.dependencies);
        if w > deps_max {
            deps_max = w;
        }
    }
    assert(tm.take(project.tasks.len() as int) =~= tm);
    let id_w = widest_of(&ids);
    assert(ids@.map_values(|t: Vec<char>| t@) =~= tm.map_values(|t: TaskModel| decimal(t.id as nat)));
    let name_w = widest_of(&names);
    assert(names@.map_values(|t: Vec<char>| t@) =~= tm.map_values(|t: TaskModel| t.name));
    let assigned_w = widest_of(&assigned);
    assert(assigned@.map_values(|t: Vec<char>| t@) =~= tm.map_values(|t: TaskModel| t.assigned_to));
    let id_header = text_width(&chars_of("ID"));
    let name_header = text_width(&chars_of("Name"));
    let assigned_header = text_width(&chars_of("Assigned"));
    let start_header = text_width(&chars_of("mm/dd/yyyy"));
    let dur_header = text_width(&chars_of("Dur"));
    let prog_header = text_width(&chars_of("Prog%"));
    let deps_header = text_width(&chars_of("Deps"));
    let ghost cw = column_widths(tm);
    assert(cw[0] <= u16::MAX && cw[1] <= u16::MAX && cw[2] <= u16::MAX && cw[3] <= u16::MAX);
    assert(cw[4] <= u16::MAX && cw[5] <= u16::MAX && cw[6] <= u16::MAX);
    let r: [u16; 7] = [
        #[verifier::truncate] ((if id_w > id_header { id_w } else { id_header }) as u16) + PADDING,
        #[verifier::truncate] ((if name_w > name_header { name_w } else { name_header }) as u16) + 12 + PADDING,
        #[verifier::truncate] ((if assigned_w > assigned_header { assigned_w } else { assigned_header }) as u16) + PADDING,
        #[verifier::truncate] ((if 0 > start_header { 0 } else { start_header }) as u16) + PADDING,
        #[verifier::truncate] ((if dur_header > 4 { dur_header } else { 4 }) as u16) + PADDING,
        #[verifier::truncate] ((if prog_header > 4 { prog_header } else { 4 }) as u16) + PADDING,
        #[verifier::truncate] ((if deps_max > deps_header { deps_max } else { deps_header }) as u16) + PADDING,
    ];
    r
}

/// The width of the dependency list, or `None` where summing it exceeds
/// `usize`.
fn checked_deps_width(deps: &Vec<u32>) -> (r: Option<usize>)
    ensures
        r matches Some(w) ==> w == deps_width(deps@),
        r is None ==> deps_width(deps@) > usize::MAX,
{
    let mut total: usize = 0;
    for i in 0..deps.len()
        invariant
            total == deps_width(deps@.take(i as int)),
    {
        assert(deps@.take(i + 1).drop_last() =~= deps@.take(i as int));
        let w = text_width(&decimal_text(deps[i] as u64));
        if i == 0 {
            assert(deps@.take(1) =~= seq![deps@[0]]);
            total = w;
        } else {
            match total.checked_add(w) {
                Some(t1) => match t1.checked_add(2) {
                    Some(t2) => total = t2,
                    None => {
                        proof { lemma_deps_width_prefix(deps@, i + 1); }
                        return None;
                    },
                },
                None => {
                    proof { lemma_deps_width_prefix(deps@, i + 1); }
                    return None;
                },
            }
        }
    }
    assert(deps@.take(deps.len() as int) =~= deps@);
    Some(total)
}

/// Whether a column of the given content and header widths fits in `u16`
/// with `extra` added.
fn column_fits(content: usize, header: usize, extra: u16) -> (r: bool)
    ensures
        r == (column_width(content as int, header as int, extra as int) <= u16::MAX),
{
    let m = if content > header { content } else { header };
    let cut = #[verifier::truncate] (m as u16);
    (cut as u32) + (extra as u32) <= u16::MAX as u32
}

/// The widths of the task table's columns, or `None` where they cannot be
/// computed (a sum beyond `usize`, a width beyond `u16`).
pub fn try_column_widths(project: &ProjectData) -> (r: Option<[u16; 7]>)
    ensures
        r is Some <==> column_widths_fit(project@.tasks),
        r matches Some(w) ==> forall|k: int| 0 <= k < 7 ==> w@[k] as int == #[trigger] column_widths(project@.tasks)[k],
{
    let ghost tm = project@.tasks;
    let mut ids: Vec<Vec<char>> = Vec::new();
    let mut names: Vec<Vec<char>> = Vec::new();
    let mut assigned: Vec<Vec<char>> = Vec::new();
    let mut deps_max: usize = 0;
    for i in 0..project.tasks.len()
        invariant
            tm == tasks_model(project.tasks@),
            ids@.len() == i,
            names@.len() == i,
            assigned@.len() == i,
            forall|j: int| 0 <= j < i ==> (#[trigger] ids@[j])@ == decimal(tm[j].id as nat),
            forall|j: int| 0 <= j < i ==> (#[trigger] names@[j])@ == tm[j].name,
            forall|j: int| 0 <= j < i ==> (#[trigger] assigned@[j])@ == tm[j].assigned_to,
            forall|j: int| 0 <= j < i ==> deps_width(#[trigger] tm[j].dependencies) <= usize::MAX,
            deps_max == widest_deps(tm.take(i as int)),
    {
        let t = &project.tasks[i];
        assert(tm[i as int] == t@);
        let w = match checked_deps_width(&t.dependencies) {
            Some(w) => w,
            None => {
                assert(deps_width(tm[i as int].dependencies) > usize::MAX);
                assert(!column_widths_fit(tm));
                return None;
            },
        };
        ids.push(decimal_text(t.id as u64));
        names.push(crate::text::copy_chars(&t.name));
        assigned.push(crate::text::copy_chars(&t.assigned_to));
        assert(tm.take(i + 1).drop_last() =~= tm.take(i as int));
        if w > deps_max {
            deps_max = w;
        }
    }
    assert(tm.take(project.tasks.len() as int) =~= tm);
    let id_w = widest_of(&ids);
    assert(ids@.map_values(|t: Vec<char>| t@) =~= tm.map_values(|t: TaskModel| decimal(t.id as nat)));
    let name_w = widest_of(&names);
    assert(names@.map_values(|t: Vec<char>| t@) =~= tm.map_values(|t: TaskModel| t.name));
    let assigned_w = widest_of(&assigned);
    assert(assigned@.map_values(|t: Vec<char>| t@) =~= tm.map_values(|t: TaskModel| t.assigned_to));
    let ok = column_fits(id_w, text_width(&chars_of("ID")), PADDING)
        && column_fits(name_w, text_width(&chars_of("Name")), 12 + PADDING)
        && column_fits(assigned_w, text_width(&chars_of("Assigned")), PADDING)
        && column_fits(0, text_width(&chars_of("mm/dd/yyyy")), PADDING)
        && column_fits(text_width(&chars_of("Dur")), 4, PADDING)
        && column_fits(text_width(&chars_of("Prog%")), 4, PADDING)
        && column_fits(deps_max, text_width(&chars_of("Deps")), PADDING);
    let ghost cw = column_widths(tm);
    if !ok {
        assert(!(forall|k: int| 0 <= k < 7 ==> #[trigger] column_widths(tm)[k] <= u16::MAX)) by {
            if cw[0] <= u16::MAX && cw[1] <= u16::MAX && cw[2] <= u16::MAX && cw[3] <= u16::MAX && cw[4] <= u16::MAX && cw[5] <= u16::MAX {
                assert(cw[6] > u16::MAX);
            }
        }
        return None;
    }
    assert(forall|k: int| 0 <= k < 7 ==> #[trigger] column_widths(tm)[k] <= u16::MAX) by {
        assert forall|k: int| 0 <= k < 7 implies #[trigger] column_widths(tm)[k] <= u16::MAX by {
            if k == 0 {} else if k == 1 {} else if k == 2 {} else if k == 3 {} else if k == 4 {} else if k == 5 {} else {}
        }
    }
    Some(calculate_column_widths(project))
}

// ---------------------------------------------------------------------
// Rows and bars

/// The task runs on `day`: it has dates, and the day lies between them.
pub open spec fn runs_on(t: TaskModel, day: i32) -> bool {
    match (t.start_date, t.end_date) {
        (Some(s), Some(e)) => s <= day <= e,
        _ => false,
    }
}

/// Whether the task runs on `day`.
pub fn task_runs_on(t: &Task, day: i32) -> (r: bool)
    ensures
        r == runs_on(t@, day),
{
    match (t.start_date, t.end_date) {
        (Some(s), Some(e)) => s <= day && day <= e,
        _ => false,
    }
}

/// The task is overdue on `day`: it ended before that day and is not done.
pub open spec fn overdue_on(t: TaskModel, day: i32) -> bool {
    match t.end_date {
        Some(e) => day > e && t.progress < 100,
        None => false,
    }
}

/// Whether the task is overdue on `day`.
pub fn task_is_overdue(t: &Task, day: i32) -> (r: bool)
    ensures
        r == overdue_on(t@, day),
{
    match t.end_date {
        Some(e) => day > e && t.progress < 100,
        None => false,
    }
}

/// How a row of the task table stands out.
#[derive(Clone, Copy, PartialEq, Eq, Structural, Debug)]
pub enum RowLook {
    Overdue,
    RunsToday,
    Urgent,
    Plain,
}

/// The look of a row: overdue rows always stand out; otherwise the
/// highlight mode decides whether running or urgent tasks do.
pub open spec fn row_look_of(overdue: bool, mode: HighlightMode, runs_today: bool, urgent: bool) -> RowLook {
    if overdue {
        RowLook::Overdue
    } else {
        match mode {
            HighlightMode::Today => if runs_today { RowLook::RunsToday } else { RowLook::Plain },
            HighlightMode::Urgent => if urgent { RowLook::Urgent } else { RowLook::Plain },
        }
    }
}

/// The look of a row of the task table.
pub fn row_look(overdue: bool, mode: HighlightMode, runs_today: bool, urgent: bool) -> (r: RowLook)
    ensures
        r == row_look_of(overdue, mode, runs_today, urgent),
{
    if overdue {
        RowLook::Overdue
    } else {
        match mode {
            HighlightMode::Today => if runs_today { RowLook::RunsToday } else { RowLook::Plain },
            HighlightMode::Urgent => if urgent { RowLook::Urgent } else { RowLook::Plain },
        }
    }
}

/// What one day of a task's bar shows: done, still to do, or nothing.
#[derive(Clone, Copy, PartialEq, Eq, Structural, Debug)]
pub enum BarCell {
    Done,
    ToDo,
    Blank,
}

/// The cell of a task's bar on `day`, for a task from `start` to `end`
/// whose work is done up to `done_until`.
pub open spec fn bar_cell_of(day: i32, start: i32, end: i32, done_until: i32) -> BarCell {
    if start <= day <= end {
        if day <= done_until { BarCell::Done } else { BarCell::ToDo }
    } else {
        BarCell::Blank
    }
}

/// The cell of a task's bar on `day`.
pub fn bar_cell(day: i32, start: i32, end: i32, done_until: i32) -> (r: BarCell)
    ensures
        r == bar_cell_of(day, start, end, done_until),
{
    if start <= day && day <= end {
        if day <= done_until { BarCell::Done } else { BarCell::ToDo }
    } else {
        BarCell::Blank
    }
}

// ---------------------------------------------------------------------
// Cell texts

/// The text of a task's ID cell: a space, the id, and a `*` where the task
/// has details.
pub open spec fn id_cell_text(t: TaskModel) -> Seq<char> {
    " "@ + decimal(t.id as nat) + (if t.details is Some { "*"@ } else { Seq::<char>::empty() })
}

/// What a task's cell in the given column shows: the scheduled start date
/// (or `-` for none), numbers in decimal, dependencies joined by ", ".
pub open spec fn shown_field(t: TaskModel, field: TaskField) -> Seq<char> {
    match field {
        TaskField::Name => t.name,
        TaskField::AssignedTo => t.assigned_to,
        TaskField::StartDate => match t.start_date {
            Some(d) => formatted_date(d, date_format()),
            None => "-"@,
        },
        TaskField::Duration => signed_decimal(t.duration as int),
        TaskField::Progress => decimal(t.progress as nat),
        TaskField::Dependencies => joined_ids(t.dependencies),
    }
}

/// The text of a task's cell in column `field`. `active` is the column
/// under the cursor when this row is the selected one. The active cell
/// starts with `> ` and, while editing, shows the input buffer; the others
/// start with a space.
pub open spec fn cell_text(t: TaskModel, field: TaskField, active: Option<TaskField>, mode: InputMode, buffer: Seq<char>) -> Seq<char> {
    if active == Some(field) {
        "> "@ + (if mode == InputMode::Editing { buffer } else { shown_field(t, field) })
    } else {
        " "@ + shown_field(t, field)
    }
}

/// The columns after the ID, in order.
pub open spec fn field_column(k: int) -> TaskField {
    if k == 0 {
        TaskField::Name
    } else if k == 1 {
        TaskField::AssignedTo
    } else if k == 2 {
        TaskField::StartDate
    } else if k == 3 {
        TaskField::Duration
    } else if k == 4 {
        TaskField::Progress
    } else {
        TaskField::Dependencies
    }
}

/// The text of a task's cell in column `field`, as it is shown outside the
/// cursor.
pub fn shown_field_text(t: &Task, field: TaskField) -> (r: Vec<char>)
    requires
        task_dates_valid(t@),
    ensures
        r@ == shown_field(t@, field),
{
    match field {
        TaskField::Name => copy_chars(&t.name),
        TaskField::AssignedTo => copy_chars(&t.assigned_to),
        TaskField::StartDate => match t.start_date {
            Some(d) => {
                proof { reveal_strlit("%m/%d/%Y"); assert("%m/%d/%Y"@ =~= date_format()); }
                format_date(d, "%m/%d/%Y")
            },
            None => chars_of("-"),
        },
        TaskField::Duration => signed_decimal_text(t.duration),
        TaskField::Progress => decimal_text(t.progress as u64),
        TaskField::Dependencies => join_ids(&t.dependencies),
    }
}

/// The seven cell texts of a task's row: the ID cell, then the name,
/// assignee, start, duration, progress and dependency cells.
pub fn row_cell_texts(t: &Task, active: Option<TaskField>, mode: InputMode, buffer: &Vec<char>) -> (r: Vec<Vec<char>>)
    requires
        task_dates_valid(t@),
    ensures
        r@.len() == 7,
        r@[0]@ == id_cell_text(t@),
        forall|k: int| 0 <= k < 6 ==> (#[trigger] r@[k + 1])@ == cell_text(t@, field_column(k), active, mode, buffer@),
{
    let mut r: Vec<Vec<char>> = Vec::new();
    let mark = if t.details.is_some() { chars_of("*") } else { Vec::new() };
    let id_text = concat(&concat(&chars_of(" "), &decimal_text(t.id as u64)), &mark);
    proof {
        reveal_strlit("*");
        if t@.details is Some {
            assert(t.details is Some);
        } else {
            assert(mark@ =~= Seq::<char>::empty());
        }
    }
    r.push(id_text);
    let fields = [TaskField::Name, TaskField::AssignedTo, TaskField::StartDate, TaskField::Duration, TaskField::Progress, TaskField::Dependencies];
    for k in 0..6
        invariant
            r@.len() == k + 1,
            r@[0]@ == id_cell_text(t@),
            task_dates_valid(t@),
            fields@ == seq![TaskField::Name, TaskField::AssignedTo, TaskField::StartDate, TaskField::Duration, TaskField::Progress, TaskField::Dependencies],
            forall|j: int| 0 <= j < k ==> (#[trigger] r@[j + 1])@ == cell_text(t@, field_column(j), active, mode, buffer@),
    {
        let field = fields[k];
        assert(field == field_column(k as int));
        let is_active = match active {
            Some(a) => a == field,
            None => false,
        };
        let text = if is_active {
            let shown = match mode {
                InputMode::Editing => copy_chars(buffer),
                InputMode::Normal => shown_field_text(t, field),
            };
            concat(&chars_of("> "), &shown)
        } else {
            concat(&chars_of(" "), &shown_field_text(t, field))
        };
        r.push(text);
        proof {
            assert(r@[k as int + 1]@ == cell_text(t@, field_column(k as int), active, mode, buffer@));
        }
    }
    r
}

// ---------------------------------------------------------------------
// The header above the task table

/// The field is the one under the cursor, and it is being edited.
pub open spec fn editing_project_field(a: AppModel, f: ProjectField) -> bool {
    a.focus_area == FocusArea::Project(f) && a.input_mode == InputMode::Editing
}

/// The three header lines: the project's name with its place among the
/// projects, its start date, and the week the chart shows; a field being
/// edited shows the input buffer instead.
pub open spec fn header_texts(a: AppModel) -> Seq<Seq<char>> {
    seq![
        "Project: "@
            + (if editing_project_field(a, ProjectField::Name) { a.input_buffer } else { a.cur().name })
            + " ("@ + decimal((a.current + 1) as nat) + "/"@ + decimal(a.projects.len()) + ")"@,
        "Start Date: "@
            + (if editing_project_field(a, ProjectField::StartDate) { a.input_buffer } else { formatted_date(a.cur().start, date_format()) }),
        "Week to Show: "@
            + (if editing_project_field(a, ProjectField::WeekToShow) { a.input_buffer } else { decimal(a.cur().week_to_show as nat) }),
    ]
}

/// The title of the task table: the project's name.
pub open spec fn table_title(a: AppModel) -> Seq<char> {
    "Project Details & Tasks - "@ + a.cur().name
}

/// The title of the task table.
pub fn table_title_text(app: &App) -> (r: Vec<char>)
    requires
        app@.wf(),
    ensures
        r@ == table_title(app@),
{
    concat(&chars_of("Project Details & Tasks - "), &app.get_current_project().project_name)
}

/// The three header lines above the task table.
pub fn header_lines(app: &App) -> (r: Vec<Vec<char>>)
    requires
        app@.wf(),
    ensures
        r@.len() == 3,
        forall|k: int| 0 <= k < 3 ==> (#[trigger] r@[k])@ == header_texts(app@)[k],
{
    let ghost a = app@;
    let p = app.get_current_project();
    let editing = app.input_mode == InputMode::Editing;

    let name = if editing && app.focus_area == FocusArea::Project(ProjectField::Name) {
        copy_chars(&app.input_buffer)
    } else {
        copy_chars(&p.project_name)
    };
    assert(app.all_projects.projects@.len() == a.projects.len());
    assert(a.current < a.projects.len());
    assert(app.current_project_index < app.all_projects.projects.len());
    let place_number: usize = app.current_project_index + 1;
    let place = decimal_text(place_number as u64);
    let count = decimal_text(app.all_projects.projects.len() as u64);
    let l0 = concat(&concat(&concat(&concat(&concat(&concat(&chars_of("Project: "), &name), &chars_of(" (")), &place), &chars_of("/")), &count), &chars_of(")"));

    let date = if editing && app.focus_area == FocusArea::Project(ProjectField::StartDate) {
        copy_chars(&app.input_buffer)
    } else {
        proof {
            reveal_strlit("%m/%d/%Y");
            assert("%m/%d/%Y"@ =~= date_format());
            assert(a.cur().dates_valid());
        }
        format_date(p.project_start_date, "%m/%d/%Y")
    };
    let l1 = concat(&chars_of("Start Date: "), &date);

    let week = if editing && app.focus_area == FocusArea::Project(ProjectField::WeekToShow) {
        copy_chars(&app.input_buffer)
    } else {
        decimal_text(p.week_to_show as u64)
    };
    let l2 = concat(&chars_of("Week to Show: "), &week);

    let mut r: Vec<Vec<char>> = Vec::new();
    r.push(l0);
    r.push(l1);
    r.push(l2);
    assert(r@[0]@ == header_texts(a)[0]);
    assert(r@[1]@ == header_texts(a)[1]);
    assert(r@[2]@ == header_texts(a)[2]);
    r
}

// ---------------------------------------------------------------------
// Where the cursor stands while editing

/// The cursor in the details box at (`x`, `y`), `width` columns wide,
/// after `typed` bytes of text: the text wraps at `width - 2` columns
/// inside the border. `None` where the box is too narrow to wrap in
/// (`width - 2` would not be positive) or a coordinate would pass `u16`.
pub open spec fn details_cursor_at(x: u16, y: u16, width: u16, typed: usize) -> Option<(u16, u16)> {
    if width <= 2 {
        None
    } else {
        let t = typed as u16;
        let w = (width - 2) as u16;
        let cx = x + 1 + t % w;
        let cy = y + 1 + t / w;
        if x + 1 <= u16::MAX && cx <= u16::MAX && y + 1 <= u16::MAX && cy <= u16::MAX {
            Some((cx as u16, cy as u16))
        } else {
            None
        }
    }
}

/// The cursor in the details box.
pub fn details_cursor(x: u16, y: u16, width: u16, typed: usize) -> (r: Option<(u16, u16)>)
    ensures
        r == details_cursor_at(x, y, width, typed),
{
    if width <= 2 {
        return None;
    }
    let t = #[verifier::truncate] (typed as u16);
    let w = width - 2;
    let x1 = match x.checked_add(1) { Some(v) => v, None => return None };
    let cx = match x1.checked_add(t % w) { Some(v) => v, None => return None };
    let y1 = match y.checked_add(1) { Some(v) => v, None => return None };
    let cy = match y1.checked_add(t / w) { Some(v) => v, None => return None };
    Some((cx, cy))
}

/// The columns the label of a project field takes ("Project: ",
/// "Start Date: ", "Week to Show: ") and the line it stands on.
pub open spec fn project_label(f: ProjectField) -> (usize, u16) {
    match f {
        ProjectField::Name => (9, 1),
        ProjectField::StartDate => (12, 2),
        ProjectField::WeekToShow => (14, 3),
    }
}

/// The cursor on a project field of the header in the table box at (`x`,
/// `y`), after `typed` bytes of text: past the border, the label and the
/// text, on the field's line. `None` where a coordinate would pass its
/// integer type.
pub open spec fn project_cursor_at(f: ProjectField, x: u16, y: u16, typed: usize) -> Option<(u16, u16)> {
    let (label, line) = project_label(f);
    let along = label + typed;
    let cx = x + 1 + ((along as usize) as u16);
    let cy = y + line;
    if along <= usize::MAX && x + 1 <= u16::MAX && cx <= u16::MAX && cy <= u16::MAX {
        Some((cx as u16, cy as u16))
    } else {
        None
    }
}

/// The cursor on a project field of the header.
pub fn project_cursor(f: ProjectField, x: u16, y: u16, typed: usize) -> (r: Option<(u16, u16)>)
    ensures
        r == project_cursor_at(f, x, y, typed),
{
    let (label, line): (usize, u16) = match f {
        ProjectField::Name => (9, 1),
        ProjectField::StartDate => (12, 2),
        ProjectField::WeekToShow => (14, 3),
    };
    let along = match label.checked_add(typed) { Some(v) => v, None => return None };
    let x1 = match x.checked_add(1) { Some(v) => v, None => return None };
    let cx = match x1.checked_add(#[verifier::truncate] (along as u16)) { Some(v) => v, None => return None };
    let cy = match y.checked_add(line) { Some(v) => v, None => return None };
    Some((cx, cy))
}

/// How far the cursor steps from `> ` plus the text in a task column.
pub open spec fn task_cursor_step(f: TaskField) -> int {
    match f {
        TaskField::Name => 1,
        TaskField::AssignedTo => -4,
        TaskField::StartDate => -3,
        TaskField::Duration => -2,
        TaskField::Progress => -1,
        TaskField::Dependencies => 0,
    }
}

/// The cursor in task column `f`, whose left edge is at `col_x`, on table
/// row `row` below `rows_y`, after `typed` bytes of text: past the `> `
/// mark and the text, stepped by the column's amount. `None` where a
/// coordinate would leave `u16`.
pub open spec fn task_cursor_at(f: TaskField, col_x: u16, rows_y: u16, row: usize, typed: usize) -> Option<(u16, u16)> {
    let base = col_x + 2;
    let along = base + (typed as u16);
    let cx = along + task_cursor_step(f);
    let cy = rows_y + (row as u16);
    if base <= u16::MAX && along <= u16::MAX && 0 <= cx <= u16::MAX && cy <= u16::MAX {
        Some((cx as u16, cy as u16))
    } else {
        None
    }
}

/// The cursor in a task column.
pub fn task_cursor(f: TaskField, col_x: u16, rows_y: u16, row: usize, typed: usize) -> (r: Option<(u16, u16)>)
    ensures
        r == task_cursor_at(f, col_x, rows_y, row, typed),
{
    let base = match col_x.checked_add(2) { Some(v) => v, None => return None };
    let along = match base.checked_add(#[verifier::truncate] (typed as u16)) { Some(v) => v, None => return None };
    let cx = match f {
        TaskField::Name => along.checked_add(1),
        TaskField::AssignedTo => along.checked_sub(4),
        TaskField::StartDate => along.checked_sub(3),
        TaskField::Duration => along.checked_sub(2),
        TaskField::Progress => along.checked_sub(1),
        TaskField::Dependencies => Some(along),
    };
    let cx = match cx { Some(v) => v, None => return None };
    let cy = match rows_y.checked_add(#[verifier::truncate] (row as u16)) { Some(v) => v, None => return None };
    Some((cx, cy))
}

// ---------------------------------------------------------------------
// The chart's days and its header

/// The columns one day takes in the chart.
pub const DAY_WIDTH: u16 = 4u16;

/// The chart's first day and how many more days it shows, for a project
/// starting on `start` that shows week `week` in `width` columns: the
/// week's first day, then `width / 4` more days. `None` where a shown day
/// leaves the calendar.
pub open spec fn chart_window_of(start: i32, week: u32, width: u16) -> Option<(i32, u16)> {
    let first = start + 7 * week;
    let more = width / DAY_WIDTH;
    if day_in_range(first) && day_in_range(first + more) {
        Some((first as i32, more as u16))
    } else {
        None
    }
}

/// The chart's first day and how many more days it shows.
pub fn chart_window(start: i32, week: u32, width: u16) -> (r: Option<(i32, u16)>)
    requires
        day_in_range(start as int),
    ensures
        r == chart_window_of(start, week, width),
{
    let more = width / DAY_WIDTH;
    let first = match add_days(start, 7 * (week as i64)) {
        Some(d) => d,
        None => return None,
    };
    match add_days(first, more as i64) {
        Some(_) => Some((first, more)),
        None => None,
    }
}

/// The text padded with spaces on the right to at least `n` characters.
pub open spec fn padded(t: Seq<char>, n: nat) -> Seq<char> {
    if t.len() >= n { t } else { t + Seq::new((n - t.len()) as nat, |i: int| ' ') }
}

fn pad_right(t: Vec<char>, n: usize) -> (r: Vec<char>)
    ensures
        r@ == padded(t@, n as nat),
{
    let mut r = t;
    let ghost t0 = r@;
    while r.len() < n
        invariant
            t0.len() <= r@.len(),
            r@.len() <= n || r@ == t0,
            r@.subrange(0, t0.len() as int) == t0,
            forall|i: int| t0.len() <= i < r@.len() ==> r@[i] == ' ',
        decreases n - r.len(),
    {
        r.push(' ');
    }
    proof {
        if t0.len() >= n {
            assert(r@ == t0);
        } else {
            assert(r@ =~= t0 + Seq::new((n - t0.len()) as nat, |i: int| ' '));
        }
    }
    r
}

/// The day of the week of a day number, Monday being 0: day 1, the first
/// of January of the year 1, is a Monday.
pub open spec fn weekday_index(day: int) -> int {
    (day + 6) % 7
}

/// The letter that stands for the weekday in the chart's header.
pub open spec fn weekday_letter(day: int) -> char {
    let w = weekday_index(day);
    if w == 0 { 'M' } else if w == 1 { 'T' } else if w == 2 { 'W' } else if w == 3 { 'T' } else if w == 4 { 'F' } else { 'S' }
}

/// The month line's cell of a day: a bar and the month's name where the
/// month differs from that of the day before (`prev_month`, 0 for none),
/// else blank.
pub open spec fn month_cell(day: i32, prev_month: u32) -> Seq<char> {
    if month_of(day) != prev_month {
        "|"@ + padded(formatted_date(day, month_format()), 3)
    } else {
        "    "@
    }
}

/// The day line's cell of a day: its day of the month.
pub open spec fn day_cell(day: i32) -> Seq<char> {
    " "@ + padded(decimal(day_of_month(day) as nat), 2) + " "@
}

/// The weekday line's cell of a day.
pub open spec fn weekday_cell(day: int) -> Seq<char> {
    seq![' ', weekday_letter(day), ' ', ' ']
}

/// The month before day `k` of the chart: 0 for the first day.
pub open spec fn month_before(first: i32, k: int) -> u32 {
    if k == 0 { 0 } else { month_of((first + k - 1) as i32) }
}

/// The three header lines of the chart, one cell per shown day: the
/// months, the days of the month and the weekdays.
pub struct ChartHeader {
    pub months: Vec<Vec<char>>,
    pub days: Vec<Vec<char>>,
    pub weekdays: Vec<Vec<char>>,
}

fn weekday_char(day: i32) -> (c: char)
    ensures
        c == weekday_letter(day as int),
{
    let w = ((day as i64) + 6) % 7;
    let w = if w < 0 { w + 7 } else { w };
    assert(w == weekday_index(day as int));
    if w == 0 { 'M' } else if w == 1 { 'T' } else if w == 2 { 'W' } else if w == 3 { 'T' } else if w == 4 { 'F' } else { 'S' }
}

/// The chart's header for the days `first` to `first + more`.
pub fn chart_header(first: i32, more: u16) -> (h: ChartHeader)
    requires
        day_in_range(first as int),
        day_in_range(first + more),
    ensures
        h.months@.len() == more + 1,
        h.days@.len() == more + 1,
        h.weekdays@.len() == more + 1,
        forall|k: int| 0 <= k <= more ==> (#[trigger] h.months@[k])@ == month_cell((first + k) as i32, month_before(first, k)),
        forall|k: int| 0 <= k <= more ==> (#[trigger] h.days@[k])@ == day_cell((first + k) as i32),
        forall|k: int| 0 <= k <= more ==> (#[trigger] h.weekdays@[k])@ == weekday_cell(first + k),
{
    let mut months: Vec<Vec<char>> = Vec::new();
    let mut days: Vec<Vec<char>> = Vec::new();
    let mut weekdays: Vec<Vec<char>> = Vec::new();
    let mut last_month: u32 = 0;
    let mut k: u32 = 0;
    while k <= more as u32
        invariant
            day_in_range(first as int),
            day_in_range(first + more),
            k <= more + 1,
            months@.len() == k,
            days@.len() == k,
            weekdays@.len() == k,
            last_month == month_before(first, k as int),
            forall|j: int| 0 <= j < k ==> (#[trigger] months@[j])@ == month_cell((first + j) as i32, month_before(first, j)),
            forall|j: int| 0 <= j < k ==> (#[trigger] days@[j])@ == day_cell((first + j) as i32),
            forall|j: int| 0 <= j < k ==> (#[trigger] weekdays@[j])@ == weekday_cell(first + j),
        decreases more + 1 - k,
    {
        let day: i32 = first + (k as i32);
        assert(day_in_range(day as int));
        let month = calendar_month(day);
        let month_text = if month != last_month {
            proof { reveal_strlit("%b"); assert("%b"@ =~= month_format()); }
            let name = format_date(day, "%b");
            concat(&chars_of("|"), &pad_right(name, 3))
        } else {
            chars_of("    ")
        };
        months.push(month_text);
        let day_text = concat(&concat(&chars_of(" "), &pad_right(decimal_text(calendar_day(day) as u64), 2)), &chars_of(" "));
        days.push(day_text);
        let mut weekday_text: Vec<char> = Vec::new();
        weekday_text.push(' ');
        weekday_text.push(weekday_char(day));
        weekday_text.push(' ');
        weekday_text.push(' ');
        assert(weekday_text@ =~= weekday_cell(first + k));
        weekdays.push(weekday_text);
        assert(months@[k as int]@ == month_cell((first + k) as i32, month_before(first, k as int)));
        last_month = month;
        k = k + 1;
    }
    ChartHeader { months, days, weekdays }
}

} // verus!
