//! Editing fields: filling the input buffer with a field's text, and
//! writing the buffer back into the project: numbers (durations with a
//! week, month or year suffix, progress capped at 100), dates typed as
//! month/day/year or "today", and comma-separated dependency lists.
use vstd::prelude::*;
use crate::date::{day_in_range, four_digit_year, date_format, formatted_date, parsed_date, format_date, parse_date, local_today};
use crate::model::{Task, TaskModel, ProjectData, ProjectModel, tasks_model, task_dates_valid};
use crate::app::{App, AppModel, FocusArea, ProjectField, TaskField, all_dates_valid};
use crate::text::{
    chars_of, concat, copy_chars, decimal, decimal_text, signed_decimal, signed_decimal_text, trim,
    trimmed, parsed_i64, parse_i64, parsed_u8, parse_u8, parsed_u32, parse_u32, ids_in_list,
    parse_id_list, lowercased, lowercase, same_text,
};

verus! {

/// The ids written out in decimal, separated by ", ".
pub open spec fn joined_ids(ids: Seq<u32>) -> Seq<char>
    decreases ids.len(),
{
    if ids.len() == 0 {
        Seq::empty()
    } else if ids.len() == 1 {
        decimal(ids[0] as nat)
    } else {
        joined_ids(ids.drop_last()) + ", "@ + decimal(ids.last() as nat)
    }
}

/// The ids written out in decimal, separated by ", ".
pub fn join_ids(ids: &Vec<u32>) -> (r: Vec<char>)
    ensures
        r@ == joined_ids(ids@),
{
    let mut r: Vec<char> = Vec::new();
    for i in 0..ids.len()
        invariant
            r@ == joined_ids(ids@.take(i as int)),
    {
        assert(ids@.take(i + 1).drop_last() =~= ids@.take(i as int));
        let d = decimal_text(ids[i] as u64);
        if i == 0 {
            assert(ids@.take(1) =~= seq![ids@[0]]);
            r = d;
        } else {
            let sep = concat(&r, &chars_of(", "));
            r = concat(&sep, &d);
        }
    }
    assert(ids@.take(ids.len() as int) =~= ids@);
    r
}

/// The text of a task's field as it is shown for editing.
pub open spec fn field_text(t: TaskModel, field: TaskField) -> Seq<char> {
    match field {
        TaskField::Name => t.name,
        TaskField::AssignedTo => t.assigned_to,
        TaskField::Duration => signed_decimal(t.duration as int),
        TaskField::Progress => decimal(t.progress as nat),
        TaskField::Dependencies => joined_ids(t.dependencies),
        TaskField::StartDate => match t.manual_start_date {
            Some(d) => formatted_date(d, date_format()),
            None => Seq::empty(),
        },
    }
}

/// The message for a date that does not parse.
pub open spec fn invalid_date_message() -> Seq<char> {
    "Invalid date format. Please use mm/dd/yyyy or 'today'."@
}

/// The message for a manual start date that replaced the dependencies.
pub open spec fn deps_cleared_message() -> Seq<char> {
    "Dependencies cleared for task with manual start date."@
}

/// The text names the current date.
pub open spec fn means_today(buffer: Seq<char>) -> bool {
    lowercased(buffer) == "today"@
}

/// The text shown for the day reads back as that day: it is not empty, the
/// date parser reads the day from it, and it is not taken for "today".
pub open spec fn date_reads_back(d: i32) -> bool {
    let t = formatted_date(d, date_format());
    &&& t.len() > 0
    &&& parsed_date(t, date_format()) == Some(d)
    &&& !means_today(t)
}

/// The duration a text gives, in days: a number of days, or of weeks,
/// months (30 days) or years (365 days) with the suffix `w`, `m` or `y`;
/// the old duration where the number does not parse.
pub open spec fn duration_from_text(buffer: Seq<char>, old_duration: i64) -> int {
    let t = trim(buffer);
    if t.len() > 0 && t.last() == 'w' {
        match parsed_i64(t.drop_last()) { Some(v) => v * 7, None => old_duration as int }
    } else if t.len() > 0 && t.last() == 'm' {
        match parsed_i64(t.drop_last()) { Some(v) => v * 30, None => old_duration as int }
    } else if t.len() > 0 && t.last() == 'y' {
        match parsed_i64(t.drop_last()) { Some(v) => v * 365, None => old_duration as int }
    } else {
        match parsed_i64(t) { Some(v) => v as int, None => old_duration as int }
    }
}

/// The progress a text gives: the number, at most 100, or the old
/// progress where the text is no `u8`.
pub open spec fn progress_from_text(buffer: Seq<char>, old_progress: u8) -> u8 {
    let p = match parsed_u8(buffer) { Some(v) => v, None => old_progress };
    if p < 100 { p } else { 100 }
}

/// A task after writing the buffer into one of its fields, and the
/// message the planner shows, if any.
pub open spec fn edited_task(t: TaskModel, field: TaskField, buffer: Seq<char>, now: i32) -> (TaskModel, Option<Seq<char>>) {
    match field {
        TaskField::Name => (TaskModel { name: buffer, ..t }, None),
        TaskField::AssignedTo => (TaskModel { assigned_to: buffer, ..t }, None),
        TaskField::Duration => (TaskModel { duration: duration_from_text(buffer, t.duration) as i64, ..t }, None),
        TaskField::Progress => (TaskModel { progress: progress_from_text(buffer, t.progress), ..t }, None),
        TaskField::Dependencies => {
            let deps = ids_in_list(buffer);
            (TaskModel {
                dependencies: deps,
                manual_start_date: if deps.len() > 0 { None } else { t.manual_start_date },
                ..t
            }, None)
        },
        TaskField::StartDate => if buffer.len() == 0 {
            (TaskModel { manual_start_date: None, ..t }, None)
        } else if means_today(buffer) {
            (TaskModel { manual_start_date: Some(now), dependencies: Seq::empty(), ..t }, Some(deps_cleared_message()))
        } else {
            match parsed_date(buffer, date_format()) {
                Some(d) => (TaskModel { manual_start_date: Some(d), dependencies: Seq::empty(), ..t }, Some(deps_cleared_message())),
                None => (t, Some(invalid_date_message())),
            }
        },
    }
}

/// Where the cursor is when a field is written back.
pub struct EditTarget {
    pub focus_area: FocusArea,
    pub field: TaskField,
    pub selected: Option<usize>,
}

/// A project after writing the buffer into the field under the cursor,
/// and the message the planner shows, if any.
pub open spec fn edited_project(p: ProjectModel, at: EditTarget, buffer: Seq<char>, now: i32) -> (ProjectModel, Option<Seq<char>>) {
    match at.focus_area {
        FocusArea::Project(ProjectField::Name) => (ProjectModel { name: buffer, ..p }, None),
        FocusArea::Project(ProjectField::StartDate) => if means_today(buffer) {
            (ProjectModel { start: now, ..p }, None)
        } else {
            match parsed_date(buffer, date_format()) {
                Some(d) => (ProjectModel { start: d, ..p }, None),
                None => (p, Some(invalid_date_message())),
            }
        },
        FocusArea::Project(ProjectField::WeekToShow) => match parsed_u32(buffer) {
            Some(w) => (ProjectModel { week_to_show: w, ..p }, None),
            None => (p, Some("Invalid number for week."@)),
        },
        FocusArea::Tasks => match at.selected {
            Some(i) => {
                let (t, m) = edited_task(p.tasks[i as int], at.field, buffer, now);
                (ProjectModel { tasks: p.tasks.update(i as int, t), ..p }, m)
            },
            None => (p, None),
        },
    }
}

/// Writing the buffer back does not panic: the selected row exists, and a
/// duration stays within `i64`.
pub open spec fn can_edit(p: ProjectModel, at: EditTarget, buffer: Seq<char>) -> bool {
    at.focus_area == FocusArea::Tasks ==> match at.selected {
        Some(i) => {
            &&& i < p.tasks.len()
            &&& at.field == TaskField::Duration ==> i64::MIN <= duration_from_text(buffer, p.tasks[i as int].duration) <= i64::MAX
        },
        None => true,
    }
}

impl AppModel {
    /// Where the cursor is.
    pub open spec fn edit_target(self) -> EditTarget {
        EditTarget { focus_area: self.focus_area, field: self.selected_task_field, selected: self.selected }
    }

    /// The state after loading the field under the cursor into the input
    /// buffer.
    pub open spec fn buffer_loaded(self) -> AppModel {
        match self.focus_area {
            FocusArea::Project(ProjectField::Name) => AppModel { input_buffer: self.cur().name, ..self },
            FocusArea::Project(ProjectField::StartDate) => AppModel {
                input_buffer: formatted_date(self.cur().start, date_format()),
                ..self
            },
            FocusArea::Project(ProjectField::WeekToShow) => AppModel {
                input_buffer: decimal(self.cur().week_to_show as nat),
                ..self
            },
            FocusArea::Tasks => match self.selected {
                Some(i) => AppModel {
                    input_buffer: field_text(self.tasks()[i as int], self.selected_task_field),
                    ..self
                },
                None => self,
            },
        }
    }

    /// Loading the buffer does not panic: the selected row exists.
    pub open spec fn can_load_buffer(self) -> bool {
        self.task_row_selected() ==> self.selected->0 < self.tasks().len()
    }

    /// The state after writing the input buffer into the field under the
    /// cursor, with `now` as the current date.
    pub open spec fn buffer_saved(self, now: i32) -> AppModel {
        let (p, m) = edited_project(self.cur(), self.edit_target(), self.input_buffer, now);
        match m {
            Some(msg) => AppModel { status: msg, ..self.with_current(p) },
            None => self.with_current(p),
        }
    }

    /// Writing the buffer back does not panic.
    pub open spec fn can_save_buffer(self) -> bool {
        can_edit(self.cur(), self.edit_target(), self.input_buffer)
    }
}

/// The text of a task's field as it is shown for editing.
pub fn task_field_text(t: &Task, field: TaskField) -> (r: Vec<char>)
    requires
        task_dates_valid(t@),
    ensures
        r@ == field_text(t@, field),
        field == TaskField::StartDate && t@.manual_start_date is Some && four_digit_year(t@.manual_start_date->0 as int)
            ==> date_reads_back(t@.manual_start_date->0),
{
    match field {
        TaskField::Name => copy_chars(&t.name),
        TaskField::AssignedTo => copy_chars(&t.assigned_to),
        TaskField::Duration => signed_decimal_text(t.duration),
        TaskField::Progress => decimal_text(t.progress as u64),
        TaskField::Dependencies => join_ids(&t.dependencies),
        TaskField::StartDate => match t.manual_start_date {
            Some(d) => {
                proof { reveal_strlit("%m/%d/%Y"); assert("%m/%d/%Y"@ =~= date_format()); }
                let r = format_date(d, "%m/%d/%Y");
                proof { lemma_date_reads_back(d, r@); }
                r
            },
            None => Vec::new(),
        },
    }
}

/// Loads the field under the cursor into the input buffer.
pub fn load_buffer_for_editing(app: &mut App)
    requires
        old(app)@.wf(),
        old(app)@.can_load_buffer(),
    ensures
        final(app)@ == old(app)@.buffer_loaded(),
        old(app)@.focus_area == FocusArea::Project(ProjectField::StartDate) && four_digit_year(old(app)@.cur().start as int)
            ==> date_reads_back(old(app)@.cur().start),
        ({
            let m = old(app)@.tasks()[old(app)@.selected->0 as int].manual_start_date;
            old(app)@.task_row_selected() && old(app)@.selected_task_field == TaskField::StartDate
                && m is Some && four_digit_year(m->0 as int) ==> date_reads_back(m->0)
        }),
{
    let ghost a = app@;
    match app.focus_area {
        FocusArea::Project(ProjectField::Name) => {
            app.input_buffer = copy_chars(&app.get_current_project().project_name);
        },
        FocusArea::Project(ProjectField::StartDate) => {
            proof {
                reveal_strlit("%m/%d/%Y");
                assert("%m/%d/%Y"@ =~= date_format());
                assert(a.cur().dates_valid());
            }
            let r = format_date(app.get_current_project().project_start_date, "%m/%d/%Y");
            proof { lemma_date_reads_back(a.cur().start, r@); }
            app.input_buffer = r;
        },
        FocusArea::Project(ProjectField::WeekToShow) => {
            app.input_buffer = decimal_text(app.get_current_project().week_to_show as u64);
        },
        FocusArea::Tasks => {
            if let Some(index) = app.selected {
                let p = app.get_current_project();
                proof {
                    assert(a.cur().dates_valid());
                    assert(task_dates_valid(a.tasks()[index as int]));
                }
                app.input_buffer = task_field_text(&p.tasks[index], app.selected_task_field);
            }
        },
    }
}

/// What `format_date` promises of a day with a four-digit year makes the
/// shown text read back.
proof fn lemma_date_reads_back(d: i32, t: Seq<char>)
    requires
        t == formatted_date(d, date_format()),
        four_digit_year(d as int) ==> t.len() == 10,
        four_digit_year(d as int) ==> parsed_date(t, date_format()) == Some(d),
        four_digit_year(d as int) ==> lowercased(t) == t,
    ensures
        four_digit_year(d as int) ==> date_reads_back(d),
{
    reveal_strlit("today");
    if four_digit_year(d as int) {
        assert("today"@.len() == 5);
        assert(lowercased(t) != "today"@);
    }
}

/// Whether the text, lowercased, is "today".
fn is_today_word(buffer: &Vec<char>) -> (r: bool)
    ensures
        r == means_today(buffer@),
{
    same_text(&lowercase(buffer), &chars_of("today"))
}

/// Reads a number of days, weeks, months or years from the text.
pub fn parse_duration(buffer: &Vec<char>, old_duration: i64) -> (r: i64)
    requires
        i64::MIN <= duration_from_text(buffer@, old_duration) <= i64::MAX,
    ensures
        r as int == duration_from_text(buffer@, old_duration),
{
    let t = trimmed(buffer);
    let n = t.len();
    if n > 0 && (t[n - 1] == 'w' || t[n - 1] == 'm' || t[n - 1] == 'y') {
        let mut body = copy_chars(&t);
        body.pop();
        assert(body@ =~= trim(buffer@).drop_last());
        match parse_i64(&body) {
            Some(val) => {
                if t[n - 1] == 'w' {
                    val * 7
                } else if t[n - 1] == 'm' {
                    val * 30
                } else {
                    val * 365
                }
            },
            None => old_duration,
        }
    } else {
        match parse_i64(&t) {
            Some(val) => val,
            None => old_duration,
        }
    }
}

/// Writes the buffer into a task's field; returns the message to show, if any.
fn edit_task(t: &mut Task, field: TaskField, buffer: &Vec<char>, now: i32) -> (msg: Option<Vec<char>>)
    requires
        field == TaskField::Duration ==> i64::MIN <= duration_from_text(buffer@, old(t)@.duration) <= i64::MAX,
    ensures
        final(t)@ == edited_task(old(t)@, field, buffer@, now).0,
        msg matches Some(m) ==> edited_task(old(t)@, field, buffer@, now).1 == Some(m@),
        msg is None ==> edited_task(old(t)@, field, buffer@, now).1 is None,
        task_dates_valid(old(t)@) && day_in_range(now as int) ==> task_dates_valid(final(t)@),
{
    match field {
        TaskField::Name => {
            t.name = copy_chars(buffer);
            None
        },
        TaskField::AssignedTo => {
            t.assigned_to = copy_chars(buffer);
            None
        },
        TaskField::Duration => {
            t.duration = parse_duration(buffer, t.duration);
            None
        },
        TaskField::Progress => {
            let p = match parse_u8(buffer) {
                Some(v) => v,
                None => t.progress,
            };
            t.progress = if p < 100 { p } else { 100 };
            None
        },
        TaskField::Dependencies => {
            t.dependencies = parse_id_list(buffer);
            if t.dependencies.len() > 0 {
                t.manual_start_date = None;
            }
            None
        },
        TaskField::StartDate => {
            if buffer.len() == 0 {
                t.manual_start_date = None;
                None
            } else if is_today_word(buffer) {
                t.manual_start_date = Some(now);
                t.dependencies = Vec::new();
                assert(t.dependencies@ =~= Seq::<u32>::empty());
                Some(chars_of("Dependencies cleared for task with manual start date."))
            } else {
                proof { reveal_strlit("%m/%d/%Y"); assert("%m/%d/%Y"@ =~= date_format()); }
                match parse_date(buffer, "%m/%d/%Y") {
                    Some(date) => {
                        t.manual_start_date = Some(date);
                        t.dependencies = Vec::new();
                        assert(t.dependencies@ =~= Seq::<u32>::empty());
                        Some(chars_of("Dependencies cleared for task with manual start date."))
                    },
                    None => Some(chars_of("Invalid date format. Please use mm/dd/yyyy or 'today'.")),
                }
            }
        },
    }
}

/// Writes the buffer into the field of the project under the cursor;
/// returns the message to show, if any.
pub fn apply_edit(p: &mut ProjectData, at: &EditTarget, buffer: &Vec<char>, now: i32) -> (msg: Option<Vec<char>>)
    requires
        can_edit(old(p)@, *at, buffer@),
    ensures
        final(p)@ == edited_project(old(p)@, *at, buffer@, now).0,
        msg matches Some(m) ==> edited_project(old(p)@, *at, buffer@, now).1 == Some(m@),
        msg is None ==> edited_project(old(p)@, *at, buffer@, now).1 is None,
        old(p)@.dates_valid() && day_in_range(now as int) ==> final(p)@.dates_valid(),
{
    match at.focus_area {
        FocusArea::Project(ProjectField::Name) => {
            p.project_name = copy_chars(buffer);
            None
        },
        FocusArea::Project(ProjectField::StartDate) => {
            if is_today_word(buffer) {
                p.project_start_date = now;
                None
            } else {
                proof { reveal_strlit("%m/%d/%Y"); assert("%m/%d/%Y"@ =~= date_format()); }
                match parse_date(buffer, "%m/%d/%Y") {
                    Some(date) => {
                        p.project_start_date = date;
                        None
                    },
                    None => Some(chars_of("Invalid date format. Please use mm/dd/yyyy or 'today'.")),
                }
            }
        },
        FocusArea::Project(ProjectField::WeekToShow) => {
            match parse_u32(buffer) {
                Some(week) => {
                    p.week_to_show = week;
                    None
                },
                None => Some(chars_of("Invalid number for week.")),
            }
        },
        FocusArea::Tasks => {
            match at.selected {
                Some(index) => {
                    let ghost tm = p@.tasks;
                    let mut task = p.tasks.remove(index);
                    assert(task@ == tm[index as int]);
                    let msg = edit_task(&mut task, at.field, buffer, now);
                    p.tasks.insert(index, task);
                    proof {
                        assert(tasks_model(p.tasks@) =~= tm.update(index as int, edited_task(tm[index as int], at.field, buffer@, now).0));
                        if old(p)@.dates_valid() && day_in_range(now as int) {
                            assert forall|j: int| 0 <= j < p@.tasks.len() implies task_dates_valid(#[trigger] p@.tasks[j]) by {
                                if j != index {
                                    assert(p@.tasks[j] == tm[j]);
                                }
                                assert(task_dates_valid(tm[j]));
                            }
                        }
                    }
                    msg
                },
                None => None,
            }
        },
    }
}

impl App {
    /// Writes the input buffer into the field under the cursor, with `now`
    /// as the current date.
    pub fn save_buffer_to_task_on(&mut self, now: i32)
        requires
            old(self)@.wf(),
            day_in_range(now as int),
            old(self)@.can_save_buffer(),
        ensures
            final(self)@ == old(self)@.buffer_saved(now),
            final(self)@.wf(),
    {
        let ghost a = self@;
        let at = EditTarget {
            focus_area: self.focus_area,
            field: self.selected_task_field,
            selected: self.selected,
        };
        let buffer = copy_chars(&self.input_buffer);
        let mut p = self.swap_current(crate::app::blank_project());
        proof { assert(p@ == a.cur()); }
        let msg = apply_edit(&mut p, &at, &buffer, now);
        self.swap_current(p);
        proof {
            assert(self@.projects =~= a.projects.update(a.current as int, p@));
            crate::app::lemma_update_keeps_dates_pub(a.projects, a.current as int, p@);
        }
        match msg {
            Some(m) => self.status_message = m,
            None => {},
        }
    }

    /// Writes the input buffer into the field under the cursor, reading the
    /// current date from the clock.
    pub fn save_buffer_to_task(&mut self)
        requires
            old(self)@.wf(),
            old(self)@.can_save_buffer(),
        ensures
            exists|now: i32| day_in_range(now as int) && final(self)@ == old(self)@.buffer_saved(now),
            final(self)@.wf(),
    {
        let now = local_today();
        self.save_buffer_to_task_on(now);
    }
}

} // verus!
