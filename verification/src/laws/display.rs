//! What stands on the screen.

use crate::catalog::MissingRequirementPolicy;
use crate::laws::cockpit;
use crate::persistence::HistoryModel;
use crate::runner::{OutcomeModel, OutcomeStatus, SummaryModel};
use crate::text;
use crate::text::Text;
use crate::tui::clock;
use crate::tui::items::{AvailabilityState, ItemModel, Screen, TaskState};
use crate::tui::layout;
use crate::tui::layout::{Area, FrameAreas, Share};
use crate::tui::model;
use crate::tui::model::{AppModel, EntryModel};
use crate::tui::scene;
use crate::tui::scene::PanelKind;
use crate::tui::style;
use crate::tui::style::{Color, LineModel, PanelModel, SpanModel, TextStyle};
use crate::tui::view;
use vstd::prelude::*;

verus! {

/// Text is plain, of one color, bold or dim in one color, or of one color on another.
pub proof fn styles_are_what_they_say(color: Color, ground: Color)
    ensures
        style::plain() == (TextStyle { fg: None, bg: None, bold: false, dim: false }),
        style::colored(color) == (TextStyle {
            fg: Some(color),
            bg: None,
            bold: false,
            dim: false,
        }),
        style::bold(color) == (TextStyle { fg: Some(color), bg: None, bold: true, dim: false }),
        style::dim(color) == (TextStyle { fg: Some(color), bg: None, bold: false, dim: true }),
        style::on(color, ground) == (TextStyle {
            fg: Some(color),
            bg: Some(ground),
            bold: false,
            dim: false,
        }),
{
}

/// A line is made of its text or its spans, in its style.
pub proof fn lines_are_made_of_their_text(
    content: Text,
    look: TextStyle,
    spans: Seq<SpanModel>,
)
    ensures
        style::span(content, look) == (SpanModel { text: content, style: look }),
        ({
            let line = style::raw_line(content);
            &&& line.style == style::plain()
            &&& line.spans.len() == 1
            &&& line.spans[0] == (SpanModel { text: content, style: style::plain() })
        }),
        ({
            let line = style::styled_line(content, look);
            &&& line.style == look
            &&& line.spans.len() == 1
            &&& line.spans[0] == (SpanModel { text: content, style: style::plain() })
        }),
        style::spans_line(spans) == (LineModel { style: style::plain(), spans }),
{
}

/// A running task is bold and cyan, a success green, a warning yellow and a failure red. A
/// pending task is gray where it is available, yellow where it would get a warning and
/// dark gray where it would fail.
pub proof fn states_have_their_colors(availability: AvailabilityState)
    ensures
        view::state_style(TaskState::Running, availability) == style::bold(Color::Cyan),
        view::state_style(TaskState::Success, availability) == style::bold(Color::Green),
        view::state_style(TaskState::Warn, availability) == style::bold(Color::Yellow),
        view::state_style(TaskState::Fail, availability) == style::bold(Color::Red),
        view::state_style(TaskState::Pending, AvailabilityState::Available) == style::colored(
            Color::Gray,
        ),
        view::state_style(TaskState::Pending, AvailabilityState::WarnUnavailable) == style::colored(
            Color::Yellow,
        ),
        view::state_style(TaskState::Pending, AvailabilityState::FailUnavailable) == style::colored(
            Color::DarkGray,
        ),
{
}

/// An outcome is green for a success, yellow for a warning and red for a failure; so is an
/// availability.
pub proof fn outcomes_have_their_colors()
    ensures
        view::status_style(OutcomeStatus::Success) == style::bold(Color::Green),
        view::status_style(OutcomeStatus::Warn) == style::bold(Color::Yellow),
        view::status_style(OutcomeStatus::Fail) == style::bold(Color::Red),
        view::shown_availability_style(AvailabilityState::Available) == style::colored(
            Color::Green,
        ),
        view::shown_availability_style(AvailabilityState::WarnUnavailable) == style::bold(
            Color::Yellow,
        ),
        view::shown_availability_style(AvailabilityState::FailUnavailable) == style::bold(
            Color::Red,
        ),
{
}

/// A flag is shown with its name as on or off.
pub proof fn flags_are_shown_as_on_or_off(label: Text)
    ensures
        view::flag_shown(label, true) == (SpanModel {
            text: label + ":on  "@,
            style: style::on(Color::Black, Color::LightGreen),
        }),
        view::flag_shown(label, false) == (SpanModel {
            text: label + ":off  "@,
            style: style::on(Color::Gray, Color::Rgb(28, 36, 49)),
        }),
        view::dark_ground() == Color::Rgb(28, 36, 49),
{
}

/// Texts are listed with commas between them, and nothing as `none`.
pub proof fn lists_have_commas(first: Text, rest: Seq<Text>)
    ensures
        view::listed_or_none(Seq::empty()) == "none"@,
        rest.len() == 0 ==> view::listed_or_none(seq![first] + rest) == first,
        rest.len() > 0 ==> view::listed_or_none(seq![first] + rest) == first + ", "@
            + view::listed_or_none(rest),
{
    crate::laws::texts::joined_texts_stand_in_order(first, rest, ", "@);
}

/// The bar at the top names the active profile and the filters, and highlights the screen.
pub proof fn the_title_names_profile_and_filters(m: AppModel)
    ensures
        ({
            let bar = view::title_shown(m);
            &&& bar.title == " Upgrade Cockpit ["@ + m.profiles()[m.active as int].label + "] ["@
                + m.filter_summary() + "] "@
            &&& bar.border == Color::Cyan
            &&& bar.style == style::colored(Color::Gray)
            &&& bar.highlight == style::on(Color::Black, Color::Cyan)
            &&& bar.tabs.len() == 4
            &&& bar.tabs[0] == "Select"@ && bar.tabs[1] == "Confirm"@
            &&& bar.tabs[2] == "Running"@ && bar.tabs[3] == "Summary"@
            &&& bar.active == 0 <==> m.screen == Screen::Select
            &&& bar.active == 1 <==> m.screen == Screen::ConfirmDangerous
            &&& bar.active == 2 <==> m.screen == Screen::Running
            &&& bar.active == 3 <==> m.screen == Screen::Summary
        }),
{
}

/// The row of a task has a box that is ticked exactly where it is selected, its label, and
/// its state with a mark where it is dangerous and one where it is unavailable.
pub proof fn rows_show_their_task(task: ItemModel)
    ensures
        ({
            let row = view::task_row(task);
            &&& row.style == style::plain()
            &&& row.spans.len() == 3
            &&& task.selected ==> row.spans[0] == (SpanModel {
                text: "[x] "@,
                style: style::colored(Color::LightGreen),
            })
            &&& !task.selected ==> row.spans[0] == (SpanModel {
                text: "[ ] "@,
                style: style::colored(Color::DarkGray),
            })
            &&& row.spans[1].text == task.label
            &&& task.availability == AvailabilityState::Available ==> row.spans[1].style
                == style::colored(Color::White)
            &&& task.availability == AvailabilityState::WarnUnavailable ==> row.spans[1].style
                == style::colored(Color::Yellow)
            &&& task.availability == AvailabilityState::FailUnavailable ==> row.spans[1].style
                == style::dim(Color::DarkGray)
            &&& row.spans[2].style == view::state_style(task.state, task.availability)
            &&& row.spans[2].text == "  "@ + (match task.state {
                TaskState::Pending => "pending"@,
                TaskState::Running => "running"@,
                TaskState::Success => "ok"@,
                TaskState::Warn => "warn"@,
                TaskState::Fail => "fail"@,
            }) + (if task.dangerous {
                " !"@
            } else {
                ""@
            }) + (match task.availability {
                AvailabilityState::Available => ""@,
                AvailabilityState::WarnUnavailable => " ~"@,
                AvailabilityState::FailUnavailable => " x"@,
            })
        }),
{
}

/// The list has a row for each of its entries in order: the name of a category, or a task.
/// Where there is none it says so. The row of the task under the cursor is highlighted.
pub proof fn the_list_has_a_row_for_each_entry(m: AppModel)
    ensures
        ({
            let list = view::task_list_shown(m);
            &&& list.title == " Tasks ["@ + m.filter_summary() + "] "@
            &&& list.border == Color::Blue
            &&& list.symbol == ">> "@
            &&& list.highlight == (TextStyle {
                fg: None,
                bg: Some(Color::Rgb(28, 36, 49)),
                bold: true,
                dim: false,
            })
            &&& list.selected == m.cursor_row(0)
            &&& m.entries().len() == 0 ==> list.rows.len() == 1 && list.rows[0]
                == style::styled_line(
                " No tasks match the current filters. "@,
                style::dim(Color::DarkGray),
            )
            &&& m.entries().len() > 0 ==> list.rows.len() == m.entries().len() && forall|k: int|
                0 <= k < list.rows.len() ==> #[trigger] list.rows[k] == match m.entries()[k] {
                    EntryModel::Header(category) => style::styled_line(
                        " "@ + category + " "@,
                        TextStyle {
                            fg: Some(Color::Black),
                            bg: Some(Color::Rgb(143, 185, 177)),
                            bold: true,
                            dim: false,
                        },
                    ),
                    EntryModel::Task(i) => view::task_row(m.items[i as int]),
                }
        }),
{
}

proof fn lemma_cursor_row_first(m: AppModel, from: nat)
    ensures
        match m.cursor_row(from) {
            Some(row) => from <= row < m.entries().len() && m.entries()[row as int]
                == EntryModel::Task(m.cursor) && forall|k: int|
                from <= k < row ==> (#[trigger] m.entries()[k]) != EntryModel::Task(m.cursor),
            None => forall|k: int|
                from <= k < m.entries().len() ==> (#[trigger] m.entries()[k]) != EntryModel::Task(
                    m.cursor,
                ),
        },
    decreases m.entries().len() - from,
{
    if from < m.entries().len() && m.entries()[from as int] != EntryModel::Task(m.cursor) {
        lemma_cursor_row_first(m, from + 1);
    }
}

/// The highlighted row is the first one with the task under the cursor, and there is none
/// exactly where no row has it.
pub proof fn the_highlighted_row_has_the_cursor(m: AppModel)
    ensures
        m.cursor_row(0) matches Some(row) ==> row < m.entries().len() && m.entries()[row as int]
            == EntryModel::Task(m.cursor) && forall|k: int|
            0 <= k < row ==> (#[trigger] m.entries()[k]) != EntryModel::Task(m.cursor),
        m.cursor_row(0) is None ==> forall|k: int|
            0 <= k < m.entries().len() ==> (#[trigger] m.entries()[k]) != EntryModel::Task(
                m.cursor,
            ),
{
    lemma_cursor_row_first(m, 0);
}

/// A value stands after its gray label. Items stand under a gray heading after an empty
/// line, each after a dash, and nothing stands where there is no item.
pub proof fn labels_and_headings_are_gray(label: Text, value: Text, texts: Seq<Text>)
    ensures
        ({
            let line = view::labelled(label, value);
            &&& line.style == style::plain()
            &&& line.spans.len() == 2
            &&& line.spans[0] == (SpanModel { text: label, style: style::colored(Color::Gray) })
            &&& line.spans[1] == (SpanModel { text: value, style: style::plain() })
        }),
        texts.len() == 0 ==> view::bulleted(label, texts).len() == 0,
        texts.len() > 0 ==> {
            let lines = view::bulleted(label, texts);
            &&& lines.len() == texts.len() + 2
            &&& lines[0] == style::raw_line(""@)
            &&& lines[1] == style::styled_line(label, style::colored(Color::Gray))
            &&& forall|i: int|
                0 <= i < texts.len() ==> lines[i + 2] == style::raw_line(
                    "- "@ + #[trigger] texts[i],
                )
        },
{
}

/// The detail of a task begins with its label, whether it is dangerous or safe, and its
/// availability.
pub proof fn details_begin_with_the_label(task: ItemModel)
    ensures
        ({
            let line = view::detail_heading(task);
            &&& line.style == style::plain()
            &&& line.spans.len() == 5
            &&& line.spans[0] == (SpanModel { text: task.label, style: style::bold(Color::Cyan) })
            &&& line.spans[1] == (SpanModel { text: " "@, style: style::plain() })
            &&& task.dangerous ==> line.spans[2] == (SpanModel {
                text: "dangerous"@,
                style: style::bold(Color::Yellow),
            })
            &&& !task.dangerous ==> line.spans[2] == (SpanModel {
                text: "safe"@,
                style: style::colored(Color::Green),
            })
            &&& line.spans[3] == (SpanModel { text: " "@, style: style::plain() })
            &&& line.spans[4].style == view::shown_availability_style(task.availability)
            &&& line.spans[4].text == match task.availability {
                AvailabilityState::Available => "available"@,
                AvailabilityState::WarnUnavailable => "unavailable, will warn"@,
                AvailabilityState::FailUnavailable => "unavailable, will fail"@,
            }
        }),
{
}

/// The detail of a task has its description, its category, tags and dependencies, its
/// warning if it has one, what it requires and what becomes of it where that is missing,
/// its notes and the messages of its check, and the four flags.
pub proof fn details_show_the_whole_task(m: AppModel, task: ItemModel)
    ensures
        ({
            let lines = view::task_detail_lines(m, task);
            let d = if task.danger_message is Some {
                1int
            } else {
                0
            };
            let notes = view::bulleted("Notes"@, task.notes);
            let messages = view::bulleted("Preflight"@, task.preflight_messages);
            let n = 10 + d + notes.len() + messages.len();
            &&& lines.len() == n + 2
            &&& lines[0] == view::detail_heading(task)
            &&& lines[1] == style::raw_line(""@)
            &&& lines[2] == style::raw_line(task.description)
            &&& lines[3] == style::raw_line(""@)
            &&& lines[4] == view::labelled("Category: "@, task.category)
            &&& lines[5] == view::labelled("Tags: "@, view::listed_or_none(task.tags))
            &&& lines[6] == view::labelled(
                "Dependencies: "@,
                view::listed_or_none(task.dependencies),
            )
            &&& task.danger_message matches Some(message) ==> {
                &&& lines[7].style == style::plain()
                &&& lines[7].spans.len() == 2
                &&& lines[7].spans[0] == (SpanModel {
                    text: "Danger: "@,
                    style: style::bold(Color::Yellow),
                })
                &&& lines[7].spans[1] == (SpanModel { text: message, style: style::plain() })
            }
            &&& lines[7 + d] == view::labelled(
                "Requires commands: "@,
                view::listed_or_none(task.requires_commands),
            )
            &&& lines[8 + d] == view::labelled(
                "Requires paths: "@,
                view::listed_or_none(task.requires_paths),
            )
            &&& lines[9 + d] == view::labelled(
                "On missing: "@,
                match task.on_missing {
                    MissingRequirementPolicy::Warn => "warn and skip"@,
                    MissingRequirementPolicy::Fail => "fail task"@,
                },
            )
            &&& forall|i: int|
                0 <= i < notes.len() ==> lines[10 + d + i] == #[trigger] notes[i]
            &&& forall|i: int|
                0 <= i < messages.len() ==> lines[10 + d + notes.len() + i]
                    == #[trigger] messages[i]
            &&& lines[n] == style::raw_line(""@)
            &&& lines[n + 1].spans.len() == 4
            &&& lines[n + 1].style == style::plain()
            &&& lines[n + 1].spans[0] == view::flag_shown("dry-run"@, m.options.dry_run)
            &&& lines[n + 1].spans[1] == view::flag_shown("verbose"@, m.options.verbose)
            &&& lines[n + 1].spans[2] == view::flag_shown("brew-cleanup"@, m.options.brew_cleanup)
            &&& lines[n + 1].spans[3] == view::flag_shown("npm-audit"@, m.options.npm_audit)
        }),
{
}

/// The detail panel shows the task under the cursor, or, where that is not in the list, how
/// to see tasks again.
pub proof fn the_detail_is_that_of_the_task_under_the_cursor(m: AppModel)
    ensures
        ({
            let panel = view::detail_shown(m);
            &&& panel.title == " Detail "@ && panel.border == Color::Blue && panel.trim
            &&& cockpit::is_shown(m, m.cursor as int) ==> panel.lines == view::task_detail_lines(
                m,
                m.items[m.cursor as int],
            )
            &&& !cockpit::is_shown(m, m.cursor as int) ==> {
                &&& panel.lines.len() == 5
                &&& panel.lines[0] == style::styled_line(
                    "No tasks match the current filters."@,
                    style::bold(Color::Yellow),
                )
                &&& panel.lines[1] == style::raw_line(""@)
                &&& panel.lines[2] == style::raw_line(
                    "Clear the active filters or change the scope to see tasks again."@,
                )
                &&& panel.lines[3] == style::raw_line(""@)
                &&& panel.lines[4] == view::labelled("Active filter: "@, m.filter_summary())
            }
        }),
{
    cockpit::the_task_under_the_cursor_is_chosen(m);
}

/// The profile panel shows the active profile with its tasks, and the filters.
pub proof fn the_profile_panel_shows_the_active_profile(m: AppModel)
    ensures
        ({
            let panel = view::profile_shown(m);
            let profile = m.profiles()[m.active as int];
            &&& panel.title == " Profile "@ && panel.border == Color::Blue && panel.trim
            &&& panel.lines.len() == 6
            &&& panel.lines[0].style == style::plain()
            &&& panel.lines[0].spans.len() == 3
            &&& panel.lines[0].spans[0] == (SpanModel {
                text: profile.label,
                style: style::bold(Color::Cyan),
            })
            &&& panel.lines[0].spans[1] == (SpanModel { text: " "@, style: style::plain() })
            &&& panel.lines[0].spans[2] == (SpanModel {
                text: profile.id,
                style: style::colored(Color::Gray),
            })
            &&& panel.lines[1] == style::raw_line(""@)
            &&& panel.lines[2] == style::raw_line(profile.description)
            &&& panel.lines[3] == style::raw_line(""@)
            &&& panel.lines[4] == view::labelled(
                "Selection: "@,
                view::listed_or_none(profile.selected_tasks),
            )
            &&& panel.lines[5] == view::labelled("Filter: "@, m.filter_summary())
        }),
{
}

/// A run is shown with its time, its profile, its three counts in the color of its worst
/// status, and its duration.
pub proof fn runs_are_shown_with_their_counts(entry: HistoryModel, time: Text)
    ensures
        ({
            let line = view::history_line(entry, time);
            &&& line.style == style::plain()
            &&& line.spans.len() == 6
            &&& line.spans[0] == (SpanModel { text: time, style: style::colored(Color::Cyan) })
            &&& line.spans[1] == (SpanModel { text: "  "@, style: style::plain() })
            &&& line.spans[2] == (SpanModel {
                text: entry.profile_id,
                style: style::colored(Color::White),
            })
            &&& line.spans[3] == (SpanModel { text: "  "@, style: style::plain() })
            &&& line.spans[4].text == text::decimal_text(entry.summary.ok_count) + " / "@
                + text::decimal_text(entry.summary.warn_count) + " / "@ + text::decimal_text(
                entry.summary.fail_count,
            )
            &&& entry.summary.fail_count > 0 ==> line.spans[4].style == style::bold(Color::Red)
            &&& entry.summary.fail_count == 0 && entry.summary.warn_count > 0
                ==> line.spans[4].style == style::bold(Color::Yellow)
            &&& entry.summary.fail_count == 0 && entry.summary.warn_count == 0
                ==> line.spans[4].style == style::bold(Color::Green)
            &&& line.spans[5] == (SpanModel {
                text: "  "@ + text::decimal_text(entry.duration_ms as nat) + " ms"@,
                style: style::plain(),
            })
        }),
{
}

/// The history panel shows the latest five runs, the latest first, or that there is none.
pub proof fn the_latest_runs_are_shown_first(history: Seq<HistoryModel>, times: Seq<Text>)
    ensures
        ({
            let panel = view::history_shown(history, times);
            &&& panel.title == " Recent Runs "@ && panel.border == Color::Blue && panel.trim
            &&& history.len() == 0 ==> panel.lines.len() == 1 && panel.lines[0]
                == style::styled_line("No runs recorded yet."@, style::colored(Color::DarkGray))
            &&& history.len() > 0 ==> panel.lines.len() == (if history.len() < 5 {
                history.len() as int
            } else {
                5
            }) && forall|k: int|
                0 <= k < panel.lines.len() ==> #[trigger] panel.lines[k] == view::history_line(
                    history[history.len() - 1 - k],
                    times[k],
                )
        }),
        clock::label_latest(times, history) ==> times.len() == (if history.len() < 5 {
            history.len() as int
        } else {
            5
        }) && forall|k: int|
            0 <= k < times.len() ==> clock::labels_time(
                #[trigger] times[k],
                history[history.len() - 1 - k].started_at_unix_secs,
            ),
{
}

/// The line of an outcome has its label and its status in color; that of the counts has the
/// three counts after their names.
pub proof fn outcomes_are_shown_in_color(outcome: OutcomeModel, summary: SummaryModel)
    ensures
        ({
            let line = view::outcome_row(outcome);
            &&& line.style == style::plain()
            &&& line.spans.len() == 2
            &&& line.spans[0] == (SpanModel { text: outcome.label + " "@, style: style::plain() })
            &&& outcome.status == OutcomeStatus::Success ==> line.spans[1] == (SpanModel {
                text: "OK"@,
                style: style::bold(Color::Green),
            })
            &&& outcome.status == OutcomeStatus::Warn ==> line.spans[1] == (SpanModel {
                text: "WARN"@,
                style: style::bold(Color::Yellow),
            })
            &&& outcome.status == OutcomeStatus::Fail ==> line.spans[1] == (SpanModel {
                text: "FAIL"@,
                style: style::bold(Color::Red),
            })
        }),
        ({
            let line = view::counts_row(summary);
            let gap = SpanModel { text: "   "@, style: style::plain() };
            &&& line.style == style::plain()
            &&& line.spans.len() == 8
            &&& line.spans[0] == (SpanModel { text: "OK "@, style: style::bold(Color::Green) })
            &&& line.spans[1] == (SpanModel {
                text: text::decimal_text(summary.ok_count),
                style: style::plain(),
            })
            &&& line.spans[2] == gap
            &&& line.spans[3] == (SpanModel { text: "WARN "@, style: style::bold(Color::Yellow) })
            &&& line.spans[4] == (SpanModel {
                text: text::decimal_text(summary.warn_count),
                style: style::plain(),
            })
            &&& line.spans[5] == gap
            &&& line.spans[6] == (SpanModel { text: "FAIL "@, style: style::bold(Color::Red) })
            &&& line.spans[7] == (SpanModel {
                text: text::decimal_text(summary.fail_count),
                style: style::plain(),
            })
        }),
{
}

/// The summary panel shows the message if there is one, the counts, and each outcome in
/// order. Without a summary it shows the message alone.
pub proof fn the_summary_shows_every_outcome(m: AppModel)
    ensures
        ({
            let panel = view::summary_shown(m);
            &&& panel.title == " Summary "@ && panel.border == Color::Blue && panel.trim
            &&& m.summary matches Some(summary) ==> {
                let s = if m.status is Some {
                    2int
                } else {
                    0
                };
                &&& panel.lines.len() == s + 2 + summary.outcomes.len()
                &&& m.status matches Some(message) ==> panel.lines[0] == style::styled_line(
                    message,
                    style::bold(Color::Cyan),
                ) && panel.lines[1] == style::raw_line(""@)
                &&& panel.lines[s] == view::counts_row(summary)
                &&& panel.lines[s + 1] == style::raw_line(""@)
                &&& forall|i: int|
                    0 <= i < summary.outcomes.len() ==> panel.lines[s + 2 + i]
                        == view::outcome_row(#[trigger] summary.outcomes[i])
            }
            &&& m.summary is None ==> match m.status {
                Some(message) => panel.lines.len() == 1 && panel.lines[0] == style::raw_line(
                    message,
                ),
                None => panel.lines.len() == 0,
            }
        }),
{
}

/// The activity panel explains itself after a run, in three lines, and shows as many of the
/// latest lines of activity as fit between its borders below that, or that there is none.
pub proof fn the_latest_activity_is_shown(m: AppModel, height: u16)
    ensures
        ({
            let panel = view::activity_shown(m, height);
            let e = if m.screen == Screen::Summary && m.summary is Some {
                3int
            } else {
                0
            };
            let room = if height - 2 - e < 0 {
                0
            } else {
                height - 2 - e
            };
            let n = if m.logs.len() < room {
                m.logs.len() as int
            } else {
                room
            };
            &&& panel.title == " Activity "@ && panel.border == Color::Blue && !panel.trim
            &&& e == 3 ==> {
                &&& panel.lines[0] == style::styled_line(
                    "Task output was shown directly in the terminal during the run."@,
                    style::colored(Color::Cyan),
                )
                &&& panel.lines[1] == style::styled_line(
                    "This panel keeps cockpit-level activity such as task starts, finishes, and preflight warnings."@,
                    style::colored(Color::DarkGray),
                )
                &&& panel.lines[2] == style::raw_line(""@)
            }
            &&& m.logs.len() == 0 ==> panel.lines.len() == e + 1 && panel.lines[e]
                == style::styled_line("No activity yet."@, style::colored(Color::DarkGray))
            &&& m.logs.len() > 0 ==> panel.lines.len() == e + n && forall|i: int|
                e <= i < e + n ==> #[trigger] panel.lines[i] == style::raw_line(
                    m.logs[m.logs.len() - n + i - e],
                )
        }),
{
}

/// The footer shows the message or, without one, a hint, and below it the keys of the
/// screen.
pub proof fn the_footer_shows_the_keys(m: AppModel)
    ensures
        ({
            let lines = view::footer_shown(m);
            let hint = match m.screen {
                Screen::Select => "Choose tasks, adjust filters, and launch a run."@,
                Screen::ConfirmDangerous => "Dangerous tasks need confirmation."@,
                Screen::Running => "Wait for the current run to finish."@,
                Screen::Summary => "Review the summary or rerun what you need."@,
            };
            let keys = match m.screen {
                Screen::Select =>
                    "j/k move   space toggle   p profile   f scope   g category   t tag   z clear   enter run   q quit"@,
                Screen::ConfirmDangerous => "y continue   n cancel"@,
                Screen::Running => "running   terminal control is with the updater"@,
                Screen::Summary =>
                    "enter selection   r rerun failed   l rerun last profile   q quit"@,
            };
            &&& lines.len() == 2
            &&& m.status matches Some(message) ==> lines[0] == style::raw_line(message)
            &&& m.status is None ==> lines[0] == style::raw_line(hint)
            &&& lines[1] == style::styled_line(keys, style::colored(Color::Gray))
        }),
{
}

/// The confirmation shows each dangerous task of the plan that awaits it with its warning.
pub proof fn the_confirmation_shows_every_danger(m: AppModel)
    ensures
        ({
            let panel = view::confirmation_shown(m);
            let dangers = match m.pending {
                Some(plan) => model::danger_messages(plan),
                None => Seq::<(Text, Text)>::empty(),
            };
            let n = dangers.len() as int;
            &&& panel.title == " Confirm Run "@ && panel.border == Color::Yellow && panel.trim
            &&& panel.lines.len() == n + 6
            &&& panel.lines[0] == style::styled_line(
                "Dangerous tasks selected"@,
                style::bold(Color::Yellow),
            )
            &&& panel.lines[1] == style::raw_line(""@)
            &&& panel.lines[2] == style::raw_line(
                "This run includes tasks with explicit danger notes:"@,
            )
            &&& panel.lines[3] == style::raw_line(""@)
            &&& forall|i: int|
                #![trigger panel.lines[i]]
                4 <= i < n + 4 ==> {
                    let line = panel.lines[i];
                    &&& line.style == style::plain()
                    &&& line.spans.len() == 2
                    &&& line.spans[0] == (SpanModel {
                        text: dangers[i - 4].0 + ": "@,
                        style: style::bold(Color::Yellow),
                    })
                    &&& line.spans[1] == (SpanModel {
                        text: dangers[i - 4].1,
                        style: style::plain(),
                    })
                }
            &&& panel.lines[n + 4] == style::raw_line(""@)
            &&& panel.lines[n + 5] == style::raw_line("Press y to continue or n to cancel."@)
        }),
{
}

/// After a run the outcomes, the history and the activity are shown. Else the task, the
/// profile, the history and the activity are, and a confirmation is drawn on top.
pub proof fn screens_have_their_panels(screen: Screen)
    ensures
        ({
            let all = scene::screen_panels(screen);
            &&& screen == Screen::Summary ==> all.len() == 3 && all[0] == PanelKind::Outcomes
                && all[1] == PanelKind::History && all[2] == PanelKind::Activity
            &&& screen != Screen::Summary ==> all[0] == PanelKind::Task && all[1]
                == PanelKind::Profile && all[2] == PanelKind::History && all[3]
                == PanelKind::Activity
            &&& screen == Screen::ConfirmDangerous ==> all.len() == 5 && all[4]
                == PanelKind::Confirmation
            &&& screen == Screen::Select || screen == Screen::Running ==> all.len() == 4
        }),
{
}

/// Each panel shows what it is about.
pub proof fn panels_show_what_they_are_about(m: AppModel, height: u16, panel: PanelModel)
    ensures
        scene::shows_kind(m, PanelKind::Task, height, panel) <==> panel == view::detail_shown(m),
        scene::shows_kind(m, PanelKind::Profile, height, panel) <==> panel == view::profile_shown(
            m,
        ),
        scene::shows_kind(m, PanelKind::Outcomes, height, panel) <==> panel == view::summary_shown(
            m,
        ),
        scene::shows_kind(m, PanelKind::Activity, height, panel) <==> panel == view::activity_shown(
            m,
            height,
        ),
        scene::shows_kind(m, PanelKind::Confirmation, height, panel) <==> panel
            == view::confirmation_shown(m),
        scene::shows_kind(m, PanelKind::History, height, panel) ==> exists|times: Seq<Text>|
            #[trigger] clock::label_latest(times, m.history) && panel == view::history_shown(
                m.history,
                times,
            ),
{
}

/// The rows of the screen make up its height and the columns its width: the tasks have 42
/// percent of it. On a screen that is high enough the title has 3 rows, the activity 10 and
/// the footer 2; on a lower one the columns have 16 rows or all there are.
pub proof fn the_screen_is_divided(area: Area, parts: FrameAreas)
    requires
        layout::divides_frame(area, parts),
        area.x + area.width <= 65535 && area.y + area.height <= 65535,
    ensures
        parts.title.height + parts.tasks.height + parts.logs.height + parts.footer.height
            == area.height,
        parts.tasks.height == parts.detail.height,
        parts.tasks.width + parts.detail.width == area.width,
        42 * area.width - 50 <= 100 * parts.tasks.width <= 42 * area.width + 50,
        parts.title.x == area.x && parts.title.width == area.width,
        parts.logs.x == area.x && parts.logs.width == area.width,
        parts.footer.x == area.x && parts.footer.width == area.width,
        parts.title.y == area.y,
        parts.tasks.y == area.y + parts.title.height && parts.detail.y == parts.tasks.y,
        parts.tasks.x == area.x && parts.detail.x == area.x + parts.tasks.width,
        parts.logs.y == parts.tasks.y + parts.tasks.height,
        parts.footer.y == parts.logs.y + parts.logs.height,
        area.height >= 31 ==> parts.title.height == 3 && parts.logs.height == 10
            && parts.footer.height == 2,
        16 <= area.height < 31 ==> parts.tasks.height == 16,
        area.height < 16 ==> parts.tasks.height == area.height,
        16 <= area.height < 19 ==> parts.title.height == area.height - 16,
        area.height >= 19 ==> parts.title.height == 3,
        19 <= area.height < 23 ==> parts.footer.height == (area.height - 19) / 2,
        area.height >= 23 ==> parts.footer.height == 2,
        parts.footer.height <= parts.logs.height,
{
}

/// The rows of the detail column make up its height. In a high one the task has 18 rows and
/// the profile 8; in a lower one the history has 6 or all there are, and the task at least
/// as many as the profile.
pub proof fn the_detail_column_is_divided(area: Area, task: Area, profile: Area, history: Area)
    requires
        layout::divides_detail(area, task, profile, history),
        area.x + area.width <= 65535 && area.y + area.height <= 65535,
    ensures
        task.height + profile.height + history.height == area.height,
        task.x == area.x && task.width == area.width,
        profile.x == area.x && profile.width == area.width,
        history.x == area.x && history.width == area.width,
        task.y == area.y,
        profile.y == task.y + task.height,
        history.y == profile.y + profile.height,
        area.height >= 32 ==> task.height == 18 && profile.height == 8,
        6 <= area.height < 32 ==> history.height == 6,
        area.height < 6 ==> history.height == area.height,
        6 <= area.height < 22 ==> profile.height == (area.height - 6) / 2,
        area.height >= 22 ==> profile.height == 8,
        profile.height <= task.height,
{
}

/// The rows of the summary make up the height of its column. In a high one the outcomes have
/// 10 rows; in a lower one the history has 6 or all there are.
pub proof fn the_summary_column_is_divided(area: Area, outcomes: Area, history: Area)
    requires
        layout::divides_summary(area, outcomes, history),
        area.x + area.width <= 65535 && area.y + area.height <= 65535,
    ensures
        outcomes.height + history.height == area.height,
        outcomes.x == area.x && outcomes.width == area.width,
        history.x == area.x && history.width == area.width,
        outcomes.y == area.y,
        history.y == outcomes.y + outcomes.height,
        area.height >= 16 ==> outcomes.height == 10,
        6 <= area.height < 16 ==> history.height == 6,
        area.height < 6 ==> history.height == area.height,
{
}

/// The confirmation is in the middle of the screen, with 68 percent of its width and 45
/// percent of its height, but for one cell.
pub proof fn the_confirmation_is_in_the_middle(
    area: Area,
    frame: FrameAreas,
    panels: Seq<Area>,
)
    requires
        scene::is_placed(Screen::ConfirmDangerous, area, frame, panels),
        area.x + area.width <= 65535 && area.y + area.height <= 65535,
    ensures
        panels.len() == 5,
        ({
            let part = panels[4];
            &&& -100 <= 100 * part.width - 68 * area.width <= 100
            &&& -100 <= 100 * part.height - 45 * area.height <= 100
            &&& -50 <= 100 * (part.x - area.x) - 16 * area.width <= 50
            &&& -50 <= 100 * (part.y - area.y) - 27 * area.height <= 50
        }),
{
    let w = area.width as int;
    let h = area.height as int;
    let across = layout::middle_of(68, area.width);
    let down = layout::middle_of(45, area.height);
    assert(across == ((16 * w + 50) / 100, (84 * w + 50) / 100));
    assert(down == ((27 * h + 50) / 100, (72 * h + 50) / 100));
}

/// A time is labelled with its local time or, where that is not known, with its seconds.
pub proof fn times_are_labelled(local: Text, secs: u64)
    ensures
        clock::time_label(Some(local), secs) == local,
        clock::time_label(None, secs) == text::decimal_text(secs as nat),
{
}

/// A minute is written in two digits for each of month, day, hour and minute, with a dash, a
/// space and a colon between them.
pub proof fn minutes_are_written_in_digits(month: nat, day: nat, hour: nat, minute: nat)
    requires
        month <= 99,
        day <= 99,
        hour <= 99,
        minute <= 99,
    ensures
        ({
            let written = clock::minute_text(month, day, hour, minute);
            let at = |i: int| written[i] as int - '0' as int;
            &&& written.len() == 11
            &&& 10 * at(0) + at(1) == month && 0 <= at(1) <= 9
            &&& written[2] == '-'
            &&& 10 * at(3) + at(4) == day && 0 <= at(4) <= 9
            &&& written[5] == ' '
            &&& 10 * at(6) + at(7) == hour && 0 <= at(7) <= 9
            &&& written[8] == ':'
            &&& 10 * at(9) + at(10) == minute && 0 <= at(10) <= 9
        }),
{
}

/// The panels of a screen divide its detail column, the activity has its row below, and the
/// frame divides the screen.
pub proof fn panels_have_their_place(
    screen: Screen,
    area: Area,
    frame: FrameAreas,
    panels: Seq<Area>,
)
    requires
        scene::is_placed(screen, area, frame, panels),
    ensures
        layout::divides_frame(area, frame),
        screen == Screen::Summary ==> panels.len() == 3 && panels[2] == frame.logs
            && layout::divides_summary(frame.detail, panels[0], panels[1]),
        screen == Screen::Select || screen == Screen::Running ==> panels.len() == 4,
        screen == Screen::ConfirmDangerous ==> panels.len() == 5,
        screen != Screen::Summary ==> panels[3] == frame.logs && layout::divides_detail(
            frame.detail,
            panels[0],
            panels[1],
            panels[2],
        ),
{
}

/// The times of runs are written as month and day, hour and minute.
pub proof fn times_are_written_to_the_minute()
    ensures
        clock::HISTORY_TIME_FORMAT@ == "%m-%d %H:%M"@,
{
}

/// A time up to the year 9999 is labelled with the minute that clocks show somewhere, and
/// no time is labelled otherwise than so or with its seconds.
pub proof fn labels_tell_the_minute(label: Text, secs: u64)
    requires
        clock::labels_time(label, secs),
    ensures
        secs <= 253_402_300_799 ==> clock::shows_instant(label, secs as int),
        clock::shows_instant(label, (secs as i64) as int) || label == text::decimal_text(
            secs as nat,
        ),
{
    if secs <= 253_402_300_799 {
        assert((secs as i64) as int == secs as int);
    }
}

/// Days are counted from the start of 1970, one after the other, and the months of a year
/// follow one another, as does the next year.
#[verifier::spinoff_prover]
pub proof fn days_follow_one_another(year: int, month: int, day: int)
    requires
        1 <= month <= 12,
    ensures
        clock::days_to(1970, 1, 1) == 0,
        clock::days_to(year, month, day + 1) == clock::days_to(year, month, day) + 1,
        month == 1 || 3 <= month < 12 ==> clock::days_to(year, month + 1, 1) == clock::days_to(
            year,
            month,
            1,
        ) + clock::days_in(year, month),
        clock::days_to(year + 1, 1, 1) == clock::days_to(year, 12, 1) + 31,
{
}

/// Months have their days.
pub proof fn months_have_their_days(year: int, month: int)
    requires
        1 <= month <= 12,
    ensures
        month == 4 || month == 6 || month == 9 || month == 11 ==> clock::days_in(year, month) == 30,
        month == 1 || month == 3 || month == 5 || month == 7 || month == 8 || month == 10 || month
            == 12 ==> clock::days_in(year, month) == 31,
        clock::days_in(year, 2) == if year % 400 == 0 || year % 4 == 0 && year % 100 != 0 {
            29int
        } else {
            28
        },
{
}

/// The first of March comes 29 days after the first of February in a leap year, and 28 days
/// after it in any other.
#[verifier::spinoff_prover]
pub proof fn leap_years_have_a_day_more(era: int, of_era: int)
    requires
        0 <= of_era < 400,
    ensures
        ({
            let year = 400 * era + of_era;
            let leap = of_era % 4 == 0 && (of_era % 100 != 0 || of_era == 0);
            clock::days_to(year, 3, 1) == clock::days_to(year, 2, 1) + if leap {
                29int
            } else {
                28
            }
        }),
{
    let year = 400 * era + of_era;
    assert(year / 400 == era);
    if of_era > 0 {
        assert((year - 1) / 400 == era);
    } else {
        assert((year - 1) / 400 == era - 1);
    }
}

/// A part in the middle of an area has the given percentages of its width and height, but
/// for one cell, with half of the rest, rounded down, before it.
pub proof fn parts_are_put_in_the_middle(percent_x: u16, percent_y: u16, area: Area, part: Area)
    requires
        percent_x <= 100,
        percent_y <= 100,
        layout::is_centered(percent_x, percent_y, area, part),
        area.x + area.width <= 65535 && area.y + area.height <= 65535,
    ensures
        -100 <= 100 * part.width - percent_x * area.width <= 100,
        -100 <= 100 * part.height - percent_y * area.height <= 100,
        -50 <= 100 * (part.x - area.x) - ((100 - percent_x) / 2) * area.width <= 50,
        -50 <= 100 * (part.y - area.y) - ((100 - percent_y) / 2) * area.height <= 50,
        layout::inside(part, area),
{
    lemma_middle(percent_x, area.width);
    lemma_middle(percent_y, area.height);
}

proof fn lemma_middle(percent: u16, length: u16)
    requires
        percent <= 100,
    ensures
        ({
            let (from, to) = layout::middle_of(percent, length);
            let before = (100 - percent) / 2;
            &&& -50 <= 100 * from - before * length <= 50
            &&& -100 <= 100 * (to - from) - percent * length <= 100
        }),
{
    let before = (100 - percent) / 2;
    assert((before + percent) * length == before * length + percent * length)
        by (nonlinear_arith);
}

/// The shares of a part in the middle are its own and twice half of the rest.
pub proof fn the_rest_is_shared_in_halves(percent: u16)
    requires
        percent <= 100,
    ensures
        ({
            let shares = layout::centered_shares(percent);
            let rest = ((100 - percent) / 2) as u16;
            &&& shares.len() == 3
            &&& shares[0] == Share::Percentage(rest)
            &&& shares[1] == Share::Percentage(percent)
            &&& shares[2] == Share::Percentage(rest)
        }),
{
}

} // verus!
