//! What the cockpit shows, panel by panel.

use crate::catalog::MissingRequirementPolicy;
use crate::persistence::{HistoryEntry, HistoryModel};
use crate::runner;
use crate::runner::{OutcomeModel, OutcomeStatus, RunSummary, SummaryModel};
use crate::text;
use crate::text::{concat2, concat3, decimal, join, Text};
use crate::tui::items;
use crate::tui::items::{AvailabilityState, ItemModel, Screen, TaskItem, TaskState};
use crate::tui::model;
use crate::tui::model::{AppModel, EntryModel};
use crate::tui::state;
use crate::tui::state::{AppState, TaskListEntry};
use crate::tui::style;
use crate::tui::style::{
    push_line, Color, LineModel, LineText, Panel, PanelModel, SpanModel, TextStyle,
};
use vstd::prelude::*;

verus! {

/// The style of a task's state in the list.
pub open spec fn state_style(state: TaskState, availability: AvailabilityState) -> TextStyle {
    match state {
        TaskState::Pending => match availability {
            AvailabilityState::Available => style::colored(Color::Gray),
            AvailabilityState::WarnUnavailable => style::colored(Color::Yellow),
            AvailabilityState::FailUnavailable => style::colored(Color::DarkGray),
        },
        TaskState::Running => style::bold(Color::Cyan),
        TaskState::Success => style::bold(Color::Green),
        TaskState::Warn => style::bold(Color::Yellow),
        TaskState::Fail => style::bold(Color::Red),
    }
}

/// The style of a task's state in the list.
pub fn task_state_style(state: TaskState, availability: AvailabilityState) -> (res: TextStyle)
    ensures
        res == state_style(state, availability),
{
    match state {
        TaskState::Pending => match availability {
            AvailabilityState::Available => TextStyle::colored(Color::Gray),
            AvailabilityState::WarnUnavailable => TextStyle::colored(Color::Yellow),
            AvailabilityState::FailUnavailable => TextStyle::colored(Color::DarkGray),
        },
        TaskState::Running => TextStyle::bold(Color::Cyan),
        TaskState::Success => TextStyle::bold(Color::Green),
        TaskState::Warn => TextStyle::bold(Color::Yellow),
        TaskState::Fail => TextStyle::bold(Color::Red),
    }
}

/// The style of an outcome.
pub open spec fn status_style(status: OutcomeStatus) -> TextStyle {
    match status {
        OutcomeStatus::Success => style::bold(Color::Green),
        OutcomeStatus::Warn => style::bold(Color::Yellow),
        OutcomeStatus::Fail => style::bold(Color::Red),
    }
}

/// The style of an outcome.
pub fn outcome_style(status: OutcomeStatus) -> (res: TextStyle)
    ensures
        res == status_style(status),
{
    match status {
        OutcomeStatus::Success => TextStyle::bold(Color::Green),
        OutcomeStatus::Warn => TextStyle::bold(Color::Yellow),
        OutcomeStatus::Fail => TextStyle::bold(Color::Red),
    }
}

/// The style of an availability in the detail panel.
pub open spec fn shown_availability_style(availability: AvailabilityState) -> TextStyle {
    match availability {
        AvailabilityState::Available => style::colored(Color::Green),
        AvailabilityState::WarnUnavailable => style::bold(Color::Yellow),
        AvailabilityState::FailUnavailable => style::bold(Color::Red),
    }
}

/// The style of an availability in the detail panel.
pub fn availability_style(availability: AvailabilityState) -> (res: TextStyle)
    ensures
        res == shown_availability_style(availability),
{
    match availability {
        AvailabilityState::Available => TextStyle::colored(Color::Green),
        AvailabilityState::WarnUnavailable => TextStyle::bold(Color::Yellow),
        AvailabilityState::FailUnavailable => TextStyle::bold(Color::Red),
    }
}

/// The dark ground of highlighted rows, flags that are off and the footer.
pub open spec fn dark_ground() -> Color {
    Color::Rgb(28, 36, 49)
}

/// A runtime flag in the detail panel.
pub open spec fn flag_shown(label: Text, enabled: bool) -> SpanModel {
    if enabled {
        style::span(label + ":on  "@, style::on(Color::Black, Color::LightGreen))
    } else {
        style::span(label + ":off  "@, style::on(Color::Gray, dark_ground()))
    }
}

/// The line with a runtime flag added.
fn with_flag(line: LineText, label: &str, enabled: bool) -> (res: LineText)
    ensures
        res@ == (LineModel { spans: line@.spans.push(flag_shown(label@, enabled)), ..line@ }),
{
    if enabled {
        line.with(
            concat2(label, ":on  ").as_str(),
            TextStyle::on(Color::Black, Color::LightGreen),
        )
    } else {
        line.with(
            concat2(label, ":off  ").as_str(),
            TextStyle::on(Color::Gray, Color::Rgb(28, 36, 49)),
        )
    }
}

/// The texts with commas between them, or `none`.
pub open spec fn listed_or_none(texts: Seq<Text>) -> Text {
    if texts.len() == 0 {
        "none"@
    } else {
        text::joined(texts, ", "@)
    }
}

fn list_or_none(texts: &Vec<String>) -> (res: String)
    ensures
        res@ == listed_or_none(texts.deep_view()),
{
    if texts.len() == 0 {
        "none".to_owned()
    } else {
        join(texts, ", ")
    }
}

/// The bar at the top: a centered title and the screens, one of which is
/// highlighted.
#[derive(Debug, PartialEq, Eq)]
pub struct TitleBar {
    pub title: String,
    pub border: Color,
    pub tabs: Vec<String>,
    pub style: TextStyle,
    pub active: usize,
    pub highlight: TextStyle,
}

/// The content of a [`TitleBar`].
#[verifier::ext_equal]
pub struct TitleModel {
    pub title: Text,
    pub border: Color,
    pub tabs: Seq<Text>,
    pub style: TextStyle,
    pub active: nat,
    pub highlight: TextStyle,
}

impl View for TitleBar {
    type V = TitleModel;

    open spec fn view(&self) -> TitleModel {
        TitleModel {
            title: self.title@,
            border: self.border,
            tabs: self.tabs.deep_view(),
            style: self.style,
            active: self.active as nat,
            highlight: self.highlight,
        }
    }
}

/// The bar at the top of a state.
pub open spec fn title_shown(m: AppModel) -> TitleModel {
    TitleModel {
        title: " Upgrade Cockpit ["@ + m.active_profile().label + "] ["@ + m.filter_summary()
            + "] "@,
        border: Color::Cyan,
        tabs: seq!["Select"@, "Confirm"@, "Running"@, "Summary"@],
        style: style::colored(Color::Gray),
        active: match m.screen {
            Screen::Select => 0,
            Screen::ConfirmDangerous => 1,
            Screen::Running => 2,
            Screen::Summary => 3,
        },
        highlight: style::on(Color::Black, Color::Cyan),
    }
}

/// The bar at the top.
pub fn render_title(state: &AppState) -> (res: TitleBar)
    requires
        model::app_wf(state@),
    ensures
        res@ == title_shown(state@),
{
    let mut title = concat2(" Upgrade Cockpit [", state.active_profile().label.as_str());
    title.append("] [");
    title.append(state.filter_summary().as_str());
    title.append("] ");
    let mut tabs: Vec<String> = Vec::new();
    tabs.push("Select".to_owned());
    tabs.push("Confirm".to_owned());
    tabs.push("Running".to_owned());
    tabs.push("Summary".to_owned());
    assert(tabs.deep_view() =~= title_shown(state@).tabs);
    let active: usize = match state.screen() {
        Screen::Select => 0,
        Screen::ConfirmDangerous => 1,
        Screen::Running => 2,
        Screen::Summary => 3,
    };
    TitleBar {
        title,
        border: Color::Cyan,
        tabs,
        style: TextStyle::colored(Color::Gray),
        active,
        highlight: TextStyle::on(Color::Black, Color::Cyan),
    }
}

/// The row of a task in the list.
pub open spec fn task_row(task: ItemModel) -> LineModel {
    style::spans_line(
        seq![
            style::span(
                if task.selected {
                    "[x] "@
                } else {
                    "[ ] "@
                },
                style::colored(
                    if task.selected {
                        Color::LightGreen
                    } else {
                        Color::DarkGray
                    },
                ),
            ),
            style::span(
                task.label,
                match task.availability {
                    AvailabilityState::Available => style::colored(Color::White),
                    AvailabilityState::WarnUnavailable => style::colored(Color::Yellow),
                    AvailabilityState::FailUnavailable => style::dim(Color::DarkGray),
                },
            ),
            style::span(
                "  "@ + items::task_state_label(task.state) + (if task.dangerous {
                    " !"@
                } else {
                    ""@
                }) + (match task.availability {
                    AvailabilityState::Available => ""@,
                    AvailabilityState::WarnUnavailable => " ~"@,
                    AvailabilityState::FailUnavailable => " x"@,
                }),
                state_style(task.state, task.availability),
            ),
        ],
    )
}

/// The row of a task in the list.
pub fn task_line(task: &TaskItem) -> (res: LineText)
    ensures
        res@ == task_row(task@),
{
    let checkbox = if task.selected {
        "[x] "
    } else {
        "[ ] "
    };
    let mark = if task.selected {
        Color::LightGreen
    } else {
        Color::DarkGray
    };
    let name = match task.availability {
        AvailabilityState::Available => TextStyle::colored(Color::White),
        AvailabilityState::WarnUnavailable => TextStyle::colored(Color::Yellow),
        AvailabilityState::FailUnavailable => TextStyle::dim(Color::DarkGray),
    };
    let mut state = concat2("  ", task.state.label());
    state.append(
        if task.dangerous {
            " !"
        } else {
            ""
        },
    );
    state.append(
        match task.availability {
            AvailabilityState::Available => "",
            AvailabilityState::WarnUnavailable => " ~",
            AvailabilityState::FailUnavailable => " x",
        },
    );
    let res = LineText::empty().with(checkbox, TextStyle::colored(mark)).with(
        task.label.as_str(),
        name,
    ).with(state.as_str(), task_state_style(task.state, task.availability));
    assert(res@ =~= task_row(task@));
    res
}

/// The task list: its title, its rows, and the row that is highlighted and how.
#[derive(Debug, PartialEq, Eq)]
pub struct TaskList {
    pub title: String,
    pub border: Color,
    pub rows: Vec<LineText>,
    pub selected: Option<usize>,
    pub symbol: String,
    pub highlight: TextStyle,
}

/// The content of a [`TaskList`].
#[verifier::ext_equal]
pub struct TaskListModel {
    pub title: Text,
    pub border: Color,
    pub rows: Seq<LineModel>,
    pub selected: Option<nat>,
    pub symbol: Text,
    pub highlight: TextStyle,
}

impl View for TaskList {
    type V = TaskListModel;

    open spec fn view(&self) -> TaskListModel {
        TaskListModel {
            title: self.title@,
            border: self.border,
            rows: self.rows.deep_view(),
            selected: match self.selected {
                Some(row) => Some(row as nat),
                None => None,
            },
            symbol: self.symbol@,
            highlight: self.highlight,
        }
    }
}

/// The style of the name of a category.
pub open spec fn header_style() -> TextStyle {
    TextStyle { bold: true, ..style::on(Color::Black, Color::Rgb(143, 185, 177)) }
}

/// A row of the task list.
pub open spec fn entry_row(m: AppModel, entry: EntryModel) -> LineModel {
    match entry {
        EntryModel::Header(category) => style::styled_line(" "@ + category + " "@, header_style()),
        EntryModel::Task(i) => task_row(m.items[i as int]),
    }
}

/// The rows of the task list, or a hint where it is empty.
pub open spec fn list_rows(m: AppModel) -> Seq<LineModel> {
    if m.entries().len() == 0 {
        seq![
            style::styled_line(
                " No tasks match the current filters. "@,
                style::dim(Color::DarkGray),
            ),
        ]
    } else {
        m.entries().map_values(|entry: EntryModel| entry_row(m, entry))
    }
}

/// The task list of a state.
pub open spec fn task_list_shown(m: AppModel) -> TaskListModel {
    TaskListModel {
        title: " Tasks ["@ + m.filter_summary() + "] "@,
        border: Color::Blue,
        rows: list_rows(m),
        selected: m.cursor_row(0),
        symbol: ">> "@,
        highlight: TextStyle { bg: Some(dark_ground()), bold: true, ..style::plain() },
    }
}

proof fn lemma_entries_in_range(m: AppModel, categories: Seq<Text>)
    ensures
        forall|k: int|
            0 <= k < m.rows(categories).len() ==> ((#[trigger] m.rows(categories)[k]) matches
                EntryModel::Task(i) ==> i < m.items.len()),
    decreases categories.len(),
{
    if categories.len() > 0 {
        let init = categories.drop_last();
        let first = m.rows(init).push(EntryModel::Header(categories.last()));
        let second = m.rows_in(categories.last(), m.items.len());
        let all = m.rows(categories);
        lemma_entries_in_range(m, init);
        lemma_rows_in_range(m, categories.last(), m.items.len());
        assert forall|k: int| 0 <= k < all.len() implies ((#[trigger] all[k]) matches
            EntryModel::Task(i) ==> i < m.items.len()) by {
            if k < m.rows(init).len() {
                assert(all[k] == m.rows(init)[k]);
            } else if k >= first.len() {
                assert(all[k] == second[k - first.len()]);
            }
        }
    }
}

proof fn lemma_rows_in_range(m: AppModel, category: Text, count: nat)
    ensures
        forall|k: int|
            0 <= k < m.rows_in(category, count).len() ==> ((#[trigger] m.rows_in(
                category,
                count,
            )[k]) matches EntryModel::Task(i) ==> i < count),
    decreases count,
{
    if count > 0 {
        let before = m.rows_in(category, (count - 1) as nat);
        let now = m.rows_in(category, count);
        lemma_rows_in_range(m, category, (count - 1) as nat);
        assert forall|k: int| 0 <= k < now.len() implies ((#[trigger] now[k]) matches
            EntryModel::Task(i) ==> i < count) by {
            if k < before.len() {
                assert(now[k] == before[k]);
            }
        }
    }
}

/// The task list.
pub fn render_tasks(state: &AppState) -> (res: TaskList)
    requires
        model::app_wf(state@),
    ensures
        res@ == task_list_shown(state@),
{
    let ghost m = state@;
    let entries = state.task_list_entries();
    let tasks = state.tasks();
    let mut rows: Vec<LineText> = Vec::new();
    assert(rows.deep_view() =~= Seq::empty());
    if entries.len() == 0 {
        push_line(
            &mut rows,
            LineText::styled(
                " No tasks match the current filters. ".to_owned(),
                TextStyle::dim(Color::DarkGray),
            ),
        );
        assert(rows.deep_view() =~= list_rows(m));
    } else {
        let ghost wanted = m.entries().map_values(|entry: EntryModel| entry_row(m, entry));
        proof {
            lemma_entries_in_range(m, m.categories(m.items.len()));
        }
        let mut i: usize = 0;
        while i < entries.len()
            invariant
                i <= entries.len(),
                m == state@,
                tasks.deep_view() == m.items,
                entries.deep_view() == m.entries(),
                forall|k: int|
                    0 <= k < m.entries().len() ==> ((#[trigger] m.entries()[k]) matches
                        EntryModel::Task(i) ==> i < m.items.len()),
                wanted == m.entries().map_values(|entry: EntryModel| entry_row(m, entry)),
                rows.deep_view() =~= wanted.take(i as int),
            decreases entries.len() - i,
        {
            assert(m.entries()[i as int] == entries@[i as int]@);
            let row = match &entries[i] {
                TaskListEntry::Header(category) => LineText::styled(
                    concat3(" ", category.as_str(), " "),
                    TextStyle {
                        fg: Some(Color::Black),
                        bg: Some(Color::Rgb(143, 185, 177)),
                        bold: true,
                        dim: false,
                    },
                ),
                TaskListEntry::Task(index) => task_line(&tasks[*index]),
            };
            assert(row@ == wanted[i as int]);
            push_line(&mut rows, row);
            i += 1;
        }
        assert(wanted.take(wanted.len() as int) =~= wanted);
        assert(rows.deep_view() =~= list_rows(m));
    }
    TaskList {
        title: concat3(" Tasks [", state.filter_summary().as_str(), "] "),
        border: Color::Blue,
        rows,
        selected: state.selected_list_index(),
        symbol: ">> ".to_owned(),
        highlight: TextStyle {
            fg: None,
            bg: Some(Color::Rgb(28, 36, 49)),
            bold: true,
            dim: false,
        },
    }
}

/// A label with what belongs to it.
pub open spec fn labelled(label: Text, value: Text) -> LineModel {
    style::spans_line(
        seq![
            style::span(label, style::colored(Color::Gray)),
            style::span(value, style::plain()),
        ],
    )
}

fn label_line(label: &str, value: &str) -> (res: LineText)
    ensures
        res@ == labelled(label@, value@),
{
    let res = LineText::empty().with(label, TextStyle::colored(Color::Gray)).with(
        value,
        TextStyle::plain(),
    );
    assert(res@ =~= labelled(label@, value@));
    res
}

/// A heading over items, after a blank line, where there are items.
pub open spec fn bulleted(heading: Text, texts: Seq<Text>) -> Seq<LineModel> {
    if texts.len() == 0 {
        Seq::empty()
    } else {
        seq![style::raw_line(""@), style::styled_line(heading, style::colored(Color::Gray))]
            + texts.map_values(|text: Text| style::raw_line("- "@ + text))
    }
}

fn push_bulleted(lines: &mut Vec<LineText>, heading: &str, texts: &Vec<String>)
    ensures
        final(lines).deep_view() == old(lines).deep_view() + bulleted(heading@, texts.deep_view()),
{
    let ghost start = lines.deep_view();
    if texts.len() == 0 {
        assert(lines.deep_view() =~= start + bulleted(heading@, texts.deep_view()));
        return;
    }
    push_line(lines, LineText::raw(""));
    push_line(lines, LineText::styled(heading.to_owned(), TextStyle::colored(Color::Gray)));
    let ghost first = seq![
        style::raw_line(""@),
        style::styled_line(heading@, style::colored(Color::Gray)),
    ];
    let ghost wanted = texts.deep_view().map_values(|text: Text| style::raw_line("- "@ + text));
    assert(lines.deep_view() =~= start + first);
    let mut i: usize = 0;
    while i < texts.len()
        invariant
            i <= texts.len(),
            wanted == texts.deep_view().map_values(|text: Text| style::raw_line("- "@ + text)),
            lines.deep_view() =~= start + first + wanted.take(i as int),
        decreases texts.len() - i,
    {
        push_line(lines, LineText::raw(concat2("- ", texts[i].as_str()).as_str()));
        i += 1;
    }
    assert(wanted.take(wanted.len() as int) =~= wanted);
    assert(lines.deep_view() =~= start + bulleted(heading@, texts.deep_view()));
}

/// A blue panel whose wrapped lines lose their leading spaces.
pub open spec fn blue_panel(title: Text, lines: Seq<LineModel>) -> PanelModel {
    PanelModel { title, border: Color::Blue, trim: true, lines }
}

fn make_panel(title: &str, lines: Vec<LineText>) -> (res: Panel)
    ensures
        res@ == blue_panel(title@, lines.deep_view()),
{
    Panel { title: title.to_owned(), border: Color::Blue, trim: true, lines }
}

/// The first line of a task's detail.
pub open spec fn detail_heading(task: ItemModel) -> LineModel {
    style::spans_line(
        seq![
            style::span(task.label, style::bold(Color::Cyan)),
            style::span(" "@, style::plain()),
            if task.dangerous {
                style::span("dangerous"@, style::bold(Color::Yellow))
            } else {
                style::span("safe"@, style::colored(Color::Green))
            },
            style::span(" "@, style::plain()),
            style::span(
                items::availability_label(task.availability),
                shown_availability_style(task.availability),
            ),
        ],
    )
}

/// The lines of a task's detail.
pub open spec fn task_detail_lines(m: AppModel, task: ItemModel) -> Seq<LineModel> {
    seq![
        detail_heading(task),
        style::raw_line(""@),
        style::raw_line(task.description),
        style::raw_line(""@),
        labelled("Category: "@, task.category),
        labelled("Tags: "@, listed_or_none(task.tags)),
        labelled("Dependencies: "@, listed_or_none(task.dependencies)),
    ] + (match task.danger_message {
        Some(message) => seq![
            style::spans_line(
                seq![
                    style::span("Danger: "@, style::bold(Color::Yellow)),
                    style::span(message, style::plain()),
                ],
            ),
        ],
        None => Seq::empty(),
    }) + seq![
        labelled("Requires commands: "@, listed_or_none(task.requires_commands)),
        labelled("Requires paths: "@, listed_or_none(task.requires_paths)),
        labelled(
            "On missing: "@,
            match task.on_missing {
                MissingRequirementPolicy::Warn => "warn and skip"@,
                MissingRequirementPolicy::Fail => "fail task"@,
            },
        ),
    ] + bulleted("Notes"@, task.notes) + bulleted("Preflight"@, task.preflight_messages) + seq![
        style::raw_line(""@),
        style::spans_line(
            seq![
                flag_shown("dry-run"@, m.options.dry_run),
                flag_shown("verbose"@, m.options.verbose),
                flag_shown("brew-cleanup"@, m.options.brew_cleanup),
                flag_shown("npm-audit"@, m.options.npm_audit),
            ],
        ),
    ]
}

/// The lines in place of a task's detail where no task is shown.
pub open spec fn no_detail_lines(m: AppModel) -> Seq<LineModel> {
    seq![
        style::styled_line("No tasks match the current filters."@, style::bold(Color::Yellow)),
        style::raw_line(""@),
        style::raw_line("Clear the active filters or change the scope to see tasks again."@),
        style::raw_line(""@),
        labelled("Active filter: "@, m.filter_summary()),
    ]
}

/// The detail panel of a state.
pub open spec fn detail_shown(m: AppModel) -> PanelModel {
    blue_panel(
        " Detail "@,
        match m.selected_visible_task() {
            Some(task) => task_detail_lines(m, task),
            None => no_detail_lines(m),
        },
    )
}

fn heading_line(task: &TaskItem) -> (res: LineText)
    ensures
        res@ == detail_heading(task@),
{
    let line = LineText::empty().with(task.label.as_str(), TextStyle::bold(Color::Cyan)).with(
        " ",
        TextStyle::plain(),
    );
    let line = if task.dangerous {
        line.with("dangerous", TextStyle::bold(Color::Yellow))
    } else {
        line.with("safe", TextStyle::colored(Color::Green))
    };
    let res = line.with(" ", TextStyle::plain()).with(
        task.availability.label(),
        availability_style(task.availability),
    );
    assert(res@ =~= detail_heading(task@));
    res
}

/// The detail panel: the task under the cursor with the runtime flags.
pub fn render_task_detail(state: &AppState) -> (res: Panel)
    ensures
        res@ == detail_shown(state@),
{
    let ghost m = state@;
    let mut lines: Vec<LineText> = Vec::new();
    assert(lines.deep_view() =~= Seq::empty());
    let task = match state.selected_visible_task() {
        Some(task) => task,
        None => {
            push_line(
                &mut lines,
                LineText::styled(
                    "No tasks match the current filters.".to_owned(),
                    TextStyle::bold(Color::Yellow),
                ),
            );
            push_line(&mut lines, LineText::raw(""));
            push_line(
                &mut lines,
                LineText::raw("Clear the active filters or change the scope to see tasks again."),
            );
            push_line(&mut lines, LineText::raw(""));
            push_line(&mut lines, label_line("Active filter: ", state.filter_summary().as_str()));
            assert(lines.deep_view() =~= no_detail_lines(m));
            return make_panel(" Detail ", lines);
        },
    };
    let options = state.options();
    push_line(&mut lines, heading_line(task));
    push_line(&mut lines, LineText::raw(""));
    push_line(&mut lines, LineText::raw(task.description.as_str()));
    push_line(&mut lines, LineText::raw(""));
    push_line(&mut lines, label_line("Category: ", task.category.as_str()));
    push_line(&mut lines, label_line("Tags: ", list_or_none(&task.tags).as_str()));
    push_line(&mut lines, label_line("Dependencies: ", list_or_none(&task.dependencies).as_str()));
    match &task.danger_message {
        Some(message) => {
            let line = LineText::empty().with("Danger: ", TextStyle::bold(Color::Yellow)).with(
                message.as_str(),
                TextStyle::plain(),
            );
            assert(line@ =~= style::spans_line(
                seq![
                    style::span("Danger: "@, style::bold(Color::Yellow)),
                    style::span(message@, style::plain()),
                ],
            ));
            push_line(&mut lines, line);
        },
        None => {},
    }
    push_line(
        &mut lines,
        label_line("Requires commands: ", list_or_none(&task.requires_commands).as_str()),
    );
    push_line(
        &mut lines,
        label_line("Requires paths: ", list_or_none(&task.requires_paths).as_str()),
    );
    push_line(
        &mut lines,
        label_line(
            "On missing: ",
            match task.on_missing {
                MissingRequirementPolicy::Warn => "warn and skip",
                MissingRequirementPolicy::Fail => "fail task",
            },
        ),
    );
    push_bulleted(&mut lines, "Notes", &task.notes);
    push_bulleted(&mut lines, "Preflight", &task.preflight_messages);
    push_line(&mut lines, LineText::raw(""));
    let flags = with_flag(LineText::empty(), "dry-run", options.dry_run);
    let flags = with_flag(flags, "verbose", options.verbose);
    let flags = with_flag(flags, "brew-cleanup", options.brew_cleanup);
    let flags = with_flag(flags, "npm-audit", options.npm_audit);
    assert(flags@ =~= style::spans_line(
        seq![
            flag_shown("dry-run"@, m.options.dry_run),
            flag_shown("verbose"@, m.options.verbose),
            flag_shown("brew-cleanup"@, m.options.brew_cleanup),
            flag_shown("npm-audit"@, m.options.npm_audit),
        ],
    ));
    push_line(&mut lines, flags);
    assert(lines.deep_view() =~= task_detail_lines(m, task@));
    make_panel(" Detail ", lines)
}

/// The profile panel of a state.
pub open spec fn profile_shown(m: AppModel) -> PanelModel {
    let profile = m.active_profile();
    blue_panel(
        " Profile "@,
        seq![
            style::spans_line(
                seq![
                    style::span(profile.label, style::bold(Color::Cyan)),
                    style::span(" "@, style::plain()),
                    style::span(profile.id, style::colored(Color::Gray)),
                ],
            ),
            style::raw_line(""@),
            style::raw_line(profile.description),
            style::raw_line(""@),
            labelled("Selection: "@, listed_or_none(profile.selected_tasks)),
            labelled("Filter: "@, m.filter_summary()),
        ],
    )
}

/// The profile panel: the active profile.
pub fn render_profile_panel(state: &AppState) -> (res: Panel)
    requires
        model::app_wf(state@),
    ensures
        res@ == profile_shown(state@),
{
    let profile = state.active_profile();
    let line = LineText::empty().with(profile.label.as_str(), TextStyle::bold(Color::Cyan)).with(
        " ",
        TextStyle::plain(),
    ).with(profile.id.as_str(), TextStyle::colored(Color::Gray));
    assert(line@ =~= style::spans_line(
        seq![
            style::span(profile@.label, style::bold(Color::Cyan)),
            style::span(" "@, style::plain()),
            style::span(profile@.id, style::colored(Color::Gray)),
        ],
    ));
    let mut lines: Vec<LineText> = Vec::new();
    assert(lines.deep_view() =~= Seq::empty());
    push_line(&mut lines, line);
    push_line(&mut lines, LineText::raw(""));
    push_line(&mut lines, LineText::raw(profile.description.as_str()));
    push_line(&mut lines, LineText::raw(""));
    push_line(&mut lines, label_line("Selection: ", list_or_none(&profile.selected_tasks).as_str()));
    push_line(&mut lines, label_line("Filter: ", state.filter_summary().as_str()));
    assert(lines.deep_view() =~= profile_shown(state@).lines);
    make_panel(" Profile ", lines)
}

/// How many runs the history panel shows.
pub const SHOWN_RUNS: usize = 5;

/// The line of a run in the history panel, with this label for its time.
pub open spec fn history_line(entry: HistoryModel, time: Text) -> LineModel {
    style::spans_line(
        seq![
            style::span(time, style::colored(Color::Cyan)),
            style::span("  "@, style::plain()),
            style::span(entry.profile_id, style::colored(Color::White)),
            style::span("  "@, style::plain()),
            style::span(
                text::decimal_text(entry.summary.ok_count) + " / "@ + text::decimal_text(
                    entry.summary.warn_count,
                ) + " / "@ + text::decimal_text(entry.summary.fail_count),
                status_style(entry.summary.overall_status()),
            ),
            style::span(
                "  "@ + text::decimal_text(entry.duration_ms as nat) + " ms"@,
                style::plain(),
            ),
        ],
    )
}

fn make_history_line(entry: &HistoryEntry, time: &str) -> (res: LineText)
    ensures
        res@ == history_line(entry@, time@),
{
    let mut counts = concat2(decimal(entry.summary.ok_count as u64).as_str(), " / ");
    counts.append(decimal(entry.summary.warn_count as u64).as_str());
    counts.append(" / ");
    counts.append(decimal(entry.summary.fail_count as u64).as_str());
    let duration = concat3("  ", decimal(entry.duration_ms).as_str(), " ms");
    let res = LineText::empty().with(time, TextStyle::colored(Color::Cyan)).with(
        "  ",
        TextStyle::plain(),
    ).with(entry.profile_id.as_str(), TextStyle::colored(Color::White)).with(
        "  ",
        TextStyle::plain(),
    ).with(counts.as_str(), outcome_style(entry.summary.overall_status())).with(
        duration.as_str(),
        TextStyle::plain(),
    );
    assert(res@ =~= history_line(entry@, time@));
    res
}

/// How many of the runs of a history are shown.
pub open spec fn shown_runs(history: Seq<HistoryModel>) -> nat {
    if history.len() < SHOWN_RUNS {
        history.len()
    } else {
        SHOWN_RUNS as nat
    }
}

/// The history panel with these labels for the times of the latest runs, the
/// latest first.
pub open spec fn history_shown(history: Seq<HistoryModel>, times: Seq<Text>) -> PanelModel {
    blue_panel(
        " Recent Runs "@,
        if history.len() == 0 {
            seq![style::styled_line("No runs recorded yet."@, style::colored(Color::DarkGray))]
        } else {
            Seq::new(
                shown_runs(history),
                |k: int| history_line(history[history.len() - 1 - k], times[k]),
            )
        },
    )
}

/// The history panel with these labels for the times of the latest runs, the
/// latest first.
pub fn history_panel_with(history: &Vec<HistoryEntry>, times: &Vec<String>) -> (res: Panel)
    requires
        times@.len() >= shown_runs(history.deep_view()),
    ensures
        res@ == history_shown(history.deep_view(), times.deep_view()),
{
    let mut lines: Vec<LineText> = Vec::new();
    assert(lines.deep_view() =~= Seq::empty());
    let ghost all = history.deep_view();
    let ghost labels = times.deep_view();
    if history.len() == 0 {
        push_line(
            &mut lines,
            LineText::styled(
                "No runs recorded yet.".to_owned(),
                TextStyle::colored(Color::DarkGray),
            ),
        );
        assert(lines.deep_view() =~= history_shown(all, labels).lines);
    } else {
        let count: usize = if history.len() < SHOWN_RUNS {
            history.len()
        } else {
            SHOWN_RUNS
        };
        let ghost wanted = Seq::new(
            count as nat,
            |k: int| history_line(all[all.len() - 1 - k], labels[k]),
        );
        let mut k: usize = 0;
        while k < count
            invariant
                k <= count <= history.len(),
                count <= times.len(),
                all == history.deep_view(),
                labels == times.deep_view(),
                wanted == Seq::new(
                    count as nat,
                    |k: int| history_line(all[all.len() - 1 - k], labels[k]),
                ),
                lines.deep_view() =~= wanted.take(k as int),
            decreases count - k,
        {
            let position: usize = history.len() - 1 - k;
            let line = make_history_line(&history[position], times[k].as_str());
            assert(line@ == wanted[k as int]);
            push_line(&mut lines, line);
            k += 1;
        }
        assert(wanted.take(wanted.len() as int) =~= wanted);
        assert(lines.deep_view() =~= history_shown(all, labels).lines);
    }
    make_panel(" Recent Runs ", lines)
}

/// The line of an outcome in the summary panel.
pub open spec fn outcome_row(outcome: OutcomeModel) -> LineModel {
    style::spans_line(
        seq![
            style::span(outcome.label + " "@, style::plain()),
            style::span(runner::status_label(outcome.status), status_style(outcome.status)),
        ],
    )
}

/// The line of the counts in the summary panel.
pub open spec fn counts_row(summary: SummaryModel) -> LineModel {
    style::spans_line(
        seq![
            style::span("OK "@, style::bold(Color::Green)),
            style::span(text::decimal_text(summary.ok_count), style::plain()),
            style::span("   "@, style::plain()),
            style::span("WARN "@, style::bold(Color::Yellow)),
            style::span(text::decimal_text(summary.warn_count), style::plain()),
            style::span("   "@, style::plain()),
            style::span("FAIL "@, style::bold(Color::Red)),
            style::span(text::decimal_text(summary.fail_count), style::plain()),
        ],
    )
}

/// The summary panel of a state.
pub open spec fn summary_shown(m: AppModel) -> PanelModel {
    blue_panel(
        " Summary "@,
        match m.summary {
            Some(summary) => (match m.status {
                Some(message) => seq![
                    style::styled_line(message, style::bold(Color::Cyan)),
                    style::raw_line(""@),
                ],
                None => Seq::empty(),
            }) + seq![counts_row(summary), style::raw_line(""@)] + summary.outcomes.map_values(
                |outcome: OutcomeModel| outcome_row(outcome),
            ),
            None => match m.status {
                Some(message) => seq![style::raw_line(message)],
                None => Seq::empty(),
            },
        },
    )
}

fn counts_line(summary: &RunSummary) -> (res: LineText)
    ensures
        res@ == counts_row(summary@),
{
    let res = LineText::empty().with("OK ", TextStyle::bold(Color::Green)).with(
        decimal(summary.ok_count as u64).as_str(),
        TextStyle::plain(),
    ).with("   ", TextStyle::plain()).with("WARN ", TextStyle::bold(Color::Yellow)).with(
        decimal(summary.warn_count as u64).as_str(),
        TextStyle::plain(),
    ).with("   ", TextStyle::plain()).with("FAIL ", TextStyle::bold(Color::Red)).with(
        decimal(summary.fail_count as u64).as_str(),
        TextStyle::plain(),
    );
    assert(res@ =~= counts_row(summary@));
    res
}

/// The summary panel: how the latest run ended.
pub fn render_summary(state: &AppState) -> (res: Panel)
    ensures
        res@ == summary_shown(state@),
{
    let ghost m = state@;
    let mut lines: Vec<LineText> = Vec::new();
    assert(lines.deep_view() =~= Seq::empty());
    match state.summary() {
        Some(summary) => {
            match state.status_message() {
                Some(message) => {
                    push_line(
                        &mut lines,
                        LineText::styled(message.to_owned(), TextStyle::bold(Color::Cyan)),
                    );
                    push_line(&mut lines, LineText::raw(""));
                },
                None => {},
            }
            push_line(&mut lines, counts_line(summary));
            push_line(&mut lines, LineText::raw(""));
            let ghost first = lines.deep_view();
            let ghost wanted = summary@.outcomes.map_values(
                |outcome: OutcomeModel| outcome_row(outcome),
            );
            let mut i: usize = 0;
            while i < summary.outcomes.len()
                invariant
                    i <= summary.outcomes.len(),
                    wanted == summary@.outcomes.map_values(
                        |outcome: OutcomeModel| outcome_row(outcome),
                    ),
                    lines.deep_view() =~= first + wanted.take(i as int),
                decreases summary.outcomes.len() - i,
            {
                let outcome = &summary.outcomes[i];
                let line = LineText::empty().with(
                    concat2(outcome.label.as_str(), " ").as_str(),
                    TextStyle::plain(),
                ).with(outcome.status.label(), outcome_style(outcome.status));
                assert(line@ =~= outcome_row(outcome@));
                push_line(&mut lines, line);
                i += 1;
            }
            assert(wanted.take(wanted.len() as int) =~= wanted);
            assert(lines.deep_view() =~= summary_shown(m).lines);
        },
        None => {
            match state.status_message() {
                Some(message) => {
                    push_line(&mut lines, LineText::raw(message));
                },
                None => {},
            }
            assert(lines.deep_view() =~= summary_shown(m).lines);
        },
    }
    make_panel(" Summary ", lines)
}

/// The lines that explain the activity panel after a run.
pub open spec fn activity_notice(m: AppModel) -> Seq<LineModel> {
    if m.screen == Screen::Summary && m.summary is Some {
        seq![
            style::styled_line(
                "Task output was shown directly in the terminal during the run."@,
                style::colored(Color::Cyan),
            ),
            style::styled_line(
                "This panel keeps cockpit-level activity such as task starts, finishes, and preflight warnings."@,
                style::colored(Color::DarkGray),
            ),
            style::raw_line(""@),
        ]
    } else {
        Seq::empty()
    }
}

/// How many lines of activity fit below the notice in a bordered panel of this
/// height.
pub open spec fn activity_room(m: AppModel, height: u16) -> int {
    let room = height - 2 - activity_notice(m).len();
    if room < 0 {
        0
    } else {
        room
    }
}

/// The latest of these lines, as many as there is room for.
pub open spec fn latest(lines: Seq<Text>, room: int) -> Seq<Text> {
    if lines.len() > room {
        lines.skip(lines.len() - room)
    } else {
        lines
    }
}

/// The activity panel of a state at this height.
pub open spec fn activity_shown(m: AppModel, height: u16) -> PanelModel {
    PanelModel {
        title: " Activity "@,
        border: Color::Blue,
        trim: false,
        lines: activity_notice(m) + if m.logs.len() == 0 {
            seq![style::styled_line("No activity yet."@, style::colored(Color::DarkGray))]
        } else {
            latest(m.logs, activity_room(m, height)).map_values(
                |line: Text| style::raw_line(line),
            )
        },
    }
}

/// The activity panel: the latest lines of activity that fit in this height.
pub fn render_logs(state: &AppState, height: u16) -> (res: Panel)
    ensures
        res@ == activity_shown(state@, height),
{
    let ghost m = state@;
    let mut lines: Vec<LineText> = Vec::new();
    assert(lines.deep_view() =~= Seq::empty());
    if state.screen() == Screen::Summary && state.summary().is_some() {
        push_line(
            &mut lines,
            LineText::styled(
                "Task output was shown directly in the terminal during the run.".to_owned(),
                TextStyle::colored(Color::Cyan),
            ),
        );
        push_line(
            &mut lines,
            LineText::styled(
                "This panel keeps cockpit-level activity such as task starts, finishes, and preflight warnings.".to_owned(),
                TextStyle::colored(Color::DarkGray),
            ),
        );
        push_line(&mut lines, LineText::raw(""));
    }
    assert(lines.deep_view() =~= activity_notice(m));
    let logs = state.logs();
    if logs.len() == 0 {
        push_line(
            &mut lines,
            LineText::styled("No activity yet.".to_owned(), TextStyle::colored(Color::DarkGray)),
        );
    } else {
        let available: usize = if height >= 2 {
            (height - 2) as usize
        } else {
            0
        };
        let reserved: usize = lines.len();
        let room: usize = if available >= reserved {
            available - reserved
        } else {
            0
        };
        let first: usize = if logs.len() > room {
            logs.len() - room
        } else {
            0
        };
        let ghost notice = activity_notice(m);
        let ghost wanted = latest(m.logs, activity_room(m, height)).map_values(
            |line: Text| style::raw_line(line),
        );
        assert(room == activity_room(m, height));
        assert(latest(m.logs, room as int) =~= m.logs.skip(first as int));
        let mut i: usize = first;
        while i < logs.len()
            invariant
                first <= i <= logs.len(),
                state::line_texts(logs@) == m.logs,
                wanted == m.logs.skip(first as int).map_values(
                    |line: Text| style::raw_line(line),
                ),
                lines.deep_view() =~= notice + wanted.take(i - first),
            decreases logs.len() - i,
        {
            assert(m.logs.skip(first as int)[i - first] == logs@[i as int]@);
            push_line(&mut lines, LineText::raw(logs[i].as_str()));
            i += 1;
        }
        assert(wanted.take(wanted.len() as int) =~= wanted);
    }
    assert(lines.deep_view() =~= activity_shown(m, height).lines);
    Panel { title: " Activity ".to_owned(), border: Color::Blue, trim: false, lines }
}

/// The hint of a screen, where there is no message.
pub open spec fn screen_hint(screen: Screen) -> Text {
    match screen {
        Screen::Select => "Choose tasks, adjust filters, and launch a run."@,
        Screen::ConfirmDangerous => "Dangerous tasks need confirmation."@,
        Screen::Running => "Wait for the current run to finish."@,
        Screen::Summary => "Review the summary or rerun what you need."@,
    }
}

/// The keys of a screen.
pub open spec fn screen_keys(screen: Screen) -> Text {
    match screen {
        Screen::Select =>
            "j/k move   space toggle   p profile   f scope   g category   t tag   z clear   enter run   q quit"@,
        Screen::ConfirmDangerous => "y continue   n cancel"@,
        Screen::Running => "running   terminal control is with the updater"@,
        Screen::Summary => "enter selection   r rerun failed   l rerun last profile   q quit"@,
    }
}

/// The style of the footer.
pub fn footer_style() -> (res: TextStyle)
    ensures
        res == style::on(Color::White, dark_ground()),
{
    TextStyle::on(Color::White, Color::Rgb(28, 36, 49))
}

/// The footer of a state: a message or hint, and the keys.
pub open spec fn footer_shown(m: AppModel) -> Seq<LineModel> {
    seq![
        style::raw_line(
            match m.status {
                Some(message) => message,
                None => screen_hint(m.screen),
            },
        ),
        style::styled_line(screen_keys(m.screen), style::colored(Color::Gray)),
    ]
}

/// The footer: a message or hint, and the keys.
pub fn render_footer(state: &AppState) -> (res: Vec<LineText>)
    ensures
        res.deep_view() == footer_shown(state@),
{
    let status = match state.status_message() {
        Some(message) => message,
        None => match state.screen() {
            Screen::Select => "Choose tasks, adjust filters, and launch a run.",
            Screen::ConfirmDangerous => "Dangerous tasks need confirmation.",
            Screen::Running => "Wait for the current run to finish.",
            Screen::Summary => "Review the summary or rerun what you need.",
        },
    };
    let keys = match state.screen() {
        Screen::Select =>
            "j/k move   space toggle   p profile   f scope   g category   t tag   z clear   enter run   q quit",
        Screen::ConfirmDangerous => "y continue   n cancel",
        Screen::Running => "running   terminal control is with the updater",
        Screen::Summary => "enter selection   r rerun failed   l rerun last profile   q quit",
    };
    let mut lines: Vec<LineText> = Vec::new();
    assert(lines.deep_view() =~= Seq::empty());
    push_line(&mut lines, LineText::raw(status));
    push_line(&mut lines, LineText::styled(keys.to_owned(), TextStyle::colored(Color::Gray)));
    assert(lines.deep_view() =~= footer_shown(state@));
    lines
}

/// The line of a danger in the confirmation panel.
pub open spec fn danger_row(danger: (Text, Text)) -> LineModel {
    style::spans_line(
        seq![
            style::span(danger.0 + ": "@, style::bold(Color::Yellow)),
            style::span(danger.1, style::plain()),
        ],
    )
}

/// The dangers of the plan that awaits confirmation.
pub open spec fn pending_dangers(m: AppModel) -> Seq<(Text, Text)> {
    match m.pending {
        Some(plan) => model::danger_messages(plan),
        None => Seq::empty(),
    }
}

/// The confirmation panel of a state.
pub open spec fn confirmation_shown(m: AppModel) -> PanelModel {
    PanelModel {
        title: " Confirm Run "@,
        border: Color::Yellow,
        trim: true,
        lines: seq![
            style::styled_line("Dangerous tasks selected"@, style::bold(Color::Yellow)),
            style::raw_line(""@),
            style::raw_line("This run includes tasks with explicit danger notes:"@),
            style::raw_line(""@),
        ] + pending_dangers(m).map_values(|danger: (Text, Text)| danger_row(danger)) + seq![
            style::raw_line(""@),
            style::raw_line("Press y to continue or n to cancel."@),
        ],
    }
}

/// The confirmation panel: the dangers of the plan that awaits confirmation.
pub fn render_confirmation(state: &AppState) -> (res: Panel)
    ensures
        res@ == confirmation_shown(state@),
{
    let ghost m = state@;
    let mut lines: Vec<LineText> = Vec::new();
    assert(lines.deep_view() =~= Seq::empty());
    push_line(
        &mut lines,
        LineText::styled("Dangerous tasks selected".to_owned(), TextStyle::bold(Color::Yellow)),
    );
    push_line(&mut lines, LineText::raw(""));
    push_line(&mut lines, LineText::raw("This run includes tasks with explicit danger notes:"));
    push_line(&mut lines, LineText::raw(""));
    let ghost first = lines.deep_view();
    let dangers = state.pending_danger_messages();
    let ghost wanted = pending_dangers(m).map_values(|danger: (Text, Text)| danger_row(danger));
    let mut i: usize = 0;
    while i < dangers.len()
        invariant
            i <= dangers.len(),
            dangers.deep_view() == pending_dangers(m),
            wanted == pending_dangers(m).map_values(|danger: (Text, Text)| danger_row(danger)),
            lines.deep_view() =~= first + wanted.take(i as int),
        decreases dangers.len() - i,
    {
        let ghost danger = dangers.deep_view()[i as int];
        let line = LineText::empty().with(
            concat2(dangers[i].0.as_str(), ": ").as_str(),
            TextStyle::bold(Color::Yellow),
        ).with(dangers[i].1.as_str(), TextStyle::plain());
        assert(line@ =~= danger_row(danger));
        push_line(&mut lines, line);
        i += 1;
    }
    assert(wanted.take(wanted.len() as int) =~= wanted);
    push_line(&mut lines, LineText::raw(""));
    push_line(&mut lines, LineText::raw("Press y to continue or n to cancel."));
    assert(lines.deep_view() =~= confirmation_shown(m).lines);
    Panel { title: " Confirm Run ".to_owned(), border: Color::Yellow, trim: true, lines }
}

/// Whatever the height of the activity panel, it never shows more lines than fit
/// between its borders beyond the notice, and what it shows of the activity is
/// the latest of it.
pub proof fn activity_fits_its_panel(m: AppModel, height: u16)
    requires
        m.logs.len() > 0,
    ensures
        ({
            let shown = latest(m.logs, activity_room(m, height));
            &&& activity_shown(m, height).lines.len() == activity_notice(m).len() + shown.len()
            &&& shown.len() <= activity_room(m, height)
            &&& shown.is_suffix_of(m.logs)
            &&& height >= 2 + activity_notice(m).len() ==> activity_shown(m, height).lines.len()
                <= height - 2
        }),
{
}

} // verus!
