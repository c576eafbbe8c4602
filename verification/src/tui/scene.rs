//! What the cockpit shows on a screen, and where.

use crate::text::Text;
use crate::tui::clock;
use crate::tui::clock::render_history_panel;
use crate::tui::items::Screen;
use crate::tui::layout;
use crate::tui::layout::{
    centered_rect, detail_areas, frame_areas, summary_areas, Area, FrameAreas,
};
use crate::tui::model;
use crate::tui::model::AppModel;
use crate::tui::state::AppState;
use crate::tui::style::{Panel, PanelModel};
use crate::tui::view;
use crate::tui::view::{
    render_confirmation, render_logs, render_profile_panel, render_summary, render_task_detail,
};
use vstd::prelude::*;

verus! {

/// How much of the screen's width the confirmation takes up, in percent.
pub const CONFIRMATION_WIDTH: u16 = 68;

/// How much of the screen's height the confirmation takes up, in percent.
pub const CONFIRMATION_HEIGHT: u16 = 45;

/// What a panel is about.
#[derive(Debug, Clone, Copy, PartialEq, Eq, Structural)]
pub enum PanelKind {
    /// The task under the cursor.
    Task,
    /// The active profile.
    Profile,
    /// The latest runs.
    History,
    /// How the latest run ended.
    Outcomes,
    /// The latest lines of activity.
    Activity,
    /// The dangers of the plan that awaits confirmation.
    Confirmation,
}

/// The panels of the detail column of a screen, from top to bottom.
pub open spec fn column_panels(screen: Screen) -> Seq<PanelKind> {
    match screen {
        Screen::Summary => seq![PanelKind::Outcomes, PanelKind::History],
        _ => seq![PanelKind::Task, PanelKind::Profile, PanelKind::History],
    }
}

/// The panels of a screen in the order in which they are drawn: those of the
/// detail column, the activity, and where a plan awaits confirmation, the
/// confirmation on top.
pub open spec fn screen_panels(screen: Screen) -> Seq<PanelKind> {
    let below = column_panels(screen).push(PanelKind::Activity);
    match screen {
        Screen::ConfirmDangerous => below.push(PanelKind::Confirmation),
        _ => below,
    }
}

/// The panels of a screen, in the order in which they are drawn.
pub fn panels_of(screen: Screen) -> (res: Vec<PanelKind>)
    ensures
        res@ == screen_panels(screen),
{
    let mut res: Vec<PanelKind> = Vec::new();
    match screen {
        Screen::Summary => {
            res.push(PanelKind::Outcomes);
            res.push(PanelKind::History);
        },
        _ => {
            res.push(PanelKind::Task);
            res.push(PanelKind::Profile);
            res.push(PanelKind::History);
        },
    }
    assert(res@ =~= column_panels(screen));
    res.push(PanelKind::Activity);
    match screen {
        Screen::ConfirmDangerous => {
            res.push(PanelKind::Confirmation);
        },
        _ => {},
    }
    res
}

/// The panel is the one of this kind in this state, for an area of this height.
pub open spec fn shows_kind(m: AppModel, kind: PanelKind, height: u16, panel: PanelModel) -> bool {
    match kind {
        PanelKind::Task => panel == view::detail_shown(m),
        PanelKind::Profile => panel == view::profile_shown(m),
        PanelKind::History => exists|times: Seq<Text>| #[trigger]
            clock::label_latest(times, m.history) && panel == view::history_shown(m.history, times),
        PanelKind::Outcomes => panel == view::summary_shown(m),
        PanelKind::Activity => panel == view::activity_shown(m, height),
        PanelKind::Confirmation => panel == view::confirmation_shown(m),
    }
}

/// The panel of a kind, for an area of this height.
pub fn render_panel(state: &AppState, kind: PanelKind, height: u16) -> (res: Panel)
    requires
        model::app_wf(state@),
    ensures
        shows_kind(state@, kind, height, res@),
{
    match kind {
        PanelKind::Task => render_task_detail(state),
        PanelKind::Profile => render_profile_panel(state),
        PanelKind::History => render_history_panel(state.history()),
        PanelKind::Outcomes => render_summary(state),
        PanelKind::Activity => render_logs(state, height),
        PanelKind::Confirmation => render_confirmation(state),
    }
}

/// Where the panels of a screen are: the columns and rows of the screen, and the
/// areas of its panels in the order in which they are drawn.
#[derive(Debug, PartialEq, Eq)]
pub struct Placement {
    pub frame: FrameAreas,
    pub panels: Vec<Area>,
}

/// The areas belong to the panels of a screen: those of the detail column divide
/// it, the activity has its row, and the confirmation is in the middle.
pub open spec fn is_placed(screen: Screen, area: Area, frame: FrameAreas, panels: Seq<Area>) -> bool {
    &&& layout::divides_frame(area, frame)
    &&& panels.len() == screen_panels(screen).len()
    &&& match screen {
        Screen::Summary => {
            &&& layout::divides_summary(frame.detail, panels[0], panels[1])
            &&& panels[2] == frame.logs
        },
        _ => {
            &&& layout::divides_detail(frame.detail, panels[0], panels[1], panels[2])
            &&& panels[3] == frame.logs
        },
    }
    &&& screen == Screen::ConfirmDangerous ==> layout::is_centered(
        CONFIRMATION_WIDTH,
        CONFIRMATION_HEIGHT,
        area,
        panels[4],
    )
}

/// Places the panels of a screen.
pub fn place_panels(screen: Screen, area: Area) -> (res: Placement)
    ensures
        is_placed(screen, area, res.frame, res.panels@),
{
    let frame = frame_areas(area);
    let mut panels: Vec<Area> = Vec::new();
    match screen {
        Screen::Summary => {
            let (outcomes, history) = summary_areas(frame.detail);
            panels.push(outcomes);
            panels.push(history);
        },
        _ => {
            let (task, profile, history) = detail_areas(frame.detail);
            panels.push(task);
            panels.push(profile);
            panels.push(history);
        },
    }
    panels.push(frame.logs);
    match screen {
        Screen::ConfirmDangerous => {
            panels.push(centered_rect(CONFIRMATION_WIDTH, CONFIRMATION_HEIGHT, area));
        },
        _ => {},
    }
    Placement { frame, panels }
}

/// Every panel is on the screen.
pub proof fn every_panel_is_on_the_screen(
    screen: Screen,
    area: Area,
    frame: FrameAreas,
    panels: Seq<Area>,
    i: int,
)
    requires
        is_placed(screen, area, frame, panels),
        layout::on_screen(area),
        0 <= i < panels.len(),
    ensures
        layout::inside(panels[i], area),
{
    assert(layout::inside(frame.detail, area));
}

/// The history and the activity are shown on every screen; the confirmation is
/// shown where a plan awaits it, and the outcomes after a run, and nowhere else.
pub proof fn what_each_screen_shows(screen: Screen)
    ensures
        screen_panels(screen).contains(PanelKind::History),
        screen_panels(screen).contains(PanelKind::Activity),
        screen_panels(screen).contains(PanelKind::Confirmation) <==> screen
            == Screen::ConfirmDangerous,
        screen_panels(screen).contains(PanelKind::Outcomes) <==> screen == Screen::Summary,
        screen_panels(screen).contains(PanelKind::Task) <==> screen != Screen::Summary,
        screen_panels(screen).contains(PanelKind::Profile) <==> screen != Screen::Summary,
{
    let all = screen_panels(screen);
    if screen == Screen::Summary {
        assert(all[0] == PanelKind::Outcomes);
        assert(all[1] == PanelKind::History);
        assert(all[2] == PanelKind::Activity);
    } else {
        assert(all[0] == PanelKind::Task);
        assert(all[1] == PanelKind::Profile);
        assert(all[2] == PanelKind::History);
        assert(all[3] == PanelKind::Activity);
        if screen == Screen::ConfirmDangerous {
            assert(all[4] == PanelKind::Confirmation);
        }
    }
}

} // verus!
