//! Where the parts of the cockpit stand on the terminal.

use ratatui::layout::{Constraint, Layout, Rect};
use vstd::prelude::*;

verus! {

/// A rectangle of terminal cells.
#[derive(Debug, Clone, Copy, PartialEq, Eq, Structural)]
pub struct Area {
    pub x: u16,
    pub y: u16,
    pub width: u16,
    pub height: u16,
}

/// Which way an area is split.
#[derive(Debug, Clone, Copy, PartialEq, Eq, Structural)]
pub enum Axis {
    Rows,
    Columns,
}

/// How much of an area a part is to get.
#[derive(Debug, Clone, Copy, PartialEq, Eq, Structural)]
pub enum Share {
    Length(u16),
    Min(u16),
    Percentage(u16),
}

/// The far edges of the area are cells of the terminal.
pub open spec fn on_screen(area: Area) -> bool {
    area.x + area.width <= u16::MAX && area.y + area.height <= u16::MAX
}

/// `part` lies inside `area`.
pub open spec fn inside(part: Area, area: Area) -> bool {
    &&& area.x <= part.x
    &&& part.x + part.width <= area.x + area.width
    &&& area.y <= part.y
    &&& part.y + part.height <= area.y + area.height
}

/// `part` takes up the whole width or height of `area`, across the split.
pub open spec fn spans_across(part: Area, axis: Axis, area: Area) -> bool {
    match axis {
        Axis::Rows => part.x == area.x && part.width == area.width,
        Axis::Columns => part.y == area.y && part.height == area.height,
    }
}

/// Where an area begins along the split.
pub open spec fn start_of(area: Area, axis: Axis) -> int {
    match axis {
        Axis::Rows => area.y as int,
        Axis::Columns => area.x as int,
    }
}

/// How long an area is along the split.
pub open spec fn length_of(area: Area, axis: Axis) -> int {
    match axis {
        Axis::Rows => area.height as int,
        Axis::Columns => area.width as int,
    }
}

/// The shares ask for cells, and for numbers of them that fit a signed word.
pub open spec fn asks_for_cells(shares: Seq<Share>) -> bool {
    forall|i: int|
        0 <= i < shares.len() ==> match #[trigger] shares[i] {
            Share::Length(cells) => cells <= i16::MAX,
            Share::Min(cells) => cells <= i16::MAX,
            Share::Percentage(_) => false,
        }
}

/// How many cells the shares ask for at least.
pub open spec fn cells_asked(shares: Seq<Share>) -> int
    decreases shares.len(),
{
    if shares.len() == 0 {
        0
    } else {
        cells_asked(shares.drop_last()) + match shares.last() {
            Share::Length(cells) => cells as int,
            Share::Min(cells) => cells as int,
            Share::Percentage(_) => 0,
        }
    }
}

/// The shares ask for percentages.
pub open spec fn asks_for_percentages(shares: Seq<Share>) -> bool {
    forall|i: int| 0 <= i < shares.len() ==> (#[trigger] shares[i]) is Percentage
}

/// The sum of the percentages that the shares ask for.
pub open spec fn percentages_asked(shares: Seq<Share>) -> int
    decreases shares.len(),
{
    if shares.len() == 0 {
        0
    } else {
        percentages_asked(shares.drop_last()) + match shares.last() {
            Share::Percentage(percent) => percent as int,
            _ => 0,
        }
    }
}

/// The parts follow one another without gaps from the start of the area.
pub open spec fn follow_one_another(parts: Seq<Area>, axis: Axis, area: Area) -> bool {
    &&& parts.len() > 0 ==> start_of(parts[0], axis) == start_of(area, axis)
    &&& forall|i: int, j: int|
        0 <= i < parts.len() && j == i + 1 && j < parts.len() ==> start_of(
            #[trigger] parts[j],
            axis,
        ) == start_of(#[trigger] parts[i], axis) + length_of(parts[i], axis)
}

/// A part has the cells that its share asks for.
pub open spec fn has_cells(part: Area, axis: Axis, share: Share) -> bool {
    match share {
        Share::Length(cells) => length_of(part, axis) == cells,
        Share::Min(cells) => length_of(part, axis) >= cells,
        Share::Percentage(_) => true,
    }
}

/// Position `i` is the only one whose share asks for a minimum.
pub open spec fn only_minimum(shares: Seq<Share>, i: int) -> bool {
    &&& 0 <= i < shares.len()
    &&& shares[i] is Min
    &&& forall|j: int| 0 <= j < shares.len() && j != i ==> (#[trigger] shares[j]) is Length
}

/// The sum of lengths.
pub open spec fn total_length(lengths: Seq<int>) -> int
    decreases lengths.len(),
{
    if lengths.len() == 0 {
        0
    } else {
        total_length(lengths.drop_last()) + lengths.last()
    }
}

/// The sum of the differences between neighbouring lengths.
pub open spec fn unevenness(lengths: Seq<int>) -> int
    decreases lengths.len(),
{
    if lengths.len() < 2 {
        0
    } else {
        let step = lengths[lengths.len() - 1] - lengths[lengths.len() - 2];
        unevenness(lengths.drop_last()) + if step < 0 {
            -step
        } else {
            step
        }
    }
}

/// Lengths, in sixths of a cell, that fill `total` cells where the shares ask for
/// more: a minimum is met as far as there are cells, and no other length is more
/// than is asked for.
pub open spec fn divides(lengths: Seq<int>, shares: Seq<Share>, total: int) -> bool {
    &&& lengths.len() == shares.len()
    &&& total_length(lengths) == 6 * total
    &&& forall|i: int|
        0 <= i < shares.len() ==> 0 <= #[trigger] lengths[i] && match shares[i] {
            Share::Length(cells) => lengths[i] <= 6 * cells,
            Share::Min(cells) => lengths[i] == if cells <= total {
                6 * cells as int
            } else {
                6 * total
            },
            Share::Percentage(_) => true,
        }
}

/// No such lengths are more even.
pub open spec fn divides_evenly(lengths: Seq<int>, shares: Seq<Share>, total: int) -> bool {
    &&& divides(lengths, shares, total)
    &&& forall|other: Seq<int>| #[trigger]
        divides(other, shares, total) ==> unevenness(lengths) <= unevenness(other)
}

/// Where the part at position `i` begins after parts of these lengths, in sixths
/// of a cell: at the nearest cell, and half way between two at the later one.
pub open spec fn edge_at(lengths: Seq<int>, i: int) -> int {
    (total_length(lengths.take(i)) + 3) / 6
}

/// Where the part at position `i` begins after parts of these percentages of a
/// length: at the nearest cell, and half way between two at the later one.
pub open spec fn percent_edge(shares: Seq<Share>, i: int, length: int) -> int {
    (percentages_asked(shares.take(i)) * length + 50) / 100
}

/// The part at position `i` goes from one of these edges to the next.
pub open spec fn lies_between(part: Area, axis: Axis, area: Area, from: int, to: int) -> bool {
    &&& start_of(part, axis) == start_of(area, axis) + from
    &&& length_of(part, axis) == to - from
}

/// Calls `ratatui::layout::Layout::split` on a layout without margin or spacing:
/// splits an area into one part for each share. Every part takes up the whole of
/// the area across the split. In an area that is on the screen the parts follow
/// one another inside it. Where all shares ask for cells and there are enough,
/// every part has what it asks for, and where some ask for a minimum, the parts
/// fill the area. Where there are too few cells for up to four shares, one of them
/// a minimum and the others lengths, the minimum comes first, the others have at
/// most what they ask for, and among such divisions it is one where neighbours
/// differ least, with the edges rounded to cells. Where all shares ask for
/// percentages of no more than 100 in total, every edge is at its percentage of
/// the area, rounded to a cell. Nothing is claimed of the lengths otherwise: a
/// constraint solver chooses among equally good solutions.
#[verifier::external_body]
fn split_area(axis: Axis, shares: &Vec<Share>, area: Area) -> (res: Vec<Area>)
    ensures
        res@.len() == shares@.len(),
        forall|i: int| 0 <= i < res@.len() ==> spans_across(#[trigger] res@[i], axis, area),
        on_screen(area) ==> follow_one_another(res@, axis, area),
        on_screen(area) ==> forall|i: int| 0 <= i < res@.len() ==> inside(#[trigger] res@[i], area),
        on_screen(area) && asks_for_cells(shares@) && cells_asked(shares@) <= length_of(area, axis)
            ==> forall|i: int|
            0 <= i < res@.len() ==> has_cells(#[trigger] res@[i], axis, shares@[i]),
        on_screen(area) && asks_for_cells(shares@) && cells_asked(shares@) > length_of(area, axis)
            && shares@.len() <= 4 && (exists|k: int| #[trigger] only_minimum(shares@, k))
            ==> exists|lengths: Seq<int>| #[trigger]
            divides_evenly(lengths, shares@, length_of(area, axis)) && forall|i: int|
                0 <= i < res@.len() ==> lies_between(
                    #[trigger] res@[i],
                    axis,
                    area,
                    edge_at(lengths, i),
                    edge_at(lengths, i + 1),
                ),
        on_screen(area) && asks_for_cells(shares@) && (exists|i: int|
            0 <= i < shares@.len() && (#[trigger] shares@[i]) is Min) ==> start_of(
            res@.last(),
            axis,
        ) + length_of(res@.last(), axis) == start_of(area, axis) + length_of(area, axis),
        on_screen(area) && asks_for_percentages(shares@) && percentages_asked(shares@) <= 100
            ==> forall|i: int|
            0 <= i < res@.len() ==> lies_between(
                #[trigger] res@[i],
                axis,
                area,
                percent_edge(shares@, i, length_of(area, axis)),
                percent_edge(shares@, i + 1, length_of(area, axis)),
            ),
{
    let constraints = shares.iter().map(|share| match share {
        Share::Length(cells) => Constraint::Length(*cells),
        Share::Min(cells) => Constraint::Min(*cells),
        Share::Percentage(percent) => Constraint::Percentage(*percent),
    });
    let layout = match axis {
        Axis::Rows => Layout::vertical(constraints),
        Axis::Columns => Layout::horizontal(constraints),
    };
    let whole = Rect { x: area.x, y: area.y, width: area.width, height: area.height };
    let parts = layout.split(whole);
    parts
        .iter()
        .map(|part| Area { x: part.x, y: part.y, width: part.width, height: part.height })
        .collect()
}

/// The parts of the whole screen, from top to bottom.
#[derive(Debug, Clone, Copy, PartialEq, Eq, Structural)]
pub struct FrameAreas {
    pub title: Area,
    pub tasks: Area,
    pub detail: Area,
    pub logs: Area,
    pub footer: Area,
}

/// The shares of the rows of the screen: title, main part, activity and footer.
pub open spec fn frame_rows() -> Seq<Share> {
    seq![Share::Length(3), Share::Min(16), Share::Length(10), Share::Length(2)]
}

/// The shares of the columns of the main part: tasks and detail.
pub open spec fn main_columns() -> Seq<Share> {
    seq![Share::Percentage(42), Share::Percentage(58)]
}

/// The shares of the rows of the detail column: task, profile and history.
pub open spec fn detail_rows() -> Seq<Share> {
    seq![Share::Length(18), Share::Length(8), Share::Min(6)]
}

/// The shares of the rows of the summary: outcomes and history.
pub open spec fn summary_rows() -> Seq<Share> {
    seq![Share::Length(10), Share::Min(6)]
}

/// The shares that put a part of `percent` in the middle.
pub open spec fn centered_shares(percent: u16) -> Seq<Share> {
    let rest = ((100 - percent) / 2) as u16;
    seq![Share::Percentage(rest), Share::Percentage(percent), Share::Percentage(rest)]
}

fn make_frame_rows() -> (res: Vec<Share>)
    ensures
        res@ == frame_rows(),
{
    let mut res: Vec<Share> = Vec::new();
    res.push(Share::Length(3));
    res.push(Share::Min(16));
    res.push(Share::Length(10));
    res.push(Share::Length(2));
    assert(res@ =~= frame_rows());
    res
}

fn make_main_columns() -> (res: Vec<Share>)
    ensures
        res@ == main_columns(),
{
    let mut res: Vec<Share> = Vec::new();
    res.push(Share::Percentage(42));
    res.push(Share::Percentage(58));
    assert(res@ =~= main_columns());
    res
}

fn make_detail_rows() -> (res: Vec<Share>)
    ensures
        res@ == detail_rows(),
{
    let mut res: Vec<Share> = Vec::new();
    res.push(Share::Length(18));
    res.push(Share::Length(8));
    res.push(Share::Min(6));
    assert(res@ =~= detail_rows());
    res
}

fn make_summary_rows() -> (res: Vec<Share>)
    ensures
        res@ == summary_rows(),
{
    let mut res: Vec<Share> = Vec::new();
    res.push(Share::Length(10));
    res.push(Share::Min(6));
    assert(res@ =~= summary_rows());
    res
}

/// The shares that put a part of `percent` in the middle.
pub fn make_centered_shares(percent: u16) -> (res: Vec<Share>)
    requires
        percent <= 100,
    ensures
        res@ == centered_shares(percent),
{
    let rest: u16 = (100 - percent) / 2;
    let mut res: Vec<Share> = Vec::new();
    res.push(Share::Percentage(rest));
    res.push(Share::Percentage(percent));
    res.push(Share::Percentage(rest));
    assert(res@ =~= centered_shares(percent));
    res
}

/// The number, or the limit where that is less.
pub open spec fn at_most(n: int, limit: int) -> int {
    if n <= limit {
        n
    } else {
        limit
    }
}

/// These are the parts of a screen. Rows take up the whole width of the screen
/// and follow one another, and the two columns between them share their height.
/// On a screen that is high enough the title, the activity and the footer have
/// their fixed heights and the columns have the rest. On a lower one the columns
/// come first, then the title; the activity and the footer share what is left
/// evenly, up to the height of the footer.
pub open spec fn divides_frame(area: Area, parts: FrameAreas) -> bool {
    &&& spans_across(parts.title, Axis::Rows, area)
    &&& spans_across(parts.logs, Axis::Rows, area)
    &&& spans_across(parts.footer, Axis::Rows, area)
    &&& parts.tasks.y == parts.detail.y
    &&& parts.tasks.height == parts.detail.height
    &&& on_screen(area) ==> {
        &&& inside(parts.title, area)
        &&& inside(parts.tasks, area)
        &&& inside(parts.detail, area)
        &&& inside(parts.logs, area)
        &&& inside(parts.footer, area)
        &&& parts.title.y == area.y
        &&& parts.tasks.y == parts.title.y + parts.title.height
        &&& parts.logs.y == parts.tasks.y + parts.tasks.height
        &&& parts.footer.y == parts.logs.y + parts.logs.height
        &&& parts.tasks.x == area.x
        &&& parts.detail.x == parts.tasks.x + parts.tasks.width
        &&& parts.tasks.width == (42 * area.width + 50) / 100
        &&& parts.detail.width == area.width - parts.tasks.width
    }
    &&& on_screen(area) && area.height >= 31 ==> {
        &&& parts.title.height == 3
        &&& parts.tasks.height == area.height - 15
        &&& parts.logs.height == 10
        &&& parts.footer.height == 2
    }
    &&& on_screen(area) && area.height < 31 ==> {
        &&& parts.tasks.height == if area.height < 16 {
            area.height
        } else {
            16u16
        }
        &&& parts.title.height == at_most(area.height - parts.tasks.height, 3)
        &&& parts.footer.height == at_most(
            (area.height - parts.tasks.height - parts.title.height) / 2,
            2,
        )
        &&& parts.logs.height == area.height - parts.tasks.height - parts.title.height
            - parts.footer.height
    }
}

proof fn lemma_lengths(lengths: Seq<int>)
    ensures
        lengths.len() == 3 ==> {
            &&& total_length(lengths) == lengths[0] + lengths[1] + lengths[2]
            &&& unevenness(lengths) == distance(lengths[0], lengths[1]) + distance(
                lengths[1],
                lengths[2],
            )
            &&& edge_at(lengths, 0) == 0
            &&& edge_at(lengths, 1) == (lengths[0] + 3) / 6
            &&& edge_at(lengths, 2) == (lengths[0] + lengths[1] + 3) / 6
            &&& edge_at(lengths, 3) == (total_length(lengths) + 3) / 6
        },
        lengths.len() == 4 ==> {
            &&& total_length(lengths) == lengths[0] + lengths[1] + lengths[2] + lengths[3]
            &&& unevenness(lengths) == distance(lengths[0], lengths[1]) + distance(
                lengths[1],
                lengths[2],
            ) + distance(lengths[2], lengths[3])
            &&& edge_at(lengths, 0) == 0
            &&& edge_at(lengths, 1) == (lengths[0] + 3) / 6
            &&& edge_at(lengths, 2) == (lengths[0] + lengths[1] + 3) / 6
            &&& edge_at(lengths, 3) == (lengths[0] + lengths[1] + lengths[2] + 3) / 6
            &&& edge_at(lengths, 4) == (total_length(lengths) + 3) / 6
        },
{
    reveal_with_fuel(total_length, 5);
    reveal_with_fuel(unevenness, 5);
    assert(lengths.take(lengths.len() as int) =~= lengths);
    if lengths.len() >= 3 {
        assert(lengths.take(1).drop_last() =~= lengths.take(0));
        assert(lengths.take(2).drop_last() =~= lengths.take(1));
        assert(lengths.take(3).drop_last() =~= lengths.take(2));
    }
}

/// How far two lengths are apart.
spec fn distance(a: int, b: int) -> int {
    if a <= b {
        b - a
    } else {
        a - b
    }
}

proof fn lemma_low_frame(lengths: Seq<int>, height: int)
    requires
        0 <= height < 31,
        divides_evenly(lengths, frame_rows(), height),
    ensures
        ({
            let main = at_most(height, 16);
            let title = at_most(height - main, 3);
            let footer = at_most((height - main - title) / 2, 2);
            &&& edge_at(lengths, 0) == 0
            &&& edge_at(lengths, 1) == title
            &&& edge_at(lengths, 2) == title + main
            &&& edge_at(lengths, 3) == height - footer
            &&& edge_at(lengths, 4) == height
        }),
{
    let shares = frame_rows();
    let main = at_most(height, 16);
    let title = at_most(height - main, 3);
    let rest = height - main - title;
    let footer = at_most(3 * rest, 12);
    let best = seq![6 * title, 6 * main, 6 * rest - footer, footer];
    lemma_lengths(lengths);
    lemma_lengths(best);
    assert(lengths[0] >= 0 && lengths[1] >= 0 && lengths[2] >= 0 && lengths[3] >= 0);
    assert(shares[0] == Share::Length(3) && shares[1] == Share::Min(16) && shares[2]
        == Share::Length(10) && shares[3] == Share::Length(2));
    assert(divides(best, shares, height));
    assert(unevenness(lengths) <= unevenness(best));
}

proof fn lemma_percent_edges(shares: Seq<Share>, length: int)
    requires
        2 <= shares.len() <= 3,
    ensures
        percent_edge(shares, 0, length) == 0,
        percent_edge(shares, 1, length) == (percent_of(shares[0]) * length + 50) / 100,
        percent_edge(shares, 2, length) == ((percent_of(shares[0]) + percent_of(shares[1])) * length
            + 50) / 100,
{
    reveal_with_fuel(percentages_asked, 3);
    assert(shares.take(1).drop_last() =~= shares.take(0));
    assert(shares.take(2).drop_last() =~= shares.take(1));
    assert(0 * length == 0);
}

/// The percentage that a share asks for.
spec fn percent_of(share: Share) -> int {
    match share {
        Share::Percentage(percent) => percent as int,
        _ => 0,
    }
}

/// The parts of the screen.
pub fn frame_areas(area: Area) -> (res: FrameAreas)
    ensures
        divides_frame(area, res),
{
    let shares = make_frame_rows();
    let rows = split_area(Axis::Rows, &shares, area);
    let main = rows[1];
    let halves = make_main_columns();
    let columns = split_area(Axis::Columns, &halves, main);
    proof {
        reveal_with_fuel(cells_asked, 5);
        reveal_with_fuel(percentages_asked, 3);
        assert(spans_across(rows@[0], Axis::Rows, area));
        assert(spans_across(columns@[0], Axis::Columns, main));
        assert(only_minimum(shares@, 1));
        assert(shares@[1] is Min);
        assert(cells_asked(shares@) == 31);
        assert(percentages_asked(halves@) == 100);
        if on_screen(area) {
            assert(inside(rows@[1], area));
            assert(inside(rows@[0], area));
            assert(inside(columns@[0], main));
            lemma_percent_edges(halves@, main.width as int);
            assert(percent_of(halves@[0]) == 42 && percent_of(halves@[1]) == 58);
            assert(percent_edge(halves@, 1, main.width as int) == (42 * main.width + 50) / 100);
            assert(percent_edge(halves@, 2, main.width as int) == main.width);
            assert(main.width == area.width);
            assert(lies_between(
                columns@[0],
                Axis::Columns,
                main,
                percent_edge(halves@, 0, main.width as int),
                percent_edge(halves@, 1, main.width as int),
            ));
            assert(lies_between(
                columns@[1],
                Axis::Columns,
                main,
                percent_edge(halves@, 1, main.width as int),
                percent_edge(halves@, 2, main.width as int),
            ));
            if area.height >= 31 {
                assert(has_cells(rows@[0], Axis::Rows, shares@[0]));
                assert(has_cells(rows@[2], Axis::Rows, shares@[2]));
                assert(has_cells(rows@[3], Axis::Rows, shares@[3]));
            } else {
                let lengths = choose|lengths: Seq<int>| #[trigger]
                    divides_evenly(lengths, shares@, area.height as int) && forall|i: int|
                        0 <= i < rows@.len() ==> lies_between(
                            #[trigger] rows@[i],
                            Axis::Rows,
                            area,
                            edge_at(lengths, i),
                            edge_at(lengths, i + 1),
                        );
                lemma_low_frame(lengths, area.height as int);
                assert(lies_between(
                    rows@[0],
                    Axis::Rows,
                    area,
                    edge_at(lengths, 0),
                    edge_at(lengths, 1),
                ));
                assert(lies_between(
                    rows@[1],
                    Axis::Rows,
                    area,
                    edge_at(lengths, 1),
                    edge_at(lengths, 2),
                ));
                assert(lies_between(
                    rows@[2],
                    Axis::Rows,
                    area,
                    edge_at(lengths, 2),
                    edge_at(lengths, 3),
                ));
                assert(lies_between(
                    rows@[3],
                    Axis::Rows,
                    area,
                    edge_at(lengths, 3),
                    edge_at(lengths, 4),
                ));
            }
        }
    }
    FrameAreas {
        title: rows[0],
        tasks: columns[0],
        detail: columns[1],
        logs: rows[2],
        footer: rows[3],
    }
}

/// These are the parts of the detail column: task, profile and history, from top
/// to bottom. In a column that is high enough the first two have their fixed
/// heights and the history has the rest. In a lower one the history comes first;
/// the others share what is left evenly, up to the height of the profile.
pub open spec fn divides_detail(area: Area, task: Area, profile: Area, history: Area) -> bool {
    &&& spans_across(task, Axis::Rows, area)
    &&& spans_across(profile, Axis::Rows, area)
    &&& spans_across(history, Axis::Rows, area)
    &&& on_screen(area) ==> {
        &&& inside(task, area)
        &&& inside(profile, area)
        &&& inside(history, area)
        &&& task.y == area.y
        &&& profile.y == task.y + task.height
        &&& history.y == profile.y + profile.height
    }
    &&& on_screen(area) && area.height >= 32 ==> {
        &&& task.height == 18
        &&& profile.height == 8
        &&& history.height == area.height - 26
    }
    &&& on_screen(area) && area.height < 32 ==> {
        &&& history.height == if area.height < 6 {
            area.height
        } else {
            6u16
        }
        &&& profile.height == at_most((area.height - history.height) / 2, 8)
        &&& task.height == area.height - history.height - profile.height
    }
}

proof fn lemma_low_detail(lengths: Seq<int>, height: int)
    requires
        0 <= height < 32,
        divides_evenly(lengths, detail_rows(), height),
    ensures
        ({
            let history = at_most(height, 6);
            let profile = at_most((height - history) / 2, 8);
            &&& edge_at(lengths, 0) == 0
            &&& edge_at(lengths, 1) == height - history - profile
            &&& edge_at(lengths, 2) == height - history
            &&& edge_at(lengths, 3) == height
        }),
{
    let shares = detail_rows();
    let history = at_most(height, 6);
    let rest = height - history;
    let profile = at_most(3 * rest, 48);
    let best = seq![6 * rest - profile, profile, 6 * history];
    lemma_lengths(lengths);
    lemma_lengths(best);
    assert(lengths[0] >= 0 && lengths[1] >= 0 && lengths[2] >= 0);
    assert(shares[0] == Share::Length(18) && shares[1] == Share::Length(8) && shares[2]
        == Share::Min(6));
    assert(divides(best, shares, height));
    assert(unevenness(lengths) <= unevenness(best));
}

/// The parts of the detail column: task, profile and history.
pub fn detail_areas(area: Area) -> (res: (Area, Area, Area))
    ensures
        divides_detail(area, res.0, res.1, res.2),
{
    let shares = make_detail_rows();
    let parts = split_area(Axis::Rows, &shares, area);
    proof {
        reveal_with_fuel(cells_asked, 4);
        assert(only_minimum(shares@, 2));
        assert(shares@[2] is Min);
        assert(cells_asked(shares@) == 32);
        if on_screen(area) && area.height >= 32 {
            assert(has_cells(parts@[0], Axis::Rows, shares@[0]));
            assert(has_cells(parts@[1], Axis::Rows, shares@[1]));
        } else if on_screen(area) {
            let lengths = choose|lengths: Seq<int>| #[trigger]
                divides_evenly(lengths, shares@, area.height as int) && forall|i: int|
                    0 <= i < parts@.len() ==> lies_between(
                        #[trigger] parts@[i],
                        Axis::Rows,
                        area,
                        edge_at(lengths, i),
                        edge_at(lengths, i + 1),
                    );
            lemma_low_detail(lengths, area.height as int);
            assert(lies_between(
                parts@[0],
                Axis::Rows,
                area,
                edge_at(lengths, 0),
                edge_at(lengths, 1),
            ));
            assert(lies_between(
                parts@[1],
                Axis::Rows,
                area,
                edge_at(lengths, 1),
                edge_at(lengths, 2),
            ));
            assert(lies_between(
                parts@[2],
                Axis::Rows,
                area,
                edge_at(lengths, 2),
                edge_at(lengths, 3),
            ));
        }
    }
    (parts[0], parts[1], parts[2])
}

/// These are the parts of the summary: outcomes and history, from top to bottom.
/// In a column that is high enough the first has its fixed height and the history
/// has the rest; in a lower one the history comes first.
pub open spec fn divides_summary(area: Area, outcomes: Area, history: Area) -> bool {
    &&& spans_across(outcomes, Axis::Rows, area)
    &&& spans_across(history, Axis::Rows, area)
    &&& on_screen(area) ==> {
        &&& inside(outcomes, area)
        &&& inside(history, area)
        &&& outcomes.y == area.y
        &&& history.y == outcomes.y + outcomes.height
    }
    &&& on_screen(area) && area.height >= 16 ==> {
        &&& outcomes.height == 10
        &&& history.height == area.height - 10
    }
    &&& on_screen(area) && area.height < 16 ==> {
        &&& history.height == if area.height < 6 {
            area.height
        } else {
            6u16
        }
        &&& outcomes.height == area.height - history.height
    }
}

/// The parts of the summary: outcomes and history.
pub fn summary_areas(area: Area) -> (res: (Area, Area))
    ensures
        divides_summary(area, res.0, res.1),
{
    let shares = make_summary_rows();
    let parts = split_area(Axis::Rows, &shares, area);
    proof {
        reveal_with_fuel(cells_asked, 3);
        assert(only_minimum(shares@, 1));
        assert(shares@[1] is Min);
        assert(cells_asked(shares@) == 16);
        if on_screen(area) && area.height >= 16 {
            assert(has_cells(parts@[0], Axis::Rows, shares@[0]));
        } else if on_screen(area) {
            let lengths = choose|lengths: Seq<int>| #[trigger]
                divides_evenly(lengths, shares@, area.height as int) && forall|i: int|
                    0 <= i < parts@.len() ==> lies_between(
                        #[trigger] parts@[i],
                        Axis::Rows,
                        area,
                        edge_at(lengths, i),
                        edge_at(lengths, i + 1),
                    );
            reveal_with_fuel(total_length, 3);
            assert(lengths.take(2) =~= lengths);
            assert(lengths.take(1).drop_last() =~= lengths.take(0));
            assert(lengths[0] >= 0 && lengths[1] >= 0);
            assert(shares@[0] == Share::Length(10) && shares@[1] == Share::Min(6));
            assert(lies_between(
                parts@[0],
                Axis::Rows,
                area,
                edge_at(lengths, 0),
                edge_at(lengths, 1),
            ));
            assert(lies_between(
                parts@[1],
                Axis::Rows,
                area,
                edge_at(lengths, 1),
                edge_at(lengths, 2),
            ));
        }
    }
    (parts[0], parts[1])
}

/// Where a part of `percent` in the middle of a length begins and ends: half of
/// the other percent, rounded down, are before it, and its ends are at the nearest
/// cells.
pub open spec fn middle_of(percent: u16, length: u16) -> (int, int) {
    let before = (100 - percent) / 2;
    ((before * length + 50) / 100, ((before + percent) * length + 50) / 100)
}

/// The part is in the middle of an area, with these percentages of its width and
/// height.
pub open spec fn is_centered(percent_x: u16, percent_y: u16, area: Area, part: Area) -> bool {
    &&& on_screen(area) ==> {
        &&& inside(part, area)
        &&& part.x == area.x + middle_of(percent_x, area.width).0
        &&& part.x + part.width == area.x + middle_of(percent_x, area.width).1
        &&& part.y == area.y + middle_of(percent_y, area.height).0
        &&& part.y + part.height == area.y + middle_of(percent_y, area.height).1
    }
}

/// An area in the middle of another, of these percentages of its width and height.
pub fn centered_rect(percent_x: u16, percent_y: u16, area: Area) -> (res: Area)
    requires
        percent_x <= 100,
        percent_y <= 100,
    ensures
        is_centered(percent_x, percent_y, area, res),
{
    let across = make_centered_shares(percent_y);
    let rows = split_area(Axis::Rows, &across, area);
    let middle = rows[1];
    let along = make_centered_shares(percent_x);
    let columns = split_area(Axis::Columns, &along, middle);
    proof {
        reveal_with_fuel(percentages_asked, 4);
        assert(percentages_asked(across@) <= 100);
        assert(percentages_asked(along@) <= 100);
        if on_screen(area) {
            assert(inside(rows@[1], area));
            assert(inside(rows@[0], area));
            lemma_percent_edges(across@, area.height as int);
            lemma_percent_edges(along@, area.width as int);
            assert(lies_between(
                rows@[1],
                Axis::Rows,
                area,
                percent_edge(across@, 1, area.height as int),
                percent_edge(across@, 2, area.height as int),
            ));
            assert(spans_across(rows@[1], Axis::Rows, area));
            assert(lies_between(
                columns@[1],
                Axis::Columns,
                middle,
                percent_edge(along@, 1, area.width as int),
                percent_edge(along@, 2, area.width as int),
            ));
            assert(spans_across(columns@[1], Axis::Columns, middle));
            assert(inside(columns@[1], middle));
        }
    }
    columns[1]
}

} // verus!
