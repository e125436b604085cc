//! Motions over the entry grid, shared by standalone moves and the delete
//! operator.
use std::collections::BTreeSet;
use vstd::prelude::*;

verus! {

broadcast use vstd::std_specs::btree::group_btree_axioms, vstd::laws_cmp::group_laws_cmp;

/// A cursor motion across the displayed entries.
#[derive(Clone, Copy, Debug, PartialEq, Eq, Structural)]
pub enum Motion {
    Left,
    Down,
    Up,
    Right,
    RowStart,
    RowEnd,
    First,
    Last,
    DisplayIndex(usize),
    ViewportTop,
    ViewportMiddle,
    ViewportBottom,
    HalfPageDown,
    HalfPageUp,
}

impl Motion {
    /// Arrow-like motions: exactly the four that move by one cell.
    pub open spec fn spec_directional(self) -> bool {
        self is Left || self is Right || self is Up || self is Down
    }

    pub fn is_directional(self) -> (r: bool)
        ensures
            r == self.spec_directional(),
    {
        matches!(self, Motion::Left | Motion::Right | Motion::Up | Motion::Down)
    }
}

/// The target of a delete operator: the active entry, or a motion from it.
#[derive(Clone, Copy, Debug, PartialEq, Eq, Structural)]
pub enum DeleteMotion {
    Current,
    Motion(Motion),
}


// ------------------------------------------------------------------ motion targets

/// What the motions need of the layout: the number of columns and the
/// entries currently on screen (`first_index..last_index`).
#[derive(Clone, Copy, Debug, PartialEq, Eq)]
pub struct Layout {
    pub columns: usize,
    pub first_index: usize,
    pub last_index: usize,
}

pub open spec fn min(a: int, b: int) -> int {
    if a < b {
        a
    } else {
        b
    }
}

pub open spec fn max(a: int, b: int) -> int {
    if a > b {
        a
    } else {
        b
    }
}

/// `usize::saturating_add`, `saturating_sub` and `saturating_mul`.
pub open spec fn sat_add(a: int, b: int) -> int {
    min(a + b, usize::MAX as int)
}

pub open spec fn sat_sub(a: int, b: int) -> int {
    max(a - b, 0)
}

pub open spec fn sat_mul(a: int, b: int) -> int {
    min(a * b, usize::MAX as int)
}

/// Where a motion `count` times from `current` lands among `entry_count`
/// entries laid out in `layout.columns` columns: left and right stay in the
/// row, up and down move by whole rows, the viewport motions use the
/// entries on screen, half pages move by half of them; never past the last
/// entry.
pub open spec fn motion_target_spec(
    current: int,
    motion: Motion,
    count: int,
    entry_count: int,
    layout: Layout,
) -> int {
    let last = sat_sub(entry_count, 1);
    let columns = layout.columns as int;
    let first = layout.first_index as int;
    let end = layout.last_index as int;
    match motion {
        Motion::Left => sat_sub(current, min(count, current % columns)),
        Motion::Right => min(sat_add(current, min(count, columns - 1 - current % columns)), last),
        Motion::Up => sat_sub(current, sat_mul(columns, count)),
        Motion::Down => min(sat_add(current, sat_mul(columns, count)), last),
        Motion::RowStart => current / columns * columns,
        Motion::RowEnd => min(sat_add(current / columns * columns, columns - 1), last),
        Motion::First => 0,
        Motion::Last => last,
        Motion::DisplayIndex(index) => min(index as int, last),
        Motion::ViewportTop => min(first, last),
        Motion::ViewportMiddle => min((first + sat_sub(end, 1)) / 2, last),
        Motion::ViewportBottom => min(sat_sub(end, 1), last),
        Motion::HalfPageDown => min(
            sat_add(current, sat_mul(max((sat_sub(end, first) + 1) / 2, 1), count)),
            last,
        ),
        Motion::HalfPageUp => sat_sub(current, sat_mul(max((sat_sub(end, first) + 1) / 2, 1), count)),
    }
}

proof fn lemma_row_start(current: int, columns: int)
    requires
        current >= 0,
        columns > 0,
    ensures
        0 <= current / columns * columns <= current,
{
    vstd::arithmetic::div_mod::lemma_fundamental_div_mod(current, columns);
    vstd::arithmetic::div_mod::lemma_mod_pos_bound(current, columns);
    assert(0 <= current / columns * columns <= current) by (nonlinear_arith)
        requires
            current == columns * (current / columns) + current % columns,
            0 <= current % columns,
            columns > 0,
            current >= 0,
    ;
}

fn sat_mul_exec(a: usize, b: usize) -> (r: usize)
    ensures
        r == sat_mul(a as int, b as int),
{
    match a.checked_mul(b) {
        Some(p) => p,
        None => usize::MAX,
    }
}

/// The index a motion reaches (see `motion_target_spec`).
pub fn motion_target(
    current: usize,
    motion: Motion,
    count: usize,
    entry_count: usize,
    layout: Layout,
) -> (r: usize)
    requires
        layout.columns > 0,
        motion is ViewportMiddle ==> layout.first_index + sat_sub(layout.last_index as int, 1)
            <= usize::MAX,
    ensures
        r == motion_target_spec(current as int, motion, count as int, entry_count as int, layout),
{
    let last = entry_count.saturating_sub(1);
    let columns = layout.columns;
    match motion {
        Motion::Left => {
            let step = if count < current % columns {
                count
            } else {
                current % columns
            };
            current.saturating_sub(step)
        },
        Motion::Right => {
            let room = columns - 1 - current % columns;
            let step = if count < room {
                count
            } else {
                room
            };
            let moved = current.saturating_add(step);
            if moved < last {
                moved
            } else {
                last
            }
        },
        Motion::Up => current.saturating_sub(sat_mul_exec(columns, count)),
        Motion::Down => {
            let moved = current.saturating_add(sat_mul_exec(columns, count));
            if moved < last {
                moved
            } else {
                last
            }
        },
        Motion::RowStart => {
            proof {
                lemma_row_start(current as int, columns as int);
            }
            current / columns * columns
        },
        Motion::RowEnd => {
            proof {
                lemma_row_start(current as int, columns as int);
            }
            let start = current / columns * columns;
            let end = start.saturating_add(columns - 1);
            if end < last {
                end
            } else {
                last
            }
        },
        Motion::First => 0,
        Motion::Last => last,
        Motion::DisplayIndex(index) => if index < last {
            index
        } else {
            last
        },
        Motion::ViewportTop => if layout.first_index < last {
            layout.first_index
        } else {
            last
        },
        Motion::ViewportMiddle => {
            let anchor = (layout.first_index + layout.last_index.saturating_sub(1)) / 2;
            if anchor < last {
                anchor
            } else {
                last
            }
        },
        Motion::ViewportBottom => {
            let anchor = layout.last_index.saturating_sub(1);
            if anchor < last {
                anchor
            } else {
                last
            }
        },
        Motion::HalfPageDown | Motion::HalfPageUp => {
            let span = layout.last_index.saturating_sub(layout.first_index);
            let half = span / 2 + span % 2;
            assert(half == (span + 1) / 2);
            let half = if half > 1 {
                half
            } else {
                1
            };
            let distance = sat_mul_exec(half, count);
            match motion {
                Motion::HalfPageDown => {
                    let moved = current.saturating_add(distance);
                    if moved < last {
                        moved
                    } else {
                        last
                    }
                },
                _ => current.saturating_sub(distance),
            }
        },
    }
}

/// A motion never leaves the listing: with entries to move over, every
/// motion ends on one of them.
pub proof fn lemma_motion_stays_in_the_listing(
    current: int,
    motion: Motion,
    count: int,
    entry_count: int,
    layout: Layout,
)
    requires
        layout.columns > 0,
        0 <= current < entry_count,
        0 <= count,
        entry_count <= usize::MAX,
    ensures
        0 <= motion_target_spec(current, motion, count, entry_count, layout) < entry_count,
{
    let columns = layout.columns as int;
    vstd::arithmetic::div_mod::lemma_fundamental_div_mod(current, columns);
    vstd::arithmetic::div_mod::lemma_mod_pos_bound(current, columns);
    assert(0 <= current / columns * columns <= current) by (nonlinear_arith)
        requires
            current == columns * (current / columns) + current % columns,
            0 <= current % columns,
            columns > 0,
            current >= 0,
    ;
    assert(0 <= sat_mul(columns, count)) by (nonlinear_arith)
        requires
            columns > 0,
            count >= 0,
    ;
    let half = max((sat_sub(layout.last_index as int, layout.first_index as int) + 1) / 2, 1);
    assert(0 <= sat_mul(half, count)) by (nonlinear_arith)
        requires
            half >= 1,
            count >= 0,
    ;
}

/// Left and right stay in the row of the active entry.
pub proof fn lemma_horizontal_motions_stay_in_the_row(
    current: int,
    count: int,
    entry_count: int,
    layout: Layout,
)
    requires
        layout.columns > 0,
        0 <= current < entry_count,
        entry_count <= usize::MAX,
        0 <= count,
    ensures
        motion_target_spec(current, Motion::Left, count, entry_count, layout) / (
        layout.columns as int) == current / (layout.columns as int),
        motion_target_spec(current, Motion::Right, count, entry_count, layout) / (
        layout.columns as int) == current / (layout.columns as int),
{
    let columns = layout.columns as int;
    vstd::arithmetic::div_mod::lemma_fundamental_div_mod(current, columns);
    vstd::arithmetic::div_mod::lemma_mod_pos_bound(current, columns);
    let q = current / columns;
    let r = current % columns;
    assert(columns * q == q * columns) by (nonlinear_arith);
    let l = motion_target_spec(current, Motion::Left, count, entry_count, layout);
    let rt = motion_target_spec(current, Motion::Right, count, entry_count, layout);
    assert(l == columns * q + (r - min(count, r)));
    vstd::arithmetic::div_mod::lemma_fundamental_div_mod_converse(l, columns, q, r - min(count, r));
    let last = sat_sub(entry_count, 1);
    let moved = current + min(count, columns - 1 - r);
    if moved <= last {
        assert(rt == columns * q + (r + min(count, columns - 1 - r)));
        vstd::arithmetic::div_mod::lemma_fundamental_div_mod_converse(
            rt,
            columns,
            q,
            r + min(count, columns - 1 - r),
        );
    } else {
        assert(rt == last);
        assert(current <= last);
        assert(rt == columns * q + (r + (last - current)));
        assert(0 <= r + (last - current) < columns);
        vstd::arithmetic::div_mod::lemma_fundamental_div_mod_converse(
            rt,
            columns,
            q,
            r + (last - current),
        );
    }
}


// ------------------------------------------------------------------ selection

/// The layout arithmetic of the motions fits in `usize`.
pub open spec fn layout_ok(layout: Layout) -> bool {
    layout.columns > 0 && layout.first_index + sat_sub(layout.last_index as int, 1) <= usize::MAX
}

/// The indices from `a` to `b`, both included, in either order.
pub open spec fn span(a: int, b: int) -> Set<usize> {
    Set::new(|i: usize| min(a, b) <= i <= max(a, b))
}

/// The active entry, the selected entries, and the anchors of a visual
/// selection and of Shift-extension.
pub struct SelectionView {
    pub selected: Option<usize>,
    pub selection: Set<usize>,
    pub visual_anchor: Option<usize>,
    pub selection_anchor: Option<usize>,
    pub context_menu: Option<ContextMenu>,
}

pub open spec fn only(selected: Option<usize>) -> Set<usize> {
    match selected {
        Some(i) => set![i],
        None => Set::empty(),
    }
}

pub open spec fn below(selected: Option<usize>, entry_count: int) -> Option<usize> {
    match selected {
        Some(i) => if i < entry_count {
            Some(i)
        } else {
            None
        },
        None => None,
    }
}

pub open spec fn select_only_spec(s: SelectionView, selected: Option<usize>, entry_count: int) -> SelectionView {
    let kept = below(selected, entry_count);
    SelectionView {
        selected: kept,
        selection: only(kept),
        visual_anchor: None,
        selection_anchor: kept,
        ..s
    }
}

/// The selection that keyboard movement leaves: the visual range from its
/// anchor to the active entry, or just the active entry.
pub open spec fn keyboard_selection(s: SelectionView) -> Set<usize> {
    match s.selected {
        None => Set::empty(),
        Some(selected) => match s.visual_anchor {
            Some(anchor) => span(anchor as int, selected as int),
            None => set![selected],
        },
    }
}

pub open spec fn with_keyboard_selection(s: SelectionView) -> SelectionView {
    SelectionView { selection: keyboard_selection(s), ..s }
}

pub open spec fn click_spec(s: SelectionView, index: usize, control: bool, shift: bool, entry_count: int) -> SelectionView {
    if index >= entry_count {
        s
    } else if shift {
        let anchor = match s.selection_anchor {
            Some(a) => a,
            None => match s.selected {
                Some(a) => a,
                None => index,
            },
        };
        SelectionView {
            selection: span(anchor as int, index as int),
            selected: Some(index),
            visual_anchor: None,
            ..s
        }
    } else if control {
        SelectionView {
            selection: if s.selection.contains(index) {
                s.selection.remove(index)
            } else {
                s.selection.insert(index)
            },
            selected: Some(index),
            selection_anchor: Some(index),
            visual_anchor: None,
            ..s
        }
    } else {
        select_only_spec(s, Some(index), entry_count)
    }
}

/// With nothing active, a motion starts from the nearest end.
pub open spec fn initial_target(motion: Motion, last: int) -> int {
    match motion {
        Motion::Left | Motion::Up | Motion::RowEnd | Motion::Last | Motion::ViewportBottom
        | Motion::HalfPageUp => last,
        Motion::DisplayIndex(index) => min(index as int, last),
        _ => 0,
    }
}

pub open spec fn move_count_spec(
    s: SelectionView,
    motion: Motion,
    count: int,
    entry_count: int,
    layout: Layout,
) -> SelectionView {
    if entry_count == 0 {
        select_only_spec(s, None, entry_count)
    } else {
        let next = match s.selected {
            None => initial_target(motion, entry_count - 1),
            Some(current) => motion_target_spec(
                current as int,
                motion,
                max(count, 1),
                entry_count,
                layout,
            ),
        };
        with_keyboard_selection(SelectionView { selected: Some(next as usize), ..s })
    }
}

pub open spec fn move_standard_spec(
    s: SelectionView,
    motion: Motion,
    extend: bool,
    entry_count: int,
    layout: Layout,
) -> SelectionView {
    if entry_count == 0 {
        s
    } else {
        let current = min(
            match s.selected {
                Some(c) => c as int,
                None => 0,
            },
            entry_count - 1,
        );
        let next = motion_target_spec(current, motion, 1, entry_count, layout);
        let anchor = match s.selection_anchor {
            Some(a) => a as int,
            None => current,
        };
        if extend {
            SelectionView {
                selected: Some(next as usize),
                selection: span(anchor, next),
                visual_anchor: None,
                ..s
            }
        } else {
            SelectionView {
                selected: Some(next as usize),
                selection: set![next as usize],
                selection_anchor: Some(next as usize),
                visual_anchor: None,
                ..s
            }
        }
    }
}

pub open spec fn delete_target_spec(
    current: int,
    motion: DeleteMotion,
    count: int,
    entry_count: int,
    layout: Layout,
) -> int {
    match motion {
        DeleteMotion::Current => min(sat_add(current, sat_sub(count, 1)), entry_count - 1),
        DeleteMotion::Motion(m) => motion_target_spec(current, m, max(count, 1), entry_count, layout),
    }
}

/// What a context menu was opened on.
#[derive(Clone, Copy, Debug, PartialEq, Eq, Structural)]
pub enum ContextTarget {
    Background,
    Entry(usize),
}

/// An open context menu: its target and the focused item. Where it was
/// opened is kept with the pointer geometry.
#[derive(Clone, Copy, Debug, PartialEq, Eq, Structural)]
pub struct ContextMenu {
    pub target: ContextTarget,
    pub focused: usize,
}

#[derive(Clone, Copy, Debug, PartialEq, Eq, Structural)]
pub enum ContextNavigation {
    Previous { wrap: bool },
    Next { wrap: bool },
    First,
    Last,
    Activate,
    Close,
}

#[derive(Clone, Copy, Debug, PartialEq, Eq, Structural)]
pub enum ContextOutcome {
    Nothing,
    Activate(usize),
    Closed,
}

/// Keyboard and menu navigation in an open context menu.
pub open spec fn navigate_spec(menu: Option<ContextMenu>, nav: ContextNavigation, item_count: int) -> (
    Option<ContextMenu>,
    ContextOutcome,
) {
    match menu {
        None => (None, ContextOutcome::Nothing),
        Some(m) => if nav == ContextNavigation::Close {
            (None, ContextOutcome::Closed)
        } else if item_count == 0 {
            (menu, ContextOutcome::Nothing)
        } else {
            let last = item_count - 1;
            let f = m.focused as int;
            match nav {
                ContextNavigation::Previous { wrap } => (
                    Some(
                        ContextMenu {
                            focused: (if f > 0 {
                                f - 1
                            } else if wrap {
                                last
                            } else {
                                0
                            }) as usize,
                            ..m
                        },
                    ),
                    ContextOutcome::Nothing,
                ),
                ContextNavigation::Next { wrap } => (
                    Some(
                        ContextMenu {
                            focused: (if wrap {
                                (f + 1) % item_count
                            } else {
                                min(f + 1, last)
                            }) as usize,
                            ..m
                        },
                    ),
                    ContextOutcome::Nothing,
                ),
                ContextNavigation::First => (
                    Some(ContextMenu { focused: 0, ..m }),
                    ContextOutcome::Nothing,
                ),
                ContextNavigation::Last => (
                    Some(ContextMenu { focused: last as usize, ..m }),
                    ContextOutcome::Nothing,
                ),
                _ => (menu, ContextOutcome::Activate(min(f, last) as usize)),
            }
        },
    }
}

/// Keyboard navigation keeps the focus on one of the menu's items, an
/// activated item is always one of them, and only `Close` closes the menu.
pub proof fn lemma_context_focus_stays_on_an_item(
    menu: ContextMenu,
    nav: ContextNavigation,
    item_count: int,
)
    requires
        0 < item_count <= usize::MAX,
        menu.focused < item_count,
    ensures
        navigate_spec(Some(menu), nav, item_count).0 matches Some(m) ==> m.focused < item_count,
        navigate_spec(Some(menu), nav, item_count).1 matches ContextOutcome::Activate(i)
            ==> i < item_count,
        nav is Close <==> navigate_spec(Some(menu), nav, item_count).0 is None,
{
    if nav is Next {
        assert(0 <= (menu.focused + 1) % item_count < item_count);
    }
}

// ------------------------------------------------------------------ marquee

/// The rows and columns of the two corners of a marquee; a corner before
/// the first row or column counts as the first.
#[derive(Clone, Copy, Debug, PartialEq, Eq, Structural)]
pub struct CellRect {
    pub start_row: i32,
    pub start_column: i32,
    pub end_row: i32,
    pub end_column: i32,
}

pub open spec fn low_corner(a: int, b: int) -> int {
    let m = if a < b {
        a
    } else {
        b
    };
    if m < 0 {
        0
    } else {
        m
    }
}

pub open spec fn high_corner(a: int, b: int) -> int {
    let m = if a < b {
        b
    } else {
        a
    };
    if m < 0 {
        0
    } else {
        m
    }
}

/// The entry at index `i` lies in the marquee's cells (rows wrap after
/// `columns` entries).
pub open spec fn in_marquee(rect: CellRect, columns: int, entry_count: int, i: int) -> bool {
    &&& 0 <= i < entry_count
    &&& low_corner(rect.start_row as int, rect.end_row as int) <= i / columns <= high_corner(
        rect.start_row as int,
        rect.end_row as int,
    )
    &&& low_corner(rect.start_column as int, rect.end_column as int) <= i % columns
        <= high_corner(rect.start_column as int, rect.end_column as int)
}

/// The cell of the marquee's moving corner, clamped to the listing.
pub open spec fn marquee_target(rect: CellRect, columns: int, entry_count: int) -> int {
    let last_row = (entry_count - 1) / columns;
    let row = if rect.end_row < 0 {
        0
    } else if rect.end_row > last_row {
        last_row
    } else {
        rect.end_row as int
    };
    let column = if rect.end_column < 0 {
        0
    } else if rect.end_column > columns - 1 {
        columns - 1
    } else {
        rect.end_column as int
    };
    row * columns + column
}

pub open spec fn distance(a: int, b: int) -> int {
    if a >= b {
        a - b
    } else {
        b - a
    }
}

/// `m` is the member of `s` nearest to `target`, the smaller one on a tie.
pub open spec fn nearest_member(s: Set<usize>, target: int, m: usize) -> bool {
    &&& s.contains(m)
    &&& forall|x: usize|
        #[trigger] s.contains(x) ==> distance(m as int, target) < distance(x as int, target) || (
        distance(m as int, target) == distance(x as int, target) && m <= x)
}

proof fn lemma_cell(i: int, c: int)
    requires
        0 <= i,
        0 < c,
    ensures
        i == (i / c) * c + i % c,
        0 <= i % c < c,
        0 <= i / c,
{
    vstd::arithmetic::div_mod::lemma_fundamental_div_mod(i, c);
    vstd::arithmetic::div_mod::lemma_div_pos_is_pos(i, c);
    assert(c * (i / c) == (i / c) * c) by (nonlinear_arith);
}

proof fn lemma_cell_of(row: int, col: int, c: int)
    requires
        0 <= row,
        0 <= col < c,
    ensures
        (row * c + col) / c == row,
        (row * c + col) % c == col,
{
    vstd::arithmetic::div_mod::lemma_fundamental_div_mod_converse(row * c + col, c, row, col);
}

proof fn lemma_cell_before(i: int, c: int, row: int, col: int)
    requires
        0 <= i,
        0 < c,
        0 <= col,
        i / c < row || (i / c == row && i % c < col),
    ensures
        i < row * c + col,
{
    lemma_cell(i, c);
    let q = i / c;
    if q < row {
        assert(q * c + c <= row * c) by (nonlinear_arith)
            requires
                q < row,
                c > 0,
        ;
    }
}

fn clamp_corner(v: i32) -> (r: usize)
    ensures
        r == (if v < 0 {
            0
        } else {
            v as int
        }),
{
    if v < 0 {
        0
    } else {
        v as usize
    }
}

/// The indices of the entries in the marquee's cells, in order. The
/// pointer geometry then keeps those whose tiles the marquee touches.
pub fn marquee_cells(rect: CellRect, columns: usize, entry_count: usize) -> (r: Vec<usize>)
    requires
        columns >= 1,
    ensures
        forall|i: usize| r@.contains(i) <==> in_marquee(rect, columns as int, entry_count as int, i as int),
        forall|a: int, b: int| 0 <= a < b < r@.len() ==> r@[a] < r@[b],
{
    let mut r: Vec<usize> = Vec::new();
    if entry_count == 0 {
        return r;
    }
    let last_row = (entry_count - 1) / columns;
    let lo_row = clamp_corner(if rect.start_row < rect.end_row {
        rect.start_row
    } else {
        rect.end_row
    });
    let hi_row = clamp_corner(if rect.start_row < rect.end_row {
        rect.end_row
    } else {
        rect.start_row
    });
    let lo_col = clamp_corner(if rect.start_column < rect.end_column {
        rect.start_column
    } else {
        rect.end_column
    });
    let hi_col = clamp_corner(if rect.start_column < rect.end_column {
        rect.end_column
    } else {
        rect.start_column
    });
    let final_row = if hi_row < last_row {
        hi_row
    } else {
        last_row
    };
    let final_col = if hi_col < columns - 1 {
        hi_col
    } else {
        columns - 1
    };
    let ghost c = columns as int;
    let ghost n = entry_count as int;
    proof {
        assert forall|i: usize| in_marquee(rect, c, n, i as int) implies lo_row <= (i as int) / c
            <= final_row && lo_col <= (i as int) % c <= final_col by {
            lemma_cell(i as int, c);
            vstd::arithmetic::div_mod::lemma_div_is_ordered(i as int, n - 1, c);
        }
    }
    if lo_row > final_row || lo_col > final_col {
        return r;
    }
    let mut row: usize = lo_row;
    while row <= final_row
        invariant
            c == columns as int,
            n == entry_count as int,
            columns >= 1,
            entry_count >= 1,
            last_row as int == (n - 1) / c,
            final_row <= last_row,
            final_col < columns,
            lo_col <= final_col,
            lo_row <= row <= final_row + 1,
            lo_row as int == low_corner(rect.start_row as int, rect.end_row as int),
            lo_col as int == low_corner(rect.start_column as int, rect.end_column as int),
            final_row as int <= high_corner(rect.start_row as int, rect.end_row as int),
            final_col as int <= high_corner(rect.start_column as int, rect.end_column as int),
            forall|i: usize| in_marquee(rect, c, n, i as int) ==> lo_row <= (i as int) / c
                <= final_row && lo_col <= (i as int) % c <= final_col,
            forall|i: usize|
                r@.contains(i) <==> (in_marquee(rect, c, n, i as int) && (i as int) / c < row),
            forall|a: int, b: int| 0 <= a < b < r@.len() ==> r@[a] < r@[b],
            forall|a: int| 0 <= a < r@.len() ==> (r@[a] as int) < row * c,
        decreases final_row + 1 - row,
    {
        proof {
            assert(row * c <= last_row * c) by (nonlinear_arith)
                requires
                    row <= last_row,
                    c > 0,
            ;
            lemma_cell(n - 1, c);
        }
        let base = row * columns;
        let mut col: usize = lo_col;
        while col <= final_col
            invariant
                c == columns as int,
                n == entry_count as int,
                columns >= 1,
                base == row * c,
                base <= n - 1,
                row <= final_row,
                final_col < columns,
                lo_col <= col <= final_col + 1,
                lo_row <= row,
                lo_row as int == low_corner(rect.start_row as int, rect.end_row as int),
                lo_col as int == low_corner(rect.start_column as int, rect.end_column as int),
                final_row as int <= high_corner(rect.start_row as int, rect.end_row as int),
                final_col as int <= high_corner(rect.start_column as int, rect.end_column as int),
                forall|i: usize| in_marquee(rect, c, n, i as int) ==> lo_row <= (i as int) / c
                    <= final_row && lo_col <= (i as int) % c <= final_col,
                forall|i: usize|
                    r@.contains(i) <==> (in_marquee(rect, c, n, i as int) && ((i as int) / c < row || (
                    (i as int) / c == row && (i as int) % c < col))),
                forall|a: int, b: int| 0 <= a < b < r@.len() ==> r@[a] < r@[b],
                forall|a: int| 0 <= a < r@.len() ==> (r@[a] as int) < row * c + col,
            decreases final_col + 1 - col,
        {
            proof {
                lemma_cell_of(row as int, col as int, c);
            }
            if col < entry_count - base {
                let index = base + col;
                let ghost before = r@;
                r.push(index);
                proof {
                    assert forall|i: usize| r@.contains(i) <==> (in_marquee(rect, c, n, i as int) && (
                    (i as int) / c < row || ((i as int) / c == row && (i as int) % c < col + 1))) by {
                        if i == index {
                            assert(r@[r@.len() - 1] == index);
                        } else {
                            if r@.contains(i) {
                                let k = choose|k: int| 0 <= k < r@.len() && r@[k] == i;
                                assert(before[k] == i);
                            }
                            if before.contains(i) {
                                let k = choose|k: int| 0 <= k < before.len() && before[k] == i;
                                assert(r@[k] == i);
                            }
                            if in_marquee(rect, c, n, i as int) && (i as int) / c == row && (i as int) % c == col {
                                lemma_cell(i as int, c);
                            }
                        }
                    }
                }
            } else {
                proof {
                    assert forall|i: usize| in_marquee(rect, c, n, i as int) implies !((i as int) / c == row
                        && (i as int) % c == col) by {
                        lemma_cell(i as int, c);
                    }
                }
            }
            col = col + 1;
        }
        proof {
            assert forall|a: int| 0 <= a < r@.len() implies (r@[a] as int) < (row + 1) * c by {
                assert(row * c + col <= (row + 1) * c) by (nonlinear_arith)
                    requires
                        col <= c,
                ;
            }
            assert forall|i: usize| r@.contains(i) <==> (in_marquee(rect, c, n, i as int) && (i as int)
                / c < row + 1) by {
                if in_marquee(rect, c, n, i as int) {
                    lemma_cell(i as int, c);
                }
            }
        }
        row = row + 1;
    }
    r
}

/// The index-level state of the entry grid: the active entry, the
/// selection with its anchors, and an open context menu. Pointer and scroll
/// geometry stay with the caller, which hands in a `Layout`.
pub struct GridInteraction {
    selected: Option<usize>,
    selection: BTreeSet<usize>,
    visual_anchor: Option<usize>,
    selection_anchor: Option<usize>,
    context_menu: Option<ContextMenu>,
}

impl View for GridInteraction {
    type V = SelectionView;

    closed spec fn view(&self) -> SelectionView {
        SelectionView {
            selected: self.selected,
            selection: self.selection@,
            visual_anchor: self.visual_anchor,
            selection_anchor: self.selection_anchor,
            context_menu: self.context_menu,
        }
    }
}

fn span_set(a: usize, b: usize) -> (r: BTreeSet<usize>)
    ensures
        r@ == span(a as int, b as int),
{
    let lo = if a < b {
        a
    } else {
        b
    };
    let hi = if a < b {
        b
    } else {
        a
    };
    let mut r: BTreeSet<usize> = BTreeSet::new();
    let mut i: usize = lo;
    while i < hi
        invariant
            lo <= i <= hi,
            r@ == Set::new(|x: usize| lo <= x < i),
        decreases hi - i,
    {
        r.insert(i);
        assert(r@ =~= Set::new(|x: usize| lo <= x < i + 1));
        i = i + 1;
    }
    r.insert(hi);
    assert(r@ =~= span(a as int, b as int));
    r
}

fn single(i: Option<usize>) -> (r: BTreeSet<usize>)
    ensures
        r@ == only(i),
{
    let mut r: BTreeSet<usize> = BTreeSet::new();
    if let Some(i) = i {
        r.insert(i);
        assert(r@ =~= set![i]);
    } else {
        assert(r@ =~= Set::<usize>::empty());
    }
    r
}

impl GridInteraction {
    pub fn context_menu(&self) -> (r: Option<ContextMenu>)
        ensures
            r == self@.context_menu,
    {
        self.context_menu
    }

    /// A context menu on an entry: a selection that holds the entry is
    /// kept (the entry becomes active); otherwise only the entry is
    /// selected. There is no menu for a missing entry.
    pub fn open_entry_context(&mut self, index: usize, entry_count: usize) -> (r: bool)
        ensures
            r == (index < entry_count),
            !r ==> final(self)@ == old(self)@,
            r ==> final(self)@ == (if old(self)@.selection.contains(index) {
                SelectionView {
                    selected: Some(index),
                    context_menu: Some(ContextMenu { target: ContextTarget::Entry(index), focused: 0 }),
                    ..old(self)@
                }
            } else {
                SelectionView {
                    context_menu: Some(ContextMenu { target: ContextTarget::Entry(index), focused: 0 }),
                    ..select_only_spec(old(self)@, Some(index), entry_count as int)
                }
            }),
    {
        if index >= entry_count {
            return false;
        }
        if self.selection.contains(&index) {
            self.selected = Some(index);
        } else {
            self.select_only(Some(index), entry_count);
        }
        self.context_menu = Some(ContextMenu { target: ContextTarget::Entry(index), focused: 0 });
        true
    }

    /// A context menu on empty space, where the caller found a selection
    /// may start (`allowed`): the selection is dropped.
    pub fn open_background_context(&mut self, allowed: bool, entry_count: usize) -> (r: bool)
        ensures
            r == allowed,
            !r ==> final(self)@ == old(self)@,
            r ==> final(self)@ == (SelectionView {
                context_menu: Some(ContextMenu { target: ContextTarget::Background, focused: 0 }),
                ..select_only_spec(old(self)@, None, entry_count as int)
            }),
    {
        if !allowed {
            return false;
        }
        self.select_only(None, entry_count);
        self.context_menu = Some(ContextMenu { target: ContextTarget::Background, focused: 0 });
        true
    }

    pub fn close_context(&mut self)
        ensures
            final(self)@ == (SelectionView { context_menu: None, ..old(self)@ }),
    {
        self.context_menu = None;
    }

    /// The pointer over a menu item focuses it.
    pub fn focus_context(&mut self, index: usize, item_count: usize)
        ensures
            final(self)@ == (if index < item_count && old(self)@.context_menu is Some {
                SelectionView {
                    context_menu: Some(ContextMenu { focused: index, ..old(self)@.context_menu->0 }),
                    ..old(self)@
                }
            } else {
                old(self)@
            }),
    {
        if index >= item_count {
            return;
        }
        if let Some(menu) = self.context_menu {
            self.context_menu = Some(ContextMenu { focused: index, ..menu });
        }
    }

    /// Closes the menu and gives the entry it was opened on.
    pub fn take_context_entry(&mut self) -> (r: Option<usize>)
        ensures
            r == (match old(self)@.context_menu {
                Some(ContextMenu { target: ContextTarget::Entry(i), .. }) => Some(i),
                _ => None,
            }),
            final(self)@ == (SelectionView { context_menu: None, ..old(self)@ }),
    {
        let menu = self.context_menu;
        self.context_menu = None;
        match menu {
            Some(ContextMenu { target: ContextTarget::Entry(i), .. }) => Some(i),
            _ => None,
        }
    }

    /// Moves through the menu, activates its focused item, or closes it.
    pub fn navigate_context(&mut self, navigation: ContextNavigation, item_count: usize) -> (r:
        ContextOutcome)
        ensures
            (final(self)@.context_menu, r) == navigate_spec(
                old(self)@.context_menu,
                navigation,
                item_count as int,
            ),
            final(self)@ == (SelectionView { context_menu: final(self)@.context_menu, ..old(self)@ }),
    {
        let menu = match self.context_menu {
            Some(m) => m,
            None => {
                return ContextOutcome::Nothing;
            },
        };
        if navigation == ContextNavigation::Close {
            self.context_menu = None;
            return ContextOutcome::Closed;
        }
        if item_count == 0 {
            return ContextOutcome::Nothing;
        }
        let last = item_count - 1;
        let focused = match navigation {
            ContextNavigation::Previous { wrap } => if menu.focused > 0 {
                menu.focused - 1
            } else if wrap {
                last
            } else {
                0
            },
            ContextNavigation::Next { wrap } => if wrap {
                let r = menu.focused % item_count;
                proof {
                    vstd::arithmetic::div_mod::lemma_add_mod_noop_right(
                        1,
                        menu.focused as int,
                        item_count as int,
                    );
                }
                (r + 1) % item_count
            } else if last > 0 && menu.focused < last - 1 {
                menu.focused + 1
            } else {
                last
            },
            ContextNavigation::First => 0,
            ContextNavigation::Last => last,
            _ => {
                let f = if menu.focused < last {
                    menu.focused
                } else {
                    last
                };
                return ContextOutcome::Activate(f);
            },
        };
        self.context_menu = Some(ContextMenu { focused, ..menu });
        ContextOutcome::Nothing
    }

    pub fn new() -> (r: Self)
        ensures
            r@ == (SelectionView {
                selected: None,
                selection: Set::empty(),
                visual_anchor: None,
                selection_anchor: None,
                context_menu: None,
            }),
    {
        GridInteraction {
            selected: None,
            selection: BTreeSet::new(),
            visual_anchor: None,
            selection_anchor: None,
            context_menu: None,
        }
    }

    pub fn selected_entry(&self) -> (r: Option<usize>)
        ensures
            r == self@.selected,
    {
        self.selected
    }

    pub fn selected_indices(&self) -> (r: &BTreeSet<usize>)
        ensures
            r@ == self@.selection,
    {
        &self.selection
    }

    pub fn selection_count(&self) -> (r: usize)
        ensures
            r == self@.selection.len(),
    {
            self.selection.len()
    }

    pub fn is_selected(&self, index: usize) -> (r: bool)
        ensures
            r == self@.selection.contains(index),
    {
            self.selection.contains(&index)
    }

    pub fn visual_active(&self) -> (r: bool)
        ensures
            r == self@.visual_anchor is Some,
    {
        self.visual_anchor.is_some()
    }

    /// Selects one entry (or none), dropping anchors.
    pub fn select_only(&mut self, selected: Option<usize>, entry_count: usize)
        ensures
            final(self)@ == select_only_spec(old(self)@, selected, entry_count as int),
    {
        let kept = match selected {
            Some(i) => if i < entry_count {
                Some(i)
            } else {
                None
            },
            None => None,
        };
        self.selected = kept;
        self.selection = single(kept);
        self.visual_anchor = None;
        self.selection_anchor = kept;
    }

    /// Selects the given indices that exist; the first becomes active.
    pub fn select_indices(&mut self, indices: &[usize], entry_count: usize)
        ensures
            final(self)@.selection == indices@.to_set().filter(|i: usize| i < entry_count),
            final(self)@.selected matches Some(m) ==> final(self)@.selection.contains(m) && (
            forall|x: usize| final(self)@.selection.contains(x) ==> m <= x),
            final(self)@.selected is None ==> final(self)@.selection.is_empty(),
            final(self)@.visual_anchor is None,
            final(self)@.selection_anchor == final(self)@.selected,
            final(self)@.context_menu == old(self)@.context_menu,
    {
            let mut set: BTreeSet<usize> = BTreeSet::new();
        let mut least: Option<usize> = None;
        let mut k: usize = 0;
        while k < indices.len()
            invariant
                k <= indices@.len(),
                set@ == indices@.take(k as int).to_set().filter(|i: usize| i < entry_count),
                least matches Some(m) ==> set@.contains(m) && (forall|x: usize|
                    set@.contains(x) ==> m <= x),
                least is None ==> set@.is_empty(),
            decreases indices@.len() - k,
        {
            let i = indices[k];
            proof {
                assert(indices@.take(k + 1) =~= indices@.take(k as int).push(i));
                indices@.take(k as int).lemma_push_to_set_commute(i);
            }
            if i < entry_count {
                set.insert(i);
                least = match least {
                    Some(m) => if i < m {
                        Some(i)
                    } else {
                        Some(m)
                    },
                    None => Some(i),
                };
                assert(set@ =~= indices@.take(k + 1).to_set().filter(|j: usize| j < entry_count));
            } else {
                assert(set@ =~= indices@.take(k + 1).to_set().filter(|j: usize| j < entry_count));
            }
            k = k + 1;
        }
        assert(indices@.take(k as int) =~= indices@);
        self.selection = set;
        self.selected = least;
        self.visual_anchor = None;
        self.selection_anchor = least;
    }

    /// A click: Shift selects the range from the anchor, Control toggles the
    /// entry, and a plain click selects only it.
    pub fn select_click(&mut self, index: usize, control: bool, shift: bool, entry_count: usize)
        ensures
            final(self)@ == click_spec(old(self)@, index, control, shift, entry_count as int),
    {
            if index >= entry_count {
            return;
        }
        if shift {
            let anchor = match self.selection_anchor {
                Some(a) => a,
                None => match self.selected {
                    Some(a) => a,
                    None => index,
                },
            };
            self.selection = span_set(anchor, index);
            self.selected = Some(index);
        } else if control {
            let ghost before = self.selection@;
            if !self.selection.remove(&index) {
                self.selection.insert(index);
                assert(self.selection@ =~= before.insert(index));
            } else {
                assert(self.selection@ =~= before.remove(index));
            }
            self.selected = Some(index);
            self.selection_anchor = Some(index);
        } else {
            self.select_only(Some(index), entry_count);
        }
        self.visual_anchor = None;
    }

    /// Selects every entry; the first becomes active.
    pub fn select_all(&mut self, entry_count: usize)
        ensures
            final(self)@.selection == Set::new(|i: usize| i < entry_count),
            final(self)@.selected == (if entry_count > 0 {
                Some(0usize)
            } else {
                None
            }),
            final(self)@.selection_anchor == final(self)@.selected,
            final(self)@.visual_anchor is None,
            final(self)@.context_menu == old(self)@.context_menu,
    {
            let mut set: BTreeSet<usize> = BTreeSet::new();
        let mut i: usize = 0;
        while i < entry_count
            invariant
                i <= entry_count,
                set@ == Set::new(|x: usize| x < i),
            decreases entry_count - i,
        {
            set.insert(i);
            assert(set@ =~= Set::new(|x: usize| x < i + 1));
            i = i + 1;
        }
        self.selection = set;
        self.selected = if entry_count > 0 {
            Some(0)
        } else {
            None
        };
        self.selection_anchor = self.selected;
        self.visual_anchor = None;
    }

    /// Space: toggles the active entry in the selection.
    pub fn toggle_active(&mut self, entry_count: usize)
        ensures
            match below(old(self)@.selected, entry_count as int) {
                None => final(self)@ == old(self)@,
                Some(a) => final(self)@ == (SelectionView {
                    selection: if old(self)@.selection.contains(a) {
                        old(self)@.selection.remove(a)
                    } else {
                        old(self)@.selection.insert(a)
                    },
                    selection_anchor: match old(self)@.selection_anchor {
                        Some(x) => Some(x),
                        None => Some(a),
                    },
                    ..old(self)@
                }),
            },
    {
            let active = match self.selected {
            Some(i) => if i < entry_count {
                i
            } else {
                return;
            },
            None => {
                return;
            },
        };
        let ghost before = self.selection@;
        if !self.selection.remove(&active) {
            self.selection.insert(active);
            assert(self.selection@ =~= before.insert(active));
        } else {
            assert(self.selection@ =~= before.remove(active));
        }
        if self.selection_anchor.is_none() {
            self.selection_anchor = Some(active);
        }
    }

    fn update_keyboard_selection(&mut self)
        ensures
            final(self)@ == with_keyboard_selection(old(self)@),
    {
        match self.selected {
            None => {
                self.selection = single(None);
            },
            Some(selected) => match self.visual_anchor {
                Some(anchor) => {
                    self.selection = span_set(anchor, selected);
                },
                None => {
                    self.selection = single(Some(selected));
                },
            },
        }
    }

    /// Arrow keys: move the active entry; with Shift, extend the selection
    /// from the anchor.
    pub fn move_standard(&mut self, motion: Motion, extend: bool, entry_count: usize, layout: Layout) -> (r: Option<usize>)
        requires
            layout_ok(layout),
        ensures
            final(self)@ == move_standard_spec(old(self)@, motion, extend, entry_count as int, layout),
            entry_count > 0 ==> r == final(self)@.selected,
            entry_count == 0 ==> r is None && final(self)@ == old(self)@,
    {
        if entry_count == 0 {
            return None;
        }
        let c = match self.selected {
            Some(c) => c,
            None => 0,
        };
        let current = if c < entry_count - 1 {
            c
        } else {
            entry_count - 1
        };
        let next = motion_target(current, motion, 1, entry_count, layout);
        let anchor = match self.selection_anchor {
            Some(a) => a,
            None => current,
        };
        self.selected = Some(next);
        if extend {
            self.selection = span_set(anchor, next);
        } else {
            self.selection = single(Some(next));
            self.selection_anchor = Some(next);
        }
        self.visual_anchor = None;
        Some(next)
    }

    /// Vim motions with a count: from the active entry, or from the
    /// nearest end when nothing is active.
    pub fn move_selection_count(&mut self, motion: Motion, count: usize, entry_count: usize, layout: Layout) -> (r: Option<usize>)
        requires
            layout_ok(layout),
        ensures
            final(self)@ == move_count_spec(old(self)@, motion, count as int, entry_count as int, layout),
            r == final(self)@.selected,
    {
        if entry_count == 0 {
            self.select_only(None, entry_count);
            return None;
        }
        let last = entry_count - 1;
        let next = match self.selected {
            None => match motion {
                Motion::Left | Motion::Up | Motion::RowEnd | Motion::Last | Motion::ViewportBottom
                | Motion::HalfPageUp => last,
                Motion::DisplayIndex(index) => if index < last {
                    index
                } else {
                    last
                },
                _ => 0,
            },
            Some(current) => {
                let c = if count > 1 {
                    count
                } else {
                    1
                };
                motion_target(current, motion, c, entry_count, layout)
            },
        };
        self.selected = Some(next);
        self.update_keyboard_selection();
        self.selected
    }

    /// `v`: starts a visual selection at the active entry, or ends one.
    pub fn toggle_visual_selection(&mut self, entry_count: usize)
        ensures
            old(self)@.visual_anchor is Some ==> final(self)@ == (SelectionView {
                visual_anchor: None,
                ..old(self)@
            }),
            old(self)@.visual_anchor is None && entry_count == 0 ==> final(self)@ == select_only_spec(
                old(self)@,
                None,
                0,
            ),
            old(self)@.visual_anchor is None && entry_count > 0 ==> {
                let selected = min(
                    match old(self)@.selected {
                        Some(c) => c as int,
                        None => 0,
                    },
                    entry_count - 1,
                ) as usize;
                final(self)@ == with_keyboard_selection(
                    SelectionView {
                        selected: Some(selected),
                        visual_anchor: Some(selected),
                        ..old(self)@
                    },
                )
            },
    {
        if self.visual_anchor.is_some() {
            self.visual_anchor = None;
            return;
        }
        if entry_count == 0 {
            self.select_only(None, entry_count);
            return;
        }
        let c = match self.selected {
            Some(c) => c,
            None => 0,
        };
        let selected = if c < entry_count - 1 {
            c
        } else {
            entry_count - 1
        };
        self.selected = Some(selected);
        self.visual_anchor = Some(selected);
        self.update_keyboard_selection();
    }

    pub fn cancel_visual_selection(&mut self, entry_count: usize)
        ensures
            final(self)@ == select_only_spec(old(self)@, old(self)@.selected, entry_count as int),
    {
        let selected = self.selected;
        self.select_only(selected, entry_count);
    }

    /// The range a delete operator covers: from the active entry to where
    /// its motion lands. Nothing happens without an active entry.
    pub fn select_delete_motion_count(&mut self, motion: DeleteMotion, count: usize, entry_count: usize, layout: Layout) -> (r: bool)
        requires
            layout_ok(layout),
        ensures
            r == (below(old(self)@.selected, entry_count as int) is Some),
            !r ==> final(self)@ == old(self)@,
            r ==> final(self)@ == (SelectionView {
                selection: span(
                    old(self)@.selected->0 as int,
                    delete_target_spec(
                        old(self)@.selected->0 as int,
                        motion,
                        count as int,
                        entry_count as int,
                        layout,
                    ),
                ),
                visual_anchor: None,
                ..old(self)@
            }),
    {
        let current = match self.selected {
            Some(i) => if i < entry_count {
                i
            } else {
                return false;
            },
            None => {
                return false;
            },
        };
        let last = entry_count - 1;
        let target = match motion {
            DeleteMotion::Current => {
                let t = current.saturating_add(count.saturating_sub(1));
                if t < last {
                    t
                } else {
                    last
                }
            },
            DeleteMotion::Motion(m) => {
                let c = if count > 1 {
                    count
                } else {
                    1
                };
                motion_target(current, m, c, entry_count, layout)
            },
        };
        self.selection = span_set(current, target);
        self.visual_anchor = None;
        true
    }

    /// The indices of the entries an operation applies to, ascending: the
    /// selection when it holds several entries, else the active entry; only
    /// indices below `len` count.
    pub fn item_indices(&self, len: usize) -> (r: Vec<usize>)
        ensures
            self@.selection.len() > 1 ==> r@.to_set() == self@.selection.filter(|i: usize| i < len)
                && (forall|a: int, b: int| 0 <= a < b < r@.len() ==> r@[a] < r@[b]),
            self@.selection.len() <= 1 ==> r@ == (match below(self@.selected, len as int) {
                Some(i) => seq![i],
                None => Seq::empty(),
            }),
    {
            if self.selection.len() > 1 {
            let mut r: Vec<usize> = Vec::new();
            let mut i: usize = 0;
            while i < len
                invariant
                    i <= len,
                    r@.to_set() == self@.selection.filter(|x: usize| x < i),
                    forall|a: int, b: int| 0 <= a < b < r@.len() ==> r@[a] < r@[b],
                    forall|a: int| 0 <= a < r@.len() ==> r@[a] < i,
                decreases len - i,
            {
                if self.selection.contains(&i) {
                    proof {
                        r@.lemma_push_to_set_commute(i);
                    }
                    r.push(i);
                    assert(r@.to_set() =~= self@.selection.filter(|x: usize| x < i + 1));
                } else {
                    assert(r@.to_set() =~= self@.selection.filter(|x: usize| x < i + 1));
                }
                i = i + 1;
            }
            r
        } else {
            match self.selected {
                Some(i) => if i < len {
                    let r = vec![i];
                    assert(r@ =~= seq![i]);
                    r
                } else {
                    Vec::new()
                },
                None => Vec::new(),
            }
        }
    }
}

impl GridInteraction {
    /// The marquee's selection: the entries of its cells that `touched`
    /// names (the tiles its rectangle touches, which the pointer geometry
    /// finds among `marquee_cells`). The one nearest the moving corner
    /// becomes active, the smaller on a tie; the visual selection ends.
    pub fn select_rectangle(&mut self, rect: CellRect, columns: usize, entry_count: usize, touched: &[usize])
        requires
            columns >= 1,
        ensures
            final(self)@.selection == Set::new(
                |i: usize| in_marquee(rect, columns as int, entry_count as int, i as int) && touched@.contains(i),
            ),
            final(self)@.selected matches Some(m) ==> nearest_member(
                final(self)@.selection,
                marquee_target(rect, columns as int, entry_count as int),
                m,
            ),
            final(self)@.selected is None ==> final(self)@.selection.is_empty(),
            final(self)@.visual_anchor is None,
            final(self)@.selection_anchor == old(self)@.selection_anchor,
            final(self)@.context_menu == old(self)@.context_menu,
    {
        let ghost c = columns as int;
        let ghost n = entry_count as int;
        let lo_row = clamp_corner(if rect.start_row < rect.end_row {
            rect.start_row
        } else {
            rect.end_row
        });
        let hi_row = clamp_corner(if rect.start_row < rect.end_row {
            rect.end_row
        } else {
            rect.start_row
        });
        let lo_col = clamp_corner(if rect.start_column < rect.end_column {
            rect.start_column
        } else {
            rect.end_column
        });
        let hi_col = clamp_corner(if rect.start_column < rect.end_column {
            rect.end_column
        } else {
            rect.start_column
        });
        let target: u128 = if entry_count == 0 {
            0
        } else {
            let last_row = (entry_count - 1) / columns;
            let row = clamp_corner(rect.end_row);
            let row = if row > last_row {
                last_row
            } else {
                row
            };
            let column = clamp_corner(rect.end_column);
            let column = if column > columns - 1 {
                columns - 1
            } else {
                column
            };
            proof {
                assert(row * c <= last_row * c) by (nonlinear_arith)
                    requires
                        row <= last_row,
                        c > 0,
                ;
                lemma_cell(n - 1, c);
            }
            (row * columns) as u128 + column as u128
        };
        assert(entry_count > 0 ==> target == marquee_target(rect, c, n));
        let mut set: BTreeSet<usize> = BTreeSet::new();
        let mut best: Option<usize> = None;
        let mut best_distance: u128 = 0;
        let mut k: usize = 0;
        while k < touched.len()
            invariant
                c == columns as int,
                n == entry_count as int,
                columns >= 1,
                k <= touched@.len(),
                lo_row as int == low_corner(rect.start_row as int, rect.end_row as int),
                hi_row as int == high_corner(rect.start_row as int, rect.end_row as int),
                lo_col as int == low_corner(rect.start_column as int, rect.end_column as int),
                hi_col as int == high_corner(rect.start_column as int, rect.end_column as int),
                entry_count > 0 ==> target == marquee_target(rect, c, n),
                set@ == Set::new(
                    |i: usize| in_marquee(rect, c, n, i as int) && touched@.take(k as int).contains(i),
                ),
                best matches Some(m) ==> nearest_member(set@, target as int, m) && best_distance
                    == distance(m as int, target as int),
                best is None ==> set@.is_empty(),
            decreases touched@.len() - k,
        {
            let i = touched[k];
            proof {
                assert(touched@.take(k + 1) =~= touched@.take(k as int).push(i));
            }
            let inside = i < entry_count && lo_row <= i / columns && i / columns <= hi_row && lo_col
                <= i % columns && i % columns <= hi_col;
            if inside {
                let ghost before = set@;
                proof {
                    assert forall|x: usize| #[trigger] touched@.take(k + 1).contains(x) <==> (touched@.take(
                        k as int,
                    ).contains(x) || x == i) by {
                        if touched@.take(k + 1).contains(x) {
                            let j = choose|j: int| 0 <= j < k + 1 && #[trigger] touched@.take(k + 1)[j] == x;
                            if j < k {
                                assert(touched@.take(k as int)[j] == x);
                            }
                        }
                        if touched@.take(k as int).contains(x) {
                            let j = choose|j: int| 0 <= j < k && #[trigger] touched@.take(k as int)[j] == x;
                            assert(touched@.take(k + 1)[j] == x);
                        }
                        if x == i {
                            assert(touched@.take(k + 1)[k as int] == i);
                        }
                    }
                }
                set.insert(i);
                let d: u128 = if i as u128 >= target {
                    i as u128 - target
                } else {
                    target - i as u128
                };
                let replace = match best {
                    None => true,
                    Some(m) => d < best_distance || (d == best_distance && i < m),
                };
                if replace {
                    best = Some(i);
                    best_distance = d;
                }
                proof {
                    assert(set@ =~= Set::new(
                        |x: usize| in_marquee(rect, c, n, x as int) && touched@.take(k + 1).contains(x),
                    ));
                    assert(set@ == before.insert(i));
                }
            } else {
                proof {
                    assert forall|x: usize| #[trigger] touched@.take(k + 1).contains(x) <==> (touched@.take(
                        k as int,
                    ).contains(x) || x == i) by {
                        if touched@.take(k + 1).contains(x) {
                            let j = choose|j: int| 0 <= j < k + 1 && #[trigger] touched@.take(k + 1)[j] == x;
                            if j < k {
                                assert(touched@.take(k as int)[j] == x);
                            }
                        }
                        if touched@.take(k as int).contains(x) {
                            let j = choose|j: int| 0 <= j < k && #[trigger] touched@.take(k as int)[j] == x;
                            assert(touched@.take(k + 1)[j] == x);
                        }
                        if x == i {
                            assert(touched@.take(k + 1)[k as int] == i);
                        }
                    }
                }
                assert(set@ =~= Set::new(
                    |x: usize| in_marquee(rect, c, n, x as int) && touched@.take(k + 1).contains(x),
                ));
            }
            k = k + 1;
        }
        assert(touched@.take(k as int) =~= touched@);
        proof {
            if entry_count == 0 {
                assert(set@ =~= Set::<usize>::empty());
            }
        }
        self.selection = set;
        self.selected = best;
        self.visual_anchor = None;
    }

    /// The items an operation applies to (see `item_indices`), cloned.
    pub fn selected_items<T: Clone>(&self, items: &[T]) -> (r: Vec<T>)
        ensures
            exists|idx: Seq<usize>|
                #![trigger idx.len()]
                {
                    &&& idx.len() == r@.len()
                    &&& (self@.selection.len() > 1 ==> idx.to_set() == self@.selection.filter(
                        |i: usize| i < items@.len(),
                    ) && (forall|a: int, b: int| 0 <= a < b < idx.len() ==> idx[a] < idx[b]))
                    &&& (self@.selection.len() <= 1 ==> idx == (match below(
                        self@.selected,
                        items@.len() as int,
                    ) {
                        Some(i) => seq![i],
                        None => Seq::empty(),
                    }))
                    &&& forall|k: int|
                        0 <= k < r@.len() ==> idx[k] < items@.len() && cloned::<T>(
                            items@[idx[k] as int],
                            #[trigger] r@[k],
                        )
                },
    {
        let idx = self.item_indices(items.len());
        let mut r: Vec<T> = Vec::new();
        let mut k: usize = 0;
        proof {
            if self@.selection.len() > 1 {
                assert forall|a: int| 0 <= a < idx@.len() implies idx@[a] < items@.len() by {
                    assert(idx@.to_set().contains(idx@[a]));
                }
            }
        }
        while k < idx.len()
            invariant
                k <= idx@.len(),
                r@.len() == k,
                forall|a: int| 0 <= a < idx@.len() ==> idx@[a] < items@.len(),
                forall|a: int| 0 <= a < k ==> cloned::<T>(items@[idx@[a] as int], #[trigger] r@[a]),
            decreases idx@.len() - k,
        {
            let item = items[idx[k]].clone();
            r.push(item);
            k = k + 1;
        }
        assert(idx@.len() == r@.len());
        r
    }
}

impl Default for GridInteraction {
    fn default() -> (r: Self)
        ensures
            r@ == (SelectionView {
                selected: None,
                selection: Set::empty(),
                visual_anchor: None,
                selection_anchor: None,
                context_menu: None,
            }),
    {
        GridInteraction::new()
    }
}

/// A Control-click on an entry of the listing toggles just that entry: it
/// leaves the selection if it was in it and joins it otherwise, every other
/// entry keeps its membership, and the clicked entry becomes the active one
/// and the anchor of later Shift-clicks. So two Control-clicks on the same
/// entry give back the selection they started from.
pub proof fn lemma_control_click_toggles(s: SelectionView, index: usize, entry_count: int)
    requires
        index < entry_count,
    ensures
        click_spec(s, index, true, false, entry_count).selection.contains(index)
            == !s.selection.contains(index),
        forall|x: usize|
            x != index ==> (#[trigger] click_spec(s, index, true, false, entry_count).selection.contains(
                x,
            ) == s.selection.contains(x)),
        click_spec(s, index, true, false, entry_count).selected == Some(index),
        click_spec(s, index, true, false, entry_count).selection_anchor == Some(index),
        click_spec(click_spec(s, index, true, false, entry_count), index, true, false, entry_count).selection
            == s.selection,
{
    let once = click_spec(s, index, true, false, entry_count);
    let twice = click_spec(once, index, true, false, entry_count);
    assert(twice.selection =~= s.selection);
}

/// Clicking: a click outside the listing changes nothing. A plain click
/// selects just the clicked entry, which becomes the active entry and the
/// anchor. A Shift-click selects every entry from the anchor (or, without
/// one, the active entry; or else the clicked entry) to the clicked one,
/// both included, keeping the anchor. Any click inside the listing ends
/// visual selection and makes the clicked entry active.
pub proof fn lemma_click_selects(
    s: SelectionView,
    index: usize,
    control: bool,
    shift: bool,
    entry_count: int,
)
    ensures
        index >= entry_count ==> click_spec(s, index, control, shift, entry_count) == s,
        index < entry_count ==> {
            let r = click_spec(s, index, control, shift, entry_count);
            &&& r.selected == Some(index)
            &&& r.visual_anchor is None
            &&& r.context_menu == s.context_menu
            &&& (!control && !shift) ==> {
                &&& forall|x: usize| #[trigger] r.selection.contains(x) <==> x == index
                &&& r.selection_anchor == Some(index)
            }
            &&& shift ==> {
                let a: usize = if s.selection_anchor is Some {
                    s.selection_anchor->0
                } else if s.selected is Some {
                    s.selected->0
                } else {
                    index
                };
                &&& forall|x: usize|
                    #[trigger] r.selection.contains(x) <==> ((a <= x && x <= index) || (index <= x
                        && x <= a))
                &&& r.selection_anchor == s.selection_anchor
            }
        },
{
}

/// Vertical motions move by whole rows: down `count` rows is `count` times
/// the column count further on, stopping at the last entry; up `count` rows
/// is as far back, stopping at the first. Horizontal ones stay in the row.
pub proof fn lemma_vertical_motions_move_by_rows(
    current: int,
    count: int,
    entry_count: int,
    layout: Layout,
)
    requires
        0 <= current < entry_count,
        layout.columns > 0,
        count >= 1,
        current + layout.columns * count <= usize::MAX,
    ensures
        ({
            let step = layout.columns * count;
            &&& motion_target_spec(current, Motion::Down, count, entry_count, layout) == if current
                + step < entry_count {
                current + step
            } else {
                entry_count - 1
            }
            &&& motion_target_spec(current, Motion::Up, count, entry_count, layout) == if step
                <= current {
                current - step
            } else {
                0
            }
        }),
{
    let columns = layout.columns as int;
    assert(columns * count >= columns) by (nonlinear_arith)
        requires
            columns > 0,
            count >= 1,
    ;
}

} // verus!
