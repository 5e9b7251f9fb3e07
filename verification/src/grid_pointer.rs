//! What pressing, moving and releasing the pointer on a calendar grid does:
//! selecting slots, opening events, and dragging event chips.

use crate::dates::{Date, Instant};
use crate::model::EventOccurrence;
use crate::time_grid::TimeChip;
use vstd::prelude::*;

verus! {

/// The minutes of a day.
pub const DAY_MINUTES: i64 = 1440;

/// What dragged chips and slots snap to: half hours.
pub const DRAG_SNAP_MINUTES: i64 = 30;

/// The smaller of two numbers.
pub open spec fn least(a: int, b: int) -> int {
    if a <= b {
        a
    } else {
        b
    }
}

/// The larger of two numbers.
pub open spec fn most(a: int, b: int) -> int {
    if a >= b {
        a
    } else {
        b
    }
}

/// The number closest to `v` between `low` and `high`.
pub open spec fn clamped(v: int, low: int, high: int) -> int {
    least(most(v, low), high)
}

/// The half hour closest to a minute, the later one if two are equally close.
pub open spec fn snapped(v: int) -> int {
    (v + 15) / 30 * 30
}

fn clamp_wide(v: i128, low: i128, high: i128) -> (r: i128)
    requires
        low <= high,
    ensures
        r == clamped(v as int, low as int, high as int),
{
    if v < low {
        low
    } else if v > high {
        high
    } else {
        v
    }
}

/// The half hour closest to `v`, if that is not before 0; otherwise 0.
fn snap_wide(v: i128) -> (r: i128)
    requires
        v <= 0x4000_0000_0000_0000_0000,
    ensures
        r == most(snapped(v as int), 0),
{
    if v + 15 < 0 || v < -15 {
        0
    } else {
        (v + 15) / 30 * 30
    }
}

/// A half-hour slot: a date and the minutes since its midnight.
#[derive(Clone, Copy, PartialEq, Eq, Structural, Debug)]
pub struct Slot {
    pub date: Date,
    pub minutes: i64,
}

impl Slot {
    /// This slot is not after `other`.
    pub open spec fn le(self, other: Slot) -> bool {
        self.date.number < other.date.number || (self.date.number == other.date.number && self.minutes
            <= other.minutes)
    }

    /// Whether this slot is not after `other`.
    pub fn no_later_than(self, other: Slot) -> (r: bool)
        ensures
            r == self.le(other),
    {
        self.date.number < other.date.number || (self.date.number == other.date.number && self.minutes
            <= other.minutes)
    }
}

/// A range of slots, from the slot it starts with to the slot it ends with, both included.
#[derive(Clone, Copy, PartialEq, Eq, Structural, Debug)]
pub struct SlotRange {
    pub start_date: Date,
    pub start_minutes: i64,
    pub end_date: Date,
    pub end_minutes: i64,
}

impl SlotRange {
    /// The slot the range starts with.
    pub open spec fn first(self) -> Slot {
        Slot { date: self.start_date, minutes: self.start_minutes }
    }

    /// The slot the range ends with.
    pub open spec fn last(self) -> Slot {
        Slot { date: self.end_date, minutes: self.end_minutes }
    }

    /// The range does not end before it starts.
    pub open spec fn normalized(self) -> bool {
        self.first().le(self.last())
    }

    /// The range from one slot to another.
    pub open spec fn from_to(first: Slot, last: Slot) -> SlotRange {
        SlotRange {
            start_date: first.date,
            start_minutes: first.minutes,
            end_date: last.date,
            end_minutes: last.minutes,
        }
    }

    /// The range between two slots, whichever comes first.
    pub open spec fn between(a: Slot, b: Slot) -> SlotRange {
        if a.le(b) {
            SlotRange::from_to(a, b)
        } else {
            SlotRange::from_to(b, a)
        }
    }

    /// A slot is in the range.
    pub open spec fn holds(self, slot: Slot) -> bool {
        self.first().le(slot) && slot.le(self.last())
    }

    /// The range of one slot.
    pub fn single(date: Date, minutes: i64) -> (r: SlotRange)
        ensures
            r == SlotRange::from_to(Slot { date, minutes }, Slot { date, minutes }),
            r.normalized(),
            forall|s: Slot| #[trigger] r.holds(s) <==> s == (Slot { date, minutes }),
    {
        SlotRange { start_date: date, start_minutes: minutes, end_date: date, end_minutes: minutes }
    }

    /// The range from one slot to another, in whichever order they are given.
    pub fn spanning(a_date: Date, a_minutes: i64, b_date: Date, b_minutes: i64) -> (r: SlotRange)
        ensures
            r == SlotRange::between(
                Slot { date: a_date, minutes: a_minutes },
                Slot { date: b_date, minutes: b_minutes },
            ),
            r.normalized(),
            r.holds(Slot { date: a_date, minutes: a_minutes }),
            r.holds(Slot { date: b_date, minutes: b_minutes }),
    {
        let a = Slot { date: a_date, minutes: a_minutes };
        let b = Slot { date: b_date, minutes: b_minutes };
        let (start, end) = if a.no_later_than(b) {
            (a, b)
        } else {
            (b, a)
        };
        SlotRange {
            start_date: start.date,
            start_minutes: start.minutes,
            end_date: end.date,
            end_minutes: end.minutes,
        }
    }

    /// Whether a slot is in the range.
    pub fn contains(&self, date: Date, minutes: i64) -> (r: bool)
        ensures
            r == self.holds(Slot { date, minutes }),
    {
        let slot = Slot { date, minutes };
        let first = Slot { date: self.start_date, minutes: self.start_minutes };
        let last = Slot { date: self.end_date, minutes: self.end_minutes };
        first.no_later_than(slot) && slot.no_later_than(last)
    }
}

/// Dragging from one slot to another selects the same range as dragging back.
pub proof fn lemma_spanning_both_ways(a: Slot, b: Slot)
    ensures
        SlotRange::between(a, b) == SlotRange::between(b, a),
{
    assert(a.le(b) || b.le(a));
    if a.le(b) && b.le(a) {
        assert(a.date.number == b.date.number && a.minutes == b.minutes);
        assert(a == b);
    }
}

/// The column and the slot start under the pointer: `column` is how many whole columns lie to its
/// left, or nothing if it is left of the columns, and `minutes` is the time of day at its height.
/// There is nothing outside the columns. The slot is the closest half hour that leaves room for one
/// slot in the day.
pub fn slot_from_point(column: Option<usize>, minutes: i64, n_cols: usize) -> (r: Option<(usize, i64)>)
    ensures
        match r {
            Some((col, start)) => {
                &&& column == Some(col)
                &&& col < n_cols
                &&& start == clamped(snapped(minutes as int), 0, 1410)
            },
            None => column is None || column->0 >= n_cols,
        },
{
    match column {
        Some(col) => {
            if col >= n_cols {
                return None;
            }
            let start: i128 = clamp_wide(snap_wide(minutes as i128), 0, 1410);
            Some((col, start as i64))
        },
        None => None,
    }
}

/// The column and the minute under the pointer, without snapping; the end of the day is a minute of
/// it too. There is nothing outside the columns.
pub fn col_minutes_at(column: Option<usize>, minutes: i64, n_cols: usize) -> (r: Option<(usize, i64)>)
    ensures
        match r {
            Some((col, m)) => {
                &&& column == Some(col)
                &&& col < n_cols
                &&& m == clamped(minutes as int, 0, 1440)
            },
            None => column is None || column->0 >= n_cols,
        },
{
    match column {
        Some(col) => {
            if col >= n_cols {
                return None;
            }
            Some((col, clamp_wide(minutes as i128, 0, 1440) as i64))
        },
        None => None,
    }
}

/// The number of the day cell in a row and column of the month grid, whose first row holds the
/// weekday names.
pub fn cell_index_at(row: usize, col: usize) -> (r: Option<usize>)
    requires
        row * 7 + col <= usize::MAX,
    ensures
        match r {
            Some(i) => row > 0 && i == (row - 1) * 7 + col,
            None => row == 0,
        },
{
    if row == 0 {
        None
    } else {
        Some((row - 1) * 7 + col)
    }
}

/// What dragging a chip changes: both ends, or the end alone.
#[derive(Clone, Copy, PartialEq, Eq, Structural, Debug)]
pub enum DragMode {
    Move,
    ResizeEnd,
}

/// What a press on a chip would drag: its end, if a chip with a time is grabbed at its lower edge,
/// otherwise the whole chip.
pub fn grab_mode(all_day: bool, at_lower_edge: bool) -> (r: DragMode)
    ensures
        r == if !all_day && at_lower_edge {
            DragMode::ResizeEnd
        } else {
            DragMode::Move
        },
{
    if all_day {
        DragMode::Move
    } else if at_lower_edge {
        DragMode::ResizeEnd
    } else {
        DragMode::Move
    }
}

/// A chip that is being dragged. Times are minutes since midnight of the first column.
#[derive(Clone, Copy, PartialEq, Eq, Structural, Debug)]
pub struct TimeGridDrag {
    pub chip: usize,
    pub mode: DragMode,
    pub original_start: i64,
    pub original_end: i64,
    pub live_start: i64,
    pub live_end: i64,
    /// How far behind the chip's start it was grabbed.
    pub grab_offset: i64,
    pub all_day: bool,
}

impl TimeGridDrag {
    /// How long the chip was before the drag.
    pub open spec fn duration(self) -> int {
        self.original_end - self.original_start
    }

    /// The numbers of a drag over a grid of `total` minutes fit the machine's.
    pub open spec fn fits(self, total: i64) -> bool {
        &&& total >= 0
        &&& i64::MIN <= self.duration() <= i64::MAX
        &&& total - self.duration() <= i64::MAX
        &&& self.original_start + 30 <= i64::MAX
    }

    /// Where the chip starts and ends with the pointer at a column and minute of a grid of `total`
    /// minutes.
    pub open spec fn live(self, col: int, minutes: int, total: int) -> (int, int) {
        let pointer = clamped(col * 1440 + minutes, 0, total);
        if self.all_day {
            let start = clamped(
                (col - self.grab_offset as int / 1440) * 1440,
                0,
                most(total - self.duration(), 0),
            );
            (start, start + self.duration())
        } else if self.mode == DragMode::Move {
            let start = clamped(
                snapped(pointer - self.grab_offset),
                0,
                most(total - self.duration(), 0),
            );
            (start, start + self.duration())
        } else {
            (
                self.original_start as int,
                most(clamped(snapped(pointer), 0, total), self.original_start + 30),
            )
        }
    }
}

fn whole_days(minutes: i64) -> (r: i128)
    ensures
        r == minutes as int / 1440,
{
    let m: i128 = minutes as i128;
    if m >= 0 {
        m / 1440
    } else {
        -((1439 - m) / 1440)
    }
}

/// Moves a dragged chip to the pointer. A move keeps the chip's duration and the point at which it
/// was grabbed; a resize keeps its start and lets its end follow the pointer, at least one half hour
/// behind the start. Times snap to half hours and stay on the grid; all-day chips move by whole days.
pub fn drag_update(drag: &mut TimeGridDrag, col: i64, minutes: i64, total_minutes: i64)
    requires
        old(drag).fits(total_minutes),
    ensures
        *final(drag) == (TimeGridDrag {
            live_start: old(drag).live(col as int, minutes as int, total_minutes as int).0 as i64,
            live_end: old(drag).live(col as int, minutes as int, total_minutes as int).1 as i64,
            ..*old(drag)
        }),
        final(drag).live_start == old(drag).live(col as int, minutes as int, total_minutes as int).0,
        final(drag).live_end == old(drag).live(col as int, minutes as int, total_minutes as int).1,
{
    let total: i128 = total_minutes as i128;
    let duration: i128 = drag.original_end as i128 - drag.original_start as i128;
    let room: i128 = if total - duration > 0 {
        total - duration
    } else {
        0
    };
    if drag.all_day {
        let days: i128 = whole_days(drag.grab_offset);
        let start: i128 = clamp_wide((col as i128 - days) * 1440, 0, room);
        drag.live_start = start as i64;
        drag.live_end = (start + duration) as i64;
        return;
    }
    let pointer: i128 = clamp_wide(col as i128 * 1440 + minutes as i128, 0, total);
    match drag.mode {
        DragMode::Move => {
            let start: i128 = clamp_wide(snap_wide(pointer - drag.grab_offset as i128), 0, room);
            drag.live_start = start as i64;
            drag.live_end = (start + duration) as i64;
        },
        DragMode::ResizeEnd => {
            let end: i128 = clamp_wide(snap_wide(pointer), 0, total);
            drag.live_start = drag.original_start;
            let least_end: i128 = drag.original_start as i128 + 30;
            drag.live_end = (if end > least_end {
                end
            } else {
                least_end
            }) as i64;
        },
    }
}

/// Moving a chip keeps its duration, whatever the pointer does.
pub proof fn lemma_move_keeps_duration(drag: TimeGridDrag, col: int, minutes: int, total: int)
    requires
        drag.all_day || drag.mode == DragMode::Move,
    ensures
        drag.live(col, minutes, total).1 - drag.live(col, minutes, total).0 == drag.duration(),
{
}

/// A moved chip that is no longer than the grid stays on it.
pub proof fn lemma_move_stays_on_grid(drag: TimeGridDrag, col: int, minutes: int, total: int)
    requires
        drag.all_day || drag.mode == DragMode::Move,
        0 <= drag.duration() <= total,
    ensures
        0 <= drag.live(col, minutes, total).0,
        drag.live(col, minutes, total).1 <= total,
{
}

/// A chip that takes whole days moves by whole days, wherever in a day it was grabbed.
pub proof fn lemma_all_day_moves_by_days(drag: TimeGridDrag, col: int, minutes: int, total: int)
    requires
        drag.all_day,
        drag.original_start % 1440 == 0,
        drag.original_end % 1440 == 0,
        total % 1440 == 0,
    ensures
        (drag.live(col, minutes, total).0 - drag.original_start) % 1440 == 0,
        (drag.live(col, minutes, total).1 - drag.original_end) % 1440 == 0,
{
    let day = col - drag.grab_offset as int / 1440;
    assert(day * 1440 % 1440 == 0) by (nonlinear_arith);
}

/// Resizing a chip with a time keeps its start and leaves at least one half hour.
pub proof fn lemma_resize_keeps_start(drag: TimeGridDrag, col: int, minutes: int, total: int)
    requires
        !drag.all_day,
        drag.mode == DragMode::ResizeEnd,
    ensures
        drag.live(col, minutes, total).0 == drag.original_start,
        drag.live(col, minutes, total).1 >= drag.original_start + 30,
{
}

/// A moved chip with a time starts at a half hour, unless the end of the grid holds it back.
pub proof fn lemma_move_snaps(drag: TimeGridDrag, col: int, minutes: int, total: int)
    requires
        !drag.all_day,
        drag.mode == DragMode::Move,
    ensures
        drag.live(col, minutes, total).0 % 30 == 0 || drag.live(col, minutes, total).0 == total
            - drag.duration(),
{
    let pointer = clamped(col * 1440 + minutes, 0, total);
    assert(snapped(pointer - drag.grab_offset) % 30 == 0) by (nonlinear_arith)
        requires
            snapped(pointer - drag.grab_offset) == (pointer - drag.grab_offset + 15) / 30 * 30,
    ;
}

/// When a dropped chip's event starts and ends: its times, shifted as far as the chip's ends were.
pub fn drag_times(drag: &TimeGridDrag, occ: &EventOccurrence) -> (r: (Instant, Instant))
    requires
        i64::MIN <= (drag.live_start - drag.original_start) * 60 <= i64::MAX,
        i64::MIN <= (drag.live_end - drag.original_end) * 60 <= i64::MAX,
        i64::MIN <= occ.start.instant.secs + (drag.live_start - drag.original_start) * 60 <= i64::MAX,
        i64::MIN <= occ.end.instant.secs + (drag.live_end - drag.original_end) * 60 <= i64::MAX,
    ensures
        r.0.secs == occ.start.instant.secs + (drag.live_start - drag.original_start) * 60,
        r.0.nanos == occ.start.instant.nanos,
        r.1.secs == occ.end.instant.secs + (drag.live_end - drag.original_end) * 60,
        r.1.nanos == occ.end.instant.nanos,
{
    let start = occ.start.instant.plus_minutes(drag.live_start - drag.original_start);
    let end = occ.end.instant.plus_minutes(drag.live_end - drag.original_end);
    (start, end)
}

/// The remainder of a division that rounds towards zero.
pub open spec fn remainder(a: int, b: int) -> int {
    if a >= 0 {
        a % b
    } else {
        -((-a) % b)
    }
}

/// The chip that shows where a dragged one would go: the columns and minutes of its live times, in
/// a lane of its own. An end at midnight belongs to the day before.
pub open spec fn ghost_chip(drag: TimeGridDrag, occurrence: usize) -> TimeChip {
    let first = drag.live_start as int / 1440;
    let last = most(drag.live_end - 1, drag.live_start as int) / 1440;
    TimeChip {
        column: first as usize,
        span: (last - first + 1) as usize,
        lane: 0,
        lanes: 1,
        all_day: drag.all_day,
        start_minutes: (drag.live_start as int % 1440) as i64,
        end_minutes: if drag.live_end as int % 1440 == 0 && drag.live_end > drag.live_start {
            1440
        } else {
            remainder(drag.live_end as int, 1440) as i64
        },
        occurrence,
    }
}

/// The chip that shows where a dragged one would go.
pub fn drag_ghost_chip(drag: &TimeGridDrag, occurrence: usize) -> (r: TimeChip)
    requires
        0 <= drag.live_start,
        drag.live_end > i64::MIN,
        drag.live_start / 1440 <= usize::MAX,
        most(drag.live_end - 1, drag.live_start as int) / 1440 - drag.live_start as int / 1440 + 1
            <= usize::MAX,
    ensures
        r == ghost_chip(*drag, occurrence),
{
    let start_col: i64 = drag.live_start / 1440;
    let last_minute: i64 = if drag.live_end - 1 > drag.live_start {
        drag.live_end - 1
    } else {
        drag.live_start
    };
    let end_col: i64 = last_minute / 1440;
    let rem: i64 = if drag.live_end >= 0 {
        drag.live_end % 1440
    } else {
        -((-drag.live_end) % 1440)
    };
    let end_minutes: i64 = if rem == 0 && drag.live_end > drag.live_start {
        1440
    } else {
        rem
    };
    TimeChip {
        column: start_col as usize,
        span: (end_col - start_col + 1) as usize,
        lane: 0,
        lanes: 1,
        all_day: drag.all_day,
        start_minutes: drag.live_start % 1440,
        end_minutes,
        occurrence,
    }
}

/// A press on a chip that may still become a drag.
#[derive(Clone, Copy, PartialEq, Eq, Structural, Debug)]
pub struct ChipPress {
    pub chip: usize,
    pub mode: DragMode,
}

/// What the pointer is doing on a time grid.
#[derive(Clone, Copy, PartialEq, Eq, Structural, Debug)]
pub struct GridPointer {
    /// The selected slots.
    pub selection: Option<SlotRange>,
    /// Whether slots are being selected by dragging.
    pub drag_active: bool,
    /// The slot that the pointer was pressed on.
    pub drag_anchor: Option<Slot>,
    /// The chip that the pointer was pressed on, as long as it has not been dragged.
    pub chip_press: Option<ChipPress>,
    /// The chip that is being dragged.
    pub drag: Option<TimeGridDrag>,
}

/// What a release asks for.
#[derive(Clone, Copy, PartialEq, Eq, Structural, Debug)]
pub enum Release {
    Nothing,
    /// The occurrence was clicked.
    OpenEvent { occurrence: usize },
    /// The occurrence was dragged.
    DropEvent { occurrence: usize, drag: TimeGridDrag },
    /// The selected slots were clicked.
    OpenSlots { range: SlotRange },
}

/// The minute at which a chip starts, since midnight of the first column.
pub open spec fn chip_start(chip: TimeChip) -> int {
    chip.column * 1440 + chip.start_minutes
}

/// The minute at which a chip ends, since midnight of the first column.
pub open spec fn chip_end(chip: TimeChip) -> int {
    (chip.column + chip.span - 1) * 1440 + chip.end_minutes
}

/// The chip has at least one column, and its minutes are numbers that a drag can hold.
pub open spec fn chip_draggable(chip: TimeChip) -> bool {
    &&& chip.span > 0
    &&& -0x1000_0000_0000_0000 <= chip_start(chip) <= 0x1000_0000_0000_0000
    &&& -0x1000_0000_0000_0000 <= chip_end(chip) <= 0x1000_0000_0000_0000
}

/// The drag that starts on a chip that was pressed on at a position.
pub open spec fn new_drag(press: ChipPress, chip: TimeChip, pressed_at: Option<(usize, i64)>) -> TimeGridDrag {
    TimeGridDrag {
        chip: press.chip,
        mode: press.mode,
        original_start: chip_start(chip) as i64,
        original_end: chip_end(chip) as i64,
        live_start: chip_start(chip) as i64,
        live_end: chip_end(chip) as i64,
        grab_offset: match pressed_at {
            Some((col, minutes)) => (col * 1440 + minutes - chip_start(chip)) as i64,
            None => 0,
        },
        all_day: chip.all_day,
    }
}

/// A drag with the pointer at a position of a grid of `columns` columns.
pub open spec fn drag_at(drag: TimeGridDrag, at: (usize, i64), columns: usize) -> TimeGridDrag {
    let live = drag.live(at.0 as int, at.1 as int, columns * 1440);
    TimeGridDrag { live_start: live.0 as i64, live_end: live.1 as i64, ..drag }
}

impl GridPointer {
    /// The state of a grid that was just drawn: nothing selected, nothing dragged.
    pub open spec fn fresh() -> GridPointer {
        GridPointer {
            selection: None,
            drag_active: false,
            drag_anchor: None,
            chip_press: None,
            drag: None,
        }
    }

    /// The state after a press on a chip, on a slot, or on neither.
    pub open spec fn after_press(self, hit: Option<ChipPress>, slot: Option<Slot>) -> GridPointer {
        match (hit, slot) {
            (Some(press), _) => GridPointer { selection: None, chip_press: Some(press), ..self },
            (None, None) => self,
            (None, Some(slot)) => if self.selection matches Some(range) && range.holds(slot) {
                GridPointer { drag_anchor: Some(slot), ..self }
            } else {
                GridPointer {
                    selection: Some(SlotRange::from_to(slot, slot)),
                    drag_anchor: Some(slot),
                    drag_active: true,
                    ..self
                }
            },
        }
    }

    /// The state after the pointer has moved to a position and slot, if it is on any. `far` says
    /// that it left the surroundings of the press.
    pub open spec fn after_move(
        self,
        far: bool,
        chips: Seq<TimeChip>,
        occurrences: int,
        at: Option<(usize, i64)>,
        pressed_at: Option<(usize, i64)>,
        slot: Option<Slot>,
        columns: usize,
    ) -> GridPointer {
        if let Some(press) = self.chip_press {
            let chip = chips[press.chip as int];
            if !far {
                self
            } else if chip.occurrence >= occurrences || at is None {
                GridPointer { chip_press: None, ..self }
            } else {
                GridPointer {
                    chip_press: None,
                    drag: Some(drag_at(new_drag(press, chip, pressed_at), at->0, columns)),
                    ..self
                }
            }
        } else if let Some(drag) = self.drag {
            match at {
                Some(at) => GridPointer { drag: Some(drag_at(drag, at, columns)), ..self },
                None => self,
            }
        } else {
            match (slot, self.drag_anchor) {
                (Some(slot), Some(anchor)) => if slot == anchor {
                    self
                } else {
                    GridPointer {
                        drag_active: true,
                        selection: Some(SlotRange::between(anchor, slot)),
                        ..self
                    }
                },
                _ => self,
            }
        }
    }

    /// The pointer's move shows on the grid: a chip starts or goes on being dragged, or the selection
    /// changes.
    pub open spec fn redrawn_by_move(
        self,
        far: bool,
        chips: Seq<TimeChip>,
        occurrences: int,
        at: Option<(usize, i64)>,
        slot: Option<Slot>,
    ) -> bool {
        if let Some(press) = self.chip_press {
            far && chips[press.chip as int].occurrence < occurrences && at is Some
        } else if self.drag is Some {
            at is Some
        } else {
            slot is Some && self.drag_anchor is Some && slot != self.drag_anchor
        }
    }

    /// The state after a release over a slot, if it is over any.
    pub open spec fn after_release(self, slot: Option<Slot>) -> GridPointer {
        if self.chip_press is Some {
            GridPointer { chip_press: None, ..self }
        } else if self.drag is Some {
            GridPointer { drag: None, ..self }
        } else {
            let calm = GridPointer { drag_active: false, ..self };
            match (self.drag_anchor, slot) {
                (Some(anchor), Some(slot)) => if self.drag_active {
                    if slot != anchor {
                        GridPointer { selection: Some(SlotRange::between(anchor, slot)), ..calm }
                    } else {
                        calm
                    }
                } else if slot == anchor {
                    GridPointer { selection: None, ..calm }
                } else {
                    calm
                },
                _ => calm,
            }
        }
    }

    /// What a release over a slot asks for.
    pub open spec fn asked_by_release(
        self,
        chips: Seq<TimeChip>,
        occurrences: int,
        slot: Option<Slot>,
    ) -> Release {
        if let Some(press) = self.chip_press {
            let occurrence = chips[press.chip as int].occurrence;
            if occurrence < occurrences {
                Release::OpenEvent { occurrence }
            } else {
                Release::Nothing
            }
        } else if let Some(drag) = self.drag {
            let occurrence = chips[drag.chip as int].occurrence;
            if occurrence < occurrences {
                Release::DropEvent { occurrence, drag }
            } else {
                Release::Nothing
            }
        } else if !self.drag_active && self.drag_anchor is Some && slot == self.drag_anchor {
            match self.selection {
                Some(range) => Release::OpenSlots { range },
                None => Release::Nothing,
            }
        } else {
            Release::Nothing
        }
    }

    /// A chip that is pressed or dragged is one of the grid's chips, and its numbers fit.
    pub open spec fn belongs_to(self, chips: Seq<TimeChip>, columns: usize) -> bool {
        &&& self.chip_press matches Some(press) ==> press.chip < chips.len() && chip_draggable(
            chips[press.chip as int],
        )
        &&& self.drag matches Some(drag) ==> drag.chip < chips.len() && drag.fits(
            (columns * 1440) as i64,
        )
        &&& columns * 1440 <= 0x1000_0000_0000_0000
    }

    /// A grid that was just drawn.
    pub fn new() -> (r: GridPointer)
        ensures
            r == GridPointer::fresh(),
    {
        GridPointer {
            selection: None,
            drag_active: false,
            drag_anchor: None,
            chip_press: None,
            drag: None,
        }
    }

    /// The pointer is pressed. A press on a chip may open or drag it; a press within the selection
    /// may open it; a press on any other slot selects that slot.
    pub fn press(&mut self, hit: Option<ChipPress>, slot: Option<Slot>)
        ensures
            *final(self) == old(self).after_press(hit, slot),
    {
        match hit {
            Some(press) => {
                self.selection = None;
                self.chip_press = Some(press);
            },
            None => match slot {
                None => {},
                Some(slot) => {
                    let inside = match self.selection {
                        Some(range) => range.contains(slot.date, slot.minutes),
                        None => false,
                    };
                    self.drag_anchor = Some(slot);
                    if !inside {
                        self.selection = Some(SlotRange::single(slot.date, slot.minutes));
                        self.drag_active = true;
                    }
                },
            },
        }
    }

    /// The pointer moves while it is pressed: a chip that it was pressed on is dragged once the
    /// pointer is far enough away; otherwise the selection grows from the slot that it was pressed
    /// on. Says whether the grid looks different now.
    pub fn motion(
        &mut self,
        far: bool,
        chips: &[TimeChip],
        occurrences: usize,
        at: Option<(usize, i64)>,
        pressed_at: Option<(usize, i64)>,
        slot: Option<Slot>,
        columns: usize,
    ) -> (r: bool)
        requires
            old(self).belongs_to(chips@, columns),
            at matches Some((col, minutes)) ==> col < columns && 0 <= minutes <= 1440,
            pressed_at matches Some((col, minutes)) ==> col < columns && 0 <= minutes <= 1440,
        ensures
            *final(self) == old(self).after_move(
                far,
                chips@,
                occurrences as int,
                at,
                pressed_at,
                slot,
                columns,
            ),
            final(self).belongs_to(chips@, columns),
            r == old(self).redrawn_by_move(far, chips@, occurrences as int, at, slot),
    {
        if let Some(press) = self.chip_press {
            if !far {
                return false;
            }
            self.chip_press = None;
            let chip = chips[press.chip];
            if chip.occurrence >= occurrences {
                return false;
            }
            let (col, minutes) = match at {
                Some(at) => at,
                None => return false,
            };
            let start: i128 = chip.column as i128 * 1440 + chip.start_minutes as i128;
            let end: i128 = (chip.column as i128 + chip.span as i128 - 1) * 1440 + chip.end_minutes as i128;
            let grab: i128 = match pressed_at {
                Some((c, m)) => c as i128 * 1440 + m as i128 - start,
                None => 0,
            };
            let mut drag = TimeGridDrag {
                chip: press.chip,
                mode: press.mode,
                original_start: start as i64,
                original_end: end as i64,
                live_start: start as i64,
                live_end: end as i64,
                grab_offset: grab as i64,
                all_day: chip.all_day,
            };
            assert(drag == new_drag(press, chip, pressed_at));
            drag_update(&mut drag, col as i64, minutes, columns as i64 * 1440);
            self.drag = Some(drag);
            return true;
        }
        if let Some(started) = self.drag {
            let (col, minutes) = match at {
                Some(at) => at,
                None => return false,
            };
            let mut drag = started;
            drag_update(&mut drag, col as i64, minutes, columns as i64 * 1440);
            self.drag = Some(drag);
            return true;
        }
        if let Some(slot) = slot {
            if let Some(anchor) = self.drag_anchor {
                if slot != anchor {
                    self.drag_active = true;
                    self.selection = Some(
                        SlotRange::spanning(anchor.date, anchor.minutes, slot.date, slot.minutes),
                    );
                    return true;
                }
            }
        }
        false
    }

    /// The pointer is released: a chip that was not dragged opens, a dragged one is dropped, and a
    /// click within the selection opens it. A selection made by dragging stays.
    pub fn release(&mut self, chips: &[TimeChip], occurrences: usize, slot: Option<Slot>) -> (r: Release)
        requires
            old(self).chip_press matches Some(press) ==> press.chip < chips@.len(),
            old(self).drag matches Some(drag) ==> drag.chip < chips@.len(),
        ensures
            *final(self) == old(self).after_release(slot),
            r == old(self).asked_by_release(chips@, occurrences as int, slot),
    {
        if let Some(press) = self.chip_press {
            self.chip_press = None;
            let occurrence: usize = chips[press.chip].occurrence;
            if occurrence < occurrences {
                return Release::OpenEvent { occurrence };
            }
            return Release::Nothing;
        }
        if let Some(drag) = self.drag {
            self.drag = None;
            let occurrence: usize = chips[drag.chip].occurrence;
            if occurrence < occurrences {
                return Release::DropEvent { occurrence, drag };
            }
            return Release::Nothing;
        }
        let was_dragging = self.drag_active;
        self.drag_active = false;
        let anchor = match self.drag_anchor {
            Some(anchor) => anchor,
            None => return Release::Nothing,
        };
        let slot = match slot {
            Some(slot) => slot,
            None => return Release::Nothing,
        };
        if was_dragging {
            if slot != anchor {
                self.selection = Some(
                    SlotRange::spanning(anchor.date, anchor.minutes, slot.date, slot.minutes),
                );
            }
            return Release::Nothing;
        }
        if slot == anchor {
            let range = self.selection;
            self.selection = None;
            if let Some(range) = range {
                return Release::OpenSlots { range };
            }
        }
        Release::Nothing
    }
}

/// A press on a chip and a release without a drag in between open the chip's occurrence and leave
/// nothing pressed.
pub proof fn lemma_click_opens_event(
    state: GridPointer,
    press: ChipPress,
    slot: Option<Slot>,
    chips: Seq<TimeChip>,
    occurrences: int,
    over: Option<Slot>,
)
    requires
        press.chip < chips.len(),
        chips[press.chip as int].occurrence < occurrences,
    ensures
        ({
            let pressed = state.after_press(Some(press), slot);
            &&& pressed.asked_by_release(chips, occurrences, over) == (Release::OpenEvent {
                occurrence: chips[press.chip as int].occurrence,
            })
            &&& pressed.after_release(over).chip_press is None
        }),
{
}

/// Once a pressed chip has been dragged, the release drops it and does not open it.
pub proof fn lemma_drag_never_opens_event(
    state: GridPointer,
    chips: Seq<TimeChip>,
    occurrences: int,
    at: (usize, i64),
    pressed_at: Option<(usize, i64)>,
    slot: Option<Slot>,
    columns: usize,
    over: Option<Slot>,
)
    requires
        state.chip_press matches Some(press) && press.chip < chips.len() && chips[press.chip as int].occurrence
            < occurrences,
    ensures
        state.after_move(true, chips, occurrences, Some(at), pressed_at, slot, columns).asked_by_release(
            chips,
            occurrences,
            over,
        ) is DropEvent,
{
}

/// Clicking an unselected slot on a calm grid selects it, and clicking it again opens exactly that
/// slot and leaves nothing selected.
pub proof fn lemma_second_click_opens_slot(slot: Slot)
    ensures
        ({
            let once = GridPointer::fresh().after_press(None, Some(slot)).after_release(Some(slot));
            let twice = once.after_press(None, Some(slot));
            &&& once.selection == Some(SlotRange::from_to(slot, slot))
            &&& twice.asked_by_release(Seq::empty(), 0, Some(slot)) == (Release::OpenSlots {
                range: SlotRange::from_to(slot, slot),
            })
            &&& twice.after_release(Some(slot)).selection is None
        }),
{
}

/// A chip drag on a month grid: the date it was grabbed on and the date it is over.
#[derive(Clone, Copy, PartialEq, Eq, Structural, Debug)]
pub struct MonthDrag {
    pub from_date: Date,
    pub to_date: Date,
    /// Whether the pointer has left the surroundings of the press.
    pub dragging: bool,
}

impl MonthDrag {
    /// The pointer is pressed on a chip of a date.
    pub fn new(date: Date) -> (r: MonthDrag)
        ensures
            r == (MonthDrag { from_date: date, to_date: date, dragging: false }),
    {
        MonthDrag { from_date: date, to_date: date, dragging: false }
    }

    /// The pointer moves to a date, if it is over any. Says whether the chip goes to another date.
    pub fn motion(&mut self, far: bool, date: Option<Date>) -> (r: bool)
        ensures
            *final(self) == (if !old(self).dragging && !far {
                *old(self)
            } else {
                MonthDrag {
                    from_date: old(self).from_date,
                    to_date: match date {
                        Some(d) => d,
                        None => old(self).to_date,
                    },
                    dragging: true,
                }
            }),
            r == (final(self).to_date != old(self).to_date),
    {
        if !self.dragging {
            if !far {
                return false;
            }
            self.dragging = true;
        }
        match date {
            None => false,
            Some(date) => {
                let changed = self.to_date != date;
                self.to_date = date;
                changed
            },
        }
    }

    /// The pointer is released: nothing if the chip was clicked, otherwise how many days it was
    /// dragged.
    pub fn release(&self) -> (r: Option<i64>)
        ensures
            match r {
                Some(days) => self.dragging && days == self.to_date.number - self.from_date.number,
                None => !self.dragging,
            },
    {
        if self.dragging {
            Some(self.to_date.days_since(self.from_date))
        } else {
            None
        }
    }
}

/// When an event that was dragged by whole days in a month grid starts and ends.
pub fn month_drag_times(occ: &EventOccurrence, days: i64) -> (r: (Instant, Instant))
    requires
        i64::MIN <= days * 86400 <= i64::MAX,
        i64::MIN <= occ.start.instant.secs + days * 86400 <= i64::MAX,
        i64::MIN <= occ.end.instant.secs + days * 86400 <= i64::MAX,
    ensures
        r.0.secs == occ.start.instant.secs + days * 86400,
        r.0.nanos == occ.start.instant.nanos,
        r.1.secs == occ.end.instant.secs + days * 86400,
        r.1.nanos == occ.end.instant.nanos,
{
    let start = occ.start.instant;
    let end = occ.end.instant;
    (
        Instant { secs: start.secs + days * 86400, nanos: start.nanos },
        Instant { secs: end.secs + days * 86400, nanos: end.nanos },
    )
}

/// What a click on a day cell asks for.
#[derive(Clone, Copy, PartialEq, Eq, Structural, Debug)]
pub enum DayClick {
    /// The day is selected.
    Select,
    /// The day was selected already and opens.
    Activate,
}

/// A click on a day cell of a month grid: the first one selects the day, one on the selected day
/// opens it and unselects it.
pub fn click_day(selected: &mut Option<Date>, date: Date) -> (r: DayClick)
    ensures
        *old(selected) == Some(date) ==> r == DayClick::Activate && *final(selected) == None::<Date>,
        *old(selected) != Some(date) ==> r == DayClick::Select && *final(selected) == Some(date),
{
    if let Some(day) = *selected {
        if day == date {
            *selected = None;
            return DayClick::Activate;
        }
    }
    *selected = Some(date);
    DayClick::Select
}

} // verus!
