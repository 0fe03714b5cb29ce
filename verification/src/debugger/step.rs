//! Decisions of source-level stepping: where a step over a line may stop,
//! and when a step into a line is over. Setting breakpoints and running the
//! debugee are left to the caller.

use crate::debugger::address::RelocatedAddress;
use crate::debugger::debugee::dwarf::unit::{pos_for_pc, BsUnit, LineRow, PlaceDescriptorOwned, Range};
use crate::debugger::debugee::tracer::WatchpointHitType;
use vstd::prelude::*;

verus! {

/// Result of a step, if [`StepResult::SignalInterrupt`] or [`StepResult::WatchpointInterrupt`] then
/// a step process interrupted and the user should know about it.
/// If `quiet` set to `true` then no hooks should occur.
#[derive(Debug)]
pub enum StepResult {
    Done,
    SignalInterrupt { signal: i32, quiet: bool },
    WatchpointInterrupt { pid: i32, addr: RelocatedAddress, ty: WatchpointHitType, quiet: bool },
}

impl StepResult {
    pub fn signal_interrupt_quiet(signal: i32) -> (r: Self)
        ensures
            r == (StepResult::SignalInterrupt { signal, quiet: true }),
    {
        StepResult::SignalInterrupt { signal, quiet: true }
    }

    pub fn signal_interrupt(signal: i32) -> (r: Self)
        ensures
            r == (StepResult::SignalInterrupt { signal, quiet: false }),
    {
        StepResult::SignalInterrupt { signal, quiet: false }
    }

    pub fn wp_interrupt_quite(pid: i32, addr: RelocatedAddress, ty: WatchpointHitType) -> (r: Self)
        ensures
            r == (StepResult::WatchpointInterrupt { pid, addr, ty, quiet: true }),
    {
        StepResult::WatchpointInterrupt { pid, addr, ty, quiet: true }
    }

    pub fn wp_interrupt(pid: i32, addr: RelocatedAddress, ty: WatchpointHitType) -> (r: Self)
        ensures
            r == (StepResult::WatchpointInterrupt { pid, addr, ty, quiet: false }),
    {
        StepResult::WatchpointInterrupt { pid, addr, ty, quiet: false }
    }
}

/// An address lies in a range (begin included, end excluded).
pub open spec fn in_range(r: Range, a: u64) -> bool {
    r.begin <= a < r.end
}

/// An address lies in one of the ranges.
pub open spec fn in_any_range(rs: Seq<Range>, a: u64) -> bool {
    exists|i: int| 0 <= i < rs.len() && in_range(#[trigger] rs[i], a)
}

/// What a step over a line knows of the function it steps in.
pub struct StepFrame {
    /// File of the function declaration, if known.
    pub fn_file: Option<u64>,
    /// Prolog of the function.
    pub prolog: Range,
    /// Ranges of the functions inlined into this one.
    pub inline_ranges: Vec<Range>,
    /// Address of the place the step starts from.
    pub current_address: u64,
    /// Line of the place the step starts from.
    pub current_line: u64,
}

/// A line where a step over the current line may stop: a statement in the
/// function's own file, out of its prolog and of inlined code, at another
/// address and another line than the current place.
pub open spec fn step_target(row: LineRow, frame: StepFrame) -> bool {
    &&& frame.fn_file == Some(row.file_index)
    &&& !in_range(frame.prolog, row.address)
    &&& !in_any_range(frame.inline_ranges@, row.address)
    &&& row.is_stmt_spec()
    &&& row.address != frame.current_address
    &&& row.line != frame.current_line
}

/// Addresses of the target lines in the run of lines from position `k` that
/// lie in range `r`.
pub open spec fn range_targets(lines: Seq<LineRow>, r: Range, k: int, frame: StepFrame) -> Seq<u64>
    decreases lines.len() - k,
{
    if k < 0 || k >= lines.len() || !in_range(r, lines[k].address) {
        Seq::empty()
    } else {
        (if step_target(lines[k], frame) {
            seq![lines[k].address]
        } else {
            Seq::empty()
        }) + range_targets(lines, r, k + 1, frame)
    }
}

/// Addresses of the target lines of all the ranges of a function, range after
/// range; each range is walked from the line found for its start.
pub open spec fn step_over_targets_spec(lines: Seq<LineRow>, ranges: Seq<Range>, frame: StepFrame) -> Seq<u64>
    decreases ranges.len(),
{
    if ranges.len() == 0 {
        Seq::empty()
    } else {
        step_over_targets_spec(lines, ranges.drop_last(), frame) + range_targets(
            lines,
            ranges.last(),
            pos_for_pc(lines, ranges.last().begin),
            frame,
        )
    }
}

/// Whether an address lies in one of the ranges.
fn in_ranges(rs: &Vec<Range>, a: u64) -> (r: bool)
    ensures
        r == in_any_range(rs@, a),
{
    let mut i: usize = 0;
    while i < rs.len()
        invariant
            i <= rs@.len(),
            forall|j: int| 0 <= j < i ==> !in_range(#[trigger] rs@[j], a),
        decreases rs@.len() - i,
    {
        if rs[i].begin <= a && a < rs[i].end {
            return true;
        }
        i = i + 1;
    }
    false
}

/// Addresses where a step over the current line may stop inside the
/// function (see [`step_target`]), in the order of the function ranges and
/// of the lines; `None` when the unit has no lines and the function has ranges.
pub fn step_over_targets(unit: &BsUnit, ranges: &[Range], frame: &StepFrame) -> (r: Option<Vec<u64>>)
    requires
        unit.wf(),
    ensures
        unit.lines_view().len() == 0 && ranges@.len() > 0 ==> r is None,
        unit.lines_view().len() > 0 || ranges@.len() == 0 ==> (r matches Some(v) && v@ == step_over_targets_spec(
            unit.lines_view(),
            ranges@,
            *frame,
        )),
        r matches Some(v) ==> forall|i: int|
            0 <= i < v@.len() ==> exists|j: int|
                0 <= j < unit.lines_view().len() && unit.lines_view()[j].address == #[trigger] v@[i] && stops_step_over(
                    unit.lines_view()[j],
                    *frame,
                ),
{
    let ghost lines = unit.lines_view();
    let mut out: Vec<u64> = Vec::new();
    let mut i: usize = 0;
    while i < ranges.len()
        invariant
            unit.wf(),
            lines == unit.lines_view(),
            i <= ranges@.len(),
            i > 0 ==> lines.len() > 0,
            out@ == step_over_targets_spec(lines, ranges@.take(i as int), *frame),
        decreases ranges@.len() - i,
    {
        let range = ranges[i];
        let ghost before = out@;
        let mut place = match unit.find_place_by_pc(range.begin) {
            None => {
                return None;
            },
            Some(p) => p,
        };
        let ghost k0 = pos_for_pc(lines, range.begin);
        let mut walking = true;
        while walking && place.address >= range.begin && place.address < range.end
            invariant
                unit.wf(),
                lines == unit.lines_view(),
                walking ==> place.describes(*unit, place.pos_in_unit as int),
                walking ==> range_targets(lines, range, k0, *frame) == (out@.subrange(before.len() as int, out@.len() as int))
                    + range_targets(lines, range, place.pos_in_unit as int, *frame),
                !walking ==> range_targets(lines, range, k0, *frame) == out@.subrange(before.len() as int, out@.len() as int),
                out@.subrange(0, before.len() as int) == before,
                before.len() <= out@.len(),
            decreases lines.len() - place.pos_in_unit + (if walking { 1int } else { 0int }),
        {
            let ghost k = place.pos_in_unit as int;
            let ghost cur = out@;
            let row = unit.line(place.pos_in_unit);
            if Some(place.file_idx) == frame.fn_file && !(frame.prolog.begin <= place.address && place.address
                < frame.prolog.end) && !in_ranges(&frame.inline_ranges, place.address) && place.is_stmt
                && place.address != frame.current_address && place.line_number != frame.current_line {
                out.push(place.address);
            }
            proof {
                assert(range_targets(lines, range, k, *frame) == (if step_target(lines[k], *frame) {
                    seq![lines[k].address]
                } else {
                    Seq::empty()
                }) + range_targets(lines, range, k + 1, *frame));
                assert(out@.subrange(0, before.len() as int) =~= before);
            }
            match place.next() {
                None => {
                    walking = false;
                    proof {
                        assert(range_targets(lines, range, k + 1, *frame) == Seq::<u64>::empty());
                        assert(out@.subrange(before.len() as int, out@.len() as int) =~= cur.subrange(
                            before.len() as int,
                            cur.len() as int,
                        ) + (out@.subrange(cur.len() as int, out@.len() as int)));
                    }
                },
                Some(n) => {
                    place = n;
                    proof {
                        assert(out@.subrange(before.len() as int, out@.len() as int) =~= cur.subrange(
                            before.len() as int,
                            cur.len() as int,
                        ) + (out@.subrange(cur.len() as int, out@.len() as int)));
                    }
                },
            }
        }
        proof {
            if walking {
                assert(range_targets(lines, range, place.pos_in_unit as int, *frame) == Seq::<u64>::empty());
            }
            assert(ranges@.take(i + 1).drop_last() =~= ranges@.take(i as int));
            assert(out@ =~= before + out@.subrange(before.len() as int, out@.len() as int));
        }
        i = i + 1;
    }
    proof {
        assert(ranges@.take(i as int) =~= ranges@);
        lemma_step_over_targets_sound(lines, ranges@, *frame);
        assert forall|q: int| 0 <= q < out@.len() implies exists|j: int|
            0 <= j < lines.len() && lines[j].address == #[trigger] out@[q] && stops_step_over(lines[j], *frame) by {
            assert(out@[q] == step_over_targets_spec(lines, ranges@, *frame)[q]);
        }
    }
    Some(out)
}

/// Whether a step into a line is over when it reaches `next`, a place whose
/// frame has the canonical frame address `next_cfa`: a place that is not a
/// statement never ends it; another frame or another line (file and line
/// number) of the source does.
pub fn step_in_done(start_file: &String, start_line: u64, start_cfa: RelocatedAddress, next: &PlaceDescriptorOwned, next_cfa: RelocatedAddress) -> (r: bool)
    ensures
        r == (next.is_stmt && (start_cfa != next_cfa || !(start_file@ == next.file@ && start_line == next.line_number))),
{
    if !next.is_stmt {
        return false;
    }
    let in_same_place = crate::text::string_eq(start_file, &next.file) && start_line == next.line_number;
    start_cfa.0 != next_cfa.0 || !in_same_place
}

/// Whether a step over a line, stopped at the return address of the function
/// at a place that begins elsewhere, must go on with a step into the line (an
/// assignment of the returned value or the like).
pub fn step_on_after_return(new_pc: RelocatedAddress, return_addr: Option<RelocatedAddress>, place_address: u64, new_global_pc: u64) -> (r: bool)
    ensures
        r == (return_addr == Some(new_pc) && place_address != new_global_pc),
{
    match return_addr {
        Some(ra) => ra.0 == new_pc.0 && place_address != new_global_pc,
        None => false,
    }
}

/// A line where a step over the current line of `frame` stops, written out:
/// a statement of the function's file, outside its prolog and inlined code,
/// at another address and on another line than the current place.
pub open spec fn stops_step_over(row: LineRow, frame: StepFrame) -> bool {
    &&& frame.fn_file == Some(row.file_index)
    &&& !(frame.prolog.begin <= row.address && row.address < frame.prolog.end)
    &&& forall|i: int| 0 <= i < frame.inline_ranges@.len() ==> !(frame.inline_ranges@[i].begin <= row.address
        && row.address < #[trigger] frame.inline_ranges@[i].end)
    &&& row.is_stmt_spec()
    &&& row.address != frame.current_address
    &&& row.line != frame.current_line
}

/// Targets found from position `k` of a range are addresses of lines from
/// that position on, inside the range, where a step over may stop.
proof fn lemma_range_targets_sound(lines: Seq<LineRow>, r: Range, k: int, frame: StepFrame)
    ensures
        forall|i: int|
            0 <= i < range_targets(lines, r, k, frame).len() ==> exists|j: int|
                0 <= j < lines.len() && lines[j].address == #[trigger] range_targets(lines, r, k, frame)[i]
                    && stops_step_over(lines[j], frame) && r.begin <= lines[j].address && lines[j].address < r.end,
    decreases lines.len() - k,
{
    if !(k < 0 || k >= lines.len() || !in_range(r, lines[k].address)) {
        lemma_range_targets_sound(lines, r, k + 1, frame);
        let head = if step_target(lines[k], frame) {
            seq![lines[k].address]
        } else {
            Seq::<u64>::empty()
        };
        let rest = range_targets(lines, r, k + 1, frame);
        assert(range_targets(lines, r, k, frame) == head + rest);
        assert forall|i: int| 0 <= i < range_targets(lines, r, k, frame).len() implies exists|j: int|
            0 <= j < lines.len() && lines[j].address == #[trigger] range_targets(lines, r, k, frame)[i]
                && stops_step_over(lines[j], frame) && r.begin <= lines[j].address && lines[j].address < r.end by {
            if i < head.len() {
                assert(range_targets(lines, r, k, frame)[i] == lines[k].address);
                assert forall|q: int| 0 <= q < frame.inline_ranges@.len() implies !(frame.inline_ranges@[q].begin
                    <= lines[k].address && lines[k].address < #[trigger] frame.inline_ranges@[q].end) by {
                    if frame.inline_ranges@[q].begin <= lines[k].address && lines[k].address < frame.inline_ranges@[q].end {
                        assert(in_range(frame.inline_ranges@[q], lines[k].address));
                    }
                }
                assert(stops_step_over(lines[k], frame));
            } else {
                assert(range_targets(lines, r, k, frame)[i] == rest[i - head.len()]);
            }
        }
    }
}

/// Every address where a step over the current line may stop is the
/// address of a line of the unit in one of the function's ranges that is a
/// statement of the function's file, outside its prolog and inlined code,
/// at another address and on another line than the current place: a step
/// over never stops again on the line it started from.
pub proof fn lemma_step_over_targets_sound(lines: Seq<LineRow>, ranges: Seq<Range>, frame: StepFrame)
    ensures
        forall|i: int|
            0 <= i < step_over_targets_spec(lines, ranges, frame).len() ==> exists|j: int|
                0 <= j < lines.len() && lines[j].address == #[trigger] step_over_targets_spec(lines, ranges, frame)[i]
                    && stops_step_over(lines[j], frame) && in_any_range(ranges, lines[j].address),
    decreases ranges.len(),
{
    if ranges.len() > 0 {
        let init = ranges.drop_last();
        lemma_step_over_targets_sound(lines, init, frame);
        let last = ranges.last();
        let k0 = pos_for_pc(lines, last.begin);
        lemma_range_targets_sound(lines, last, k0, frame);
        let a = step_over_targets_spec(lines, init, frame);
        let b = range_targets(lines, last, k0, frame);
        assert forall|i: int| 0 <= i < step_over_targets_spec(lines, ranges, frame).len() implies exists|j: int|
            0 <= j < lines.len() && lines[j].address == #[trigger] step_over_targets_spec(lines, ranges, frame)[i]
                && stops_step_over(lines[j], frame) && in_any_range(ranges, lines[j].address) by {
            if i < a.len() {
                assert(step_over_targets_spec(lines, ranges, frame)[i] == a[i]);
                let j = choose|j: int|
                    0 <= j < lines.len() && lines[j].address == a[i] && stops_step_over(lines[j], frame)
                        && in_any_range(init, lines[j].address);
                let q = choose|q: int| 0 <= q < init.len() && in_range(#[trigger] init[q], lines[j].address);
                assert(ranges[q] == init[q]);
                assert(in_range(ranges[q], lines[j].address));
            } else {
                assert(step_over_targets_spec(lines, ranges, frame)[i] == b[i - a.len()]);
                let j = choose|j: int|
                    0 <= j < lines.len() && lines[j].address == b[i - a.len()] && stops_step_over(lines[j], frame)
                        && last.begin <= lines[j].address && lines[j].address < last.end;
                assert(ranges[ranges.len() - 1] == last);
                assert(in_range(ranges[ranges.len() - 1], lines[j].address));
            }
        }
    }
}

} // verus!
