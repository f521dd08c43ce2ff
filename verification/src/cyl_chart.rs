//! The page/tick source chart model and its conversion to the time-based
//! target format: structural validation, tick-to-time mapping, drag-chain
//! extraction and the legacy page-shift mode.
//!
//! Fractional quantities are integer counts of millionths; a tick's time in
//! microseconds is `tick * tempo / time_base` rounded to the nearest
//! microsecond, half away from zero.

use vstd::prelude::*;
use vstd::string::StringExecFns;

use crate::cytus1_chart::Cytus1Chart;
use crate::cytus1_chart::Cytus1ChartLink;
use crate::cytus1_chart::Cytus1ChartNote;
use crate::utils::CylToolError;
use crate::utils::CylToolErrorKind;

verus! {

/// A page's nonlinear position function: its type tag and two ratio
/// arguments in millionths.
#[derive(Clone, Copy, Debug, PartialEq)]
pub struct CylheimChartPagePositionFunction {
    pub position_function_type: u32,
    pub height_ratio_micros: i64,
    pub offset_ratio_micros: i64,
}

/// One page: a contiguous tick range scanned in one direction.
#[derive(Clone, Copy, Debug, PartialEq)]
pub struct CylheimChartPage {
    pub start_tick: u32,
    pub end_tick: u32,
    pub scan_line_direction: i32,
    pub position_function: Option<CylheimChartPagePositionFunction>,
}

impl CylheimChartPage {
    /// The page's length in ticks, negative when the range is inverted.
    pub fn get_page_size(&self) -> (r: i64)
        ensures
            r == self.end_tick - self.start_tick,
    {
        self.end_tick as i64 - self.start_tick as i64
    }
}

/// A tempo change: from `tick` on, a beat lasts `value` microseconds.
#[derive(Clone, Copy, Debug, PartialEq)]
pub struct CylheimChartTempo {
    pub tick: u32,
    pub value: u32,
}

/// A freeform chart event; its arguments are kept as raw bytes.
#[derive(Clone, Debug, PartialEq)]
pub struct CylheimChartEvent {
    pub event_type: u32,
    pub event_args: Vec<u8>,
}

/// The events scheduled at one tick.
#[derive(Clone, Debug, PartialEq)]
pub struct CylheimChartTickEventList {
    pub tick: u32,
    pub event_list: Vec<CylheimChartEvent>,
}

/// One note of the source chart; `x` and the approach rate are in
/// millionths.
#[derive(Clone, Copy, Debug, PartialEq)]
pub struct CylheimChartNote {
    pub page_index: u32,
    pub note_type: u32,
    pub id: u32,
    pub tick: u32,
    pub x_micros: i64,
    pub has_sibling: bool,
    pub hold_tick: u32,
    pub next_id: i32,
    pub is_forward: bool,
    pub falling_note_direction: Option<u32>,
    pub approach_rate_micros: Option<i64>,
}

/// A source chart: pages, tempo changes, event lists and notes.
#[derive(Clone, Debug, PartialEq)]
pub struct CylheimChart {
    pub format_version: u32,
    pub time_base: u32,
    pub start_offset_time_micros: i64,
    pub end_offset_time_micros: Option<i64>,
    pub is_start_without_ui: Option<bool>,
    pub page_list: Vec<CylheimChartPage>,
    pub tempo_list: Vec<CylheimChartTempo>,
    pub event_order_list: Vec<CylheimChartTickEventList>,
    pub note_list: Vec<CylheimChartNote>,
}

/// The time of `tick` in microseconds under `tempo` microseconds per beat
/// and `time_base` ticks per beat, rounded to the nearest microsecond.
pub open spec fn spec_time_micros(tempo: nat, time_base: nat, tick: nat) -> nat {
    (tick * tempo + time_base / 2) / time_base
}

/// The target format's tempo in millionths of a beat per minute.
pub open spec fn spec_bpm_micros(tempo: nat) -> nat {
    (120000000000000 + tempo / 2) / tempo
}

/// Computes the time of `tick` in microseconds.
pub fn tick_time_micros(tempo: u32, time_base: u32, tick: u32) -> (r: u64)
    requires
        time_base >= 1,
    ensures
        r as nat == spec_time_micros(tempo as nat, time_base as nat, tick as nat),
{
    proof {
        assert((tick as nat) * (tempo as nat) <= 0xffffffff * 0xffffffff) by (nonlinear_arith)
            requires
                tick <= 0xffffffffu32,
                tempo <= 0xffffffffu32,
        ;
    }
    let num: u128 = tick as u128 * tempo as u128 + (time_base / 2) as u128;
    let q: u128 = num / time_base as u128;
    proof {
        assert(q <= num) by (nonlinear_arith)
            requires
                time_base >= 1,
                q == num / time_base as u128,
        ;
    }
    q as u64
}

/// Computes the target tempo in millionths.
pub fn bpm_micros(tempo: u32) -> (r: u64)
    requires
        tempo >= 1,
    ensures
        r as nat == spec_bpm_micros(tempo as nat),
{
    let num: u64 = 120000000000000u64 + (tempo / 2) as u64;
    num / tempo as u64
}

/// A note the target format accepts: click, hold, drag or drag child.
pub open spec fn note_type_ok(t: u32) -> bool {
    t == 0 || t == 1 || t == 3 || t == 4
}

/// A note the converter accepts: a legal type and an `x` within the
/// playfield.
pub open spec fn note_ok(n: CylheimChartNote) -> bool {
    &&& note_type_ok(n.note_type)
    &&& 0 <= n.x_micros <= 1000000
}

/// The first reason conversion fails, in the order the checks run, or
/// nothing when the chart converts. The checks on a zero time base or a
/// zero first tempo guard the integer arithmetic that the original format's
/// real-valued formulas leave undefined.
pub open spec fn spec_convert_err_parts(
    notes: Seq<CylheimChartNote>,
    pages: Seq<CylheimChartPage>,
    tempos: Seq<CylheimChartTempo>,
    time_base: u32,
) -> Option<CylToolErrorKind> {
    if exists|i: int| 0 <= i < notes.len() && !note_ok(#[trigger] notes[i]) {
        Some(CylToolErrorKind::InvalidChart)
    } else if pages.len() == 0 || tempos.len() == 0 {
        Some(CylToolErrorKind::EmptyChart)
    } else if exists|i: int|
        0 <= i < pages.len() && (#[trigger] pages[i]).end_tick - pages[i].start_tick
            != pages[0].end_tick - pages[0].start_tick {
        Some(CylToolErrorKind::InvalidChart)
    } else if exists|i: int|
        0 <= i < tempos.len() && (#[trigger] tempos[i]).value != tempos[0].value {
        Some(CylToolErrorKind::InvalidChart)
    } else if time_base == 0 || tempos[0].value == 0 {
        Some(CylToolErrorKind::InvalidChart)
    } else {
        None
    }
}

/// The check above, applied to a chart's own parts.
pub open spec fn spec_convert_err(c: CylheimChart) -> Option<CylToolErrorKind> {
    spec_convert_err_parts(c.note_list@, c.page_list@, c.tempo_list@, c.time_base)
}

/// Number of leading notes in `d` whose id is below `id`: the insertion
/// point in a list sorted strictly by id.
pub open spec fn insert_pos(d: Seq<CylheimChartNote>, id: u32) -> int
    decreases d.len(),
{
    if d.len() == 0 || d[0].id >= id {
        0
    } else {
        1 + insert_pos(d.skip(1), id)
    }
}

/// `insert_pos` is the unique boundary between smaller and not-smaller ids.
proof fn lemma_insert_pos(d: Seq<CylheimChartNote>, id: u32, k: int)
    requires
        0 <= k <= d.len(),
        forall|j: int| 0 <= j < k ==> (#[trigger] d[j]).id < id,
        k == d.len() || d[k].id >= id,
    ensures
        insert_pos(d, id) == k,
    decreases d.len(),
{
    if d.len() == 0 || d[0].id >= id {
    } else {
        lemma_insert_pos(d.skip(1), id, k - 1);
    }
}

/// Replaces the note with the same id, or inserts the note at its sorted
/// position.
pub open spec fn spec_insert_note(d: Seq<CylheimChartNote>, n: CylheimChartNote) -> Seq<
    CylheimChartNote,
> {
    let k = insert_pos(d, n.id);
    if k < d.len() && d[k].id == n.id {
        d.update(k, n)
    } else {
        d.insert(k, n)
    }
}

/// The notes of `s` keyed by id, the later occurrence winning, sorted
/// strictly by id.
pub open spec fn spec_dedup(s: Seq<CylheimChartNote>) -> Seq<CylheimChartNote>
    decreases s.len(),
{
    if s.len() == 0 {
        Seq::empty()
    } else {
        spec_insert_note(spec_dedup(s.drop_last()), s.last())
    }
}

/// Strictly ascending ids.
pub open spec fn sorted_by_id(d: Seq<CylheimChartNote>) -> bool {
    forall|i: int, j: int| 0 <= i < j < d.len() ==> (#[trigger] d[i]).id < (#[trigger] d[j]).id
}

/// Inserting keeps the ids strictly ascending.
proof fn lemma_insert_note_sorted(d: Seq<CylheimChartNote>, n: CylheimChartNote)
    requires
        sorted_by_id(d),
    ensures
        sorted_by_id(spec_insert_note(d, n)),
{
    let k = insert_pos(d, n.id);
    lemma_insert_pos_bounds(d, n.id);
    if k < d.len() && d[k].id == n.id {
        let r = d.update(k, n);
        assert forall|i: int, j: int| 0 <= i < j < r.len() implies (#[trigger] r[i]).id < (
        #[trigger] r[j]).id by {
            assert(d[i].id < d[j].id);
        };
    } else {
        // in this branch the id at the insertion point, if any, is strictly
        // larger
        assert(k < d.len() ==> d[k].id > n.id);
        let r = d.insert(k, n);
        assert forall|i: int, j: int| 0 <= i < j < r.len() implies (#[trigger] r[i]).id < (
        #[trigger] r[j]).id by {
            if j < k {
                assert(r[i] == d[i] && r[j] == d[j]);
            } else if i < k && j == k {
                assert(r[i] == d[i] && r[j] == n);
            } else if i < k && j > k {
                assert(r[i] == d[i] && r[j] == d[j - 1]);
                assert(i < j - 1 || i == j - 1);
                if i == j - 1 {
                    assert(k <= j - 1 && i < k);
                } else {
                    assert(d[i].id < d[j - 1].id);
                }
            } else if i == k {
                assert(r[i] == n && r[j] == d[j - 1]);
                assert(j - 1 >= k);
                assert(k < d.len());
                if j - 1 > k {
                    assert(d[k].id < d[j - 1].id);
                }
            } else {
                assert(r[i] == d[i - 1] && r[j] == d[j - 1]);
                assert(d[i - 1].id < d[j - 1].id);
            }
        };
    }
}

/// The insertion point never passes the end, and everything before it is
/// smaller, everything from it on at least as large.
proof fn lemma_insert_pos_bounds(d: Seq<CylheimChartNote>, id: u32)
    ensures
        0 <= insert_pos(d, id) <= d.len(),
        forall|j: int| 0 <= j < insert_pos(d, id) ==> (#[trigger] d[j]).id < id,
        sorted_by_id(d) && insert_pos(d, id) < d.len() ==> d[insert_pos(d, id)].id >= id,
    decreases d.len(),
{
    if d.len() == 0 || d[0].id >= id {
    } else {
        lemma_insert_pos_bounds(d.skip(1), id);
        assert forall|j: int| 0 <= j < insert_pos(d, id) implies (#[trigger] d[j]).id < id by {
            if j > 0 {
                assert(d.skip(1)[j - 1].id < id);
            }
        };
        if sorted_by_id(d) && insert_pos(d, id) < d.len() {
            assert(sorted_by_id(d.skip(1))) by {
                assert(forall|i: int, j: int|
                    0 <= i < j < d.skip(1).len() ==> (#[trigger] d.skip(1)[i]).id < (
                    #[trigger] d.skip(1)[j]).id);
            };
            assert(d[insert_pos(d, id)] == d.skip(1)[insert_pos(d, id) - 1]);
        }
    }
}

/// The deduplicated list is sorted strictly by id.
pub proof fn lemma_dedup_sorted(s: Seq<CylheimChartNote>)
    ensures
        sorted_by_id(spec_dedup(s)),
    decreases s.len(),
{
    if s.len() == 0 {
    } else {
        lemma_dedup_sorted(s.drop_last());
        lemma_insert_note_sorted(spec_dedup(s.drop_last()), s.last());
    }
}

/// Builds the deduplicated, id-sorted note list: one entry per id, the last
/// occurrence in `notes` winning.
fn dedup_notes(notes: &Vec<CylheimChartNote>) -> (d: Vec<CylheimChartNote>)
    ensures
        d@ == spec_dedup(notes@),
        sorted_by_id(d@),
{
    let mut d: Vec<CylheimChartNote> = Vec::new();
    let mut i: usize = 0;
    proof {
        assert(notes@.take(0) =~= Seq::<CylheimChartNote>::empty());
    }
    while i < notes.len()
        invariant
            i <= notes@.len(),
            d@ == spec_dedup(notes@.take(i as int)),
            sorted_by_id(d@),
        decreases notes.len() - i,
    {
        let n = notes[i];
        let ghost dold = d@;
        // find the insertion point
        let mut k: usize = 0;
        while k < d.len() && d[k].id < n.id
            invariant
                d@ == dold,
                k <= d@.len(),
                forall|j: int| 0 <= j < k ==> (#[trigger] d@[j]).id < n.id,
            decreases d.len() - k,
        {
            k = k + 1;
        }
        proof {
            lemma_insert_pos(d@, n.id, k as int);
        }
        if k < d.len() && d[k].id == n.id {
            d.set(k, n);
            proof {
                assert(d@ =~= dold.update(k as int, n));
            }
        } else {
            d.insert(k, n);
            proof {
                assert(d@ =~= dold.insert(k as int, n));
            }
        }
        proof {
            assert(d@ == spec_insert_note(dold, n));
            lemma_insert_note_sorted(dold, n);
            assert(notes@.take(i as int + 1).drop_last() =~= notes@.take(i as int));
            assert(notes@.take(i as int + 1).last() == n);
            assert(d@ == spec_dedup(notes@.take(i as int + 1)));
        }
        i = i + 1;
    }
    proof {
        assert(notes@.take(i as int) =~= notes@);
    }
    d
}

/// Index of the first note with the given id, `-1` when absent.
pub open spec fn find_note_idx(d: Seq<CylheimChartNote>, id: u32) -> int
    decreases d.len(),
{
    if d.len() == 0 {
        -1
    } else if d[0].id == id {
        0
    } else {
        let r = find_note_idx(d.skip(1), id);
        if r == -1 {
            -1
        } else {
            r + 1
        }
    }
}

/// What `find_note_idx` returns: a valid index bearing the id, or `-1` when
/// no note bears it.
pub(crate) proof fn lemma_find_note_idx(d: Seq<CylheimChartNote>, id: u32)
    ensures
        find_note_idx(d, id) == -1 ==> forall|j: int|
            0 <= j < d.len() ==> (#[trigger] d[j]).id != id,
        find_note_idx(d, id) != -1 ==> 0 <= find_note_idx(d, id) < d.len() && d[find_note_idx(
            d,
            id,
        )].id == id,
    decreases d.len(),
{
    if d.len() == 0 {
    } else if d[0].id == id {
    } else {
        lemma_find_note_idx(d.skip(1), id);
        if find_note_idx(d, id) == -1 {
            assert forall|j: int| 0 <= j < d.len() implies (#[trigger] d[j]).id != id by {
                if j > 0 {
                    assert(d.skip(1)[j - 1].id != id);
                }
            };
        } else {
            assert(d[find_note_idx(d, id)] == d.skip(1)[find_note_idx(d.skip(1), id)]);
        }
    }
}

/// How many notes of `d` carry an id outside `visited`.
pub open spec fn unvisited_count(d: Seq<CylheimChartNote>, visited: Set<u32>) -> nat
    decreases d.len(),
{
    if d.len() == 0 {
        0
    } else {
        unvisited_count(d.drop_last(), visited) + if visited.contains(d.last().id) {
            0nat
        } else {
            1nat
        }
    }
}

/// Marking an id visited never raises the count, and strictly lowers it
/// when some note carries that id unvisited.
proof fn lemma_unvisited_insert(d: Seq<CylheimChartNote>, visited: Set<u32>, id: u32)
    ensures
        unvisited_count(d, visited.insert(id)) <= unvisited_count(d, visited),
        (exists|j: int| 0 <= j < d.len() && (#[trigger] d[j]).id == id) && !visited.contains(id)
            ==> unvisited_count(d, visited.insert(id)) < unvisited_count(d, visited),
    decreases d.len(),
{
    if d.len() == 0 {
    } else {
        lemma_unvisited_insert(d.drop_last(), visited, id);
        if (exists|j: int| 0 <= j < d.len() && (#[trigger] d[j]).id == id) && !visited.contains(
            id,
        ) {
            let j = choose|j: int| 0 <= j < d.len() && (#[trigger] d[j]).id == id;
            if j == d.len() - 1 {
                assert(d.last().id == id);
                assert(visited.insert(id).contains(d.last().id));
            } else {
                assert(d.drop_last()[j].id == id);
            }
        }
    }
}

/// The ids collected by following `next_id` pointers from `cur`: `cur`
/// itself, then, while the current id names a real, not yet consumed note
/// with a non-negative `next_id`, the notes it leads to. An id that names no
/// note is still recorded before the walk stops; a pointer back into
/// already-consumed notes stops the walk, which keeps every note consumed at
/// most once and every walk finite.
pub open spec fn spec_chain(d: Seq<CylheimChartNote>, visited: Set<u32>, cur: u32) -> Seq<u32>
    decreases unvisited_count(d, visited),
    via spec_chain_dec
{
    let j = find_note_idx(d, cur);
    if j == -1 {
        seq![cur]
    } else if visited.contains(cur) {
        Seq::empty()
    } else if d[j].next_id >= 0 {
        seq![cur] + spec_chain(d, visited.insert(cur), d[j].next_id as u32)
    } else {
        seq![cur]
    }
}

#[via_fn]
proof fn spec_chain_dec(d: Seq<CylheimChartNote>, visited: Set<u32>, cur: u32) {
    lemma_find_note_idx(d, cur);
    if find_note_idx(d, cur) != -1 && !visited.contains(cur) {
        assert(d[find_note_idx(d, cur)].id == cur);
        lemma_unvisited_insert(d, visited, cur);
    }
}

/// The consumed ids after the walk of `spec_chain`.
pub open spec fn spec_chain_visited(d: Seq<CylheimChartNote>, visited: Set<u32>, cur: u32) -> Set<
    u32,
>
    decreases unvisited_count(d, visited),
    via spec_chain_visited_dec
{
    let j = find_note_idx(d, cur);
    if j == -1 {
        visited
    } else if visited.contains(cur) {
        visited
    } else if d[j].next_id >= 0 {
        spec_chain_visited(d, visited.insert(cur), d[j].next_id as u32)
    } else {
        visited.insert(cur)
    }
}

#[via_fn]
proof fn spec_chain_visited_dec(d: Seq<CylheimChartNote>, visited: Set<u32>, cur: u32) {
    lemma_find_note_idx(d, cur);
    if find_note_idx(d, cur) != -1 && !visited.contains(cur) {
        assert(d[find_note_idx(d, cur)].id == cur);
        lemma_unvisited_insert(d, visited, cur);
    }
}

/// All chains, walking the id-sorted notes in order and starting one chain
/// at every drag head not already consumed.
pub open spec fn spec_links_fold(d: Seq<CylheimChartNote>, i: int, visited: Set<u32>) -> Seq<
    Seq<u32>,
>
    decreases d.len() - i,
{
    if !(0 <= i < d.len()) {
        Seq::empty()
    } else if d[i].note_type == 3 && !visited.contains(d[i].id) {
        seq![spec_chain(d, visited, d[i].id)] + spec_links_fold(
            d,
            i + 1,
            spec_chain_visited(d, visited, d[i].id),
        )
    } else {
        spec_links_fold(d, i + 1, visited)
    }
}

/// The ids marked visited in the boolean side table.
pub open spec fn vset(d: Seq<CylheimChartNote>, vb: Seq<bool>) -> Set<u32> {
    Set::new(|id: u32| exists|j: int| 0 <= j < d.len() && (#[trigger] d[j]).id == id && vb[j])
}

/// Finds the index of the note with the given id.
pub(crate) fn find_note_idx_exec(d: &Vec<CylheimChartNote>, id: u32) -> (r: Option<usize>)
    ensures
        match r {
            Some(j) => find_note_idx(d@, id) == j as int && j < d@.len() && d@[j as int].id == id,
            None => find_note_idx(d@, id) == -1,
        },
{
    let mut i: usize = 0;
    while i < d.len()
        invariant
            i <= d@.len(),
            forall|j: int| 0 <= j < i ==> (#[trigger] d@[j]).id != id,
        decreases d.len() - i,
    {
        if d[i].id == id {
            proof {
                lemma_find_note_idx_at(d@, id, i as int);
            }
            return Some(i);
        }
        i = i + 1;
    }
    proof {
        lemma_find_note_idx(d@, id);
        if find_note_idx(d@, id) != -1 {
            assert(d@[find_note_idx(d@, id)].id == id);
        }
    }
    None
}

/// `find_note_idx` returns the first index bearing the id.
proof fn lemma_find_note_idx_at(d: Seq<CylheimChartNote>, id: u32, k: int)
    requires
        0 <= k < d.len(),
        d[k].id == id,
        forall|j: int| 0 <= j < k ==> (#[trigger] d[j]).id != id,
    ensures
        find_note_idx(d, id) == k,
    decreases d.len(),
{
    if d[0].id == id {
    } else {
        assert forall|j: int| 0 <= j < k - 1 implies (#[trigger] d.skip(1)[j]).id != id by {
            assert(d.skip(1)[j] == d[j + 1]);
        };
        assert(d.skip(1)[k - 1].id == id);
        lemma_find_note_idx_at(d.skip(1), id, k - 1);
    }
}

/// Walks one chain from `cur`, marking the notes it consumes.
fn chain_walk(d: &Vec<CylheimChartNote>, vb: &mut Vec<bool>, cur: u32) -> (res: Vec<u32>)
    requires
        old(vb)@.len() == d@.len(),
        sorted_by_id(d@),
    ensures
        final(vb)@.len() == d@.len(),
        res@ == spec_chain(d@, vset(d@, old(vb)@), cur),
        vset(d@, final(vb)@) == spec_chain_visited(d@, vset(d@, old(vb)@), cur),
    decreases unvisited_count(d@, vset(d@, old(vb)@)),
{
    let ghost vs = vset(d@, vb@);
    match find_note_idx_exec(d, cur) {
        None => {
            let mut res: Vec<u32> = Vec::new();
            res.push(cur);
            proof {
                assert(res@ =~= seq![cur]);
            }
            res
        },
        Some(j) => {
            if vb[j] {
                proof {
                    assert(vs.contains(cur));
                }
                let res: Vec<u32> = Vec::new();
                proof {
                    assert(res@ =~= Seq::<u32>::empty());
                }
                res
            } else {
                proof {
                    assert(!vs.contains(cur)) by {
                        if vs.contains(cur) {
                            let k = choose|k: int|
                                0 <= k < d@.len() && (#[trigger] d@[k]).id == cur && vb@[k];
                            assert(k == j) by {
                                if k < j {
                                    assert(d@[k].id < d@[j as int].id);
                                } else if k > j {
                                    assert(d@[j as int].id < d@[k].id);
                                }
                            };
                        }
                    };
                }
                let ghost vbold = vb@;
                vb.set(j, true);
                proof {
                    assert(vset(d@, vb@) =~= vs.insert(cur)) by {
                        assert forall|id: u32| vset(d@, vb@).contains(id) implies vs.insert(
                            cur,
                        ).contains(id) by {
                            let k = choose|k: int|
                                0 <= k < d@.len() && (#[trigger] d@[k]).id == id && vb@[k];
                            if k != j {
                                assert(vbold[k]);
                            }
                        };
                        assert forall|id: u32| vs.insert(cur).contains(id) implies vset(
                            d@,
                            vb@,
                        ).contains(id) by {
                            if id == cur {
                                assert(d@[j as int].id == cur && vb@[j as int]);
                            } else {
                                let k = choose|k: int|
                                    0 <= k < d@.len() && (#[trigger] d@[k]).id == id && vbold[k];
                                assert(k != j);
                                assert(vb@[k]);
                            }
                        };
                    };
                    lemma_unvisited_insert(d@, vs, cur);
                }
                let nxt = d[j].next_id;
                if nxt >= 0 {
                    let rest = chain_walk(d, vb, nxt as u32);
                    let mut res: Vec<u32> = Vec::new();
                    res.push(cur);
                    let mut rest2 = rest;
                    res.append(&mut rest2);
                    proof {
                        assert(res@ =~= seq![cur] + spec_chain(d@, vs.insert(cur), nxt as u32));
                    }
                    res
                } else {
                    let mut res: Vec<u32> = Vec::new();
                    res.push(cur);
                    proof {
                        assert(res@ =~= seq![cur]);
                    }
                    res
                }
            }
        },
    }
}

/// The chain order is reflexive.
proof fn lemma_link_le_refl(a: Seq<u32>)
    ensures
        crate::cytus1_chart::spec_link_le(a, a),
    decreases a.len(),
{
    if a.len() > 0 {
        lemma_link_le_refl(a.skip(1));
    }
}

/// The chain order is antisymmetric.
proof fn lemma_link_le_antisym(a: Seq<u32>, b: Seq<u32>)
    requires
        crate::cytus1_chart::spec_link_le(a, b),
        crate::cytus1_chart::spec_link_le(b, a),
    ensures
        a == b,
    decreases a.len(),
{
    if a.len() == 0 {
        assert(b.len() == 0);
        assert(a =~= b);
    } else {
        lemma_link_le_antisym(a.skip(1), b.skip(1));
        assert(a =~= seq![a[0]] + a.skip(1));
        assert(b =~= seq![b[0]] + b.skip(1));
    }
}

/// Number of leading chains ordered at or before `l`: the stable insertion
/// point.
pub open spec fn link_insert_pos(ls: Seq<Seq<u32>>, l: Seq<u32>) -> int
    decreases ls.len(),
{
    if ls.len() == 0 || !crate::cytus1_chart::spec_link_le(ls[0], l) {
        0
    } else {
        1 + link_insert_pos(ls.skip(1), l)
    }
}

/// `link_insert_pos` is the unique boundary.
proof fn lemma_link_insert_pos(ls: Seq<Seq<u32>>, l: Seq<u32>, k: int)
    requires
        0 <= k <= ls.len(),
        forall|j: int| 0 <= j < k ==> crate::cytus1_chart::spec_link_le(#[trigger] ls[j], l),
        k == ls.len() || !crate::cytus1_chart::spec_link_le(ls[k], l),
    ensures
        link_insert_pos(ls, l) == k,
    decreases ls.len(),
{
    if ls.len() == 0 || !crate::cytus1_chart::spec_link_le(ls[0], l) {
    } else {
        lemma_link_insert_pos(ls.skip(1), l, k - 1);
    }
}

/// Inserts a chain at its stable sorted position.
pub open spec fn spec_insert_link(ls: Seq<Seq<u32>>, l: Seq<u32>) -> Seq<Seq<u32>> {
    ls.insert(link_insert_pos(ls, l), l)
}

/// Sorts chains by the lexicographic order, stably, by repeated insertion.
pub open spec fn spec_sort_links(ls: Seq<Seq<u32>>) -> Seq<Seq<u32>>
    decreases ls.len(),
{
    if ls.len() == 0 {
        Seq::empty()
    } else {
        spec_insert_link(spec_sort_links(ls.drop_last()), ls.last())
    }
}

/// Sorts the chains in lexicographic order; chains that compare equal keep
/// their relative order.
pub fn sort_links(links: Vec<Cytus1ChartLink>) -> (r: Vec<Cytus1ChartLink>)
    ensures
        crate::cytus1_chart::links_view(r@) == spec_sort_links(
            crate::cytus1_chart::links_view(links@),
        ),
{
    let ghost lv = crate::cytus1_chart::links_view(links@);
    let mut out: Vec<Cytus1ChartLink> = Vec::new();
    let mut i: usize = 0;
    proof {
        assert(lv.take(0) =~= Seq::<Seq<u32>>::empty());
        assert(crate::cytus1_chart::links_view(out@) =~= spec_sort_links(lv.take(0)));
    }
    while i < links.len()
        invariant
            lv == crate::cytus1_chart::links_view(links@),
            lv.len() == links@.len(),
            i <= links@.len(),
            crate::cytus1_chart::links_view(out@) == spec_sort_links(lv.take(i as int)),
        decreases links.len() - i,
    {
        let mut lvec: Vec<u32> = Vec::new();
        let mut t: usize = 0;
        while t < links[i].link.len()
            invariant
                i < links@.len(),
                t <= links@[i as int].link@.len(),
                lvec@ == links@[i as int].link@.take(t as int),
            decreases links@[i as int].link@.len() - t,
        {
            lvec.push(links[i].link[t]);
            proof {
                assert(lvec@ =~= links@[i as int].link@.take(t as int + 1));
            }
            t = t + 1;
        }
        let l = Cytus1ChartLink { link: lvec };
        proof {
            assert(links@[i as int].link@.take(t as int) =~= links@[i as int].link@);
            assert(l.link@ == lv[i as int]);
        }
        let ghost ov = crate::cytus1_chart::links_view(out@);
        let mut k: usize = 0;
        let mut searching = true;
        while searching && k < out.len()
            invariant
                crate::cytus1_chart::links_view(out@) == ov,
                l.link@ == lv[i as int],
                i < lv.len(),
                k <= out@.len(),
                forall|j: int|
                    0 <= j < k ==> crate::cytus1_chart::spec_link_le(#[trigger] ov[j], lv[i as int]),
                !searching ==> k < out@.len() && !crate::cytus1_chart::spec_link_le(
                    ov[k as int],
                    lv[i as int],
                ),
            decreases out.len() - k, (if searching {
                1int
            } else {
                0int
            }),
        {
            let c = crate::cytus1_chart::compare_links(&out[k], &l);
            match c {
                core::cmp::Ordering::Greater => {
                    proof {
                        assert(!crate::cytus1_chart::spec_link_le(ov[k as int], lv[i as int])) by {
                            if crate::cytus1_chart::spec_link_le(ov[k as int], lv[i as int]) {
                                lemma_link_le_antisym(ov[k as int], lv[i as int]);
                            }
                        };
                    }
                    searching = false;
                },
                core::cmp::Ordering::Equal => {
                    proof {
                        lemma_link_le_refl(ov[k as int]);
                    }
                    k = k + 1;
                },
                core::cmp::Ordering::Less => {
                    k = k + 1;
                },
            }
        }
        proof {
            lemma_link_insert_pos(ov, lv[i as int], k as int);
        }
        let ghost oldout = out@;
        out.insert(k, l);
        proof {
            assert(crate::cytus1_chart::links_view(out@) =~= ov.insert(k as int, lv[i as int]));
            assert(lv.take(i as int + 1).drop_last() =~= lv.take(i as int));
            assert(lv.take(i as int + 1).last() == lv[i as int]);
            assert(crate::cytus1_chart::links_view(out@) == spec_sort_links(lv.take(i as int + 1)));
        }
        i = i + 1;
    }
    proof {
        assert(lv.take(i as int) =~= lv);
    }
    out
}

/// The decimal rendering of `n` as a `String`.
pub fn dec_string(n: u64) -> (r: String)
    ensures
        r@ == crate::text::dec_digits(n as nat).map(|i: int, b: u8| b as char),
{
    let mut bytes: Vec<u8> = Vec::new();
    crate::text::push_dec(&mut bytes, n);
    proof {
        crate::text::lemma_dec_digits_wf(n as nat);
        assert(bytes@ =~= crate::text::dec_digits(n as nat));
    }
    crate::text::ascii_to_string(&bytes)
}

/// The signed decimal rendering of `v` as a `String`.
fn signed_dec_string(v: i64) -> (r: String)
{
    if v < 0 {
        let mut m = String::new();
        m.append("-");
        let mag: u64 = if v == i64::MIN {
            9223372036854775808u64
        } else {
            (-v) as u64
        };
        let d = dec_string(mag);
        m.append(d.as_str());
        m
    } else {
        dec_string(v as u64)
    }
}

/// The note the target chart derives from a source note: the same id, the
/// tick mapped to microseconds, the same `x`, and for a hold note the hold
/// length mapped the same way.
pub open spec fn spec_c1_note(n: CylheimChartNote, tempo: nat, time_base: nat) -> Cytus1ChartNote {
    Cytus1ChartNote {
        id: n.id,
        time_micros: spec_time_micros(tempo, time_base, n.tick as nat) as u64,
        x_micros: n.x_micros as u64,
        hold_length_micros: if n.note_type == 1 {
            spec_time_micros(tempo, time_base, n.hold_tick as nat) as u64
        } else {
            0
        },
    }
}

impl CylheimChart {
    /// Converts the chart to the target format, with the given page shift in
    /// microseconds (zero when absent). Validation rejects, in this order:
    /// a note with an illegal type or an `x` outside the playfield; an empty
    /// page or tempo list; a page sized unlike the first; a tempo valued
    /// unlike the first; a zero time base or zero first tempo. On success
    /// the notes are keyed by id (the later of two notes with one id wins)
    /// and sorted ascending, and the drag chains are extracted head by head
    /// and sorted lexicographically.
    pub fn to_cytus1_chart_directly(&self, page_shift_micros: Option<u64>) -> (r: Result<
        Cytus1Chart,
        CylToolError,
    >)
        ensures
            r is Ok <==> spec_convert_err(*self) is None,
            r matches Err(e) ==> Some(e.kind) == spec_convert_err(*self),
            r matches Ok(t) ==> {
                let tempo = self.tempo_list@[0].value as nat;
                let tb = self.time_base as nat;
                &&& t.version == 2
                &&& t.bpm_micros as nat == spec_bpm_micros(tempo)
                &&& t.page_shift_micros == (match page_shift_micros {
                    Some(v) => v,
                    None => 0u64,
                })
                &&& t.page_size_micros == 2 * self.tempo_list@[0].value
                &&& t.notes@ == spec_dedup(self.note_list@).map(
                    |i: int, n: CylheimChartNote| spec_c1_note(n, tempo, tb),
                )
                &&& crate::cytus1_chart::links_view(t.links@) == spec_sort_links(
                    spec_links_fold(spec_dedup(self.note_list@), 0, Set::empty()),
                )
            },
    {
        // structural validation, in the order the rules are stated
        let mut i: usize = 0;
        while i < self.note_list.len()
            invariant
                i <= self.note_list@.len(),
                forall|j: int| 0 <= j < i ==> note_ok(#[trigger] self.note_list@[j]),
            decreases self.note_list.len() - i,
        {
            let n = self.note_list[i];
            if !(n.note_type == 0 || n.note_type == 1 || n.note_type == 3 || n.note_type == 4) {
                let mut m = String::new();
                m.append("Note ");
                let a = dec_string(n.id as u64);
                m.append(a.as_str());
                m.append(" have an invalid type ");
                let b = dec_string(n.note_type as u64);
                m.append(b.as_str());
                m.append(".");
                proof {
                    assert(!note_ok(self.note_list@[i as int]));
                }
                return Err(CylToolError::with_kind(CylToolErrorKind::InvalidChart, m));
            }
            if n.x_micros < 0 || n.x_micros > 1000000 {
                let mut m = String::new();
                m.append("Note ");
                let a = dec_string(n.id as u64);
                m.append(a.as_str());
                m.append(" have an invalid x ");
                let b = signed_dec_string(n.x_micros);
                m.append(b.as_str());
                m.append(".");
                proof {
                    assert(!note_ok(self.note_list@[i as int]));
                }
                return Err(CylToolError::with_kind(CylToolErrorKind::InvalidChart, m));
            }
            i = i + 1;
        }
        if self.page_list.len() == 0 || self.tempo_list.len() == 0 {
            let mut m = String::new();
            m.append("Chart has no pages or no tempo entries.");
            return Err(CylToolError::with_kind(CylToolErrorKind::EmptyChart, m));
        }
        let base_page_size = self.page_list[0].get_page_size();
        let mut pi: usize = 0;
        while pi < self.page_list.len()
            invariant
                pi <= self.page_list@.len(),
                self.page_list@.len() > 0,
                self.tempo_list@.len() > 0,
                forall|j: int|
                    0 <= j < self.note_list@.len() ==> note_ok(#[trigger] self.note_list@[j]),
                base_page_size == self.page_list@[0].end_tick - self.page_list@[0].start_tick,
                forall|j: int|
                    0 <= j < pi ==> (#[trigger] self.page_list@[j]).end_tick
                        - self.page_list@[j].start_tick == base_page_size,
            decreases self.page_list.len() - pi,
        {
            let sz = self.page_list[pi].get_page_size();
            if sz != base_page_size {
                let mut m = String::new();
                m.append("Page ");
                let a = dec_string(pi as u64);
                m.append(a.as_str());
                m.append(" have an invalid pagesize ");
                let b = signed_dec_string(sz);
                m.append(b.as_str());
                m.append(".");
                return Err(CylToolError::with_kind(CylToolErrorKind::InvalidChart, m));
            }
            pi = pi + 1;
        }
        let base_tempo = self.tempo_list[0];
        let mut ti: usize = 0;
        while ti < self.tempo_list.len()
            invariant
                ti <= self.tempo_list@.len(),
                self.tempo_list@.len() > 0,
                self.page_list@.len() > 0,
                base_tempo == self.tempo_list@[0],
                forall|j: int|
                    0 <= j < self.note_list@.len() ==> note_ok(#[trigger] self.note_list@[j]),
                forall|j: int|
                    0 <= j < self.page_list@.len() ==> (#[trigger] self.page_list@[j]).end_tick
                        - self.page_list@[j].start_tick == self.page_list@[0].end_tick
                        - self.page_list@[0].start_tick,
                forall|j: int|
                    0 <= j < ti ==> (#[trigger] self.tempo_list@[j]).value == base_tempo.value,
            decreases self.tempo_list.len() - ti,
        {
            let t = self.tempo_list[ti];
            if t.value != base_tempo.value {
                let mut m = String::new();
                m.append("Tick ");
                let a = dec_string(t.tick as u64);
                m.append(a.as_str());
                m.append(" have an invalid tempo ");
                let b = dec_string(t.value as u64);
                m.append(b.as_str());
                m.append(".");
                return Err(CylToolError::with_kind(CylToolErrorKind::InvalidChart, m));
            }
            ti = ti + 1;
        }
        if self.time_base == 0 || base_tempo.value == 0 {
            let mut m = String::new();
            m.append("Chart has a zero time base or a zero tempo.");
            return Err(CylToolError::with_kind(CylToolErrorKind::InvalidChart, m));
        }
        proof {
            assert(spec_convert_err(*self) is None);
        }
        // id-keyed, id-sorted notes
        let d = dedup_notes(&self.note_list);
        let ghost dv = d@;
        let tempo = base_tempo.value;
        let tb = self.time_base;
        let mut c1_notes: Vec<Cytus1ChartNote> = Vec::new();
        let mut ni: usize = 0;
        proof {
            assert(c1_notes@ =~= dv.take(0).map(
                |i: int, n: CylheimChartNote| spec_c1_note(n, tempo as nat, tb as nat),
            ));
        }
        while ni < d.len()
            invariant
                dv == d@,
                dv == spec_dedup(self.note_list@),
                ni <= dv.len(),
                tb >= 1,
                forall|j: int|
                    0 <= j < self.note_list@.len() ==> note_ok(#[trigger] self.note_list@[j]),
                c1_notes@ == dv.take(ni as int).map(
                    |i: int, n: CylheimChartNote| spec_c1_note(n, tempo as nat, tb as nat),
                ),
            decreases d.len() - ni,
        {
            let n = d[ni];
            let time_v = tick_time_micros(tempo, tb, n.tick);
            let hold_v = if n.note_type == 1 {
                tick_time_micros(tempo, tb, n.hold_tick)
            } else {
                0
            };
            proof {
                assert(0 <= n.x_micros <= 1000000) by {
                    lemma_dedup_membership(self.note_list@, ni as int);
                    let j = choose|j: int|
                        0 <= j < self.note_list@.len() && #[trigger] self.note_list@[j]
                            == dv[ni as int];
                    assert(note_ok(self.note_list@[j]));
                };
            }
            c1_notes.push(
                Cytus1ChartNote {
                    id: n.id,
                    time_micros: time_v,
                    x_micros: n.x_micros as u64,
                    hold_length_micros: hold_v,
                },
            );
            proof {
                assert(c1_notes@ =~= dv.take(ni as int + 1).map(
                    |i: int, n: CylheimChartNote| spec_c1_note(n, tempo as nat, tb as nat),
                ));
            }
            ni = ni + 1;
        }
        proof {
            assert(dv.take(ni as int) =~= dv);
            assert(dv.map(|i: int, n: CylheimChartNote| spec_c1_note(n, tempo as nat, tb as nat))
                =~= spec_dedup(self.note_list@).map(
                |i: int, n: CylheimChartNote| spec_c1_note(
                    n,
                    self.tempo_list@[0].value as nat,
                    self.time_base as nat,
                ),
            ));
        }
        // drag chains
        let mut vb: Vec<bool> = Vec::new();
        let mut vi: usize = 0;
        while vi < d.len()
            invariant
                vi <= d@.len(),
                vb@.len() == vi,
                forall|j: int| 0 <= j < vi ==> !(#[trigger] vb@[j]),
            decreases d.len() - vi,
        {
            vb.push(false);
            vi = vi + 1;
        }
        proof {
            assert(vset(dv, vb@) =~= Set::<u32>::empty());
        }
        let mut links: Vec<Cytus1ChartLink> = Vec::new();
        let mut li: usize = 0;
        proof {
            assert(crate::cytus1_chart::links_view(links@) + spec_links_fold(dv, 0, Set::empty())
                =~= spec_links_fold(dv, 0, vset(dv, vb@)));
        }
        while li < d.len()
            invariant
                dv == d@,
                sorted_by_id(dv),
                li <= dv.len(),
                vb@.len() == dv.len(),
                spec_links_fold(dv, 0, Set::empty()) == crate::cytus1_chart::links_view(links@)
                    + spec_links_fold(dv, li as int, vset(dv, vb@)),
            decreases d.len() - li,
        {
            let ghost vs = vset(dv, vb@);
            let ghost prevl = crate::cytus1_chart::links_view(links@);
            if d[li].note_type == 3 && !vb[li] {
                proof {
                    assert(!vs.contains(dv[li as int].id)) by {
                        if vs.contains(dv[li as int].id) {
                            let k = choose|k: int|
                                0 <= k < dv.len() && (#[trigger] dv[k]).id == dv[li as int].id
                                    && vb@[k];
                            if k < li {
                                assert(dv[k].id < dv[li as int].id);
                            } else if k > li {
                                assert(dv[li as int].id < dv[k].id);
                            }
                        }
                    };
                }
                let chain = chain_walk(&d, &mut vb, d[li].id);
                links.push(Cytus1ChartLink { link: chain });
                proof {
                    assert(crate::cytus1_chart::links_view(links@) =~= prevl + seq![
                        spec_chain(dv, vs, dv[li as int].id),
                    ]);
                    assert(prevl + (seq![spec_chain(dv, vs, dv[li as int].id)] + spec_links_fold(
                        dv,
                        li as int + 1,
                        spec_chain_visited(dv, vs, dv[li as int].id),
                    )) =~= (prevl + seq![spec_chain(dv, vs, dv[li as int].id)]) + spec_links_fold(
                        dv,
                        li as int + 1,
                        spec_chain_visited(dv, vs, dv[li as int].id),
                    ));
                }
            } else {
                proof {
                    if d@[li as int].note_type == 3 {
                        assert(vb@[li as int]);
                        assert(vs.contains(dv[li as int].id));
                    }
                }
            }
            li = li + 1;
        }
        proof {
            assert(spec_links_fold(dv, li as int, vset(dv, vb@)) =~= Seq::<Seq<u32>>::empty());
            assert(crate::cytus1_chart::links_view(links@) + Seq::<Seq<u32>>::empty()
                =~= crate::cytus1_chart::links_view(links@));
        }
        let sorted = sort_links(links);
        let bpm = bpm_micros(tempo);
        let shift = match page_shift_micros {
            Some(v) => v,
            None => 0,
        };
        Ok(
            Cytus1Chart {
                version: 2,
                bpm_micros: bpm,
                page_shift_micros: shift,
                page_size_micros: 2 * tempo as u64,
                notes: c1_notes,
                links: sorted,
            },
        )
    }
}

/// The bytes of the legacy-format marker `#DEFINE CYTUS1`.
pub open spec fn legacy_marker() -> Seq<u8> {
    seq![35u8, 68u8, 69u8, 70u8, 73u8, 78u8, 69u8, 32u8, 67u8, 89u8, 84u8, 85u8, 83u8, 49u8]
}

/// The legacy-format marker is present: a single event entry at tick zero
/// holding a single event whose arguments contain the marker.
pub open spec fn spec_flag_ok(c: CylheimChart) -> bool {
    &&& c.event_order_list@.len() == 1
    &&& c.event_order_list@[0].tick == 0
    &&& c.event_order_list@[0].event_list@.len() == 1
    &&& crate::text::contains_seq(
        c.event_order_list@[0].event_list@[0].event_args@,
        legacy_marker(),
    )
}

/// The tempo list has a shape the legacy mode accepts: either one entry at
/// tick zero with a positive value, or a zero-valued placeholder at tick
/// zero followed by the real tempo, whose tick is positive and within twice
/// the first page's length, on a chart whose first page scans upward.
pub open spec fn spec_legacy_tempo_ok(c: CylheimChart) -> bool {
    if c.tempo_list@.len() == 2 {
        &&& c.page_list@.len() > 0
        &&& c.tempo_list@[0].tick == 0
        &&& c.tempo_list@[0].value == 0
        &&& c.tempo_list@[1].tick > 0
        &&& (c.tempo_list@[1].tick as int) < 2 * (c.page_list@[0].end_tick
            - c.page_list@[0].start_tick)
        &&& c.page_list@[0].scan_line_direction == 1
    } else if c.tempo_list@.len() == 1 {
        c.tempo_list@[0].tick == 0 && c.tempo_list@[0].value > 0
    } else {
        false
    }
}

/// A note with its tick moved back by `shift` ticks.
pub open spec fn spec_rebase_note(n: CylheimChartNote, shift: u32) -> CylheimChartNote {
    CylheimChartNote { tick: (n.tick - shift) as u32, ..n }
}

impl CylheimChart {
    /// Converts through the legacy page-shift mode. When `use_flag` is set
    /// the chart must carry the legacy-format marker event. The tempo list
    /// must have the legacy shape; the page shift is computed from the last
    /// tempo entry's tick, the tempo list collapses to that entry at tick
    /// zero, the event list is dropped and every note's tick moves back by
    /// the removed tick before the direct conversion runs. A zero time base,
    /// or a note earlier than the removed tick, is rejected as an invalid
    /// chart rather than left to wrap.
    pub fn to_cytus1_chart_with_pageshift(&self, use_flag: bool) -> (r: Result<
        Cytus1Chart,
        CylToolError,
    >)
        ensures
            use_flag && !spec_flag_ok(*self) ==> (r matches Err(e) && e.kind
                == CylToolErrorKind::MissingLegacyMarker),
            (!use_flag || spec_flag_ok(*self)) && !spec_legacy_tempo_ok(*self) ==> (r matches Err(
                e,
            ) && e.kind == CylToolErrorKind::InvalidTempoForLegacyMode),
            (!use_flag || spec_flag_ok(*self)) && spec_legacy_tempo_ok(*self) && (self.time_base
                == 0 || exists|j: int|
                0 <= j < self.note_list@.len() && (#[trigger] self.note_list@[j]).tick
                    < self.tempo_list@[self.tempo_list@.len() - 1].tick) ==> (r matches Err(e)
                && e.kind == CylToolErrorKind::InvalidChart),
            ({
                let t1 = self.tempo_list@[self.tempo_list@.len() - 1];
                let rebased = self.note_list@.map(
                    |i: int, n: CylheimChartNote| spec_rebase_note(n, t1.tick),
                );
                let tempos1 = seq![CylheimChartTempo { tick: 0u32, value: t1.value }];
                ((!use_flag || spec_flag_ok(*self)) && spec_legacy_tempo_ok(*self)
                    && self.time_base >= 1 && (forall|j: int|
                    0 <= j < self.note_list@.len() ==> (#[trigger] self.note_list@[j]).tick
                        >= t1.tick)) ==> {
                    &&& (r is Ok <==> spec_convert_err_parts(
                        rebased,
                        self.page_list@,
                        tempos1,
                        self.time_base,
                    ) is None)
                    &&& (r matches Err(e) ==> Some(e.kind) == spec_convert_err_parts(
                        rebased,
                        self.page_list@,
                        tempos1,
                        self.time_base,
                    ))
                    &&& (r matches Ok(t) ==> {
                        &&& t.version == 2
                        &&& t.bpm_micros as nat == spec_bpm_micros(t1.value as nat)
                        &&& t.page_shift_micros as nat == spec_time_micros(
                            t1.value as nat,
                            self.time_base as nat,
                            t1.tick as nat,
                        )
                        &&& t.page_size_micros == 2 * t1.value
                        &&& t.notes@ == spec_dedup(rebased).map(
                            |i: int, n: CylheimChartNote| spec_c1_note(
                                n,
                                t1.value as nat,
                                self.time_base as nat,
                            ),
                        )
                        &&& crate::cytus1_chart::links_view(t.links@) == spec_sort_links(
                            spec_links_fold(spec_dedup(rebased), 0, Set::empty()),
                        )
                    })
                }
            }),
    {
        // the legacy-format marker
        let mut flag_ok = !use_flag;
        if use_flag {
            if self.event_order_list.len() == 1 {
                let entry = &self.event_order_list[0];
                if entry.tick == 0 && entry.event_list.len() == 1 {
                    let mut marker: Vec<u8> = Vec::new();
                    marker.push(35);
                    marker.push(68);
                    marker.push(69);
                    marker.push(70);
                    marker.push(73);
                    marker.push(78);
                    marker.push(69);
                    marker.push(32);
                    marker.push(67);
                    marker.push(89);
                    marker.push(84);
                    marker.push(85);
                    marker.push(83);
                    marker.push(49);
                    proof {
                        assert(marker@ =~= legacy_marker());
                    }
                    if crate::text::find_sub(
                        entry.event_list[0].event_args.as_slice(),
                        marker.as_slice(),
                    ) {
                        flag_ok = true;
                    }
                }
            }
        }
        if !flag_ok {
            let mut m = String::new();
            m.append("Cannot find cytus1_flag.");
            return Err(CylToolError::with_kind(CylToolErrorKind::MissingLegacyMarker, m));
        }
        // the tempo shape
        let mut tempo_ok = false;
        if self.tempo_list.len() == 2 {
            if self.page_list.len() > 0 {
                let t0 = self.tempo_list[0];
                let t1 = self.tempo_list[1];
                let first_page = self.page_list[0];
                if t0.tick == 0 && t0.value == 0 && t1.tick > 0 && (t1.tick as i64) < 2
                    * first_page.get_page_size() && first_page.scan_line_direction == 1 {
                    tempo_ok = true;
                }
            }
        } else if self.tempo_list.len() == 1 {
            let t0 = self.tempo_list[0];
            tempo_ok = t0.tick == 0 && t0.value > 0;
        }
        proof {
            assert(tempo_ok == spec_legacy_tempo_ok(*self));
        }
        if !tempo_ok {
            let mut m = String::new();
            m.append("Invalid tempo.");
            return Err(CylToolError::with_kind(CylToolErrorKind::InvalidTempoForLegacyMode, m));
        }
        let true_tempo = self.tempo_list[self.tempo_list.len() - 1];
        if self.time_base == 0 {
            let mut m = String::new();
            m.append("Chart has a zero time base.");
            return Err(CylToolError::with_kind(CylToolErrorKind::InvalidChart, m));
        }
        // every note must lie at or after the removed tempo tick
        let mut ci: usize = 0;
        while ci < self.note_list.len()
            invariant
                ci <= self.note_list@.len(),
                !use_flag || spec_flag_ok(*self),
                spec_legacy_tempo_ok(*self),
                self.time_base >= 1,
                true_tempo == self.tempo_list@[self.tempo_list@.len() - 1],
                forall|j: int|
                    0 <= j < ci ==> (#[trigger] self.note_list@[j]).tick >= true_tempo.tick,
            decreases self.note_list.len() - ci,
        {
            if self.note_list[ci].tick < true_tempo.tick {
                let mut m = String::new();
                m.append("Note at tick ");
                let a = dec_string(self.note_list[ci].tick as u64);
                m.append(a.as_str());
                m.append(" lies before the removed tempo tick.");
                return Err(CylToolError::with_kind(CylToolErrorKind::InvalidChart, m));
            }
            ci = ci + 1;
        }
        let page_shift = tick_time_micros(true_tempo.value, self.time_base, true_tempo.tick);
        // rebuild the chart with the collapsed tempo and rebased notes
        let mut new_tempos: Vec<CylheimChartTempo> = Vec::new();
        new_tempos.push(CylheimChartTempo { tick: 0, value: true_tempo.value });
        proof {
            assert(new_tempos@ =~= seq![
                CylheimChartTempo { tick: 0u32, value: true_tempo.value },
            ]);
        }
        let mut new_notes: Vec<CylheimChartNote> = Vec::new();
        let mut ri: usize = 0;
        proof {
            assert(new_notes@ =~= self.note_list@.take(0).map(
                |i: int, n: CylheimChartNote| spec_rebase_note(n, true_tempo.tick),
            ));
        }
        while ri < self.note_list.len()
            invariant
                ri <= self.note_list@.len(),
                true_tempo == self.tempo_list@[self.tempo_list@.len() - 1],
                forall|j: int|
                    0 <= j < self.note_list@.len() ==> (#[trigger] self.note_list@[j]).tick
                        >= true_tempo.tick,
                new_notes@ == self.note_list@.take(ri as int).map(
                    |i: int, n: CylheimChartNote| spec_rebase_note(n, true_tempo.tick),
                ),
            decreases self.note_list.len() - ri,
        {
            let n = self.note_list[ri];
            let mut n2 = n;
            n2.tick = n.tick - true_tempo.tick;
            new_notes.push(n2);
            proof {
                assert(n2 == spec_rebase_note(n, true_tempo.tick));
                assert(new_notes@ =~= self.note_list@.take(ri as int + 1).map(
                    |i: int, n: CylheimChartNote| spec_rebase_note(n, true_tempo.tick),
                ));
            }
            ri = ri + 1;
        }
        proof {
            assert(self.note_list@.take(ri as int) =~= self.note_list@);
        }
        let mut new_pages: Vec<CylheimChartPage> = Vec::new();
        let mut gi: usize = 0;
        proof {
            assert(new_pages@ =~= self.page_list@.take(0));
        }
        while gi < self.page_list.len()
            invariant
                gi <= self.page_list@.len(),
                new_pages@ == self.page_list@.take(gi as int),
            decreases self.page_list.len() - gi,
        {
            new_pages.push(self.page_list[gi]);
            proof {
                assert(new_pages@ =~= self.page_list@.take(gi as int + 1));
            }
            gi = gi + 1;
        }
        proof {
            assert(self.page_list@.take(gi as int) =~= self.page_list@);
        }
        let current = CylheimChart {
            format_version: self.format_version,
            time_base: self.time_base,
            start_offset_time_micros: self.start_offset_time_micros,
            end_offset_time_micros: self.end_offset_time_micros,
            is_start_without_ui: self.is_start_without_ui,
            page_list: new_pages,
            tempo_list: new_tempos,
            event_order_list: Vec::new(),
            note_list: new_notes,
        };
        current.to_cytus1_chart_directly(Some(page_shift))
    }
}

/// Every note of the deduplicated list occurs in the source list.
proof fn lemma_dedup_membership(s: Seq<CylheimChartNote>, k: int)
    requires
        0 <= k < spec_dedup(s).len(),
    ensures
        exists|j: int| 0 <= j < s.len() && #[trigger] s[j] == spec_dedup(s)[k],
    decreases s.len(),
{
    if s.len() == 0 {
    } else {
        let d0 = spec_dedup(s.drop_last());
        let n = s.last();
        let pos = insert_pos(d0, n.id);
        lemma_insert_pos_bounds(d0, n.id);
        let d1 = spec_dedup(s);
        if pos < d0.len() && d0[pos].id == n.id {
            if k == pos {
                assert(d1[k] == n);
                assert(s[s.len() - 1] == n);
            } else {
                assert(d1[k] == d0[k]);
                lemma_dedup_membership(s.drop_last(), k);
                let j = choose|j: int|
                    0 <= j < s.drop_last().len() && #[trigger] s.drop_last()[j] == d0[k];
                assert(s[j] == d0[k]);
            }
        } else {
            if k == pos {
                assert(d1[k] == n);
                assert(s[s.len() - 1] == n);
            } else if k < pos {
                assert(d1[k] == d0[k]);
                lemma_dedup_membership(s.drop_last(), k);
                let j = choose|j: int|
                    0 <= j < s.drop_last().len() && #[trigger] s.drop_last()[j] == d0[k];
                assert(s[j] == d0[k]);
            } else {
                assert(d1[k] == d0[k - 1]);
                lemma_dedup_membership(s.drop_last(), k - 1);
                let j = choose|j: int|
                    0 <= j < s.drop_last().len() && #[trigger] s.drop_last()[j] == d0[k - 1];
                assert(s[j] == d0[k - 1]);
            }
        }
    }
}

} // verus!
