//! The per-page visual layout model: note positioning on the page under its
//! scan direction, drag-chain linking for arrow rendering, multi-page hold
//! body propagation, ghost previews of the following page, and scanline
//! speed derivation from tempo and page geometry.
//!
//! Normalized coordinates are integer counts of millionths of the page;
//! scanline speeds are exact rationals.

use vstd::prelude::*;

use crate::cyl_chart::CylheimChart;
use crate::cyl_chart::CylheimChartNote;
use crate::cyl_chart::CylheimChartPage;
use crate::cyl_chart::CylheimChartPagePositionFunction;
use crate::cyl_chart::CylheimChartTempo;
use crate::utils::CylToolError;
use crate::utils::CylToolErrorKind;

verus! {

/// A normalized position on the page, in millionths.
#[derive(Clone, Copy, Debug, PartialEq, Eq, Structural)]
pub struct CylheimChartPageViewerNotePostion {
    pub x_micros: i64,
    pub y_micros: i64,
}

/// The visual body of a hold note on one page: its vertical span and
/// whether the hold truly ends on this page.
#[derive(Clone, Copy, Debug, PartialEq, Eq, Structural)]
pub struct CylheimChartPageViewerHoldBodyHandler {
    pub is_long_hold: bool,
    pub with_tail: bool,
    pub start_y_micros: i64,
    pub end_y_micros: i64,
}

impl CylheimChartPageViewerHoldBodyHandler {
    /// True when the span is drawn top-down: start at or above end.
    pub fn check_start_end(&self) -> (r: bool)
        ensures
            r == (self.start_y_micros <= self.end_y_micros),
    {
        self.start_y_micros <= self.end_y_micros
    }
}

/// The kinds of note the viewer distinguishes.
#[derive(Clone, Copy, Debug, PartialEq, Eq, Structural)]
pub enum CylheimChartPageViewerNoteType {
    Click,
    Hold,
    LongHold,
    Drag,
    DragChild,
    Flick,
    ClickDrag,
    ClickDragChild,
    DropClick,
    DropDrag,
    CustomNoteType(u32),
}

impl CylheimChartPageViewerNoteType {
    /// The numeric tag of this note kind.
    pub fn get_id(&self) -> (r: u32)
        ensures
            r == spec_note_type_id(*self),
    {
        match self {
            CylheimChartPageViewerNoteType::Click => 0,
            CylheimChartPageViewerNoteType::Hold => 1,
            CylheimChartPageViewerNoteType::LongHold => 2,
            CylheimChartPageViewerNoteType::Drag => 3,
            CylheimChartPageViewerNoteType::DragChild => 4,
            CylheimChartPageViewerNoteType::Flick => 5,
            CylheimChartPageViewerNoteType::ClickDrag => 6,
            CylheimChartPageViewerNoteType::ClickDragChild => 7,
            CylheimChartPageViewerNoteType::DropClick => 8,
            CylheimChartPageViewerNoteType::DropDrag => 9,
            CylheimChartPageViewerNoteType::CustomNoteType(t) => *t,
        }
    }

    /// The note kind carrying the numeric tag; tags past the named kinds
    /// come back as custom kinds.
    pub fn from_id(id: u32) -> (r: Option<Self>)
        ensures
            r == Some(spec_note_type_of(id)),
    {
        match id {
            0 => Some(CylheimChartPageViewerNoteType::Click),
            1 => Some(CylheimChartPageViewerNoteType::Hold),
            2 => Some(CylheimChartPageViewerNoteType::LongHold),
            3 => Some(CylheimChartPageViewerNoteType::Drag),
            4 => Some(CylheimChartPageViewerNoteType::DragChild),
            5 => Some(CylheimChartPageViewerNoteType::Flick),
            6 => Some(CylheimChartPageViewerNoteType::ClickDrag),
            7 => Some(CylheimChartPageViewerNoteType::ClickDragChild),
            8 => Some(CylheimChartPageViewerNoteType::DropClick),
            9 => Some(CylheimChartPageViewerNoteType::DropDrag),
            other => Some(CylheimChartPageViewerNoteType::CustomNoteType(other)),
        }
    }
}

/// The numeric tag of a note kind.
pub open spec fn spec_note_type_id(t: CylheimChartPageViewerNoteType) -> u32 {
    match t {
        CylheimChartPageViewerNoteType::Click => 0,
        CylheimChartPageViewerNoteType::Hold => 1,
        CylheimChartPageViewerNoteType::LongHold => 2,
        CylheimChartPageViewerNoteType::Drag => 3,
        CylheimChartPageViewerNoteType::DragChild => 4,
        CylheimChartPageViewerNoteType::Flick => 5,
        CylheimChartPageViewerNoteType::ClickDrag => 6,
        CylheimChartPageViewerNoteType::ClickDragChild => 7,
        CylheimChartPageViewerNoteType::DropClick => 8,
        CylheimChartPageViewerNoteType::DropDrag => 9,
        CylheimChartPageViewerNoteType::CustomNoteType(v) => v,
    }
}

/// The note kind of a numeric tag.
pub open spec fn spec_note_type_of(id: u32) -> CylheimChartPageViewerNoteType {
    if id == 0 {
        CylheimChartPageViewerNoteType::Click
    } else if id == 1 {
        CylheimChartPageViewerNoteType::Hold
    } else if id == 2 {
        CylheimChartPageViewerNoteType::LongHold
    } else if id == 3 {
        CylheimChartPageViewerNoteType::Drag
    } else if id == 4 {
        CylheimChartPageViewerNoteType::DragChild
    } else if id == 5 {
        CylheimChartPageViewerNoteType::Flick
    } else if id == 6 {
        CylheimChartPageViewerNoteType::ClickDrag
    } else if id == 7 {
        CylheimChartPageViewerNoteType::ClickDragChild
    } else if id == 8 {
        CylheimChartPageViewerNoteType::DropClick
    } else if id == 9 {
        CylheimChartPageViewerNoteType::DropDrag
    } else {
        CylheimChartPageViewerNoteType::CustomNoteType(id)
    }
}

/// Reading a kind back from its tag gives the kind, for every named kind
/// and for custom tags.
pub proof fn lemma_note_type_round_trip(id: u32)
    ensures
        spec_note_type_id(spec_note_type_of(id)) == id,
{
}

/// How a page's scanline speed changed at an event.
#[derive(Clone, Copy, Debug, PartialEq, Eq, Structural)]
pub enum CylheimChartPageViewerScanlineEventType {
    Accelerate,
    Decelerate,
    Stable,
}

impl Default for CylheimChartPageViewerScanlineEventType {
    /// A steady scanline.
    fn default() -> (r: Self)
        ensures
            r == CylheimChartPageViewerScanlineEventType::Stable,
    {
        CylheimChartPageViewerScanlineEventType::Stable
    }
}

/// A scanline speed as an exact rational: `num / den` page-units per
/// minute-scaled unit, with a positive denominator.
#[derive(Clone, Copy, Debug, PartialEq, Eq, Structural)]
pub struct Scanline {
    pub num: i64,
    pub den: u64,
}

/// A well-formed scanline speed has a positive denominator and a magnitude
/// bound that keeps cross products within range.
pub open spec fn scanline_wf(s: Scanline) -> bool {
    &&& s.den >= 1
    &&& -57600000000000 <= s.num <= 57600000000000
}

/// The exact order on scanline speeds, by cross multiplication.
pub open spec fn scanline_lt(a: Scanline, b: Scanline) -> bool {
    (a.num as int) * (b.den as int) < (b.num as int) * (a.den as int)
}

/// Exact equality of scanline speeds, by cross multiplication.
pub open spec fn scanline_eq(a: Scanline, b: Scanline) -> bool {
    (a.num as int) * (b.den as int) == (b.num as int) * (a.den as int)
}

/// Compares two scanline speeds exactly: negative for less, zero for equal,
/// positive for greater.
pub fn scanline_cmp(a: &Scanline, b: &Scanline) -> (r: i32)
    ensures
        r < 0 <==> scanline_lt(*a, *b),
        r == 0 <==> scanline_eq(*a, *b),
        r > 0 <==> scanline_lt(*b, *a),
{
    proof {
        assert(-170141183460469231731687303715884105728 <= (a.num as int) * (b.den as int)
            <= 170141183460469231731687303715884105727) by (nonlinear_arith)
            requires
                -9223372036854775808 <= a.num <= 9223372036854775807,
                0 <= b.den <= 18446744073709551615u64,
        ;
        assert(-170141183460469231731687303715884105728 <= (b.num as int) * (a.den as int)
            <= 170141183460469231731687303715884105727) by (nonlinear_arith)
            requires
                -9223372036854775808 <= b.num <= 9223372036854775807,
                0 <= a.den <= 18446744073709551615u64,
        ;
    }
    let left: i128 = a.num as i128 * b.den as i128;
    let right: i128 = b.num as i128 * a.den as i128;
    proof {
        assert(left == (a.num as int) * (b.den as int)) by (nonlinear_arith)
            requires
                left == a.num as i128 * b.den as i128,
        ;
        assert(right == (b.num as int) * (a.den as int)) by (nonlinear_arith)
            requires
                right == b.num as i128 * a.den as i128,
        ;
    }
    if left < right {
        -1
    } else if left == right {
        0
    } else {
        1
    }
}

/// One scanline speed change inside a page.
#[derive(Clone, Copy, Debug, PartialEq, Eq, Structural)]
pub struct CylheimChartPageViewerScanlineEvent {
    pub scanline: Scanline,
    pub y_micros: i64,
    pub event_type: CylheimChartPageViewerScanlineEventType,
}

/// The scanline summary of one page: stability, extreme speeds, and the
/// speed changes in tick order.
#[derive(Clone, Debug)]
pub struct CylheimChartPageViewerScanlineHandler {
    pub is_stable: bool,
    pub max_scanline: Scanline,
    pub min_scanline: Scanline,
    pub scanline_event: Vec<CylheimChartPageViewerScanlineEvent>,
}

/// A note as positioned on its page, with drag links and hold body
/// annotations.
#[derive(Clone, Copy, Debug, PartialEq)]
pub struct CylheimChartPageViewerNotes {
    pub page_index: u32,
    pub note_type: u32,
    pub id: u32,
    pub tick: u32,
    pub position: CylheimChartPageViewerNotePostion,
    pub has_sibling: bool,
    pub hold_body_handler: Option<CylheimChartPageViewerHoldBodyHandler>,
    pub drag_parent_pos: Option<CylheimChartPageViewerNotePostion>,
    pub drag_child_pos: Option<CylheimChartPageViewerNotePostion>,
    pub hold_tick: u32,
    pub next_id: i32,
    pub is_forward: bool,
    pub falling_note_direction: Option<u32>,
    pub approach_rate_micros: Option<i64>,
}

/// One page of the layout model.
#[derive(Clone, Debug)]
pub struct CylheimChartPageViewer {
    pub time_base: u32,
    pub page_index: u32,
    pub start_tick: u32,
    pub end_tick: u32,
    pub scan_line_direction: i32,
    pub ghost_scan_line_direction: i32,
    pub tempo_list: Vec<CylheimChartTempo>,
    pub note_list: Vec<CylheimChartPageViewerNotes>,
    pub ghost_note_list: Vec<CylheimChartPageViewerNotes>,
    pub position_function: Option<CylheimChartPagePositionFunction>,
    pub ghost_position_function: Option<CylheimChartPagePositionFunction>,
    pub scanline: CylheimChartPageViewerScanlineHandler,
}

/// The whole layout model: the canonicalized chart and one viewer per page.
#[derive(Clone, Debug)]
pub struct CylheimChartViewer {
    pub chart: CylheimChart,
    pub pages: Vec<CylheimChartPageViewer>,
}

/// The tick's fraction of the page in millionths, rounded to the nearest
/// and clamped to the page.
pub open spec fn spec_page_frac(tick: u32, start: u32, end: u32) -> int {
    if tick <= start {
        0
    } else if tick >= end {
        1000000
    } else {
        ((tick - start) * 1000000 + (end - start) / 2) / (end - start)
    }
}

/// The normalized vertical position of a tick on a page: the page fraction
/// when the page scans downward, its mirror when it scans upward.
pub open spec fn spec_note_y(tick: u32, start: u32, end: u32, direction: i32) -> int {
    if direction < 0 {
        spec_page_frac(tick, start, end)
    } else {
        1000000 - spec_page_frac(tick, start, end)
    }
}

/// The page fraction always lies within the page.
pub proof fn lemma_page_frac_bounds(tick: u32, start: u32, end: u32)
    requires
        start < end,
    ensures
        0 <= spec_page_frac(tick, start, end) <= 1000000,
{
    if start < tick < end {
        let t = (tick - start) as int;
        let d = (end - start) as int;
        assert(0 <= (t * 1000000 + d / 2) / d <= 1000000) by (nonlinear_arith)
            requires
                0 < t < d,
        ;
    }
}

/// Every position the layout assigns lies on the page vertically.
pub proof fn lemma_note_y_bounds(tick: u32, start: u32, end: u32, direction: i32)
    requires
        start < end,
    ensures
        0 <= spec_note_y(tick, start, end, direction) <= 1000000,
{
    lemma_page_frac_bounds(tick, start, end);
}

/// Scan direction symmetry: at one tick fraction, the upward and downward
/// positions mirror each other, summing to the whole page.
pub proof fn lemma_scan_direction_symmetry(tick: u32, start: u32, end: u32)
    ensures
        spec_note_y(tick, start, end, -1i32) + spec_note_y(tick, start, end, 1i32) == 1000000,
{
}

/// Computes the normalized vertical position of a tick on a page.
pub fn note_y_from_tick(tick: u32, start: u32, end: u32, direction: i32) -> (r: i64)
    requires
        start < end,
    ensures
        r == spec_note_y(tick, start, end, direction),
        0 <= r <= 1000000,
{
    proof {
        lemma_note_y_bounds(tick, start, end, direction);
    }
    let frac: i64 = if tick <= start {
        0
    } else if tick >= end {
        1000000
    } else {
        let t: u64 = (tick - start) as u64;
        let d: u64 = (end - start) as u64;
        proof {
            assert(t * 1000000 + d / 2 <= 0xffffffffu64 * 1000000 + 0x80000000u64)
                by (nonlinear_arith)
                requires
                    t <= 0xffffffffu64,
                    d <= 0xffffffffu64,
            ;
            assert(((t as int) * 1000000 + (d as int) / 2) / (d as int) <= 1000000)
                by (nonlinear_arith)
                requires
                    0 < t < d,
            ;
        }
        ((t * 1000000 + d / 2) / d) as i64
    };
    if direction < 0 {
        frac
    } else {
        1000000 - frac
    }
}

/// The scanline speed of a page under a tempo: beats per minute scaled by
/// the position-function height and the page geometry. Exact, as the
/// rational `(57600 * height) / (tempo * page_size)` in the stored unit.
pub open spec fn spec_scanline(tempo: u32, page_size: u32, pf_height_micros: i64) -> Scanline {
    Scanline { num: (57600 * pf_height_micros) as i64, den: (tempo * page_size) as u64 }
}

/// Computes the scanline speed of a page under a tempo.
pub fn tempo_to_scanline(tempo: u32, page_size: u32, pf_height_micros: i64) -> (r: Scanline)
    requires
        tempo >= 1,
        page_size >= 1,
        -1000000000 <= pf_height_micros <= 1000000000,
    ensures
        r == spec_scanline(tempo, page_size, pf_height_micros),
        scanline_wf(r),
{
    proof {
        assert(-57600000000000 <= 57600 * pf_height_micros <= 57600000000000) by (nonlinear_arith)
            requires
                -1000000000 <= pf_height_micros <= 1000000000,
        ;
        assert(1 <= (tempo as int) * (page_size as int) <= 0xffffffff * 0xffffffff)
            by (nonlinear_arith)
            requires
                1 <= tempo <= 0xffffffffu32,
                1 <= page_size <= 0xffffffffu32,
        ;
    }
    Scanline { num: 57600 * pf_height_micros, den: tempo as u64 * page_size as u64 }
}

/// Leading count of pages whose start tick is at most `k`: the stable
/// insertion point.
pub open spec fn page_sort_pos(d: Seq<CylheimChartPage>, k: u32) -> int
    decreases d.len(),
{
    if d.len() == 0 || d[0].start_tick > k {
        0
    } else {
        1 + page_sort_pos(d.skip(1), k)
    }
}

/// Pages sorted stably by start tick, by repeated insertion.
pub open spec fn spec_sort_pages(s: Seq<CylheimChartPage>) -> Seq<CylheimChartPage>
    decreases s.len(),
{
    if s.len() == 0 {
        Seq::empty()
    } else {
        let d = spec_sort_pages(s.drop_last());
        d.insert(page_sort_pos(d, s.last().start_tick), s.last())
    }
}

/// Leading count of tempo entries whose tick is at most `k`.
pub open spec fn tempo_sort_pos(d: Seq<CylheimChartTempo>, k: u32) -> int
    decreases d.len(),
{
    if d.len() == 0 || d[0].tick > k {
        0
    } else {
        1 + tempo_sort_pos(d.skip(1), k)
    }
}

/// Tempo entries sorted stably by tick.
pub open spec fn spec_sort_tempos(s: Seq<CylheimChartTempo>) -> Seq<CylheimChartTempo>
    decreases s.len(),
{
    if s.len() == 0 {
        Seq::empty()
    } else {
        let d = spec_sort_tempos(s.drop_last());
        d.insert(tempo_sort_pos(d, s.last().tick), s.last())
    }
}

/// Leading count of notes whose tick is at most `k`.
pub open spec fn note_sort_pos(d: Seq<CylheimChartNote>, k: u32) -> int
    decreases d.len(),
{
    if d.len() == 0 || d[0].tick > k {
        0
    } else {
        1 + note_sort_pos(d.skip(1), k)
    }
}

/// Notes sorted stably by tick.
pub open spec fn spec_sort_notes(s: Seq<CylheimChartNote>) -> Seq<CylheimChartNote>
    decreases s.len(),
{
    if s.len() == 0 {
        Seq::empty()
    } else {
        let d = spec_sort_notes(s.drop_last());
        d.insert(note_sort_pos(d, s.last().tick), s.last())
    }
}

/// `page_sort_pos` is the unique boundary.
proof fn lemma_page_sort_pos(d: Seq<CylheimChartPage>, k: u32, p: int)
    requires
        0 <= p <= d.len(),
        forall|j: int| 0 <= j < p ==> (#[trigger] d[j]).start_tick <= k,
        p == d.len() || d[p].start_tick > k,
    ensures
        page_sort_pos(d, k) == p,
    decreases d.len(),
{
    if d.len() == 0 || d[0].start_tick > k {
    } else {
        lemma_page_sort_pos(d.skip(1), k, p - 1);
    }
}

/// `tempo_sort_pos` is the unique boundary.
proof fn lemma_tempo_sort_pos(d: Seq<CylheimChartTempo>, k: u32, p: int)
    requires
        0 <= p <= d.len(),
        forall|j: int| 0 <= j < p ==> (#[trigger] d[j]).tick <= k,
        p == d.len() || d[p].tick > k,
    ensures
        tempo_sort_pos(d, k) == p,
    decreases d.len(),
{
    if d.len() == 0 || d[0].tick > k {
    } else {
        lemma_tempo_sort_pos(d.skip(1), k, p - 1);
    }
}

/// `note_sort_pos` is the unique boundary.
proof fn lemma_note_sort_pos(d: Seq<CylheimChartNote>, k: u32, p: int)
    requires
        0 <= p <= d.len(),
        forall|j: int| 0 <= j < p ==> (#[trigger] d[j]).tick <= k,
        p == d.len() || d[p].tick > k,
    ensures
        note_sort_pos(d, k) == p,
    decreases d.len(),
{
    if d.len() == 0 || d[0].tick > k {
    } else {
        lemma_note_sort_pos(d.skip(1), k, p - 1);
    }
}

/// Sorts the pages stably by start tick.
fn sort_pages(v: &Vec<CylheimChartPage>) -> (r: Vec<CylheimChartPage>)
    ensures
        r@ == spec_sort_pages(v@),
{
    let mut out: Vec<CylheimChartPage> = Vec::new();
    let mut i: usize = 0;
    proof {
        assert(v@.take(0) =~= Seq::<CylheimChartPage>::empty());
    }
    while i < v.len()
        invariant
            i <= v@.len(),
            out@ == spec_sort_pages(v@.take(i as int)),
        decreases v.len() - i,
    {
        let x = v[i];
        let ghost od = out@;
        let mut k: usize = 0;
        while k < out.len() && out[k].start_tick <= x.start_tick
            invariant
                out@ == od,
                k <= out@.len(),
                forall|j: int| 0 <= j < k ==> (#[trigger] out@[j]).start_tick <= x.start_tick,
            decreases out.len() - k,
        {
            k = k + 1;
        }
        proof {
            lemma_page_sort_pos(od, x.start_tick, k as int);
        }
        out.insert(k, x);
        proof {
            assert(out@ =~= od.insert(k as int, x));
            assert(v@.take(i as int + 1).drop_last() =~= v@.take(i as int));
            assert(v@.take(i as int + 1).last() == x);
        }
        i = i + 1;
    }
    proof {
        assert(v@.take(i as int) =~= v@);
    }
    out
}

/// Sorts the tempo entries stably by tick.
fn sort_tempos(v: &Vec<CylheimChartTempo>) -> (r: Vec<CylheimChartTempo>)
    ensures
        r@ == spec_sort_tempos(v@),
{
    let mut out: Vec<CylheimChartTempo> = Vec::new();
    let mut i: usize = 0;
    proof {
        assert(v@.take(0) =~= Seq::<CylheimChartTempo>::empty());
    }
    while i < v.len()
        invariant
            i <= v@.len(),
            out@ == spec_sort_tempos(v@.take(i as int)),
        decreases v.len() - i,
    {
        let x = v[i];
        let ghost od = out@;
        let mut k: usize = 0;
        while k < out.len() && out[k].tick <= x.tick
            invariant
                out@ == od,
                k <= out@.len(),
                forall|j: int| 0 <= j < k ==> (#[trigger] out@[j]).tick <= x.tick,
            decreases out.len() - k,
        {
            k = k + 1;
        }
        proof {
            lemma_tempo_sort_pos(od, x.tick, k as int);
        }
        out.insert(k, x);
        proof {
            assert(out@ =~= od.insert(k as int, x));
            assert(v@.take(i as int + 1).drop_last() =~= v@.take(i as int));
            assert(v@.take(i as int + 1).last() == x);
        }
        i = i + 1;
    }
    proof {
        assert(v@.take(i as int) =~= v@);
    }
    out
}

/// Sorts the notes stably by tick.
fn sort_notes(v: &Vec<CylheimChartNote>) -> (r: Vec<CylheimChartNote>)
    ensures
        r@ == spec_sort_notes(v@),
{
    let mut out: Vec<CylheimChartNote> = Vec::new();
    let mut i: usize = 0;
    proof {
        assert(v@.take(0) =~= Seq::<CylheimChartNote>::empty());
    }
    while i < v.len()
        invariant
            i <= v@.len(),
            out@ == spec_sort_notes(v@.take(i as int)),
        decreases v.len() - i,
    {
        let x = v[i];
        let ghost od = out@;
        let mut k: usize = 0;
        while k < out.len() && out[k].tick <= x.tick
            invariant
                out@ == od,
                k <= out@.len(),
                forall|j: int| 0 <= j < k ==> (#[trigger] out@[j]).tick <= x.tick,
            decreases out.len() - k,
        {
            k = k + 1;
        }
        proof {
            lemma_note_sort_pos(od, x.tick, k as int);
        }
        out.insert(k, x);
        proof {
            assert(out@ =~= od.insert(k as int, x));
            assert(v@.take(i as int + 1).drop_last() =~= v@.take(i as int));
            assert(v@.take(i as int + 1).last() == x);
        }
        i = i + 1;
    }
    proof {
        assert(v@.take(i as int) =~= v@);
    }
    out
}

/// All note ids are distinct.
pub open spec fn ids_unique(s: Seq<CylheimChartNote>) -> bool {
    forall|i: int, j: int| 0 <= i < j < s.len() ==> (#[trigger] s[i]).id != (#[trigger] s[j]).id
}

/// Some note's successor pointer names an id no note bears.
pub open spec fn has_dangling_next(s: Seq<CylheimChartNote>) -> bool {
    exists|i: int|
        0 <= i < s.len() && (#[trigger] s[i]).next_id != -1 && crate::cyl_chart::find_note_idx(
            s,
            s[i].next_id as u32,
        ) == -1
}

/// The note at position `i` after dense reassignment: its id becomes `i`,
/// its successor pointer becomes the position of the note it named.
pub open spec fn spec_reassigned(s: Seq<CylheimChartNote>, i: int) -> CylheimChartNote {
    CylheimChartNote {
        id: i as u32,
        next_id: if s[i].next_id == -1 {
            -1i32
        } else {
            crate::cyl_chart::find_note_idx(s, s[i].next_id as u32) as i32
        },
        ..s[i]
    }
}

impl CylheimChart {
    /// Sorts the pages, tempo entries and notes of the chart by tick,
    /// stably; everything else is untouched.
    pub fn sort_internal_data(&mut self)
        ensures
            final(self).page_list@ == spec_sort_pages(old(self).page_list@),
            final(self).tempo_list@ == spec_sort_tempos(old(self).tempo_list@),
            final(self).note_list@ == spec_sort_notes(old(self).note_list@),
            final(self).format_version == old(self).format_version,
            final(self).time_base == old(self).time_base,
            final(self).start_offset_time_micros == old(self).start_offset_time_micros,
            final(self).end_offset_time_micros == old(self).end_offset_time_micros,
            final(self).is_start_without_ui == old(self).is_start_without_ui,
            final(self).event_order_list == old(self).event_order_list,
    {
        let pages = sort_pages(&self.page_list);
        let tempos = sort_tempos(&self.tempo_list);
        let notes = sort_notes(&self.note_list);
        self.page_list = pages;
        self.tempo_list = tempos;
        self.note_list = notes;
    }

    /// Reassigns note ids to be dense: after the call the note at position
    /// `i` has id `i`, and every successor pointer is rewritten to the new
    /// id of the note it named. Rejected: more notes than ids can index,
    /// two notes sharing an id, or a successor pointer naming a missing id.
    pub fn sort_and_reassign_note_ids(&mut self) -> (r: Result<(), CylToolError>)
        ensures
            r is Ok <==> old(self).note_list@.len() <= 0x7fffffff && ids_unique(
                old(self).note_list@,
            ) && !has_dangling_next(old(self).note_list@),
            r matches Err(e) ==> *final(self) == *old(self) && e.kind == (
            if old(self).note_list@.len() > 0x7fffffff || !ids_unique(old(self).note_list@) {
                CylToolErrorKind::InvalidChart
            } else {
                CylToolErrorKind::DanglingReference
            }),
            r is Ok ==> {
                &&& final(self).note_list@.len() == old(self).note_list@.len()
                &&& forall|i: int|
                    0 <= i < old(self).note_list@.len() ==> final(self).note_list@[i]
                        == spec_reassigned(old(self).note_list@, i)
                &&& final(self).page_list == old(self).page_list
                &&& final(self).tempo_list == old(self).tempo_list
                &&& final(self).event_order_list == old(self).event_order_list
                &&& final(self).format_version == old(self).format_version
                &&& final(self).time_base == old(self).time_base
                &&& final(self).start_offset_time_micros == old(self).start_offset_time_micros
                &&& final(self).end_offset_time_micros == old(self).end_offset_time_micros
                &&& final(self).is_start_without_ui == old(self).is_start_without_ui
            },
    {
        if self.note_list.len() > 0x7fffffff {
            let mut m = String::new();
            m.append("Chart has more notes than ids can index.");
            return Err(CylToolError::with_kind(CylToolErrorKind::InvalidChart, m));
        }
        // every id must be unique
        let n = self.note_list.len();
        let mut i: usize = 0;
        while i < n
            invariant
                n == self.note_list@.len(),
                i <= n,
                forall|a: int, b: int|
                    0 <= a < b < i ==> (#[trigger] self.note_list@[a]).id != (
                    #[trigger] self.note_list@[b]).id,
            decreases n - i,
        {
            let mut j: usize = 0;
            while j < i
                invariant
                    n == self.note_list@.len(),
                    j <= i < n,
                    forall|b: int|
                        0 <= b < j ==> (#[trigger] self.note_list@[b]).id
                            != self.note_list@[i as int].id,
                decreases i - j,
            {
                if self.note_list[j].id == self.note_list[i].id {
                    let mut m = String::new();
                    m.append("Note id ");
                    let a = crate::cyl_chart::dec_string(self.note_list[i].id as u64);
                    m.append(a.as_str());
                    m.append(" is not unique.");
                    proof {
                        assert(!ids_unique(self.note_list@));
                    }
                    return Err(CylToolError::with_kind(CylToolErrorKind::InvalidChart, m));
                }
                j = j + 1;
            }
            proof {
                assert forall|a: int, b: int|
                    0 <= a < b < i + 1 implies (#[trigger] self.note_list@[a]).id != (
                #[trigger] self.note_list@[b]).id by {
                    if b == i as int {
                        assert(self.note_list@[a].id != self.note_list@[i as int].id);
                    }
                };
            }
            i = i + 1;
        }
        // every successor pointer must name a real note; rewrite it to the
        // note's position
        let mut remapped: Vec<CylheimChartNote> = Vec::new();
        let mut p: usize = 0;
        proof {
            assert(remapped@ =~= Seq::<CylheimChartNote>::empty());
        }
        while p < n
            invariant
                n == self.note_list@.len(),
                n <= 0x7fffffff,
                ids_unique(self.note_list@),
                p <= n,
                remapped@.len() == p,
                forall|k: int|
                    0 <= k < p ==> remapped@[k] == spec_reassigned(self.note_list@, k),
                forall|k: int|
                    0 <= k < p ==> ((#[trigger] self.note_list@[k]).next_id != -1
                        ==> crate::cyl_chart::find_note_idx(
                        self.note_list@,
                        self.note_list@[k].next_id as u32,
                    ) != -1),
            decreases n - p,
        {
            let nt = self.note_list[p];
            let new_next: i32 = if nt.next_id == -1 {
                -1
            } else {
                match crate::cyl_chart::find_note_idx_exec(&self.note_list, #[verifier::truncate] (nt.next_id as u32)) {
                    Some(j) => {
                        proof {
                            assert(j < n <= 0x7fffffff);
                        }
                        j as i32
                    },
                    None => {
                        let mut m = String::new();
                        m.append("Note ");
                        let a = crate::cyl_chart::dec_string(nt.id as u64);
                        m.append(a.as_str());
                        m.append(" points at a missing note id.");
                        proof {
                            assert(has_dangling_next(self.note_list@)) by {
                                assert(self.note_list@[p as int].next_id != -1);
                                assert(crate::cyl_chart::find_note_idx(
                                    self.note_list@,
                                    self.note_list@[p as int].next_id as u32,
                                ) == -1);
                            };
                        }
                        return Err(CylToolError::with_kind(CylToolErrorKind::DanglingReference, m));
                    },
                }
            };
            let mut n2 = nt;
            n2.id = p as u32;
            n2.next_id = new_next;
            remapped.push(n2);
            proof {
                assert(n2 == spec_reassigned(self.note_list@, p as int));
            }
            p = p + 1;
        }
        proof {
            assert(!has_dangling_next(self.note_list@));
        }
        let ghost oldnotes = self.note_list@;
        self.note_list = remapped;
        proof {
            assert(forall|i: int|
                0 <= i < oldnotes.len() ==> self.note_list@[i] == spec_reassigned(oldnotes, i));
        }
        Ok(())
    }
}

/// The page a note is rendered on: one earlier than its own when it is
/// marked forward.
pub open spec fn eff_page(n: CylheimChartNote) -> int {
    n.page_index - (if n.is_forward {
        1int
    } else {
        0int
    })
}

/// The viewer note derived from a source note, before drag linking: every
/// field copied, the position computed from the tick on its rendered page,
/// and the per-rendering annotations cleared.
pub open spec fn spec_positioned(n: CylheimChartNote, pages: Seq<CylheimChartPage>) -> CylheimChartPageViewerNotes {
    let pg = pages[eff_page(n)];
    CylheimChartPageViewerNotes {
        page_index: eff_page(n) as u32,
        note_type: n.note_type,
        id: n.id,
        tick: n.tick,
        position: CylheimChartPageViewerNotePostion {
            x_micros: n.x_micros,
            y_micros: spec_note_y(n.tick, pg.start_tick, pg.end_tick, pg.scan_line_direction) as i64,
        },
        has_sibling: n.has_sibling,
        hold_body_handler: None,
        drag_parent_pos: None,
        drag_child_pos: None,
        hold_tick: n.hold_tick,
        next_id: n.next_id,
        is_forward: n.is_forward,
        falling_note_direction: None,
        approach_rate_micros: None,
    }
}

/// A note that opens a drag edge: one of the drag kinds, with a successor.
pub open spec fn drag_src(v: CylheimChartPageViewerNotes) -> bool {
    &&& (v.note_type == 3 || v.note_type == 4 || v.note_type == 6 || v.note_type == 7)
    &&& v.next_id >= 0
}

/// The position, in the list, of the last drag note pointing at note `k`,
/// or `-1` when none does.
pub open spec fn last_parent(s: Seq<CylheimChartPageViewerNotes>, k: int) -> int
    decreases s.len(),
{
    if s.len() == 0 {
        -1
    } else if drag_src(s.last()) && s.last().next_id == k {
        s.len() - 1
    } else {
        last_parent(s.drop_last(), k)
    }
}

/// The list after drag linking: each drag note carries its successor's
/// position, and each note pointed at carries its last pointer's position.
pub open spec fn spec_linked(pl: Seq<CylheimChartPageViewerNotes>) -> Seq<
    CylheimChartPageViewerNotes,
> {
    Seq::new(
        pl.len(),
        |k: int|
            CylheimChartPageViewerNotes {
                drag_child_pos: if drag_src(pl[k]) && pl[k].next_id < pl.len() {
                    Some(pl[pl[k].next_id as int].position)
                } else {
                    None
                },
                drag_parent_pos: if last_parent(pl, k) >= 0 {
                    Some(pl[last_parent(pl, k)].position)
                } else {
                    None
                },
                ..pl[k]
            },
    )
}

/// The tempo entries whose tick lies in `[start, end)`, in order.
pub open spec fn tempos_in(s: Seq<CylheimChartTempo>, start: u32, end: u32) -> Seq<
    CylheimChartTempo,
>
    decreases s.len(),
{
    if s.len() == 0 {
        Seq::empty()
    } else {
        tempos_in(s.drop_last(), start, end) + if start <= s.last().tick < end {
            seq![s.last()]
        } else {
            Seq::empty()
        }
    }
}

/// The viewer notes rendered on page `p`, in order.
pub open spec fn vns_of_page(s: Seq<CylheimChartPageViewerNotes>, p: int) -> Seq<
    CylheimChartPageViewerNotes,
>
    decreases s.len(),
{
    if s.len() == 0 {
        Seq::empty()
    } else {
        vns_of_page(s.drop_last(), p) + if s.last().page_index == p {
            seq![s.last()]
        } else {
            Seq::empty()
        }
    }
}

/// The hold body record a hold or long-hold note places on a page: its
/// vertical span from the note's tick (or the page top for a page the hold
/// runs into) down to where the hold ends or the page ends.
pub open spec fn spec_hold_body(
    n: CylheimChartNote,
    page: CylheimChartPage,
    p: int,
    long: bool,
) -> CylheimChartPageViewerNotes {
    let hold_end = n.tick + n.hold_tick;
    let span_start: u32 = if p == n.page_index {
        n.tick
    } else {
        page.start_tick
    };
    let span_end: u32 = if hold_end < page.end_tick {
        hold_end as u32
    } else {
        page.end_tick
    };
    CylheimChartPageViewerNotes {
        page_index: p as u32,
        note_type: n.note_type,
        id: n.id,
        tick: n.tick,
        position: CylheimChartPageViewerNotePostion { x_micros: n.x_micros, y_micros: 0 },
        has_sibling: n.has_sibling,
        hold_body_handler: Some(
            CylheimChartPageViewerHoldBodyHandler {
                is_long_hold: long,
                with_tail: if long {
                    hold_end <= page.end_tick
                } else {
                    true
                },
                start_y_micros: spec_note_y(
                    span_start,
                    page.start_tick,
                    page.end_tick,
                    page.scan_line_direction,
                ) as i64,
                end_y_micros: spec_note_y(
                    span_end,
                    page.start_tick,
                    page.end_tick,
                    page.scan_line_direction,
                ) as i64,
            },
        ),
        drag_parent_pos: None,
        drag_child_pos: None,
        hold_tick: n.hold_tick,
        next_id: n.next_id,
        is_forward: n.is_forward,
        falling_note_direction: None,
        approach_rate_micros: None,
    }
}

/// What one note contributes to page `p`: a hold body on its own page for
/// hold notes, and further bodies on every later page a long hold reaches.
pub open spec fn spec_hold_contrib(
    n: CylheimChartNote,
    pages: Seq<CylheimChartPage>,
    p: int,
) -> Seq<CylheimChartPageViewerNotes> {
    if n.note_type == 2 {
        if p == n.page_index {
            seq![spec_hold_body(n, pages[p], p, true)]
        } else if n.page_index < p < pages.len() && n.tick + n.hold_tick > pages[p].start_tick {
            seq![spec_hold_body(n, pages[p], p, true)]
        } else {
            Seq::empty()
        }
    } else if n.note_type == 1 && p == n.page_index {
        seq![spec_hold_body(n, pages[p], p, false)]
    } else {
        Seq::empty()
    }
}

/// The hold bodies every note places on page `p`, in note order.
pub open spec fn spec_hold_entries(
    notes: Seq<CylheimChartNote>,
    pages: Seq<CylheimChartPage>,
    p: int,
) -> Seq<CylheimChartPageViewerNotes>
    decreases notes.len(),
{
    if notes.len() == 0 {
        Seq::empty()
    } else {
        spec_hold_entries(notes.drop_last(), pages, p) + spec_hold_contrib(
            notes.last(),
            pages,
            p,
        )
    }
}

/// Hold span containment: every hold body's span covers ticks inside both
/// the hold and its page, so, after per-direction normalization, a page
/// scanning downward draws the start at or above the end and a page
/// scanning upward draws it at or below.
pub proof fn lemma_hold_span_containment(n: CylheimChartNote, page: CylheimChartPage, p: int, long: bool)
    requires
        page.start_tick < page.end_tick,
        p == n.page_index ==> page.start_tick <= n.tick,
        p != n.page_index ==> n.tick + n.hold_tick > page.start_tick,
    ensures
        ({
            let b = spec_hold_body(n, page, p, long).hold_body_handler.unwrap();
            let span_start: u32 = if p == n.page_index {
                n.tick
            } else {
                page.start_tick
            };
            let span_end: u32 = if n.tick + n.hold_tick < page.end_tick {
                (n.tick + n.hold_tick) as u32
            } else {
                page.end_tick
            };
            &&& b.start_y_micros == spec_note_y(
                span_start,
                page.start_tick,
                page.end_tick,
                page.scan_line_direction,
            )
            &&& b.end_y_micros == spec_note_y(
                span_end,
                page.start_tick,
                page.end_tick,
                page.scan_line_direction,
            )
            &&& 0 <= b.start_y_micros <= 1000000
            &&& 0 <= b.end_y_micros <= 1000000
            &&& (span_start <= span_end && page.scan_line_direction < 0 ==> b.start_y_micros
                <= b.end_y_micros)
            &&& (span_start <= span_end && page.scan_line_direction >= 0 ==> b.start_y_micros
                >= b.end_y_micros)
        }),
{
    let span_start: u32 = if p == n.page_index {
        n.tick
    } else {
        page.start_tick
    };
    let span_end: u32 = if n.tick + n.hold_tick < page.end_tick {
        (n.tick + n.hold_tick) as u32
    } else {
        page.end_tick
    };
    lemma_note_y_bounds(span_start, page.start_tick, page.end_tick, page.scan_line_direction);
    lemma_note_y_bounds(span_end, page.start_tick, page.end_tick, page.scan_line_direction);
    if span_start <= span_end {
        lemma_page_frac_monotone(span_start, span_end, page.start_tick, page.end_tick);
    }
}

/// The page fraction never decreases as the tick grows.
pub proof fn lemma_page_frac_monotone(t1: u32, t2: u32, start: u32, end: u32)
    requires
        start < end,
        t1 <= t2,
    ensures
        spec_page_frac(t1, start, end) <= spec_page_frac(t2, start, end),
{
    lemma_page_frac_bounds(t1, start, end);
    lemma_page_frac_bounds(t2, start, end);
    if start < t1 && t2 < end {
        let a = (t1 - start) as int;
        let b = (t2 - start) as int;
        let d = (end - start) as int;
        assert((a * 1000000 + d / 2) / d <= (b * 1000000 + d / 2) / d) by (nonlinear_arith)
            requires
                0 < a <= b < d,
        ;
    }
}

/// The running state of the scanline derivation inside one page.
pub struct ScanAcc {
    pub events: Seq<CylheimChartPageViewerScanlineEvent>,
    pub min: Option<Scanline>,
    pub max: Option<Scanline>,
    pub stable: bool,
    pub start_sl: Scanline,
    pub cur_tempo: CylheimChartTempo,
    pub cur_sl: Scanline,
}

/// The scanline summary of one page, with the state handed to the next.
pub struct PageScan {
    pub is_stable: bool,
    pub min: Scanline,
    pub max: Scanline,
    pub events: Seq<CylheimChartPageViewerScanlineEvent>,
    pub cur_tempo: CylheimChartTempo,
    pub cur_sl: Scanline,
}

/// The transition a speed change is classified as, by exact comparison with
/// the speed before it.
pub open spec fn spec_scan_event_type(prev: Scanline, sl: Scanline) -> CylheimChartPageViewerScanlineEventType {
    if scanline_lt(prev, sl) {
        CylheimChartPageViewerScanlineEventType::Accelerate
    } else if scanline_lt(sl, prev) {
        CylheimChartPageViewerScanlineEventType::Decelerate
    } else {
        CylheimChartPageViewerScanlineEventType::Stable
    }
}

/// The larger of a possibly unset extreme and a new speed.
pub open spec fn opt_max(m: Option<Scanline>, sl: Scanline) -> Option<Scanline> {
    match m {
        None => Some(sl),
        Some(x) => if scanline_lt(x, sl) {
            Some(sl)
        } else {
            Some(x)
        },
    }
}

/// The smaller of a possibly unset extreme and a new speed.
pub open spec fn opt_min(m: Option<Scanline>, sl: Scanline) -> Option<Scanline> {
    match m {
        None => Some(sl),
        Some(x) => if scanline_lt(sl, x) {
            Some(sl)
        } else {
            Some(x)
        },
    }
}

/// Walks a page's tempo entries in order: each yields one event classified
/// against the running speed, feeds the extremes, may reset the page's
/// starting speed when it lies exactly at the page top, and breaks
/// stability when it differs from that starting speed.
pub open spec fn spec_scan_tempos(
    ts: Seq<CylheimChartTempo>,
    start: u32,
    end: u32,
    dir: i32,
    psize: u32,
    pf: i64,
    acc: ScanAcc,
) -> ScanAcc
    decreases ts.len(),
{
    if ts.len() == 0 {
        acc
    } else {
        let t = ts[0];
        let sl = spec_scanline(t.value, psize, pf);
        let start2 = if t.tick == start {
            sl
        } else {
            acc.start_sl
        };
        let ev = CylheimChartPageViewerScanlineEvent {
            scanline: sl,
            y_micros: spec_note_y(t.tick, start, end, dir) as i64,
            event_type: spec_scan_event_type(acc.cur_sl, sl),
        };
        spec_scan_tempos(
            ts.skip(1),
            start,
            end,
            dir,
            psize,
            pf,
            ScanAcc {
                events: acc.events.push(ev),
                min: opt_min(acc.min, sl),
                max: opt_max(acc.max, sl),
                stable: acc.stable && scanline_eq(sl, start2),
                start_sl: start2,
                cur_tempo: t,
                cur_sl: sl,
            },
        )
    }
}

/// One page's scanline summary. A page with no tempo entry of its own keeps
/// the carried tempo, is stable, and records one transition event at its
/// top only when its geometry changes the speed; a page with tempo entries
/// walks them and then folds its starting speed into the extremes.
pub open spec fn spec_scan_page(
    pt: Seq<CylheimChartTempo>,
    start: u32,
    end: u32,
    dir: i32,
    pf: i64,
    cur_tempo: CylheimChartTempo,
    cur_sl: Scanline,
) -> PageScan {
    let psize = (end - start) as u32;
    if pt.len() == 0 {
        let sl = spec_scanline(cur_tempo.value, psize, pf);
        if scanline_eq(sl, cur_sl) {
            PageScan {
                is_stable: true,
                min: sl,
                max: sl,
                events: Seq::empty(),
                cur_tempo,
                cur_sl,
            }
        } else {
            let ev = CylheimChartPageViewerScanlineEvent {
                scanline: sl,
                y_micros: spec_note_y(start, start, end, dir) as i64,
                event_type: spec_scan_event_type(cur_sl, sl),
            };
            PageScan { is_stable: true, min: sl, max: sl, events: seq![ev], cur_tempo, cur_sl: sl }
        }
    } else {
        let acc = spec_scan_tempos(
            pt,
            start,
            end,
            dir,
            psize,
            pf,
            ScanAcc {
                events: Seq::empty(),
                min: None,
                max: None,
                stable: true,
                start_sl: cur_sl,
                cur_tempo,
                cur_sl,
            },
        );
        PageScan {
            is_stable: acc.stable,
            min: opt_min(acc.min, acc.start_sl).unwrap(),
            max: opt_max(acc.max, acc.start_sl).unwrap(),
            events: acc.events,
            cur_tempo: acc.cur_tempo,
            cur_sl: acc.cur_sl,
        }
    }
}

/// The position-function height a page scales by, whole when absent.
pub open spec fn spec_pf_height(p: CylheimChartPage) -> i64 {
    if p.position_function is Some {
        p.position_function.unwrap().height_ratio_micros
    } else {
        1000000
    }
}

/// The scanline summaries of every page from `i` on, threading the running
/// tempo and speed page to page.
pub open spec fn spec_scan_fold(
    sp: Seq<CylheimChartPage>,
    st: Seq<CylheimChartTempo>,
    i: int,
    cur_tempo: CylheimChartTempo,
    cur_sl: Scanline,
) -> Seq<PageScan>
    decreases sp.len() - i,
{
    if !(0 <= i < sp.len()) {
        Seq::empty()
    } else {
        let pt = tempos_in(st, sp[i].start_tick, sp[i].end_tick);
        let ps = spec_scan_page(
            pt,
            sp[i].start_tick,
            sp[i].end_tick,
            sp[i].scan_line_direction,
            spec_pf_height(sp[i]),
            cur_tempo,
            cur_sl,
        );
        seq![ps] + spec_scan_fold(sp, st, i + 1, ps.cur_tempo, ps.cur_sl)
    }
}

/// The scanline summaries of a canonical chart: seeded from its first tempo
/// and first page's geometry.
pub open spec fn spec_scanlines(sp: Seq<CylheimChartPage>, st: Seq<CylheimChartTempo>) -> Seq<
    PageScan,
> {
    spec_scan_fold(
        sp,
        st,
        0,
        st[0],
        spec_scanline(st[0].value, (sp[0].end_tick - sp[0].start_tick) as u32, spec_pf_height(sp[0])),
    )
}

/// The first reason layout building fails, or nothing when it succeeds:
/// the id reassignment's own failures; an empty page or tempo list; a page
/// whose tick range is empty or inverted; a zero tempo; a position-function
/// height too large to scale exactly; a note rendered on or holding over a
/// page that does not exist.
pub open spec fn spec_build_err(c: CylheimChart) -> Option<CylToolErrorKind> {
    let sn = spec_sort_notes(c.note_list@);
    let sp = spec_sort_pages(c.page_list@);
    let st = spec_sort_tempos(c.tempo_list@);
    if sn.len() > 0x7fffffff || !ids_unique(sn) {
        Some(CylToolErrorKind::InvalidChart)
    } else if has_dangling_next(sn) {
        Some(CylToolErrorKind::DanglingReference)
    } else if sp.len() == 0 || st.len() == 0 {
        Some(CylToolErrorKind::EmptyChart)
    } else if sp.len() > 0xffffffff {
        Some(CylToolErrorKind::InvalidChart)
    } else if exists|i: int|
        0 <= i < sp.len() && (#[trigger] sp[i]).end_tick <= sp[i].start_tick {
        Some(CylToolErrorKind::InvalidChart)
    } else if exists|i: int| 0 <= i < st.len() && (#[trigger] st[i]).value == 0 {
        Some(CylToolErrorKind::InvalidChart)
    } else if exists|i: int|
        0 <= i < sp.len() && (#[trigger] sp[i]).position_function is Some && !(-1000000000
            <= sp[i].position_function.unwrap().height_ratio_micros <= 1000000000) {
        Some(CylToolErrorKind::InvalidChart)
    } else if exists|i: int|
        0 <= i < sn.len() && !(0 <= eff_page(#[trigger] sn[i]) < sp.len() && ((sn[i].note_type
            == 1 || sn[i].note_type == 2) ==> sn[i].page_index < sp.len())) {
        Some(CylToolErrorKind::DanglingReference)
    } else {
        None
    }
}

/// Builds the per-page layout model of a chart. The chart is first
/// canonicalized: pages, tempo entries and notes sorted by tick and note
/// ids reassigned densely. Each note is then placed on its rendered page,
/// drag notes are linked to their successors both ways, every page gathers
/// its tempo entries and notes, hold notes grow body records across the
/// pages they span, each page previews the next as ghosts, and a scanline
/// summary is derived per page.
#[verifier::rlimit(100)]
pub fn build_cylheim_chart_viewer(chart: CylheimChart) -> (r: Result<
    CylheimChartViewer,
    CylToolError,
>)
    ensures
        r is Ok <==> spec_build_err(chart) is None,
        r matches Err(e) ==> Some(e.kind) == spec_build_err(chart),
        r matches Ok(v) ==> ({
            let sp = spec_sort_pages(chart.page_list@);
            let st = spec_sort_tempos(chart.tempo_list@);
            let sn = spec_sort_notes(chart.note_list@);
            let cn = Seq::new(sn.len(), |i: int| spec_reassigned(sn, i));
            let linked = spec_linked(Seq::new(cn.len(), |i: int| spec_positioned(cn[i], sp)));
            &&& v.chart.page_list@ == sp
            &&& v.chart.tempo_list@ == st
            &&& v.chart.note_list@ == cn
            &&& (forall|i: int| 0 <= i < cn.len() ==> (#[trigger] v.chart.note_list@[i]).id == i)
            &&& v.pages@.len() == sp.len()
            &&& (forall|p: int|
                0 <= p < sp.len() ==> {
                    let pv = #[trigger] v.pages@[p];
                    &&& pv.time_base == chart.time_base
                    &&& pv.page_index == p
                    &&& pv.start_tick == sp[p].start_tick
                    &&& pv.end_tick == sp[p].end_tick
                    &&& pv.scan_line_direction == sp[p].scan_line_direction
                    &&& pv.position_function == sp[p].position_function
                    &&& pv.tempo_list@ == tempos_in(st, sp[p].start_tick, sp[p].end_tick)
                    &&& pv.note_list@ == vns_of_page(linked, p) + spec_hold_entries(cn, sp, p)
                })
            &&& (forall|p: int|
                0 <= p < sp.len() - 1 ==> {
                    let pv = #[trigger] v.pages@[p];
                    &&& pv.ghost_scan_line_direction == sp[p + 1].scan_line_direction
                    &&& pv.ghost_note_list@ == v.pages@[p + 1].note_list@
                    &&& pv.ghost_position_function == sp[p + 1].position_function
                })
            &&& sp.len() >= 1 && v.pages@[sp.len() - 1].ghost_scan_line_direction == 0
                && v.pages@[sp.len() - 1].ghost_note_list@.len() == 0 && v.pages@[sp.len()
                - 1].ghost_position_function is None
            &&& (forall|p: int|
                0 <= p < sp.len() ==> {
                    let sl = (#[trigger] v.pages@[p]).scanline;
                    let ps = spec_scanlines(sp, st)[p];
                    &&& sl.is_stable == ps.is_stable
                    &&& sl.min_scanline == ps.min
                    &&& sl.max_scanline == ps.max
                    &&& sl.scanline_event@ == ps.events
                    &&& (forall|e: int|
                        0 <= e < sl.scanline_event@.len() ==> 0 <= (
                        #[trigger] sl.scanline_event@[e]).y_micros <= 1000000)
                })
        }),
{
    let ghost orig = chart;
    let mut work = chart;
    work.sort_internal_data();
    match work.sort_and_reassign_note_ids() {
        Ok(()) => (),
        Err(e) => {
            return Err(e);
        },
    }
    let ghost sp = spec_sort_pages(orig.page_list@);
    let ghost st = spec_sort_tempos(orig.tempo_list@);
    let ghost sn = spec_sort_notes(orig.note_list@);
    let ghost cn = Seq::new(sn.len(), |i: int| spec_reassigned(sn, i));
    proof {
        assert(work.page_list@ == sp);
        assert(work.tempo_list@ == st);
        assert(work.note_list@ =~= cn);
    }
    proof {
        assert(sn.len() <= 0x7fffffff && ids_unique(sn) && !has_dangling_next(sn));
    }
    // structural validation of the canonical chart
    if work.page_list.len() == 0 || work.tempo_list.len() == 0 {
        let mut m = String::new();
        m.append("Chart has no pages or no tempo entries.");
        return Err(CylToolError::with_kind(CylToolErrorKind::EmptyChart, m));
    }
    if work.page_list.len() > 0xffffffff {
        let mut m = String::new();
        m.append("Chart has more pages than indexes can count.");
        return Err(CylToolError::with_kind(CylToolErrorKind::InvalidChart, m));
    }
    let npages = work.page_list.len();
    let mut vp: usize = 0;
    while vp < npages
        invariant
            orig == chart,
            sp == spec_sort_pages(orig.page_list@),
            st == spec_sort_tempos(orig.tempo_list@),
            sn == spec_sort_notes(orig.note_list@),
            npages == work.page_list@.len(),
            work.page_list@ == sp,
            work.tempo_list@ == st,
            sn.len() <= 0x7fffffff && ids_unique(sn) && !has_dangling_next(sn),
            sp.len() >= 1 && st.len() >= 1 && sp.len() <= 0xffffffff,
            vp <= npages,
            forall|j: int|
                0 <= j < vp ==> (#[trigger] sp[j]).start_tick < sp[j].end_tick && (
                sp[j].position_function is Some ==> -1000000000
                    <= sp[j].position_function.unwrap().height_ratio_micros <= 1000000000),
        decreases npages - vp,
    {
        let pg = work.page_list[vp];
        if pg.end_tick <= pg.start_tick {
            let mut m = String::new();
            m.append("Page ");
            let a = crate::cyl_chart::dec_string(vp as u64);
            m.append(a.as_str());
            m.append(" has an empty or inverted tick range.");
            proof {
                assert(sp[vp as int].end_tick <= sp[vp as int].start_tick);
                assert(spec_build_err(orig) == Some(CylToolErrorKind::InvalidChart));
            }
            return Err(CylToolError::with_kind(CylToolErrorKind::InvalidChart, m));
        }
        match pg.position_function {
            Some(pf) => {
                if pf.height_ratio_micros < -1000000000 || pf.height_ratio_micros > 1000000000 {
                    let mut m = String::new();
                    m.append("Page ");
                    let a = crate::cyl_chart::dec_string(vp as u64);
                    m.append(a.as_str());
                    m.append(" has a position function height out of range.");
                    proof {
                        assert(sp[vp as int].position_function is Some && !(-1000000000 <= sp[
                            vp as int
                        ].position_function.unwrap().height_ratio_micros <= 1000000000));
                        assert(spec_build_err(orig) == Some(CylToolErrorKind::InvalidChart));
                    }
                    return Err(CylToolError::with_kind(CylToolErrorKind::InvalidChart, m));
                }
            },
            None => (),
        }
        vp = vp + 1;
    }
    let mut vt: usize = 0;
    while vt < work.tempo_list.len()
        invariant
            orig == chart,
            sp == spec_sort_pages(orig.page_list@),
            st == spec_sort_tempos(orig.tempo_list@),
            sn == spec_sort_notes(orig.note_list@),
            work.tempo_list@ == st,
            work.page_list@ == sp,
            sn.len() <= 0x7fffffff && ids_unique(sn) && !has_dangling_next(sn),
            sp.len() >= 1 && st.len() >= 1 && sp.len() <= 0xffffffff,
            forall|j: int|
                0 <= j < sp.len() ==> (#[trigger] sp[j]).start_tick < sp[j].end_tick && (
                sp[j].position_function is Some ==> -1000000000
                    <= sp[j].position_function.unwrap().height_ratio_micros <= 1000000000),
            vt <= st.len(),
            forall|j: int| 0 <= j < vt ==> (#[trigger] st[j]).value >= 1,
        decreases work.tempo_list.len() - vt,
    {
        if work.tempo_list[vt].value == 0 {
            let mut m = String::new();
            m.append("Tick ");
            let a = crate::cyl_chart::dec_string(work.tempo_list[vt].tick as u64);
            m.append(a.as_str());
            m.append(" has a zero tempo.");
            proof {
                assert(st[vt as int].value == 0);
                assert(spec_build_err(orig) == Some(CylToolErrorKind::InvalidChart));
            }
            return Err(CylToolError::with_kind(CylToolErrorKind::InvalidChart, m));
        }
        vt = vt + 1;
    }
    let mut vn: usize = 0;
    while vn < work.note_list.len()
        invariant
            orig == chart,
            sp == spec_sort_pages(orig.page_list@),
            st == spec_sort_tempos(orig.tempo_list@),
            sn == spec_sort_notes(orig.note_list@),
            work.note_list@ == cn,
            work.page_list@ == sp,
            work.tempo_list@ == st,
            cn.len() == sn.len(),
            npages == sp.len(),
            sn.len() <= 0x7fffffff && ids_unique(sn) && !has_dangling_next(sn),
            sp.len() >= 1 && st.len() >= 1 && sp.len() <= 0xffffffff,
            forall|j: int|
                0 <= j < sp.len() ==> (#[trigger] sp[j]).start_tick < sp[j].end_tick && (
                sp[j].position_function is Some ==> -1000000000
                    <= sp[j].position_function.unwrap().height_ratio_micros <= 1000000000),
            forall|j: int| 0 <= j < st.len() ==> (#[trigger] st[j]).value >= 1,
            forall|i: int| 0 <= i < cn.len() ==> cn[i] == spec_reassigned(sn, i),
            vn <= cn.len(),
            forall|j: int|
                0 <= j < vn ==> 0 <= eff_page(#[trigger] cn[j]) < sp.len() && ((cn[j].note_type
                    == 1 || cn[j].note_type == 2) ==> cn[j].page_index < sp.len()),
        decreases work.note_list.len() - vn,
    {
        let n = work.note_list[vn];
        let bad_eff = if n.is_forward {
            n.page_index == 0 || (n.page_index - 1) as usize >= npages
        } else {
            n.page_index as usize >= npages
        };
        let bad_hold = (n.note_type == 1 || n.note_type == 2) && n.page_index as usize >= npages;
        if bad_eff || bad_hold {
            let mut m = String::new();
            m.append("Note ");
            let a = crate::cyl_chart::dec_string(n.id as u64);
            m.append(a.as_str());
            m.append(" lies on a page that does not exist.");
            proof {
                assert(cn[vn as int] == spec_reassigned(sn, vn as int));
                assert(sn[vn as int].note_type == cn[vn as int].note_type);
                assert(sn[vn as int].page_index == cn[vn as int].page_index);
                assert(sn[vn as int].is_forward == cn[vn as int].is_forward);
                assert(!(0 <= eff_page(sn[vn as int]) < sp.len() && ((sn[vn as int].note_type == 1
                    || sn[vn as int].note_type == 2) ==> sn[vn as int].page_index < sp.len())));
                assert(spec_build_err(orig) == Some(CylToolErrorKind::DanglingReference));
            }
            return Err(CylToolError::with_kind(CylToolErrorKind::DanglingReference, m));
        }
        vn = vn + 1;
    }
    proof {
        assert forall|i: int|
            0 <= i < sn.len() implies !(!(0 <= eff_page(#[trigger] sn[i]) < sp.len() && ((
        sn[i].note_type == 1 || sn[i].note_type == 2) ==> sn[i].page_index < sp.len()))) by {
            assert(cn[i] == spec_reassigned(sn, i));
            assert(0 <= eff_page(cn[i]) < sp.len());
        };
        assert(spec_build_err(orig) is None);
    }
    // place every note on its rendered page
    let nnotes = work.note_list.len();
    let mut pl: Vec<CylheimChartPageViewerNotes> = Vec::new();
    let mut i: usize = 0;
    proof {
        assert(pl@ =~= Seq::new(0, |k: int| spec_positioned(cn[k], sp)));
    }
    while i < nnotes
        invariant
            nnotes == cn.len(),
            work.note_list@ == cn,
            work.page_list@ == sp,
            npages == sp.len(),
            forall|j: int|
                0 <= j < cn.len() ==> 0 <= eff_page(#[trigger] cn[j]) < sp.len(),
            forall|j: int|
                0 <= j < sp.len() ==> (#[trigger] sp[j]).start_tick < sp[j].end_tick,
            i <= nnotes,
            pl@ == Seq::new(i as nat, |k: int| spec_positioned(cn[k], sp)),
        decreases nnotes - i,
    {
        let n = work.note_list[i];
        let ep: usize = if n.is_forward {
            (n.page_index - 1) as usize
        } else {
            n.page_index as usize
        };
        proof {
            assert(ep as int == eff_page(cn[i as int]));
        }
        let pg = work.page_list[ep];
        let y = note_y_from_tick(n.tick, pg.start_tick, pg.end_tick, pg.scan_line_direction);
        pl.push(
            CylheimChartPageViewerNotes {
                page_index: ep as u32,
                note_type: n.note_type,
                id: n.id,
                tick: n.tick,
                position: CylheimChartPageViewerNotePostion { x_micros: n.x_micros, y_micros: y },
                has_sibling: n.has_sibling,
                hold_body_handler: None,
                drag_parent_pos: None,
                drag_child_pos: None,
                hold_tick: n.hold_tick,
                next_id: n.next_id,
                is_forward: n.is_forward,
                falling_note_direction: None,
                approach_rate_micros: None,
            },
        );
        proof {
            assert(pl@.last() == spec_positioned(cn[i as int], sp));
            assert(pl@ =~= Seq::new((i + 1) as nat, |k: int| spec_positioned(cn[k], sp)));
        }
        i = i + 1;
    }
    let ghost pl0 = pl@;
    // link drag notes with their successors, both ways
    proof {
        assert forall|j: int| 0 <= j < cn.len() implies ((#[trigger] cn[j]).next_id == -1 || (0
            <= cn[j].next_id < cn.len())) by {
            assert(cn[j] == spec_reassigned(sn, j));
            crate::cyl_chart::lemma_find_note_idx(sn, sn[j].next_id as u32);
        };
    }
    let mut li: usize = 0;
    while li < nnotes
        invariant
            nnotes == pl0.len(),
            pl@.len() == pl0.len(),
            forall|k: int|
                0 <= k < pl0.len() ==> ((#[trigger] pl0[k]).next_id == -1 || (0 <= pl0[k].next_id
                    < pl0.len())),
            li <= nnotes,
            forall|k: int|
                0 <= k < pl0.len() ==> #[trigger] pl@[k] == (CylheimChartPageViewerNotes {
                    drag_child_pos: if k < li && drag_src(pl0[k]) {
                        Some(pl0[pl0[k].next_id as int].position)
                    } else {
                        None
                    },
                    drag_parent_pos: if last_parent(pl0.take(li as int), k) >= 0 {
                        Some(pl0[last_parent(pl0.take(li as int), k)].position)
                    } else {
                        None
                    },
                    ..pl0[k]
                }),
        decreases nnotes - li,
    {
        let v = pl[li];
        proof {
            assert(pl0.take(li as int + 1).drop_last() =~= pl0.take(li as int));
            assert(pl0.take(li as int + 1).last() == pl0[li as int]);
        }
        if (v.note_type == 3 || v.note_type == 4 || v.note_type == 6 || v.note_type == 7)
            && v.next_id >= 0 {
            proof {
                assert(pl@[li as int].next_id == pl0[li as int].next_id);
                assert(drag_src(pl0[li as int]));
            }
            let nx = v.next_id as usize;
            let child_pos = pl[nx].position;
            let cur_pos = pl[li].position;
            proof {
                assert(pl@[nx as int].position == pl0[nx as int].position);
                assert(pl@[li as int].position == pl0[li as int].position);
            }
            if nx == li {
                let mut upd = pl[li];
                upd.drag_parent_pos = Some(cur_pos);
                upd.drag_child_pos = Some(child_pos);
                pl.set(li, upd);
            } else {
                let mut updn = pl[nx];
                updn.drag_parent_pos = Some(cur_pos);
                pl.set(nx, updn);
                let mut updc = pl[li];
                updc.drag_child_pos = Some(child_pos);
                pl.set(li, updc);
            }
            proof {
                assert forall|k: int| 0 <= k < pl0.len() implies #[trigger] pl@[k] == (
                CylheimChartPageViewerNotes {
                    drag_child_pos: if k < li + 1 && drag_src(pl0[k]) {
                        Some(pl0[pl0[k].next_id as int].position)
                    } else {
                        None
                    },
                    drag_parent_pos: if last_parent(pl0.take(li as int + 1), k) >= 0 {
                        Some(pl0[last_parent(pl0.take(li as int + 1), k)].position)
                    } else {
                        None
                    },
                    ..pl0[k]
                }) by {
                    if k == nx as int {
                        assert(last_parent(pl0.take(li as int + 1), k) == li as int);
                    } else {
                        assert(last_parent(pl0.take(li as int + 1), k) == last_parent(
                            pl0.take(li as int),
                            k,
                        ));
                    }
                };
            }
        } else {
            proof {
                assert(pl@[li as int].note_type == pl0[li as int].note_type);
                assert(pl@[li as int].next_id == pl0[li as int].next_id);
                assert(!drag_src(pl0[li as int]));
                assert forall|k: int| 0 <= k < pl0.len() implies last_parent(
                    pl0.take(li as int + 1),
                    k,
                ) == last_parent(pl0.take(li as int), k) by {};
            }
        }
        li = li + 1;
    }
    proof {
        assert(pl0.take(nnotes as int) =~= pl0);
        assert(pl@ =~= spec_linked(pl0)) by {
            assert forall|k: int| 0 <= k < pl0.len() implies pl@[k] == spec_linked(pl0)[k] by {
                if drag_src(pl0[k]) {
                    assert(0 <= pl0[k].next_id < pl0.len());
                }
            };
        };
    }
    let ghost linked = spec_linked(pl0);
    // assemble the pages: metadata, tempo entries, rendered notes, hold
    // bodies
    let mut pages: Vec<CylheimChartPageViewer> = Vec::new();
    let mut p: usize = 0;
    while p < npages
        invariant
            npages == sp.len(),
            npages <= 0xffffffff,
            work.page_list@ == sp,
            work.tempo_list@ == st,
            work.note_list@ == cn,
            nnotes == cn.len(),
            pl@ == linked,
            linked.len() == cn.len(),
            forall|j: int|
                0 <= j < sp.len() ==> (#[trigger] sp[j]).start_tick < sp[j].end_tick,
            forall|j: int|
                0 <= j < cn.len() ==> ((#[trigger] cn[j]).note_type == 1 || cn[j].note_type == 2
                    ==> cn[j].page_index < sp.len()),
            p <= npages,
            pages@.len() == p,
            forall|q: int|
                0 <= q < p ==> {
                    let pv = #[trigger] pages@[q];
                    &&& pv.time_base == work.time_base
                    &&& pv.page_index == q
                    &&& pv.start_tick == sp[q].start_tick
                    &&& pv.end_tick == sp[q].end_tick
                    &&& pv.scan_line_direction == sp[q].scan_line_direction
                    &&& pv.position_function == sp[q].position_function
                    &&& pv.ghost_scan_line_direction == 0
                    &&& pv.ghost_note_list@.len() == 0
                    &&& pv.ghost_position_function is None
                    &&& pv.tempo_list@ == tempos_in(st, sp[q].start_tick, sp[q].end_tick)
                    &&& pv.note_list@ == vns_of_page(linked, q) + spec_hold_entries(cn, sp, q)
                },
        decreases npages - p,
    {
        let pg = work.page_list[p];
        // the tempo entries on this page
        let mut ptempos: Vec<CylheimChartTempo> = Vec::new();
        let mut tj: usize = 0;
        proof {
            assert(st.take(0) =~= Seq::<CylheimChartTempo>::empty());
            assert(ptempos@ =~= tempos_in(st.take(0), pg.start_tick, pg.end_tick));
        }
        while tj < work.tempo_list.len()
            invariant
                work.tempo_list@ == st,
                tj <= st.len(),
                pg == sp[p as int],
                p < sp.len(),
                work.page_list@ == sp,
                ptempos@ == tempos_in(st.take(tj as int), pg.start_tick, pg.end_tick),
            decreases work.tempo_list.len() - tj,
        {
            let t = work.tempo_list[tj];
            proof {
                assert(st.take(tj as int + 1).drop_last() =~= st.take(tj as int));
                assert(st.take(tj as int + 1).last() == t);
            }
            if pg.start_tick <= t.tick && t.tick < pg.end_tick {
                ptempos.push(t);
                proof {
                    assert(ptempos@ =~= tempos_in(st.take(tj as int + 1), pg.start_tick,
                        pg.end_tick));
                }
            } else {
                proof {
                    assert(ptempos@ =~= tempos_in(st.take(tj as int + 1), pg.start_tick,
                        pg.end_tick));
                }
            }
            tj = tj + 1;
        }
        proof {
            assert(st.take(tj as int) =~= st);
        }
        // the notes rendered on this page
        let mut pnotes: Vec<CylheimChartPageViewerNotes> = Vec::new();
        let mut nj: usize = 0;
        proof {
            assert(linked.take(0) =~= Seq::<CylheimChartPageViewerNotes>::empty());
            assert(pnotes@ =~= vns_of_page(linked.take(0), p as int));
        }
        while nj < pl.len()
            invariant
                pl@ == linked,
                nj <= linked.len(),
                p < sp.len(),
                pnotes@ == vns_of_page(linked.take(nj as int), p as int),
            decreases pl.len() - nj,
        {
            let v = pl[nj];
            proof {
                assert(linked.take(nj as int + 1).drop_last() =~= linked.take(nj as int));
                assert(linked.take(nj as int + 1).last() == v);
            }
            if v.page_index as usize == p {
                pnotes.push(v);
                proof {
                    assert(pnotes@ =~= vns_of_page(linked.take(nj as int + 1), p as int));
                }
            } else {
                proof {
                    assert(pnotes@ =~= vns_of_page(linked.take(nj as int + 1), p as int));
                }
            }
            nj = nj + 1;
        }
        proof {
            assert(linked.take(nj as int) =~= linked);
        }
        // the hold bodies every hold or long hold places on this page
        let mut hj: usize = 0;
        let ghost base = pnotes@;
        proof {
            assert(cn.take(0) =~= Seq::<CylheimChartNote>::empty());
            assert(pnotes@ =~= base + spec_hold_entries(cn.take(0), sp, p as int));
        }
        while hj < work.note_list.len()
            invariant
                work.note_list@ == cn,
                work.page_list@ == sp,
                hj <= cn.len(),
                p < sp.len(),
                pg == sp[p as int],
                npages == sp.len(),
                forall|j: int|
                    0 <= j < sp.len() ==> (#[trigger] sp[j]).start_tick < sp[j].end_tick,
                forall|j: int|
                    0 <= j < cn.len() ==> ((#[trigger] cn[j]).note_type == 1 || cn[j].note_type
                        == 2 ==> cn[j].page_index < sp.len()),
                pnotes@ == base + spec_hold_entries(cn.take(hj as int), sp, p as int),
            decreases work.note_list.len() - hj,
        {
            let n = work.note_list[hj];
            proof {
                assert(cn.take(hj as int + 1).drop_last() =~= cn.take(hj as int));
                assert(cn.take(hj as int + 1).last() == n);
            }
            let hold_end: u64 = n.tick as u64 + n.hold_tick as u64;
            if n.note_type == 2 {
                if n.page_index as usize == p || (p > n.page_index as usize && hold_end
                    > pg.start_tick as u64) {
                    let span_start: u32 = if n.page_index as usize == p {
                        n.tick
                    } else {
                        pg.start_tick
                    };
                    let span_end: u32 = if hold_end < pg.end_tick as u64 {
                        hold_end as u32
                    } else {
                        pg.end_tick
                    };
                    let sy = note_y_from_tick(span_start, pg.start_tick, pg.end_tick,
                        pg.scan_line_direction);
                    let ey = note_y_from_tick(span_end, pg.start_tick, pg.end_tick,
                        pg.scan_line_direction);
                    pnotes.push(
                        CylheimChartPageViewerNotes {
                            page_index: p as u32,
                            note_type: n.note_type,
                            id: n.id,
                            tick: n.tick,
                            position: CylheimChartPageViewerNotePostion {
                                x_micros: n.x_micros,
                                y_micros: 0,
                            },
                            has_sibling: n.has_sibling,
                            hold_body_handler: Some(
                                CylheimChartPageViewerHoldBodyHandler {
                                    is_long_hold: true,
                                    with_tail: hold_end <= pg.end_tick as u64,
                                    start_y_micros: sy,
                                    end_y_micros: ey,
                                },
                            ),
                            drag_parent_pos: None,
                            drag_child_pos: None,
                            hold_tick: n.hold_tick,
                            next_id: n.next_id,
                            is_forward: n.is_forward,
                            falling_note_direction: None,
                            approach_rate_micros: None,
                        },
                    );
                    proof {
                        assert(pnotes@.last() == spec_hold_body(n, sp[p as int], p as int, true));
                        assert(spec_hold_contrib(n, sp, p as int) =~= seq![
                            spec_hold_body(n, sp[p as int], p as int, true),
                        ]);
                        assert(pnotes@ =~= base + spec_hold_entries(cn.take(hj as int + 1), sp,
                            p as int));
                    }
                } else {
                    proof {
                        assert(spec_hold_contrib(n, sp, p as int) =~= Seq::<
                            CylheimChartPageViewerNotes,
                        >::empty());
                        assert(pnotes@ =~= base + spec_hold_entries(cn.take(hj as int + 1), sp,
                            p as int));
                    }
                }
            } else if n.note_type == 1 && n.page_index as usize == p {
                let span_end: u32 = if hold_end < pg.end_tick as u64 {
                    hold_end as u32
                } else {
                    pg.end_tick
                };
                let sy = note_y_from_tick(n.tick, pg.start_tick, pg.end_tick,
                    pg.scan_line_direction);
                let ey = note_y_from_tick(span_end, pg.start_tick, pg.end_tick,
                    pg.scan_line_direction);
                pnotes.push(
                    CylheimChartPageViewerNotes {
                        page_index: p as u32,
                        note_type: n.note_type,
                        id: n.id,
                        tick: n.tick,
                        position: CylheimChartPageViewerNotePostion {
                            x_micros: n.x_micros,
                            y_micros: 0,
                        },
                        has_sibling: n.has_sibling,
                        hold_body_handler: Some(
                            CylheimChartPageViewerHoldBodyHandler {
                                is_long_hold: false,
                                with_tail: true,
                                start_y_micros: sy,
                                end_y_micros: ey,
                            },
                        ),
                        drag_parent_pos: None,
                        drag_child_pos: None,
                        hold_tick: n.hold_tick,
                        next_id: n.next_id,
                        is_forward: n.is_forward,
                        falling_note_direction: None,
                        approach_rate_micros: None,
                    },
                );
                proof {
                    assert(pnotes@.last() == spec_hold_body(n, sp[p as int], p as int, false));
                    assert(spec_hold_contrib(n, sp, p as int) =~= seq![
                        spec_hold_body(n, sp[p as int], p as int, false),
                    ]);
                    assert(pnotes@ =~= base + spec_hold_entries(cn.take(hj as int + 1), sp,
                        p as int));
                }
            } else {
                proof {
                    assert(spec_hold_contrib(n, sp, p as int) =~= Seq::<
                        CylheimChartPageViewerNotes,
                    >::empty());
                    assert(pnotes@ =~= base + spec_hold_entries(cn.take(hj as int + 1), sp,
                        p as int));
                }
            }
            hj = hj + 1;
        }
        proof {
            assert(cn.take(hj as int) =~= cn);
        }
        pages.push(
            CylheimChartPageViewer {
                time_base: work.time_base,
                page_index: p as u32,
                start_tick: pg.start_tick,
                end_tick: pg.end_tick,
                scan_line_direction: pg.scan_line_direction,
                ghost_scan_line_direction: 0,
                tempo_list: ptempos,
                note_list: pnotes,
                ghost_note_list: Vec::new(),
                position_function: pg.position_function,
                ghost_position_function: None,
                scanline: CylheimChartPageViewerScanlineHandler {
                    is_stable: true,
                    max_scanline: Scanline { num: 0, den: 1 },
                    min_scanline: Scanline { num: 0, den: 1 },
                    scanline_event: Vec::new(),
                },
            },
        );
        p = p + 1;
    }
    // final pass: ghost previews of the following page, and the scanline
    // summary threaded page to page
    proof {
        lemma_tempos_in_values(st);
    }
    let mut current_tempo = work.tempo_list[0];
    let pg0 = work.page_list[0];
    let pf0: i64 = match pg0.position_function {
        Some(pf) => pf.height_ratio_micros,
        None => 1000000,
    };
    let mut current_scanline = tempo_to_scanline(
        current_tempo.value,
        pg0.end_tick - pg0.start_tick,
        pf0,
    );
    let ghost scans = spec_scanlines(sp, st);
    proof {
        lemma_scan_fold_len(sp, st, 0, current_tempo, current_scanline);
        assert(current_tempo == st[0]);
        assert(pf0 == spec_pf_height(sp[0]));
        assert(current_scanline == spec_scanline(
            st[0].value,
            (sp[0].end_tick - sp[0].start_tick) as u32,
            spec_pf_height(sp[0]),
        ));
        assert(scans == spec_scan_fold(sp, st, 0, current_tempo, current_scanline));
        assert(scans.skip(0) =~= scans);
        assert(scans.len() == sp.len());
    }
    let mut final_pages: Vec<CylheimChartPageViewer> = Vec::new();
    let mut fp: usize = 0;
    while fp < npages
        invariant
            npages == sp.len(),
            pages@.len() == npages,
            work.page_list@ == sp,
            work.tempo_list@ == st,
            work.note_list@ == cn,
            forall|j: int|
                0 <= j < sp.len() ==> (#[trigger] sp[j]).start_tick < sp[j].end_tick && (
                sp[j].position_function is Some ==> -1000000000
                    <= sp[j].position_function.unwrap().height_ratio_micros <= 1000000000),
            forall|q: int|
                0 <= q < npages ==> {
                    let pv = #[trigger] pages@[q];
                    &&& pv.time_base == work.time_base
                    &&& pv.page_index == q
                    &&& pv.start_tick == sp[q].start_tick
                    &&& pv.end_tick == sp[q].end_tick
                    &&& pv.scan_line_direction == sp[q].scan_line_direction
                    &&& pv.position_function == sp[q].position_function
                    &&& pv.tempo_list@ == tempos_in(st, sp[q].start_tick, sp[q].end_tick)
                    &&& pv.note_list@ == vns_of_page(linked, q) + spec_hold_entries(cn, sp, q)
                },
            forall|k: int|
                0 <= k < st.len() ==> (#[trigger] st[k]).value >= 1,
            forall|a: u32, b: u32, k: int|
                0 <= k < tempos_in(st, a, b).len() ==> (#[trigger] tempos_in(st, a, b)[k]).value
                    >= 1,
            current_tempo.value >= 1,
            scans == spec_scanlines(sp, st),
            scans.len() == sp.len(),
            spec_scan_fold(sp, st, fp as int, current_tempo, current_scanline) == scans.skip(
                fp as int,
            ),
            fp <= npages,
            final_pages@.len() == fp,
            forall|q: int|
                0 <= q < fp ==> {
                    let pv = #[trigger] final_pages@[q];
                    &&& pv.time_base == work.time_base
                    &&& pv.page_index == q
                    &&& pv.start_tick == sp[q].start_tick
                    &&& pv.end_tick == sp[q].end_tick
                    &&& pv.scan_line_direction == sp[q].scan_line_direction
                    &&& pv.position_function == sp[q].position_function
                    &&& pv.tempo_list@ == tempos_in(st, sp[q].start_tick, sp[q].end_tick)
                    &&& pv.note_list@ == vns_of_page(linked, q) + spec_hold_entries(cn, sp, q)
                    &&& (q < npages - 1 ==> pv.ghost_scan_line_direction == sp[q
                        + 1].scan_line_direction && pv.ghost_note_list@ == vns_of_page(
                        linked,
                        q + 1,
                    ) + spec_hold_entries(cn, sp, q + 1) && pv.ghost_position_function == sp[q
                        + 1].position_function)
                    &&& (q == npages - 1 ==> pv.ghost_scan_line_direction == 0
                        && pv.ghost_note_list@.len() == 0 && pv.ghost_position_function is None)
                    &&& pv.scanline.is_stable == scans[q].is_stable
                    &&& pv.scanline.min_scanline == scans[q].min
                    &&& pv.scanline.max_scanline == scans[q].max
                    &&& pv.scanline.scanline_event@ == scans[q].events
                    &&& (forall|e: int|
                        0 <= e < pv.scanline.scanline_event@.len() ==> 0 <= (
                        #[trigger] pv.scanline.scanline_event@[e]).y_micros <= 1000000)
                },
        decreases npages - fp,
    {
        let start = pages[fp].start_tick;
        let end = pages[fp].end_tick;
        let dir = pages[fp].scan_line_direction;
        let psize = end - start;
        let pf_arg: i64 = match pages[fp].position_function {
            Some(pf) => pf.height_ratio_micros,
            None => 1000000,
        };
        let ghost t_in = current_tempo;
        let ghost sl_in = current_scanline;
        let ghost pt = tempos_in(st, sp[fp as int].start_tick, sp[fp as int].end_tick);
        let ghost ps = spec_scan_page(pt, start, end, dir, pf_arg, t_in, sl_in);
        proof {
            assert(pages@[fp as int].tempo_list@ == pt);
            assert(pf_arg == spec_pf_height(sp[fp as int]));
            assert(psize as int == (end - start) as int);
        }
        let handler: CylheimChartPageViewerScanlineHandler = if pages[fp].tempo_list.len() == 0 {
            let psl = tempo_to_scanline(current_tempo.value, psize, pf_arg);
            let mut events: Vec<CylheimChartPageViewerScanlineEvent> = Vec::new();
            let c0 = scanline_cmp(&psl, &current_scanline);
            if c0 != 0 {
                let ev_type = if c0 > 0 {
                    CylheimChartPageViewerScanlineEventType::Accelerate
                } else {
                    CylheimChartPageViewerScanlineEventType::Decelerate
                };
                let ey = note_y_from_tick(start, start, end, dir);
                events.push(
                    CylheimChartPageViewerScanlineEvent {
                        scanline: psl,
                        y_micros: ey,
                        event_type: ev_type,
                    },
                );
                current_scanline = psl;
            }
            proof {
                assert(pt.len() == 0);
                assert(ps.min == spec_scanline(t_in.value, psize, pf_arg));
                if scanline_eq(spec_scanline(t_in.value, psize, pf_arg), sl_in) {
                    assert(events@ =~= ps.events);
                } else {
                    assert(events@ =~= ps.events);
                }
                assert(current_tempo == ps.cur_tempo);
                assert(current_scanline == ps.cur_sl);
            }
            CylheimChartPageViewerScanlineHandler {
                is_stable: true,
                max_scanline: psl,
                min_scanline: psl,
                scanline_event: events,
            }
        } else {
            let mut is_stable = true;
            let mut start_sl = current_scanline;
            let mut minmax_set = false;
            let mut min_sl = current_scanline;
            let mut max_sl = current_scanline;
            let mut events: Vec<CylheimChartPageViewerScanlineEvent> = Vec::new();
            let mut tk: usize = 0;
            proof {
                assert(pt.skip(0) =~= pt);
            }
            while tk < pages[fp].tempo_list.len()
                invariant
                    fp < pages@.len(),
                    events@.len() == tk,
                    forall|e: int|
                        0 <= e < events@.len() ==> 0 <= (#[trigger] events@[e]).y_micros
                            <= 1000000,
                    pt == pages@[fp as int].tempo_list@,
                    tk <= pt.len(),
                    forall|k: int| 0 <= k < pt.len() ==> (#[trigger] pt[k]).value >= 1,
                    psize >= 1,
                    -1000000000 <= pf_arg <= 1000000000,
                    start < end,
                    psize == end - start,
                    start == pages@[fp as int].start_tick,
                    end == pages@[fp as int].end_tick,
                    dir == pages@[fp as int].scan_line_direction,
                    current_tempo.value >= 1,
                    spec_scan_tempos(
                        pt,
                        start,
                        end,
                        dir,
                        psize,
                        pf_arg,
                        ScanAcc {
                            events: Seq::empty(),
                            min: None,
                            max: None,
                            stable: true,
                            start_sl: sl_in,
                            cur_tempo: t_in,
                            cur_sl: sl_in,
                        },
                    ) == spec_scan_tempos(
                        pt.skip(tk as int),
                        start,
                        end,
                        dir,
                        psize,
                        pf_arg,
                        ScanAcc {
                            events: events@,
                            min: if minmax_set {
                                Some(min_sl)
                            } else {
                                None
                            },
                            max: if minmax_set {
                                Some(max_sl)
                            } else {
                                None
                            },
                            stable: is_stable,
                            start_sl,
                            cur_tempo: current_tempo,
                            cur_sl: current_scanline,
                        },
                    ),
                decreases pt.len() - tk,
            {
                let t = pages[fp].tempo_list[tk];
                let psl = tempo_to_scanline(t.value, psize, pf_arg);
                if t.tick == start {
                    start_sl = psl;
                }
                if !minmax_set {
                    min_sl = psl;
                    max_sl = psl;
                    minmax_set = true;
                } else {
                    if scanline_cmp(&psl, &max_sl) > 0 {
                        max_sl = psl;
                    }
                    if scanline_cmp(&psl, &min_sl) < 0 {
                        min_sl = psl;
                    }
                }
                if scanline_cmp(&psl, &start_sl) != 0 {
                    is_stable = false;
                }
                let c = scanline_cmp(&psl, &current_scanline);
                let ev_type = if c > 0 {
                    CylheimChartPageViewerScanlineEventType::Accelerate
                } else if c < 0 {
                    CylheimChartPageViewerScanlineEventType::Decelerate
                } else {
                    CylheimChartPageViewerScanlineEventType::Stable
                };
                let ey = note_y_from_tick(t.tick, start, end, dir);
                events.push(
                    CylheimChartPageViewerScanlineEvent {
                        scanline: psl,
                        y_micros: ey,
                        event_type: ev_type,
                    },
                );
                current_tempo = t;
                current_scanline = psl;
                proof {
                    assert(pt.skip(tk as int)[0] == pt[tk as int]);
                    assert(pt.skip(tk as int).skip(1) =~= pt.skip(tk as int + 1));
                }
                tk = tk + 1;
            }
            if !minmax_set {
                min_sl = start_sl;
                max_sl = start_sl;
            } else {
                if scanline_cmp(&start_sl, &max_sl) > 0 {
                    max_sl = start_sl;
                }
                if scanline_cmp(&start_sl, &min_sl) < 0 {
                    min_sl = start_sl;
                }
            }
            proof {
                assert(pt.skip(tk as int) =~= Seq::<CylheimChartTempo>::empty());
                assert(pt.len() > 0);
                assert(events@ == ps.events);
                assert(is_stable == ps.is_stable);
                assert(min_sl == ps.min);
                assert(max_sl == ps.max);
                assert(current_tempo == ps.cur_tempo);
                assert(current_scanline == ps.cur_sl);
            }
            CylheimChartPageViewerScanlineHandler {
                is_stable,
                max_scanline: max_sl,
                min_scanline: min_sl,
                scanline_event: events,
            }
        };
        let ghost_dir: i32;
        let ghost_notes: Vec<CylheimChartPageViewerNotes>;
        let ghost_pf: Option<CylheimChartPagePositionFunction>;
        if fp + 1 < npages {
            ghost_dir = pages[fp + 1].scan_line_direction;
            ghost_notes = copy_viewer_notes(&pages[fp + 1].note_list);
            ghost_pf = pages[fp + 1].position_function;
        } else {
            ghost_dir = 0;
            ghost_notes = Vec::new();
            ghost_pf = None;
        }
        let own_notes = copy_viewer_notes(&pages[fp].note_list);
        let own_tempos = copy_tempo_list(&pages[fp].tempo_list);
        final_pages.push(
            CylheimChartPageViewer {
                time_base: work.time_base,
                page_index: fp as u32,
                start_tick: start,
                end_tick: end,
                scan_line_direction: dir,
                ghost_scan_line_direction: ghost_dir,
                tempo_list: own_tempos,
                note_list: own_notes,
                ghost_note_list: ghost_notes,
                position_function: pages[fp].position_function,
                ghost_position_function: ghost_pf,
                scanline: handler,
            },
        );
        proof {
            assert(spec_scan_fold(sp, st, fp as int, t_in, sl_in) == seq![ps] + spec_scan_fold(
                sp,
                st,
                fp as int + 1,
                ps.cur_tempo,
                ps.cur_sl,
            ));
            assert(scans.skip(fp as int)[0] == scans[fp as int]);
            assert(scans[fp as int] == ps);
            assert(scans.skip(fp as int).skip(1) =~= scans.skip(fp as int + 1));
            assert(spec_scan_fold(sp, st, fp as int + 1, current_tempo, current_scanline)
                == scans.skip(fp as int + 1));
        }
        fp = fp + 1;
    }
    Ok(CylheimChartViewer { chart: work, pages: final_pages })
}

/// Position bounds: every note the layout places has a vertical position
/// on the page, and, when its `x` lies on the playfield, a horizontal one
/// too.
pub proof fn lemma_layout_position_bounds(n: CylheimChartNote, pages: Seq<CylheimChartPage>)
    requires
        0 <= eff_page(n) < pages.len(),
        pages[eff_page(n)].start_tick < pages[eff_page(n)].end_tick,
    ensures
        0 <= spec_positioned(n, pages).position.y_micros <= 1000000,
        0 <= n.x_micros <= 1000000 ==> 0 <= spec_positioned(n, pages).position.x_micros
            <= 1000000,
{
    let pg = pages[eff_page(n)];
    lemma_note_y_bounds(n.tick, pg.start_tick, pg.end_tick, pg.scan_line_direction);
}

/// The page fold yields one summary per remaining page.
proof fn lemma_scan_fold_len(
    sp: Seq<CylheimChartPage>,
    st: Seq<CylheimChartTempo>,
    i: int,
    cur_tempo: CylheimChartTempo,
    cur_sl: Scanline,
)
    requires
        0 <= i <= sp.len(),
    ensures
        spec_scan_fold(sp, st, i, cur_tempo, cur_sl).len() == sp.len() - i,
    decreases sp.len() - i,
{
    if i < sp.len() {
        let pt = tempos_in(st, sp[i].start_tick, sp[i].end_tick);
        let ps = spec_scan_page(
            pt,
            sp[i].start_tick,
            sp[i].end_tick,
            sp[i].scan_line_direction,
            spec_pf_height(sp[i]),
            cur_tempo,
            cur_sl,
        );
        lemma_scan_fold_len(sp, st, i + 1, ps.cur_tempo, ps.cur_sl);
    }
}

/// Copies a viewer note list.
fn copy_viewer_notes(v: &Vec<CylheimChartPageViewerNotes>) -> (r: Vec<
    CylheimChartPageViewerNotes,
>)
    ensures
        r@ == v@,
{
    let mut out: Vec<CylheimChartPageViewerNotes> = Vec::new();
    let mut i: usize = 0;
    while i < v.len()
        invariant
            i <= v@.len(),
            out@ == v@.take(i as int),
        decreases v.len() - i,
    {
        out.push(v[i]);
        proof {
            assert(out@ =~= v@.take(i as int + 1));
        }
        i = i + 1;
    }
    proof {
        assert(v@.take(i as int) =~= v@);
    }
    out
}

/// Copies a tempo list.
fn copy_tempo_list(v: &Vec<CylheimChartTempo>) -> (r: Vec<CylheimChartTempo>)
    ensures
        r@ == v@,
{
    let mut out: Vec<CylheimChartTempo> = Vec::new();
    let mut i: usize = 0;
    while i < v.len()
        invariant
            i <= v@.len(),
            out@ == v@.take(i as int),
        decreases v.len() - i,
    {
        out.push(v[i]);
        proof {
            assert(out@ =~= v@.take(i as int + 1));
        }
        i = i + 1;
    }
    proof {
        assert(v@.take(i as int) =~= v@);
    }
    out
}

/// Every tempo entry a page gathers keeps its positive value.
proof fn lemma_tempos_in_values(st: Seq<CylheimChartTempo>)
    requires
        forall|k: int| 0 <= k < st.len() ==> (#[trigger] st[k]).value >= 1,
    ensures
        forall|a: u32, b: u32, k: int|
            0 <= k < tempos_in(st, a, b).len() ==> (#[trigger] tempos_in(st, a, b)[k]).value >= 1,
{
    assert forall|a: u32, b: u32, k: int|
        0 <= k < tempos_in(st, a, b).len() implies (#[trigger] tempos_in(st, a, b)[k]).value
        >= 1 by {
        lemma_tempos_in_sub(st, a, b, k);
    };
}

/// Each gathered tempo entry is one of the chart's entries.
proof fn lemma_tempos_in_sub(st: Seq<CylheimChartTempo>, a: u32, b: u32, k: int)
    requires
        0 <= k < tempos_in(st, a, b).len(),
    ensures
        exists|j: int| 0 <= j < st.len() && #[trigger] st[j] == tempos_in(st, a, b)[k],
    decreases st.len(),
{
    if st.len() > 0 {
        let prev = tempos_in(st.drop_last(), a, b);
        if k < prev.len() {
            lemma_tempos_in_sub(st.drop_last(), a, b, k);
            let j = choose|j: int|
                0 <= j < st.drop_last().len() && #[trigger] st.drop_last()[j] == prev[k];
            assert(st[j] == prev[k]);
            assert(tempos_in(st, a, b)[k] == prev[k]);
        } else {
            assert(tempos_in(st, a, b)[k] == st.last());
            assert(st[st.len() - 1] == st.last());
        }
    }
}

} // verus!
