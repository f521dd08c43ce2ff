use cyl_package_tool::chart_viewer::build_cylheim_chart_viewer;
use cyl_package_tool::chart_viewer::note_y_from_tick;
use cyl_package_tool::chart_viewer::CylheimChartPageViewerNoteType;
use cyl_package_tool::chart_viewer::CylheimChartPageViewerScanlineEventType;
use cyl_package_tool::cyl_chart::CylheimChart;
use cyl_package_tool::cyl_chart::CylheimChartNote;
use cyl_package_tool::cyl_chart::CylheimChartPage;
use cyl_package_tool::cyl_chart::CylheimChartTempo;
use cyl_package_tool::CylToolErrorKind;

fn note(id: u32, note_type: u32, page_index: u32, tick: u32, x_micros: i64) -> CylheimChartNote {
    CylheimChartNote {
        page_index,
        note_type,
        id,
        tick,
        x_micros,
        has_sibling: false,
        hold_tick: 0,
        next_id: -1,
        is_forward: false,
        falling_note_direction: None,
        approach_rate_micros: None,
    }
}

fn two_page_chart(notes: Vec<CylheimChartNote>) -> CylheimChart {
    CylheimChart {
        format_version: 1,
        time_base: 480,
        start_offset_time_micros: 0,
        end_offset_time_micros: None,
        is_start_without_ui: None,
        page_list: vec![
            CylheimChartPage {
                start_tick: 0,
                end_tick: 960,
                scan_line_direction: 1,
                position_function: None,
            },
            CylheimChartPage {
                start_tick: 960,
                end_tick: 1920,
                scan_line_direction: -1,
                position_function: None,
            },
        ],
        tempo_list: vec![CylheimChartTempo { tick: 0, value: 500_000 }],
        event_order_list: vec![],
        note_list: notes,
    }
}

#[test]
fn reassigns_ids_densely() {
    // ids 10 and 5 out of order; notes are sorted by tick first
    let chart = two_page_chart(vec![note(10, 0, 0, 480, 100_000), note(5, 0, 0, 0, 200_000)]);
    let v = build_cylheim_chart_viewer(chart).expect("layout must build");
    assert_eq!(v.chart.note_list.len(), 2);
    for (i, n) in v.chart.note_list.iter().enumerate() {
        assert_eq!(n.id as usize, i);
    }
    // the tick-earlier note comes first
    assert_eq!(v.chart.note_list[0].tick, 0);
    assert_eq!(v.chart.note_list[1].tick, 480);
}

#[test]
fn positions_lie_on_the_page() {
    let chart = two_page_chart(vec![
        note(0, 0, 0, 0, 0),
        note(1, 0, 0, 240, 1_000_000),
        note(2, 0, 1, 1440, 500_000),
    ]);
    let v = build_cylheim_chart_viewer(chart).expect("layout must build");
    for page in &v.pages {
        for n in &page.note_list {
            assert!(n.position.y_micros >= 0 && n.position.y_micros <= 1_000_000);
            assert!(n.position.x_micros >= 0 && n.position.x_micros <= 1_000_000);
        }
    }
    // page 0 scans upward: tick 240 of [0, 960) sits at 1 - 1/4
    assert_eq!(v.pages[0].note_list[1].position.y_micros, 750_000);
    // page 1 scans downward: tick 1440 of [960, 1920) sits at 1/2
    assert_eq!(v.pages[1].note_list[0].position.y_micros, 500_000);
}

#[test]
fn scan_directions_mirror_each_other() {
    for tick in [0u32, 120, 240, 479, 480, 960] {
        let down = note_y_from_tick(tick, 0, 960, -1);
        let up = note_y_from_tick(tick, 0, 960, 1);
        assert_eq!(down + up, 1_000_000);
    }
}

#[test]
fn links_drag_notes_both_ways() {
    let mut drag = note(0, 3, 0, 0, 100_000);
    drag.next_id = 1;
    let mut child = note(1, 4, 0, 480, 900_000);
    child.next_id = -1;
    let chart = two_page_chart(vec![drag, child]);
    let v = build_cylheim_chart_viewer(chart).expect("layout must build");
    let notes = &v.pages[0].note_list;
    assert_eq!(notes.len(), 2);
    assert_eq!(notes[0].drag_child_pos, Some(notes[1].position));
    assert_eq!(notes[1].drag_parent_pos, Some(notes[0].position));
    assert_eq!(notes[0].drag_parent_pos, None);
    assert_eq!(notes[1].drag_child_pos, None);
}

#[test]
fn long_hold_spans_pages() {
    let mut hold = note(0, 2, 0, 480, 500_000);
    hold.hold_tick = 960;  // runs from tick 480 to 1440, into page 1
    let chart = two_page_chart(vec![hold]);
    let v = build_cylheim_chart_viewer(chart).expect("layout must build");
    // origin page: the positioned note plus its body record
    let p0 = &v.pages[0].note_list;
    assert_eq!(p0.len(), 2);
    let body0 = p0[1].hold_body_handler.expect("origin body");
    assert!(body0.is_long_hold);
    assert!(!body0.with_tail);
    // page 0 scans upward: start at tick 480 is y = 1/2, end clamped to the
    // page end is y = 0
    assert_eq!(body0.start_y_micros, 500_000);
    assert_eq!(body0.end_y_micros, 0);
    // next page: one body record from the page top to the hold end
    let p1 = &v.pages[1].note_list;
    assert_eq!(p1.len(), 1);
    let body1 = p1[0].hold_body_handler.expect("carried body");
    assert!(body1.is_long_hold);
    assert!(body1.with_tail);
    // page 1 scans downward: start at the page top is 0, end at tick 1440 is 1/2
    assert_eq!(body1.start_y_micros, 0);
    assert_eq!(body1.end_y_micros, 500_000);
}

#[test]
fn short_hold_stays_on_its_page() {
    let mut hold = note(0, 1, 0, 0, 500_000);
    hold.hold_tick = 480;
    let chart = two_page_chart(vec![hold]);
    let v = build_cylheim_chart_viewer(chart).expect("layout must build");
    let p0 = &v.pages[0].note_list;
    assert_eq!(p0.len(), 2);
    let body = p0[1].hold_body_handler.expect("hold body");
    assert!(!body.is_long_hold);
    assert!(body.with_tail);
    assert_eq!(v.pages[1].note_list.len(), 0);
}

#[test]
fn ghosts_mirror_the_next_page() {
    let chart = two_page_chart(vec![note(0, 0, 1, 1440, 500_000)]);
    let v = build_cylheim_chart_viewer(chart).expect("layout must build");
    assert_eq!(v.pages[0].ghost_scan_line_direction, -1);
    assert_eq!(v.pages[0].ghost_note_list.len(), 1);
    assert_eq!(v.pages[0].ghost_note_list[0].id, 0);
    assert_eq!(v.pages[1].ghost_scan_line_direction, 0);
    assert_eq!(v.pages[1].ghost_note_list.len(), 0);
}

#[test]
fn gathers_page_tempos() {
    let mut chart = two_page_chart(vec![]);
    chart.tempo_list = vec![
        CylheimChartTempo { tick: 0, value: 500_000 },
        CylheimChartTempo { tick: 1000, value: 250_000 },
    ];
    let v = build_cylheim_chart_viewer(chart).expect("layout must build");
    assert_eq!(v.pages[0].tempo_list.len(), 1);
    assert_eq!(v.pages[0].tempo_list[0].tick, 0);
    assert_eq!(v.pages[1].tempo_list.len(), 1);
    assert_eq!(v.pages[1].tempo_list[0].tick, 1000);
}

#[test]
fn scanline_marks_tempo_change() {
    let mut chart = two_page_chart(vec![]);
    chart.tempo_list = vec![
        CylheimChartTempo { tick: 0, value: 500_000 },
        CylheimChartTempo { tick: 1000, value: 250_000 },
    ];
    let v = build_cylheim_chart_viewer(chart).expect("layout must build");
    // page 0 keeps the opening speed: one event at its own start
    assert!(v.pages[0].scanline.is_stable);
    // page 1 doubles the speed mid-page: unstable, one accelerate event
    assert!(!v.pages[1].scanline.is_stable);
    assert_eq!(v.pages[1].scanline.scanline_event.len(), 1);
    assert_eq!(
        v.pages[1].scanline.scanline_event[0].event_type,
        CylheimChartPageViewerScanlineEventType::Accelerate
    );
}

#[test]
fn rejects_note_on_missing_page() {
    let chart = two_page_chart(vec![note(0, 0, 7, 0, 0)]);
    let err = build_cylheim_chart_viewer(chart).unwrap_err();
    assert_eq!(err.kind, CylToolErrorKind::DanglingReference);
}

#[test]
fn rejects_duplicate_ids() {
    let chart = two_page_chart(vec![note(3, 0, 0, 0, 0), note(3, 0, 0, 480, 0)]);
    let err = build_cylheim_chart_viewer(chart).unwrap_err();
    assert_eq!(err.kind, CylToolErrorKind::InvalidChart);
}

#[test]
fn rejects_dangling_successor() {
    let mut drag = note(0, 3, 0, 0, 0);
    drag.next_id = 42;
    let chart = two_page_chart(vec![drag]);
    let err = build_cylheim_chart_viewer(chart).unwrap_err();
    assert_eq!(err.kind, CylToolErrorKind::DanglingReference);
}

#[test]
fn note_type_tags_round_trip() {
    for id in 0u32..12 {
        let t = CylheimChartPageViewerNoteType::from_id(id).expect("every tag maps");
        assert_eq!(t.get_id(), id);
    }
}
