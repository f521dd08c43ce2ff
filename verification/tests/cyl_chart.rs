use cyl_package_tool::cyl_chart::CylheimChart;
use cyl_package_tool::cyl_chart::CylheimChartEvent;
use cyl_package_tool::cyl_chart::CylheimChartNote;
use cyl_package_tool::cyl_chart::CylheimChartPage;
use cyl_package_tool::cyl_chart::CylheimChartTempo;
use cyl_package_tool::cyl_chart::CylheimChartTickEventList;
use cyl_package_tool::CylToolErrorKind;

fn note(id: u32, note_type: u32, tick: u32, x_micros: i64) -> CylheimChartNote {
    CylheimChartNote {
        page_index: 0,
        note_type,
        id,
        tick,
        x_micros,
        has_sibling: false,
        hold_tick: 0,
        next_id: -1,
        is_forward: false,
        falling_note_direction: None,
        approach_rate_micros: None,
    }
}

fn one_page_chart(notes: Vec<CylheimChartNote>) -> CylheimChart {
    CylheimChart {
        format_version: 1,
        time_base: 480,
        start_offset_time_micros: 0,
        end_offset_time_micros: None,
        is_start_without_ui: None,
        page_list: vec![CylheimChartPage {
            start_tick: 0,
            end_tick: 1920,
            scan_line_direction: 1,
            position_function: None,
        }],
        tempo_list: vec![CylheimChartTempo { tick: 0, value: 500_000 }],
        event_order_list: vec![],
        note_list: notes,
    }
}

#[test]
fn converts_single_click_note() {
    let chart = one_page_chart(vec![note(0, 0, 960, 500_000)]);
    let c1 = chart.to_cytus1_chart_directly(None).expect("conversion must succeed");
    assert_eq!(c1.version, 2);
    assert_eq!(c1.bpm_micros, 240_000_000);
    assert_eq!(c1.page_shift_micros, 0);
    assert_eq!(c1.page_size_micros, 1_000_000);
    assert_eq!(c1.notes.len(), 1);
    assert_eq!(c1.notes[0].id, 0);
    assert_eq!(c1.notes[0].time_micros, 1_000_000);
    assert_eq!(c1.notes[0].x_micros, 500_000);
    assert_eq!(c1.notes[0].hold_length_micros, 0);
    assert_eq!(c1.links.len(), 0);
}

#[test]
fn extracts_drag_chain() {
    let mut drag = note(0, 3, 0, 100_000);
    drag.next_id = 1;
    let child = {
        let mut c = note(1, 4, 480, 200_000);
        c.next_id = -1;
        c
    };
    let chart = one_page_chart(vec![drag, child]);
    let c1 = chart.to_cytus1_chart_directly(None).expect("conversion must succeed");
    assert_eq!(c1.notes.len(), 2);
    assert_eq!(c1.notes[0].id, 0);
    assert_eq!(c1.notes[1].id, 1);
    assert_eq!(c1.links.len(), 1);
    assert_eq!(c1.links[0].link, vec![0, 1]);
}

#[test]
fn rejects_illegal_note_type() {
    let chart = one_page_chart(vec![note(0, 5, 0, 100_000)]);
    let err = chart.to_cytus1_chart_directly(None).unwrap_err();
    assert_eq!(err.kind, CylToolErrorKind::InvalidChart);
    assert_eq!(err.message, "Note 0 have an invalid type 5.");
}

#[test]
fn rejects_out_of_range_x() {
    let chart = one_page_chart(vec![note(0, 0, 0, 1_500_000)]);
    let err = chart.to_cytus1_chart_directly(None).unwrap_err();
    assert_eq!(err.kind, CylToolErrorKind::InvalidChart);
}

#[test]
fn rejects_empty_chart() {
    let mut chart = one_page_chart(vec![]);
    chart.page_list.clear();
    let err = chart.to_cytus1_chart_directly(None).unwrap_err();
    assert_eq!(err.kind, CylToolErrorKind::EmptyChart);
}

#[test]
fn rejects_uneven_page_sizes() {
    let mut chart = one_page_chart(vec![]);
    chart.page_list.push(CylheimChartPage {
        start_tick: 1920,
        end_tick: 2880,
        scan_line_direction: -1,
        position_function: None,
    });
    let err = chart.to_cytus1_chart_directly(None).unwrap_err();
    assert_eq!(err.kind, CylToolErrorKind::InvalidChart);
}

#[test]
fn rejects_uneven_tempos() {
    let mut chart = one_page_chart(vec![]);
    chart.tempo_list.push(CylheimChartTempo { tick: 960, value: 600_000 });
    let err = chart.to_cytus1_chart_directly(None).unwrap_err();
    assert_eq!(err.kind, CylToolErrorKind::InvalidChart);
}

#[test]
fn later_note_with_same_id_wins() {
    let first = note(0, 0, 0, 100_000);
    let second = note(0, 0, 480, 900_000);
    let chart = one_page_chart(vec![first, second]);
    let c1 = chart.to_cytus1_chart_directly(None).expect("conversion must succeed");
    assert_eq!(c1.notes.len(), 1);
    assert_eq!(c1.notes[0].x_micros, 900_000);
}

#[test]
fn conversion_is_deterministic() {
    let mut drag = note(3, 3, 0, 100_000);
    drag.next_id = 1;
    let child = {
        let mut c = note(1, 4, 480, 200_000);
        c.next_id = -1;
        c
    };
    let chart = one_page_chart(vec![drag, child, note(0, 0, 960, 500_000)]);
    let a = chart.to_cytus1_chart_directly(Some(250_000)).expect("first run");
    let b = chart.to_cytus1_chart_directly(Some(250_000)).expect("second run");
    assert_eq!(a.to_bytes(), b.to_bytes());
}

fn legacy_chart() -> CylheimChart {
    let mut chart = one_page_chart(vec![note(0, 0, 960, 500_000)]);
    chart.tempo_list = vec![
        CylheimChartTempo { tick: 0, value: 0 },
        CylheimChartTempo { tick: 480, value: 500_000 },
    ];
    chart.event_order_list = vec![CylheimChartTickEventList {
        tick: 0,
        event_list: vec![CylheimChartEvent {
            event_type: 0,
            event_args: b"#DEFINE CYTUS1".to_vec(),
        }],
    }];
    chart
}

#[test]
fn legacy_mode_computes_page_shift() {
    let chart = legacy_chart();
    let c1 = chart.to_cytus1_chart_with_pageshift(true).expect("legacy conversion");
    // shift: 480 ticks at 500,000 us per 480 ticks is half a second
    assert_eq!(c1.page_shift_micros, 500_000);
    assert_eq!(c1.bpm_micros, 240_000_000);
    assert_eq!(c1.notes.len(), 1);
    // the note tick is rebased from 960 to 480 before timing
    assert_eq!(c1.notes[0].time_micros, 500_000);
}

#[test]
fn legacy_mode_requires_marker() {
    let mut chart = legacy_chart();
    chart.event_order_list.clear();
    let err = chart.to_cytus1_chart_with_pageshift(true).unwrap_err();
    assert_eq!(err.kind, CylToolErrorKind::MissingLegacyMarker);
    assert_eq!(err.message, "Cannot find cytus1_flag.");
}

#[test]
fn legacy_mode_checks_tempo_shape() {
    let mut chart = legacy_chart();
    chart.tempo_list[0].value = 7;
    let err = chart.to_cytus1_chart_with_pageshift(true).unwrap_err();
    assert_eq!(err.kind, CylToolErrorKind::InvalidTempoForLegacyMode);
    assert_eq!(err.message, "Invalid tempo.");
}

#[test]
fn legacy_mode_skips_marker_when_not_requested() {
    let mut chart = legacy_chart();
    chart.event_order_list.clear();
    let c1 = chart.to_cytus1_chart_with_pageshift(false).expect("marker not required");
    assert_eq!(c1.page_shift_micros, 500_000);
}

#[test]
fn page_size_getter_is_signed() {
    let page = CylheimChartPage {
        start_tick: 960,
        end_tick: 480,
        scan_line_direction: 1,
        position_function: None,
    };
    assert_eq!(page.get_page_size(), -480);
}
