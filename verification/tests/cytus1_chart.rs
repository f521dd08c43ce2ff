use cyl_package_tool::cytus1_chart::compare_links;
use cyl_package_tool::cytus1_chart::Cytus1Chart;
use cyl_package_tool::cytus1_chart::Cytus1ChartLink;
use cyl_package_tool::cytus1_chart::Cytus1ChartNote;

fn sample_chart() -> Cytus1Chart {
    let note = Cytus1ChartNote {
        id: 2,
        time_micros: 2_234_234,
        x_micros: 500_000,
        hold_length_micros: 1_333_000,
    };
    let link = Cytus1ChartLink { link: vec![1, 2, 3, 4, 5] };
    Cytus1Chart {
        version: 2,
        bpm_micros: 200_000_000,
        page_shift_micros: 0,
        page_size_micros: 1_200_000,
        notes: vec![note, note, note, note, note],
        links: vec![Cytus1ChartLink { link: link.link.clone() }, link],
    }
}

#[test]
fn test_cytus1_chart_to_string() {
    let chart = sample_chart();
    println!("{}", chart.to_text());
}

#[test]
fn serializes_exact_text() {
    let chart = sample_chart();
    let text = chart.to_text();
    let mut expected = String::new();
    expected.push_str("VERSION 2\n");
    expected.push_str("BPM 200.000000\n");
    expected.push_str("PAGE_SHIFT 0.000000\n");
    expected.push_str("PAGE_SIZE 1.200000\n");
    for _ in 0..5 {
        expected.push_str("Note\t2\t2.234234\t0.500000\t1.333000\n");
    }
    expected.push_str("LINK 1 2 3 4 5\n");
    expected.push_str("LINK 1 2 3 4 5\n");
    assert_eq!(text, expected);
}

#[test]
fn parses_own_output() {
    let chart = sample_chart();
    let bytes = chart.to_bytes();
    let parsed = Cytus1Chart::from_text(&bytes).expect("round trip must parse");
    assert_eq!(parsed.version, chart.version);
    assert_eq!(parsed.bpm_micros, chart.bpm_micros);
    assert_eq!(parsed.page_shift_micros, chart.page_shift_micros);
    assert_eq!(parsed.page_size_micros, chart.page_size_micros);
    assert_eq!(parsed.notes, chart.notes);
    assert_eq!(parsed.links.len(), chart.links.len());
    for (a, b) in parsed.links.iter().zip(chart.links.iter()) {
        assert_eq!(a.link, b.link);
    }
}

#[test]
fn parses_with_surrounding_text() {
    let text = "header junk\nVERSION 3\nBPM 128.500000\nPAGE_SHIFT 0.250000\n\
                PAGE_SIZE 1.867704\nnote 7 1.000000 0.250000 0.000000\n\
                LINK 7 9\ntrailing junk";
    let parsed = Cytus1Chart::from_text(text.as_bytes()).expect("must parse");
    assert_eq!(parsed.version, 3);
    assert_eq!(parsed.bpm_micros, 128_500_000);
    assert_eq!(parsed.page_shift_micros, 250_000);
    assert_eq!(parsed.page_size_micros, 1_867_704);
    assert_eq!(parsed.notes.len(), 1);
    assert_eq!(parsed.notes[0].id, 7);
    assert_eq!(parsed.notes[0].time_micros, 1_000_000);
    assert_eq!(parsed.notes[0].x_micros, 250_000);
    assert_eq!(parsed.links.len(), 1);
    assert_eq!(parsed.links[0].link, vec![7, 9]);
}

#[test]
fn reports_missing_headers() {
    let err = Cytus1Chart::from_text(b"no headers at all").unwrap_err();
    assert_eq!(err, "Failed to parse VERSION");
    let err = Cytus1Chart::from_text(b"VERSION 1\nnothing else").unwrap_err();
    assert_eq!(err, "Failed to parse BPM");
    let err = Cytus1Chart::from_text(b"VERSION 1\nBPM 100.0\n").unwrap_err();
    assert_eq!(err, "Failed to parse PAGE_SHIFT");
    let err = Cytus1Chart::from_text(b"VERSION 1\nBPM 100.0\nPAGE_SHIFT 0.0\n").unwrap_err();
    assert_eq!(err, "Failed to parse PAGE_SIZE");
}

#[test]
fn compare_links_orders_lexicographically() {
    let a = Cytus1ChartLink { link: vec![1, 2] };
    let b = Cytus1ChartLink { link: vec![1, 3] };
    let c = Cytus1ChartLink { link: vec![1, 2, 0] };
    assert_eq!(compare_links(&a, &b), std::cmp::Ordering::Less);
    assert_eq!(compare_links(&b, &a), std::cmp::Ordering::Greater);
    assert_eq!(compare_links(&a, &c), std::cmp::Ordering::Less);
    assert_eq!(compare_links(&c, &b), std::cmp::Ordering::Less);
    let a2 = Cytus1ChartLink { link: vec![1, 2] };
    assert_eq!(compare_links(&a, &a2), std::cmp::Ordering::Equal);
}
