use cyl_package_tool::cyl_config::sort_bookmarks_by_tick;
use cyl_package_tool::cyl_config::CylheimBookmark;
use cyl_package_tool::cyl_theme::CylheimDiffOption;
use cyl_package_tool::cyl_theme::CylheimThemeColor;
use cyl_package_tool::cyl_theme::CylheimThemeIcon;
use cyl_package_tool::CylToolError;
use cyl_package_tool::CylToolErrorKind;

#[test]
fn theme_colors() {
    assert_eq!(CylheimThemeColor::Paff.get_color(), "#FF5BC098");
    assert_eq!(CylheimThemeColor::Miku.get_color(), "#FF03BACE");
    assert_eq!(CylheimThemeColor::CustomColor("#12345678".to_string()).get_color(), "#12345678");
}

#[test]
fn diff_metas() {
    let m = CylheimDiffOption::Chaos.get_meta();
    assert_eq!(m.diff_name, "CHAOS");
    assert_eq!(m.diff_background_color, "#FF330033");
    assert_eq!(m.diff_text_color, "#B3FF33FF");
    let custom = CylheimDiffOption::Custom(cyl_package_tool::cyl_theme::CylheimDiffMeta {
        diff_name: "MINE".to_string(),
        diff_background_color: "#FF000000".to_string(),
        diff_text_color: "#FFFFFFFF".to_string(),
    });
    let m = custom.get_meta();
    assert_eq!(m.diff_name, "MINE");
}

#[test]
fn theme_icons() {
    assert_eq!(CylheimThemeIcon::Ivy.get_icon_path(), "cyl://cyicons/ivy001");
    assert_eq!(CylheimThemeIcon::Aroma.get_icon_path(), "cyl://cyicons/paff002");
    assert_eq!(CylheimThemeIcon::CustomColor("cyl://x".to_string()).get_icon_path(), "cyl://x");
}

#[test]
fn bookmarks_sort_stably() {
    let v = vec![
        CylheimBookmark::new(300, "c".to_string()),
        CylheimBookmark::new(100, "a".to_string()),
        CylheimBookmark::new(300, "b".to_string()),
        CylheimBookmark::new(200, "d".to_string()),
    ];
    let sorted = sort_bookmarks_by_tick(v);
    let ticks: Vec<u32> = sorted.iter().map(|b| b.tick).collect();
    assert_eq!(ticks, vec![100, 200, 300, 300]);
    // equal ticks keep their original order
    assert_eq!(sorted[2].tag, "c");
    assert_eq!(sorted[3].tag, "b");
}

#[test]
fn error_constructors() {
    let e = CylToolError::new("broken");
    assert_eq!(e.kind, CylToolErrorKind::InvalidChart);
    assert_eq!(e.message(), "broken");
}
