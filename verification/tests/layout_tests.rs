use idcard_sheet::configs::PageMarginConfig;
use idcard_sheet::layout::{layout_sheet, Placement, PlacementCursor, UNIT_SCALE};

fn three_by_two() -> PageMarginConfig {
    PageMarginConfig {
        page_width: 300_000,
        page_height: 150_000,
        card_width: 80_000,
        card_height: 50_000,
        margin_top: 10_000,
        margin_left: 10_000,
        margin_bottom: 10_000,
        horizontal_spacing: 10_000,
        vertical_spacing: 10_000,
    }
}

fn sizes(pages: &Vec<Vec<Placement>>) -> Vec<usize> {
    pages.iter().map(|p| p.len()).collect()
}

fn corners(page: &Vec<Placement>) -> Vec<(i64, i64)> {
    page.iter().map(|p| (p.x, p.y)).collect()
}

#[test]
fn eight_copies_three_per_row_two_rows_per_page() {
    let cfg = three_by_two();
    assert_eq!(cfg.validate(), Ok(()));
    let pages = layout_sheet(&cfg, 8, 300_000);
    assert_eq!(sizes(&pages), vec![6, 2]);
    assert_eq!(
        corners(&pages[0]),
        vec![
            (10_000, 90_000),
            (100_000, 90_000),
            (190_000, 90_000),
            (10_000, 30_000),
            (100_000, 30_000),
            (190_000, 30_000),
        ]
    );
    assert_eq!(corners(&pages[1]), vec![(10_000, 90_000), (100_000, 90_000)]);
}

#[test]
fn default_layout_holds_eight_copies_on_one_page() {
    let cfg = PageMarginConfig::default();
    let pages = layout_sheet(&cfg, 8, 300_193);
    assert_eq!(sizes(&pages), vec![8]);
    assert_eq!(
        corners(&pages[0]),
        vec![
            (10_000, 233_000),
            (113_600, 233_000),
            (10_000, 169_000),
            (113_600, 169_000),
            (10_000, 105_000),
            (113_600, 105_000),
            (10_000, 41_000),
            (113_600, 41_000),
        ]
    );
}

#[test]
fn ninth_copy_of_default_layout_opens_a_second_page() {
    let cfg = PageMarginConfig::default();
    let pages = layout_sheet(&cfg, 9, 1);
    assert_eq!(sizes(&pages), vec![8, 1]);
    assert_eq!(corners(&pages[1]), vec![(10_000, 233_000)]);
}

#[test]
fn placements_have_unit_scale_the_given_dpi_and_no_rotation() {
    let cfg = PageMarginConfig::default();
    let pages = layout_sheet(&cfg, 3, 123_456);
    for page in &pages {
        for p in page {
            assert_eq!(p.scale_x, UNIT_SCALE);
            assert_eq!(p.scale_y, UNIT_SCALE);
            assert_eq!(p.dpi, 123_456);
            assert_eq!(p.rotation_degrees, 0);
        }
    }
    assert_eq!(UNIT_SCALE, 1000);
}

#[test]
fn no_copies_give_one_empty_page() {
    let cfg = PageMarginConfig::default();
    let pages = layout_sheet(&cfg, 0, 1);
    assert_eq!(sizes(&pages), vec![0]);
}

#[test]
fn every_copy_is_placed_exactly_once() {
    let cfg = three_by_two();
    for copies in 0..40u32 {
        let pages = layout_sheet(&cfg, copies, 1);
        let total: usize = pages.iter().map(|p| p.len()).sum();
        assert_eq!(total, copies as usize);
    }
}

#[test]
fn full_rows_step_by_card_and_spacing_and_stay_left_of_the_right_margin() {
    let cfg = three_by_two();
    let pages = layout_sheet(&cfg, 30, 1);
    let limit = (cfg.page_width - cfg.margin_left - cfg.card_width) as i64;
    let step = (cfg.card_width + cfg.horizontal_spacing) as i64;
    for page in &pages {
        for pair in page.windows(2) {
            if pair[0].y == pair[1].y {
                assert_eq!(pair[1].x, pair[0].x + step);
            } else {
                assert_eq!(pair[1].x, cfg.margin_left as i64);
            }
        }
        for p in page {
            assert!(p.x >= cfg.margin_left as i64);
            assert!(p.x <= limit);
            assert!(p.y >= cfg.margin_bottom as i64);
            assert!(p.y <= (cfg.page_height - cfg.margin_top - cfg.card_height) as i64);
        }
    }
}

#[test]
fn overflow_is_checked_only_after_the_wrap() {
    // The third row would start at -30 mm: the seventh copy wraps and then
    // opens the second page at the left margin of the top row.
    let cfg = three_by_two();
    let mut cursor = PlacementCursor::start(&cfg);
    let mut seen = Vec::new();
    for _ in 0..7 {
        let t = cursor.place(&cfg);
        seen.push((t.row_wrap, t.page_overflow, t.x, t.y));
    }
    assert_eq!(seen[0], (false, false, 10_000, 90_000));
    assert_eq!(seen[2], (false, false, 190_000, 90_000));
    assert_eq!(seen[3], (true, false, 10_000, 30_000));
    assert_eq!(seen[5], (false, false, 190_000, 30_000));
    assert_eq!(seen[6], (true, true, 10_000, 90_000));
    assert_eq!(cursor.page_index(), 1);
    assert_eq!(cursor.x(), 100_000);
    assert_eq!(cursor.y(), 90_000);
}

#[test]
fn cursor_starts_at_the_left_margin_of_the_top_row() {
    let cfg = PageMarginConfig::default();
    let cursor = PlacementCursor::start(&cfg);
    assert_eq!(cursor.x(), 10_000);
    assert_eq!(cursor.y(), 233_000);
    assert_eq!(cursor.page_index(), 0);
}

#[test]
fn card_that_crosses_the_right_margin_wraps_at_once() {
    // The card fits beside the left margin but not between both margins:
    // every copy wraps, the first one too, so the top row stays empty.
    let mut cfg = PageMarginConfig::default();
    cfg.card_width = 195_000;
    assert_eq!(cfg.validate(), Ok(()));
    let pages = layout_sheet(&cfg, 4, 1);
    assert_eq!(sizes(&pages), vec![3, 1]);
    assert_eq!(
        corners(&pages[0]),
        vec![(10_000, 169_000), (10_000, 105_000), (10_000, 41_000)]
    );
    assert_eq!(corners(&pages[1]), vec![(10_000, 233_000)]);
}

#[test]
fn one_card_per_page() {
    let cfg = PageMarginConfig {
        page_width: 100_000,
        page_height: 100_000,
        card_width: 60_000,
        card_height: 60_000,
        margin_top: 10_000,
        margin_left: 10_000,
        margin_bottom: 10_000,
        horizontal_spacing: 5_000,
        vertical_spacing: 5_000,
    };
    assert_eq!(cfg.validate(), Ok(()));
    let pages = layout_sheet(&cfg, 3, 1);
    assert_eq!(sizes(&pages), vec![1, 1, 1]);
    for page in &pages {
        assert_eq!(corners(page), vec![(10_000, 30_000)]);
    }
}
