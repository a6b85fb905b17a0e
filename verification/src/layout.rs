//! The grid layout: where each copy of a card lands, row by row and page
//! by page.
//!
//! A cursor walks a page from the top row down, left to right in each row.
//! Before a card is placed the cursor wraps to the next row if the card
//! would cross the right margin, and then moves to the top of a fresh page
//! if the row lies below the bottom margin. Heights grow upwards from the
//! lower edge of the page.

use vstd::prelude::*;
use vstd::arithmetic::div_mod::{lemma_fundamental_div_mod, lemma_fundamental_div_mod_converse};
use crate::configs::PageMarginConfig;

verus! {

/// The mathematical state of a cursor: the lower left corner of the next
/// card slot and the page it lies on.
pub struct CursorModel {
    pub x: int,
    pub y: int,
    pub page_index: nat,
}

/// The cursor of a fresh sheet: at the left margin, in the top row of the
/// first page.
pub open spec fn start_cursor(cfg: PageMarginConfig) -> CursorModel {
    CursorModel { x: cfg.margin_left as int, y: cfg.top_row(), page_index: 0 }
}

/// A card placed at the cursor would cross the right margin, which is as
/// wide as the left one.
pub open spec fn wraps(cfg: PageMarginConfig, c: CursorModel) -> bool {
    c.x + cfg.card_width > cfg.page_width - cfg.margin_left
}

/// The cursor after the wrap check: back at the left margin and one row
/// down if the card would cross the right margin, else unchanged.
pub open spec fn after_wrap(cfg: PageMarginConfig, c: CursorModel) -> CursorModel {
    if wraps(cfg, c) {
        CursorModel {
            x: cfg.margin_left as int,
            y: c.y - (cfg.card_height + cfg.vertical_spacing),
            page_index: c.page_index,
        }
    } else {
        c
    }
}

/// The row reached after the wrap check lies below the bottom margin, so
/// the page is full.
pub open spec fn overflows(cfg: PageMarginConfig, c: CursorModel) -> bool {
    after_wrap(cfg, c).y < cfg.margin_bottom
}

/// The cursor at which a card is placed: after the wrap check and, only
/// then, the page-overflow check.
pub open spec fn settled(cfg: PageMarginConfig, c: CursorModel) -> CursorModel {
    let w = after_wrap(cfg, c);
    if overflows(cfg, c) {
        CursorModel { x: w.x, y: cfg.top_row(), page_index: w.page_index + 1 }
    } else {
        w
    }
}

/// The cursor moved one slot to the right.
pub open spec fn advanced(cfg: PageMarginConfig, c: CursorModel) -> CursorModel {
    CursorModel {
        x: c.x + cfg.card_width + cfg.horizontal_spacing,
        y: c.y,
        page_index: c.page_index,
    }
}

/// The cursor as it stands when copy `i` (counted from 0) is about to be
/// placed, before its two checks.
pub open spec fn cursor_before(cfg: PageMarginConfig, i: nat) -> CursorModel
    decreases i,
{
    if i == 0 {
        start_cursor(cfg)
    } else {
        advanced(cfg, settled(cfg, cursor_before(cfg, (i - 1) as nat)))
    }
}

/// The slot of copy `i` (counted from 0): its corner and its page.
pub open spec fn slot(cfg: PageMarginConfig, i: nat) -> CursorModel {
    settled(cfg, cursor_before(cfg, i))
}

/// Scale factors are given in thousandths; this is the unit scale.
pub const UNIT_SCALE: u32 = 1000;

/// One resolved position of one copy of the image.
#[derive(Clone, Copy, Debug, PartialEq, Eq, Structural)]
pub struct Placement {
    /// Distance of the card's left edge from the page's left edge.
    pub x: i64,
    /// Height of the card's lower edge above the page's lower edge.
    pub y: i64,
    /// Horizontal scale in thousandths.
    pub scale_x: u32,
    /// Vertical scale in thousandths.
    pub scale_y: u32,
    /// Resolution in thousandths of a dot per inch.
    pub dpi: u64,
    /// Counter-clockwise rotation in degrees.
    pub rotation_degrees: i32,
}

/// The placement made at a settled cursor: unit scale, no rotation.
pub open spec fn placement_at(c: CursorModel, dpi: u64) -> Placement {
    Placement {
        x: c.x as i64,
        y: c.y as i64,
        scale_x: UNIT_SCALE,
        scale_y: UNIT_SCALE,
        dpi,
        rotation_degrees: 0,
    }
}

/// The pages that are complete once `k` copies have been placed.
pub open spec fn closed_pages(cfg: PageMarginConfig, dpi: u64, k: nat) -> Seq<Seq<Placement>>
    decreases k,
{
    if k == 0 {
        Seq::empty()
    } else {
        let before = cursor_before(cfg, (k - 1) as nat);
        let earlier = closed_pages(cfg, dpi, (k - 1) as nat);
        if overflows(cfg, before) {
            earlier.push(open_page(cfg, dpi, (k - 1) as nat))
        } else {
            earlier
        }
    }
}

/// The page still being filled once `k` copies have been placed.
pub open spec fn open_page(cfg: PageMarginConfig, dpi: u64, k: nat) -> Seq<Placement>
    decreases k,
{
    if k == 0 {
        Seq::empty()
    } else {
        let before = cursor_before(cfg, (k - 1) as nat);
        let placed = placement_at(settled(cfg, before), dpi);
        if overflows(cfg, before) {
            seq![placed]
        } else {
            open_page(cfg, dpi, (k - 1) as nat).push(placed)
        }
    }
}

/// The sheet of `copies` placements, page by page: every page that filled
/// up, then the last one.
pub open spec fn sheet_layout(cfg: PageMarginConfig, dpi: u64, copies: nat) -> Seq<Seq<Placement>> {
    closed_pages(cfg, dpi, copies).push(open_page(cfg, dpi, copies))
}

/// What happened before a card was placed.
#[derive(Clone, Copy, Debug, PartialEq, Eq, Structural)]
pub struct Transition {
    /// The cursor went back to the left margin and one row down.
    pub row_wrap: bool,
    /// The page was full: the card opens a new one.
    pub page_overflow: bool,
    /// Where the card is placed.
    pub x: i64,
    pub y: i64,
}

/// The cursor threaded through the placements of one sheet.
#[derive(Clone, Copy, Debug)]
pub struct PlacementCursor {
    x: i64,
    y: i64,
    page_index: u32,
}

impl View for PlacementCursor {
    type V = CursorModel;

    closed spec fn view(&self) -> CursorModel {
        CursorModel { x: self.x as int, y: self.y as int, page_index: self.page_index as nat }
    }
}

impl PlacementCursor {
    /// The cursor lies where a walk over a page can have brought it: the
    /// bounds that keep its arithmetic within the machine's integers.
    pub closed spec fn wf(&self) -> bool {
        &&& 0 <= self.x <= 0x3_0000_0000
        &&& -0x2_0000_0000 <= self.y <= 0x1_0000_0000
    }

    /// The cursor of a fresh sheet.
    pub fn start(cfg: &PageMarginConfig) -> (cursor: Self)
        ensures
            cursor.wf(),
            cursor@ == start_cursor(*cfg),
    {
        PlacementCursor {
            x: cfg.margin_left as i64,
            y: cfg.page_height as i64 - cfg.margin_top as i64 - cfg.card_height as i64,
            page_index: 0,
        }
    }

    pub fn x(&self) -> (x: i64)
        ensures
            x == self@.x,
    {
        self.x
    }

    pub fn y(&self) -> (y: i64)
        ensures
            y == self@.y,
    {
        self.y
    }

    pub fn page_index(&self) -> (p: u32)
        ensures
            p == self@.page_index,
    {
        self.page_index
    }

    /// Places one card: wraps to the next row if needed, then opens a new
    /// page if needed, reports where the card goes, and moves one slot to
    /// the right.
    pub fn place(&mut self, cfg: &PageMarginConfig) -> (t: Transition)
        requires
            old(self).wf(),
            old(self)@.page_index < u32::MAX,
        ensures
            final(self).wf(),
            final(self)@ == advanced(*cfg, settled(*cfg, old(self)@)),
            t.row_wrap == wraps(*cfg, old(self)@),
            t.page_overflow == overflows(*cfg, old(self)@),
            t.x == settled(*cfg, old(self)@).x,
            t.y == settled(*cfg, old(self)@).y,
            0 <= t.x <= 0x1_0000_0000,
            -0x2_0000_0000 <= t.y <= 0x1_0000_0000,
    {
        let top: i64 = cfg.page_height as i64 - cfg.margin_top as i64 - cfg.card_height as i64;
        let mut row_wrap = false;
        if self.x + cfg.card_width as i64 > cfg.page_width as i64 - cfg.margin_left as i64 {
            self.x = cfg.margin_left as i64;
            self.y = self.y - (cfg.card_height as i64 + cfg.vertical_spacing as i64);
            row_wrap = true;
        }
        let mut page_overflow = false;
        if self.y < cfg.margin_bottom as i64 {
            self.y = top;
            self.page_index = self.page_index + 1;
            page_overflow = true;
        }
        let t = Transition { row_wrap, page_overflow, x: self.x, y: self.y };
        self.x = self.x + (cfg.card_width as i64 + cfg.horizontal_spacing as i64);
        t
    }
}

/// The placements of each page as mathematical sequences.
pub open spec fn page_views(pages: Seq<Vec<Placement>>) -> Seq<Seq<Placement>> {
    Seq::new(pages.len(), |p: int| pages[p]@)
}

/// Lays out `copies` copies of one image, each embedded at resolution
/// `dpi`, and returns their placements page by page. The last page is
/// returned even when it is empty, so there is always at least one.
pub fn layout_sheet(cfg: &PageMarginConfig, copies: u32, dpi: u64) -> (pages: Vec<Vec<Placement>>)
    ensures
        page_views(pages@) == sheet_layout(*cfg, dpi, copies as nat),
{
    let mut cursor = PlacementCursor::start(cfg);
    let mut done: Vec<Vec<Placement>> = Vec::new();
    let mut current: Vec<Placement> = Vec::new();
    let mut i: u32 = 0;
    assert(page_views(done@) =~= closed_pages(*cfg, dpi, 0));
    while i < copies
        invariant
            i <= copies,
            cursor.wf(),
            cursor@ == cursor_before(*cfg, i as nat),
            cursor@.page_index <= i,
            page_views(done@) == closed_pages(*cfg, dpi, i as nat),
            current@ == open_page(*cfg, dpi, i as nat),
        decreases copies - i,
    {
        let ghost before = cursor@;
        let ghost done_before = done@;
        let t = cursor.place(cfg);
        if t.page_overflow {
            done.push(current);
            current = Vec::new();
            assert(page_views(done@) =~= page_views(done_before).push(
                open_page(*cfg, dpi, i as nat),
            ));
        }
        current.push(
            Placement {
                x: t.x,
                y: t.y,
                scale_x: UNIT_SCALE,
                scale_y: UNIT_SCALE,
                dpi,
                rotation_degrees: 0,
            },
        );
        assert(current@ =~= open_page(*cfg, dpi, (i + 1) as nat));
        i = i + 1;
    }
    let ghost done_before = done@;
    done.push(current);
    assert(page_views(done@) =~= page_views(done_before).push(open_page(*cfg, dpi, copies as nat)));
    done
}

/// The number of placements on the pages before page `p`.
pub open spec fn copies_before(layout: Seq<Seq<Placement>>, p: int) -> nat
    decreases p,
{
    if p <= 0 {
        0
    } else {
        copies_before(layout, p - 1) + layout[p - 1].len()
    }
}

/// Page `p` of the layout exists and has a position `j`.
pub open spec fn on_page(layout: Seq<Seq<Placement>>, p: int, j: int) -> bool {
    0 <= p < layout.len() && 0 <= j < layout[p].len()
}

/// The number of placements on all pages together.
pub open spec fn copies_on(layout: Seq<Seq<Placement>>) -> nat {
    copies_before(layout, layout.len() as int)
}

proof fn lemma_copies_before_push(s: Seq<Seq<Placement>>, x: Seq<Placement>, p: int)
    requires
        p <= s.len(),
    ensures
        copies_before(s.push(x), p) == copies_before(s, p),
    decreases p,
{
    if p > 0 {
        lemma_copies_before_push(s, x, p - 1);
        assert(s.push(x)[p - 1] == s[p - 1]);
    }
}

proof fn lemma_closed_and_open_pages(cfg: PageMarginConfig, dpi: u64, k: nat)
    ensures
        closed_pages(cfg, dpi, k).len() == cursor_before(cfg, k).page_index,
        copies_on(closed_pages(cfg, dpi, k)) + open_page(cfg, dpi, k).len() == k,
        forall|p: int, j: int|
            #![trigger closed_pages(cfg, dpi, k)[p][j]]
            0 <= p < closed_pages(cfg, dpi, k).len() && 0 <= j < closed_pages(cfg, dpi, k)[p].len()
                ==> {
                let i = (copies_before(closed_pages(cfg, dpi, k), p) + j) as nat;
                &&& closed_pages(cfg, dpi, k)[p][j] == placement_at(slot(cfg, i), dpi)
                &&& slot(cfg, i).page_index == p
            },
        forall|j: int|
            #![trigger open_page(cfg, dpi, k)[j]]
            0 <= j < open_page(cfg, dpi, k).len() ==> {
                let i = (k - open_page(cfg, dpi, k).len() + j) as nat;
                &&& open_page(cfg, dpi, k)[j] == placement_at(slot(cfg, i), dpi)
                &&& slot(cfg, i).page_index == closed_pages(cfg, dpi, k).len()
            },
    decreases k,
{
    if k > 0 {
        let m = (k - 1) as nat;
        lemma_closed_and_open_pages(cfg, dpi, m);
        let before = cursor_before(cfg, m);
        let closed0 = closed_pages(cfg, dpi, m);
        let open0 = open_page(cfg, dpi, m);
        let closed1 = closed_pages(cfg, dpi, k);
        let open1 = open_page(cfg, dpi, k);
        if overflows(cfg, before) {
            assert(closed1 == closed0.push(open0));
            lemma_copies_before_push(closed0, open0, closed0.len() as int);
            assert(closed1[closed0.len() as int] == open0);
            assert forall|p: int, j: int|
                #![trigger closed1[p][j]]
                0 <= p < closed1.len() && 0 <= j < closed1[p].len() implies {
                let i = (copies_before(closed1, p) + j) as nat;
                &&& closed1[p][j] == placement_at(slot(cfg, i), dpi)
                &&& slot(cfg, i).page_index == p
            } by {
                lemma_copies_before_push(closed0, open0, p);
                if p < closed0.len() {
                    assert(closed1[p] == closed0[p]);
                    assert(closed0[p][j] == placement_at(
                        slot(cfg, (copies_before(closed0, p) + j) as nat),
                        dpi,
                    ));
                } else {
                    assert(open0[j] == placement_at(
                        slot(cfg, (m - open0.len() + j) as nat),
                        dpi,
                    ));
                }
            }
            assert(open1 == seq![placement_at(settled(cfg, before), dpi)]);
        } else {
            assert(closed1 == closed0);
            assert(open1 == open0.push(placement_at(settled(cfg, before), dpi)));
            assert forall|j: int| #![trigger open1[j]] 0 <= j < open1.len() implies {
                let i = (k - open1.len() + j) as nat;
                &&& open1[j] == placement_at(slot(cfg, i), dpi)
                &&& slot(cfg, i).page_index == closed1.len()
            } by {
                if j < open0.len() {
                    assert(open1[j] == open0[j]);
                    assert(open0[j] == placement_at(
                        slot(cfg, (m - open0.len() + j) as nat),
                        dpi,
                    ));
                }
            }
        }
    }
}

/// A sheet holds every copy exactly once and in order, each on the page
/// that its slot names.
///
/// The pages of a sheet of `copies` copies hold `copies` placements in
/// all. The placement at position `j` of page `p` is that of the copy
/// numbered by the placements before it, and the slot of that copy lies on
/// page `p`. There is exactly one page more than the page index of the
/// last slot, so no page but the first can be empty.
pub proof fn lemma_sheet_holds_every_copy(cfg: PageMarginConfig, dpi: u64, copies: nat)
    ensures
        copies_on(sheet_layout(cfg, dpi, copies)) == copies,
        sheet_layout(cfg, dpi, copies).len() == cursor_before(cfg, copies).page_index + 1,
        forall|p: int, j: int| #[trigger]
            on_page(sheet_layout(cfg, dpi, copies), p, j) ==> {
                let i = (copies_before(sheet_layout(cfg, dpi, copies), p) + j) as nat;
                &&& i < copies
                &&& sheet_layout(cfg, dpi, copies)[p][j] == placement_at(
                    slot(cfg, i),
                    dpi,
                )
                &&& slot(cfg, i).page_index == p
            },
        copies > 0 ==> sheet_layout(cfg, dpi, copies).last().len() > 0,
{
    lemma_closed_and_open_pages(cfg, dpi, copies);
    let closed = closed_pages(cfg, dpi, copies);
    let open = open_page(cfg, dpi, copies);
    let layout = sheet_layout(cfg, dpi, copies);
    lemma_copies_before_push(closed, open, closed.len() as int);
    assert(layout[closed.len() as int] == open);
    assert forall|p: int, j: int| #[trigger] on_page(layout, p, j) implies {
        let i = (copies_before(layout, p) + j) as nat;
        &&& i < copies
        &&& layout[p][j] == placement_at(slot(cfg, i), dpi)
        &&& slot(cfg, i).page_index == p
    } by {
        lemma_copies_before_push(closed, open, p);
        if p < closed.len() {
            assert(layout[p] == closed[p]);
            assert(closed[p][j] == placement_at(
                slot(cfg, (copies_before(closed, p) + j) as nat),
                dpi,
            ));
            lemma_copies_before_grows(closed, p + 1, closed.len() as int);
            assert(copies_before(closed, p + 1) == copies_before(closed, p) + closed[p].len());
            assert(copies_before(layout, p) + j < copies);
        } else {
            assert(copies_before(layout, p) == copies_on(closed));
            assert(open[j] == placement_at(slot(cfg, (copies - open.len() + j) as nat), dpi));
            assert(copies_before(layout, p) + j < copies);
        }
    }
    assert(layout.last() == open);
}

proof fn lemma_copies_before_grows(s: Seq<Seq<Placement>>, p: int, q: int)
    requires
        p <= q,
    ensures
        copies_before(s, p) <= copies_before(s, q),
    decreases q - p,
{
    if p < q {
        lemma_copies_before_grows(s, p, q - 1);
    }
}

/// Every slot lies between the bottom margin and the top row, whenever one
/// card fits on the page.
pub proof fn lemma_slots_between_rows(cfg: PageMarginConfig, i: nat)
    requires
        cfg.card_fits(),
    ensures
        cfg.margin_bottom <= slot(cfg, i).y <= cfg.top_row(),
        cfg.margin_bottom <= cursor_before(cfg, i).y <= cfg.top_row(),
    decreases i,
{
    if i > 0 {
        lemma_slots_between_rows(cfg, (i - 1) as nat);
    }
}

/// Every slot lies between the left margin and the place where a card
/// still ends before the right margin, whenever a card fits between the
/// two margins.
pub proof fn lemma_slots_between_margins(cfg: PageMarginConfig, i: nat)
    requires
        cfg.card_width + 2 * cfg.margin_left <= cfg.page_width,
    ensures
        cfg.margin_left <= slot(cfg, i).x <= cfg.page_width - cfg.margin_left - cfg.card_width,
        cfg.margin_left <= cursor_before(cfg, i).x,
    decreases i,
{
    if i > 0 {
        lemma_slots_between_margins(cfg, (i - 1) as nat);
    }
}

/// Along a row the slots step to the right by one card and one spacing.
///
/// Where the next copy needs no wrap, its slot lies on the same page and
/// in the same row, further right by the card's width and the horizontal
/// spacing; where it wraps, its slot is at the left margin.
pub proof fn lemma_slots_step_along_row(cfg: PageMarginConfig, i: nat)
    requires
        cfg.is_valid(),
    ensures
        !wraps(cfg, cursor_before(cfg, i + 1)) ==> {
            &&& slot(cfg, i + 1).x == slot(cfg, i).x + cfg.card_width + cfg.horizontal_spacing
            &&& slot(cfg, i + 1).x > slot(cfg, i).x
            &&& slot(cfg, i + 1).y == slot(cfg, i).y
            &&& slot(cfg, i + 1).page_index == slot(cfg, i).page_index
        },
        wraps(cfg, cursor_before(cfg, i + 1)) ==> slot(cfg, i + 1).x == cfg.margin_left,
{
    lemma_slots_between_rows(cfg, i);
    assert(cursor_before(cfg, i + 1) == advanced(cfg, slot(cfg, i)));
}

/// Whatever the layout, the coordinates of a slot stay far inside the range
/// of a 64-bit integer.
pub proof fn lemma_slots_fit_machine_integers(cfg: PageMarginConfig, i: nat)
    ensures
        0 <= slot(cfg, i).x <= 0x1_0000_0000,
        -0x2_0000_0000 <= slot(cfg, i).y <= 0x1_0000_0000,
        0 <= cursor_before(cfg, i).x <= 0x3_0000_0000,
        -0x2_0000_0000 <= cursor_before(cfg, i).y <= 0x1_0000_0000,
    decreases i,
{
    if i > 0 {
        lemma_slots_fit_machine_integers(cfg, (i - 1) as nat);
    }
}

/// The number of cards that fit side by side between the two margins.
pub open spec fn cards_per_row(cfg: PageMarginConfig) -> int {
    (cfg.page_width - 2 * cfg.margin_left - cfg.card_width) / (cfg.card_width
        + cfg.horizontal_spacing) + 1
}

/// The number of rows that fit between the top and the bottom margin.
pub open spec fn rows_per_page(cfg: PageMarginConfig) -> int {
    (cfg.top_row() - cfg.margin_bottom) / (cfg.card_height + cfg.vertical_spacing) + 1
}

/// The slot of copy `i` on a grid that is filled row by row and page by
/// page: its column is `i` modulo the cards per row, its row is the number
/// of full rows before it modulo the rows per page, and its page is the
/// number of full pages before it.
pub open spec fn grid_slot(cfg: PageMarginConfig, i: nat) -> CursorModel {
    let per_row = cards_per_row(cfg);
    let rows = rows_per_page(cfg);
    CursorModel {
        x: cfg.margin_left + (i as int % per_row) * (cfg.card_width + cfg.horizontal_spacing),
        y: cfg.top_row() - ((i as int / per_row) % rows) * (cfg.card_height
            + cfg.vertical_spacing),
        page_index: ((i as int / per_row) / rows) as nat,
    }
}

/// The quotient and the remainder of the next number.
proof fn lemma_next_div_mod(n: int, k: int)
    requires
        0 <= n,
        0 < k,
    ensures
        0 <= n % k < k,
        0 <= n / k,
        n % k == k - 1 ==> (n + 1) % k == 0 && (n + 1) / k == n / k + 1,
        n % k != k - 1 ==> (n + 1) % k == n % k + 1 && (n + 1) / k == n / k,
{
    lemma_fundamental_div_mod(n, k);
    assert(0 <= n / k) by (nonlinear_arith)
        requires
            0 <= n,
            0 < k,
    ;
    if n % k == k - 1 {
        assert(n + 1 == (n / k + 1) * k + 0) by (nonlinear_arith)
            requires
                n == k * (n / k) + n % k,
                n % k == k - 1,
        ;
        lemma_fundamental_div_mod_converse(n + 1, k, n / k + 1, 0);
    } else {
        assert(n + 1 == (n / k) * k + (n % k + 1)) by (nonlinear_arith)
            requires
                n == k * (n / k) + n % k,
        ;
        lemma_fundamental_div_mod_converse(n + 1, k, n / k, n % k + 1);
    }
}

/// `m` steps of length `d` pass the distance `w` exactly when `m` is more
/// than the whole number of steps that fit in `w`.
proof fn lemma_steps_pass(m: int, d: int, w: int)
    requires
        0 <= m,
        0 < d,
        0 <= w,
    ensures
        m * d > w <==> m > w / d,
        0 <= w / d,
{
    lemma_fundamental_div_mod(w, d);
    let q = w / d;
    assert(0 <= q) by (nonlinear_arith)
        requires
            q == w / d,
            0 <= w,
            0 < d,
    ;
    if m > q {
        assert(m * d >= d * q + d) by (nonlinear_arith)
            requires
                m >= q + 1,
                d > 0,
        ;
    } else {
        assert(m * d <= d * q) by (nonlinear_arith)
            requires
                0 <= m <= q,
                d > 0,
        ;
    }
}

/// The slots fill a grid, row by row and page by page.
///
/// Where the layout is usable and a card fits between the two margins, the
/// slot of copy `i` is its place on the grid: a row takes as many cards as
/// fit between the margins, a page takes as many rows as fit between its
/// top and bottom margins, and a page is left exactly when a further row
/// would reach below the bottom margin.
pub proof fn lemma_slots_fill_a_grid(cfg: PageMarginConfig, i: nat)
    requires
        cfg.is_valid(),
        cfg.card_width + 2 * cfg.margin_left <= cfg.page_width,
    ensures
        cards_per_row(cfg) >= 1,
        rows_per_page(cfg) >= 1,
        slot(cfg, i) == grid_slot(cfg, i),
    decreases i,
{
    let dx = cfg.card_width + cfg.horizontal_spacing;
    let dy = cfg.card_height + cfg.vertical_spacing;
    let w = cfg.page_width - 2 * cfg.margin_left - cfg.card_width;
    let h = cfg.top_row() - cfg.margin_bottom;
    let per_row = cards_per_row(cfg);
    let rows = rows_per_page(cfg);
    lemma_steps_pass(0, dx, w);
    lemma_steps_pass(0, dy, h);
    if i == 0 {
        lemma_next_div_mod(0, per_row);
        lemma_next_div_mod(0, rows);
        assert(0int % per_row == 0 && 0int / per_row == 0) by {
            lemma_fundamental_div_mod_converse(0, per_row, 0, 0);
        }
        assert(0int % rows == 0 && 0int / rows == 0) by {
            lemma_fundamental_div_mod_converse(0, rows, 0, 0);
        }
        assert(0 * dx == 0) by (nonlinear_arith);
        assert(0 * dy == 0) by (nonlinear_arith);
    } else {
        let n = (i - 1) as nat;
        lemma_slots_fill_a_grid(cfg, n);
        lemma_slots_between_rows(cfg, n);
        let col = n as int % per_row;
        let full_rows = n as int / per_row;
        lemma_next_div_mod(n as int, per_row);
        lemma_next_div_mod(full_rows, rows);
        let row = full_rows % rows;
        let before = cursor_before(cfg, i);
        assert(before == advanced(cfg, slot(cfg, n)));
        assert(before.x == cfg.margin_left + (col + 1) * dx) by (nonlinear_arith)
            requires
                before.x == cfg.margin_left + col * dx + dx,
        ;
        lemma_steps_pass(col + 1, dx, w);
        assert(wraps(cfg, before) <==> col == per_row - 1);
        if wraps(cfg, before) {
            assert(after_wrap(cfg, before).y == cfg.top_row() - (row + 1) * dy)
                by (nonlinear_arith)
                requires
                    after_wrap(cfg, before).y == cfg.top_row() - row * dy - dy,
            ;
            lemma_steps_pass(row + 1, dy, h);
            assert(overflows(cfg, before) <==> row == rows - 1);
            assert(0 * dx == 0) by (nonlinear_arith);
            assert(0 * dy == 0) by (nonlinear_arith);
        }
    }
}

} // verus!
