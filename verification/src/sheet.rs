//! The draw instructions of a sheet: the image at each placement, dashed
//! cut lines between rows, a fold line down the middle and an optional
//! caption.

use vstd::prelude::*;
use crate::configs::PageMarginConfig;
use crate::layout::{
    copies_before, copies_on, layout_sheet, lemma_sheet_holds_every_copy,
    lemma_slots_fit_machine_integers, on_page, page_views, placement_at, sheet_layout, slot,
    Placement,
};

verus! {

/// Length of a dash of a cut line, in the line's own units.
pub const DASH_LENGTH: i64 = 10;

/// Length of the gap between two dashes of a cut line.
pub const DASH_GAP: i64 = 5;

/// The width that one character of a caption is taken to have, in
/// micrometres. Captions are centred by this estimate: glyphs are not
/// measured.
pub const CAPTION_CHAR_WIDTH: i128 = 1800;

/// How far below the last row the caption's base line lies, in micrometres.
pub const CAPTION_DROP: i64 = 20_000;

/// Size of the caption's font, in points.
pub const CAPTION_FONT_SIZE: u32 = 20;

/// Height of a line of the caption, in points.
pub const CAPTION_LINE_HEIGHT: u32 = 20;

/// One draw instruction. Lengths are micrometres from the page's lower left
/// corner; colours are red, green and blue between 0 and 255.
#[derive(Clone, Copy, Debug, PartialEq, Eq, Structural)]
pub enum DrawOp {
    /// Draws image number `image` of the document at a placement.
    UseImage { image: usize, placement: Placement },
    /// Sets the colour of lines.
    SetOutlineColor { r: u8, g: u8, b: u8 },
    /// Makes the lines that follow dashed.
    SetLineDashPattern { offset: i64, dash: i64, gap: i64 },
    /// Draws a straight open line between two points.
    DrawLine { x1: i64, y1: i64, x2: i64, y2: i64 },
    SaveGraphicsState,
    StartTextSection,
    /// Moves the text cursor.
    SetTextCursor { x: i128, y: i64 },
    /// Selects the built-in sans-serif font at a size in points.
    SetFontSize { size: u32 },
    /// Sets the height of a text line in points.
    SetLineHeight { height: u32 },
    /// Sets the colour of text.
    SetFillColor { r: u8, g: u8, b: u8 },
    /// Writes the caption of the page.
    WriteCaption,
    EndTextSection,
    RestoreGraphicsState,
}

/// One page of a sheet: its size, its instructions in drawing order, and
/// the caption that `WriteCaption` writes.
#[derive(Debug)]
pub struct Page {
    pub width: u32,
    pub height: u32,
    pub ops: Vec<DrawOp>,
    pub caption: Option<String>,
}

/// The height of the cut line that belongs to a row at height `y`: half a
/// vertical spacing below it, rounded down to the micrometre.
pub open spec fn cut_line_height(cfg: PageMarginConfig, y: int) -> int {
    y - cfg.vertical_spacing as int / 2
}

/// The instructions for the copy with running number `number`, counted
/// from 1 over the whole sheet: the image, and after every second copy a
/// black dashed line over the full width of the page.
pub open spec fn placement_ops(
    cfg: PageMarginConfig,
    image: usize,
    placement: Placement,
    number: nat,
) -> Seq<DrawOp> {
    let draw = DrawOp::UseImage { image, placement };
    if number % 2 == 0 {
        let h = cut_line_height(cfg, placement.y as int) as i64;
        seq![
            draw,
            DrawOp::SetOutlineColor { r: 0, g: 0, b: 0 },
            DrawOp::SetLineDashPattern { offset: 0, dash: DASH_LENGTH, gap: DASH_GAP },
            DrawOp::DrawLine { x1: 0, y1: h, x2: cfg.page_width as i64, y2: h },
        ]
    } else {
        seq![draw]
    }
}

/// The instructions for the first `k` placements of a page whose first
/// placement has running number `first + 1`.
pub open spec fn page_body(
    cfg: PageMarginConfig,
    image: usize,
    page: Seq<Placement>,
    first: nat,
    k: nat,
) -> Seq<DrawOp>
    decreases k,
{
    if k == 0 {
        Seq::empty()
    } else {
        page_body(cfg, image, page, first, (k - 1) as nat) + placement_ops(
            cfg,
            image,
            page[k - 1],
            first + k,
        )
    }
}

/// The height of the last row of the sheet: that of its last placement, or
/// the top row if the sheet holds none.
pub open spec fn last_row(cfg: PageMarginConfig, layout: Seq<Seq<Placement>>) -> int {
    if layout.len() > 0 && layout.last().len() > 0 {
        layout.last().last().y as int
    } else {
        cfg.top_row()
    }
}

/// The instructions that write a caption of `chars` characters: centred on
/// the page by the estimated width, below the row at height `y`.
pub open spec fn caption_ops(cfg: PageMarginConfig, y: int, chars: nat) -> Seq<DrawOp> {
    seq![
        DrawOp::SaveGraphicsState,
        DrawOp::StartTextSection,
        DrawOp::SetTextCursor {
            x: (cfg.page_width as int / 2 - chars * CAPTION_CHAR_WIDTH) as i128,
            y: (y - CAPTION_DROP) as i64,
        },
        DrawOp::SetFontSize { size: CAPTION_FONT_SIZE },
        DrawOp::SetLineHeight { height: CAPTION_LINE_HEIGHT },
        DrawOp::SetFillColor { r: 0, g: 0, b: 0 },
        DrawOp::WriteCaption,
        DrawOp::EndTextSection,
        DrawOp::RestoreGraphicsState,
    ]
}

/// The instructions that close a sheet: the fold line down the middle of
/// the page, from its upper edge to the cut line of the row at height `y`,
/// and the caption if there is one.
pub open spec fn closing_ops(cfg: PageMarginConfig, y: int, caption_chars: Option<nat>) -> Seq<
    DrawOp,
> {
    let middle = (cfg.page_width / 2) as i64;
    let fold = DrawOp::DrawLine {
        x1: middle,
        y1: cfg.page_height as i64,
        x2: middle,
        y2: cut_line_height(cfg, y) as i64,
    };
    match caption_chars {
        Some(chars) => seq![fold] + caption_ops(cfg, y, chars),
        None => seq![fold],
    }
}

/// The instructions of page `p` of a sheet with the given layout. The last
/// page also carries the closing instructions.
pub open spec fn sheet_ops(
    cfg: PageMarginConfig,
    image: usize,
    layout: Seq<Seq<Placement>>,
    caption_chars: Option<nat>,
    p: int,
) -> Seq<DrawOp> {
    let body = page_body(cfg, image, layout[p], copies_before(layout, p), layout[p].len());
    if p == layout.len() - 1 {
        body + closing_ops(cfg, last_row(cfg, layout), caption_chars)
    } else {
        body
    }
}

/// The number of characters of a caption, if there is one.
pub open spec fn caption_chars(caption: Option<String>) -> Option<nat> {
    match caption {
        Some(text) => Some(text@.len()),
        None => None,
    }
}

/// The placement lies where a slot of a layout can lie.
pub open spec fn within_sheet(placement: Placement) -> bool {
    &&& 0 <= placement.x <= 0x1_0000_0000
    &&& -0x2_0000_0000 <= placement.y <= 0x1_0000_0000
}

fn compose_page_body(cfg: &PageMarginConfig, image: usize, page: &Vec<Placement>, first: u32) -> (ops:
    Vec<DrawOp>)
    requires
        first + page.len() <= u32::MAX,
        forall|j: int| 0 <= j < page.len() ==> within_sheet(#[trigger] page[j]),
    ensures
        ops@ == page_body(*cfg, image, page@, first as nat, page.len() as nat),
{
    let mut ops: Vec<DrawOp> = Vec::new();
    let mut k: usize = 0;
    while k < page.len()
        invariant
            k <= page.len(),
            first + page.len() <= u32::MAX,
            forall|j: int| 0 <= j < page.len() ==> within_sheet(#[trigger] page[j]),
            ops@ == page_body(*cfg, image, page@, first as nat, k as nat),
        decreases page.len() - k,
    {
        let placement = page[k];
        assert(within_sheet(page[k as int]));
        let number: u64 = first as u64 + k as u64 + 1;
        let ghost before = ops@;
        ops.push(DrawOp::UseImage { image, placement });
        if number % 2 == 0 {
            let h: i64 = placement.y - (cfg.vertical_spacing / 2) as i64;
            ops.push(DrawOp::SetOutlineColor { r: 0, g: 0, b: 0 });
            ops.push(DrawOp::SetLineDashPattern { offset: 0, dash: DASH_LENGTH, gap: DASH_GAP });
            ops.push(DrawOp::DrawLine { x1: 0, y1: h, x2: cfg.page_width as i64, y2: h });
        }
        assert(ops@ =~= before + placement_ops(*cfg, image, placement, number as nat));
        k = k + 1;
    }
    ops
}

fn push_closing_ops(cfg: &PageMarginConfig, y: i64, caption: &Option<String>, ops: &mut Vec<DrawOp>)
    requires
        -0x2_0000_0000 <= y <= 0x1_0000_0000,
    ensures
        final(ops)@ == old(ops)@ + closing_ops(*cfg, y as int, caption_chars(*caption)),
{
    let ghost before = ops@;
    let middle: i64 = (cfg.page_width / 2) as i64;
    ops.push(
        DrawOp::DrawLine {
            x1: middle,
            y1: cfg.page_height as i64,
            x2: middle,
            y2: y - (cfg.vertical_spacing / 2) as i64,
        },
    );
    match caption {
        Some(text) => {
            let chars: usize = text.as_str().unicode_len();
            let x: i128 = middle as i128 - chars as i128 * CAPTION_CHAR_WIDTH;
            ops.push(DrawOp::SaveGraphicsState);
            ops.push(DrawOp::StartTextSection);
            ops.push(DrawOp::SetTextCursor { x, y: y - CAPTION_DROP });
            ops.push(DrawOp::SetFontSize { size: CAPTION_FONT_SIZE });
            ops.push(DrawOp::SetLineHeight { height: CAPTION_LINE_HEIGHT });
            ops.push(DrawOp::SetFillColor { r: 0, g: 0, b: 0 });
            ops.push(DrawOp::WriteCaption);
            ops.push(DrawOp::EndTextSection);
            ops.push(DrawOp::RestoreGraphicsState);
            assert(ops@ =~= before + closing_ops(*cfg, y as int, caption_chars(*caption)));
        },
        None => {
            assert(ops@ =~= before + closing_ops(*cfg, y as int, caption_chars(*caption)));
        },
    }
}

/// The pages are the sheet of `copies` copies of image number `image` at
/// resolution `dpi`: one page for each page of the layout, of the
/// configured size, with the instructions of that page, and the caption on
/// the last page alone.
pub open spec fn is_sheet(
    pages: Seq<Page>,
    cfg: PageMarginConfig,
    copies: nat,
    dpi: u64,
    image: usize,
    caption: Option<String>,
) -> bool {
    &&& pages.len() == sheet_layout(cfg, dpi, copies).len()
    &&& forall|p: int|
        0 <= p < pages.len() ==> {
            &&& (#[trigger] pages[p]).width == cfg.page_width
            &&& pages[p].height == cfg.page_height
            &&& pages[p].ops@ == sheet_ops(
                cfg,
                image,
                sheet_layout(cfg, dpi, copies),
                caption_chars(caption),
                p,
            )
            &&& pages[p].caption == if p == pages.len() - 1 {
                caption
            } else {
                None::<String>
            }
        }
}

/// Composes the sheet of one image: `copies` placements laid out on the
/// grid, each drawing image number `image` at resolution `dpi`, with a cut
/// line after every second copy, the fold line and the caption on the last
/// page. Every page has the size of the configured page.
pub fn compose_sheet(
    cfg: &PageMarginConfig,
    copies: u32,
    dpi: u64,
    image: usize,
    caption: Option<String>,
) -> (pages: Vec<Page>)
    ensures
        is_sheet(pages@, *cfg, copies as nat, dpi, image, caption),
        pages.len() >= 1,
{
    let layout = layout_sheet(cfg, copies, dpi);
    let ghost model = sheet_layout(*cfg, dpi, copies as nat);
    proof {
        lemma_sheet_holds_every_copy(*cfg, dpi, copies as nat);
        assert(page_views(layout@).len() == layout.len());
    }
    let count = layout.len();
    let mut pages: Vec<Page> = Vec::new();
    let mut first: u32 = 0;
    let mut p: usize = 0;
    while p < count
        invariant
            p <= count,
            count == layout.len(),
            count >= 1,
            model == sheet_layout(*cfg, dpi, copies as nat),
            page_views(layout@) == model,
            copies_on(model) == copies,
            forall|q: int, j: int| #[trigger]
                on_page(model, q, j) ==> model[q][j] == placement_at(
                    slot(*cfg, (copies_before(model, q) + j) as nat),
                    dpi,
                ),
            first == copies_before(model, p as int),
            pages.len() == p,
            forall|q: int|
                0 <= q < p ==> {
                    &&& (#[trigger] pages[q]).width == cfg.page_width
                    &&& pages[q].height == cfg.page_height
                    &&& pages[q].ops@ == sheet_ops(*cfg, image, model, caption_chars(caption), q)
                    &&& pages[q].caption == if q == count - 1 {
                        caption
                    } else {
                        None::<String>
                    }
                },
        decreases count - p,
    {
        let page = &layout[p];
        proof {
            assert(model[p as int] == page@);
            lemma_copies_before_total(model, p as int + 1);
            assert forall|j: int| 0 <= j < page.len() implies within_sheet(#[trigger] page[j]) by {
                assert(on_page(model, p as int, j));
                lemma_slots_fit_machine_integers(
                    *cfg,
                    (copies_before(model, p as int) + j) as nat,
                );
            }
        }
        let mut ops = compose_page_body(cfg, image, page, first);
        if p == count - 1 {
            let y: i64 = if page.len() > 0 {
                page[page.len() - 1].y
            } else {
                cfg.page_height as i64 - cfg.margin_top as i64 - cfg.card_height as i64
            };
            proof {
                if page.len() > 0 {
                    assert(within_sheet(page[page.len() - 1]));
                }
                assert(y == last_row(*cfg, model));
            }
            push_closing_ops(cfg, y, &caption, &mut ops);
            p = p + 1;
            pages.push(
                Page { width: cfg.page_width, height: cfg.page_height, ops, caption },
            );
            return pages;
        }
        first = first + page.len() as u32;
        pages.push(Page { width: cfg.page_width, height: cfg.page_height, ops, caption: None });
        p = p + 1;
    }
    pages
}

proof fn lemma_copies_before_total(layout: Seq<Seq<Placement>>, p: int)
    requires
        0 <= p <= layout.len(),
    ensures
        copies_before(layout, p) <= copies_on(layout),
    decreases layout.len() - p,
{
    if p < layout.len() {
        lemma_copies_before_total(layout, p + 1);
    }
}

} // verus!
