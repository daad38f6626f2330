use vstd::prelude::*;

use crate::menu::chain::{
    first_submenu, lemma_chain_len, open_chain, open_panels, open_root_index, panel_chain,
};
use crate::menu::model::MenuItem;
use crate::menu::model::MenuRoot;
use crate::menu::state::MenuState;

verus! {

/// Height of the bar.
pub const BAR_HEIGHT: u64 = 32;
/// Horizontal padding on each side of a root label.
pub const BAR_ITEM_PADDING_X: u64 = 12;
/// Gap between two roots of the bar.
pub const BAR_ITEM_GAP: u64 = 4;
/// Gap between the bar and a panel, and between a panel and its submenu.
pub const PANEL_GAP: u64 = 2;
/// Padding inside a panel, around its rows.
pub const PANEL_PADDING: u64 = 6;
/// Height of an action or submenu row.
pub const PANEL_ITEM_HEIGHT: u64 = 28;
/// Height of a separator row.
pub const PANEL_SEPARATOR_HEIGHT: u64 = 8;
/// Narrowest panel.
pub const PANEL_MIN_WIDTH: u64 = 180;
/// Indent of a row's label inside the row.
pub const PANEL_TEXT_OFFSET: u64 = 10;
/// Room kept at the right of a row for the submenu arrow.
pub const ARROW_GUTTER: u64 = 24;
/// Largest label width, item count and path length that the layout takes:
/// the range in which every width is an exact single-precision integer.
pub const MAX_EXTENT: u64 = 16777216;
/// Largest panel origin coordinate that `layout_panel` takes.
pub const MAX_ORIGIN: u64 = 1152921504606846976;

/// An axis-aligned rectangle in whole pixels, relative to the bar's top-left
/// corner.
#[derive(Debug, Clone, Copy, PartialEq, Eq)]
pub struct Rect {
    pub x: u64,
    pub y: u64,
    pub width: u64,
    pub height: u64,
}

/// What a laid-out panel row shows.
#[derive(Debug, Clone, Copy)]
pub enum ItemKind {
    Action { id: &'static str, label: &'static str },
    Submenu { id: &'static str, label: &'static str },
    Separator,
}

/// A laid-out root of the bar.
#[derive(Debug, Clone, Copy)]
pub struct RootGeometry {
    pub id: &'static str,
    pub label: &'static str,
    pub bounds: Rect,
}

/// A laid-out panel row; `depth` is the panel's depth (0 for the root's panel).
#[derive(Debug, Clone, Copy)]
pub struct ItemGeometry {
    pub depth: usize,
    pub bounds: Rect,
    pub kind: ItemKind,
}

/// A laid-out panel and its rows, top to bottom.
#[derive(Debug)]
pub struct PanelGeometry {
    pub bounds: Rect,
    pub items: Vec<ItemGeometry>,
}

/// `r` is the rectangle with corner `(x, y)` and the given size.
pub open spec fn rect_is(r: Rect, x: int, y: int, width: int, height: int) -> bool {
    &&& r.x == x
    &&& r.y == y
    &&& r.width == width
    &&& r.height == height
}

/// Every width is at most `MAX_EXTENT`, and so is their number.
pub open spec fn measured(widths: Seq<u32>) -> bool {
    &&& widths.len() <= MAX_EXTENT
    &&& forall|i: int| 0 <= i < widths.len() ==> widths[i] <= MAX_EXTENT
}

/// Height of the row showing `item`.
pub open spec fn item_height(item: MenuItem) -> int {
    match item {
        MenuItem::Separator => PANEL_SEPARATOR_HEIGHT as int,
        _ => PANEL_ITEM_HEIGHT as int,
    }
}

/// Total height of the first `n` rows.
pub open spec fn heights_before(items: Seq<MenuItem>, n: int) -> int
    decreases n,
{
    if n <= 0 {
        0
    } else {
        heights_before(items, n - 1) + item_height(items[n - 1])
    }
}

/// Panel width that a row asks for: its label with the indents on both sides
/// and the arrow gutter (nothing for a separator).
pub open spec fn row_extent(item: MenuItem, label_width: u32) -> int {
    match item {
        MenuItem::Separator => 0,
        _ => label_width + 2 * PANEL_TEXT_OFFSET + ARROW_GUTTER,
    }
}

/// Widest of the minimum panel width and the extents of the first `n` rows.
pub open spec fn widest(items: Seq<MenuItem>, widths: Seq<u32>, n: int) -> int
    decreases n,
{
    if n <= 0 {
        PANEL_MIN_WIDTH as int
    } else {
        let w = widest(items, widths, n - 1);
        let e = row_extent(items[n - 1], widths[n - 1]);
        if e > w {
            e
        } else {
            w
        }
    }
}

/// Width of the panel showing `items` whose labels measure `widths`.
pub open spec fn panel_width(items: Seq<MenuItem>, widths: Seq<u32>) -> int {
    widest(items, widths, items.len() as int)
}

/// Height of the panel showing `items`.
pub open spec fn panel_height(items: Seq<MenuItem>) -> int {
    2 * PANEL_PADDING + heights_before(items, items.len() as int)
}

/// What the row of `item` shows.
pub open spec fn kind_of(item: MenuItem) -> ItemKind {
    match item {
        MenuItem::Action { id, label } => ItemKind::Action { id, label },
        MenuItem::Submenu { id, label, .. } => ItemKind::Submenu { id, label },
        MenuItem::Separator => ItemKind::Separator,
    }
}

/// `g` is the row of `item` at depth `depth`, at `(x, y)`, `width` wide.
pub open spec fn item_laid_out(g: ItemGeometry, item: MenuItem, depth: int, x: int, y: int, width: int) -> bool {
    &&& g.depth == depth
    &&& rect_is(g.bounds, x, y, width, item_height(item))
    &&& g.kind == kind_of(item)
}

/// `p` is the panel of `items` (labels measuring `widths`) at depth `depth`
/// with its top-left corner at `(ox, oy)`: rows stacked from the top padding
/// down, each as wide as the panel less its side padding.
pub open spec fn panel_laid_out(
    p: PanelGeometry,
    items: Seq<MenuItem>,
    widths: Seq<u32>,
    depth: int,
    ox: int,
    oy: int,
) -> bool {
    let w = panel_width(items, widths);
    &&& rect_is(p.bounds, ox, oy, w, panel_height(items))
    &&& p.items@.len() == items.len()
    &&& forall|i: int|
        0 <= i < items.len() ==> item_laid_out(
            #[trigger] p.items@[i],
            items[i],
            depth,
            ox + PANEL_PADDING,
            oy + PANEL_PADDING + heights_before(items, i),
            w - 2 * PANEL_PADDING,
        )
}

/// The first `n` rows are at most `n` item heights tall.
pub proof fn lemma_heights_bounded(items: Seq<MenuItem>, n: int)
    requires
        0 <= n <= items.len(),
    ensures
        0 <= heights_before(items, n) <= n * PANEL_ITEM_HEIGHT,
    decreases n,
{
    if n > 0 {
        lemma_heights_bounded(items, n - 1);
    }
}

/// A panel is at least the minimum width and at most the widest label
/// allowed plus the row decorations.
pub proof fn lemma_widest_bounded(items: Seq<MenuItem>, widths: Seq<u32>, n: int)
    requires
        0 <= n <= items.len(),
        n <= widths.len(),
        measured(widths),
    ensures
        PANEL_MIN_WIDTH <= widest(items, widths, n) <= MAX_EXTENT + 2 * PANEL_TEXT_OFFSET + ARROW_GUTTER,
    decreases n,
{
    if n > 0 {
        lemma_widest_bounded(items, widths, n - 1);
    }
}

/// A panel's width is the widest of the minimum width and, over every action
/// and submenu row, the row's label width plus both text indents and the
/// arrow gutter: at least each of these, and equal to one of them.
pub proof fn lemma_widest_is_max(items: Seq<MenuItem>, widths: Seq<u32>, n: int)
    requires
        0 <= n <= items.len(),
        n <= widths.len(),
    ensures
        widest(items, widths, n) >= PANEL_MIN_WIDTH,
        forall|i: int|
            0 <= i < n && !(items[i] is Separator) ==> widest(items, widths, n) >= #[trigger] widths[i]
                + 2 * PANEL_TEXT_OFFSET + ARROW_GUTTER,
        widest(items, widths, n) == PANEL_MIN_WIDTH || exists|i: int|
            0 <= i < n && !(items[i] is Separator) && widest(items, widths, n) == #[trigger] widths[i]
                + 2 * PANEL_TEXT_OFFSET + ARROW_GUTTER,
    decreases n,
{
    if n > 0 {
        lemma_widest_is_max(items, widths, n - 1);
        let w = widest(items, widths, n - 1);
        if widest(items, widths, n) != w {
            assert(!(items[n - 1] is Separator));
            assert(widest(items, widths, n) == widths[n - 1] + 2 * PANEL_TEXT_OFFSET + ARROW_GUTTER);
        } else if w != PANEL_MIN_WIDTH {
            let i = choose|i: int|
                0 <= i < n - 1 && !(items[i] is Separator) && w == #[trigger] widths[i] + 2
                    * PANEL_TEXT_OFFSET + ARROW_GUTTER;
            assert(0 <= i < n && !(items[i] is Separator) && widest(items, widths, n) == widths[i] + 2
                * PANEL_TEXT_OFFSET + ARROW_GUTTER);
        }
    }
}

/// Lays out the panel of `items`, whose labels measure `widths`, at depth
/// `depth` with its top-left corner at `(ox, oy)`.
pub fn layout_panel(items: &[MenuItem], widths: &Vec<u32>, depth: usize, ox: u64, oy: u64) -> (panel: PanelGeometry)
    requires
        widths@.len() == items@.len(),
        measured(widths@),
        ox <= MAX_ORIGIN,
        oy <= MAX_ORIGIN,
    ensures
        panel_laid_out(panel, items@, widths@, depth as int, ox as int, oy as int),
        panel.bounds.x == ox,
        panel.bounds.y == oy,
        panel.bounds.width >= PANEL_MIN_WIDTH,
        forall|i: int|
            0 <= i < items@.len() && !(items@[i] is Separator) ==> panel.bounds.width
                >= #[trigger] widths@[i] + 2 * PANEL_TEXT_OFFSET + ARROW_GUTTER,
        panel.bounds.width == PANEL_MIN_WIDTH || exists|i: int|
            0 <= i < items@.len() && !(items@[i] is Separator) && panel.bounds.width
                == #[trigger] widths@[i] + 2 * PANEL_TEXT_OFFSET + ARROW_GUTTER,
        panel.items@.len() == items@.len(),
        forall|i: int|
            0 <= i < items@.len() ==> {
                &&& (#[trigger] panel.items@[i]).depth == depth
                &&& panel.items@[i].bounds.x == ox + PANEL_PADDING
                &&& panel.items@[i].bounds.width + 2 * PANEL_PADDING == panel.bounds.width
                &&& panel.items@[i].bounds.height == if items@[i] is Separator {
                    PANEL_SEPARATOR_HEIGHT
                } else {
                    PANEL_ITEM_HEIGHT
                }
            },
        items@.len() > 0 ==> panel.items@[0].bounds.y == oy + PANEL_PADDING,
        forall|i: int|
            0 <= i < items@.len() - 1 ==> (#[trigger] panel.items@[i + 1]).bounds.y
                == panel.items@[i].bounds.y + panel.items@[i].bounds.height,
        items@.len() > 0 ==> panel.items@.last().bounds.y + panel.items@.last().bounds.height
            + PANEL_PADDING == oy + panel.bounds.height,
        items@.len() == 0 ==> panel.bounds.height == 2 * PANEL_PADDING,
        forall|i: int|
            0 <= i < items@.len() ==> {
                &&& (#[trigger] items@[i] matches MenuItem::Action { id, label } ==> panel.items@[i].kind
                    == (ItemKind::Action { id, label }))
                &&& (items@[i] matches MenuItem::Submenu { id, label, .. } ==> panel.items@[i].kind
                    == (ItemKind::Submenu { id, label }))
                &&& (items@[i] is Separator ==> panel.items@[i].kind is Separator)
            },
{
    let n = items.len();
    let mut width: u64 = PANEL_MIN_WIDTH;
    let mut i: usize = 0;
    while i < n
        invariant
            n == items@.len(),
            n == widths@.len(),
            measured(widths@),
            i <= n,
            width == widest(items@, widths@, i as int),
        decreases n - i,
    {
        proof {
            lemma_widest_bounded(items@, widths@, i as int);
        }
        match items[i] {
            MenuItem::Separator => {},
            _ => {
                let extent = widths[i] as u64 + 2 * PANEL_TEXT_OFFSET + ARROW_GUTTER;
                if extent > width {
                    width = extent;
                }
            },
        }
        i = i + 1;
    }
    proof {
        lemma_widest_bounded(items@, widths@, n as int);
    }
    let mut rows: Vec<ItemGeometry> = Vec::new();
    let mut y: u64 = oy + PANEL_PADDING;
    let mut j: usize = 0;
    while j < n
        invariant
            n == items@.len(),
            n <= MAX_EXTENT,
            j <= n,
            oy <= MAX_ORIGIN,
            ox <= MAX_ORIGIN,
            width == panel_width(items@, widths@),
            PANEL_MIN_WIDTH <= width <= MAX_EXTENT + 2 * PANEL_TEXT_OFFSET + ARROW_GUTTER,
            y == oy + PANEL_PADDING + heights_before(items@, j as int),
            rows@.len() == j,
            forall|k: int|
                0 <= k < j ==> item_laid_out(
                    #[trigger] rows@[k],
                    items@[k],
                    depth as int,
                    ox + PANEL_PADDING,
                    oy + PANEL_PADDING + heights_before(items@, k),
                    width - 2 * PANEL_PADDING,
                ),
        decreases n - j,
    {
        proof {
            lemma_heights_bounded(items@, j as int);
        }
        let item = items[j];
        let (height, kind) = match item {
            MenuItem::Action { id, label } => (PANEL_ITEM_HEIGHT, ItemKind::Action { id, label }),
            MenuItem::Submenu { id, label, .. } => (PANEL_ITEM_HEIGHT, ItemKind::Submenu { id, label }),
            MenuItem::Separator => (PANEL_SEPARATOR_HEIGHT, ItemKind::Separator),
        };
        rows.push(
            ItemGeometry {
                depth,
                bounds: Rect { x: ox + PANEL_PADDING, y, width: width - 2 * PANEL_PADDING, height },
                kind,
            },
        );
        y = y + height;
        j = j + 1;
    }
    proof {
        lemma_heights_bounded(items@, n as int);
    }
    let height = y - oy + PANEL_PADDING;
    proof {
        lemma_widest_is_max(items@, widths@, n as int);
        assert forall|i: int| 0 <= i < n - 1 implies (#[trigger] rows@[i + 1]).bounds.y
            == rows@[i].bounds.y + rows@[i].bounds.height by {
            assert(heights_before(items@, i + 1) == heights_before(items@, i) + item_height(items@[i]));
        }
    }
    PanelGeometry { bounds: Rect { x: ox, y: oy, width, height }, items: rows }
}

/// The laid-out bar and its open panels, outermost first.
#[derive(Debug)]
pub struct MenuGeometry {
    pub roots: Vec<RootGeometry>,
    pub panels: Vec<PanelGeometry>,
}

/// Left edge of the `n`-th root: the roots before it, each its label plus
/// padding wide, with a gap after each.
pub open spec fn bar_offset(widths: Seq<u32>, n: int) -> int
    decreases n,
{
    if n <= 0 {
        0
    } else {
        bar_offset(widths, n - 1) + widths[n - 1] + 2 * BAR_ITEM_PADDING_X + BAR_ITEM_GAP
    }
}

/// `g` lays out `roots`, whose labels measure `widths`, left to right along
/// the bar.
pub open spec fn roots_laid_out(g: Seq<RootGeometry>, roots: Seq<MenuRoot>, widths: Seq<u32>) -> bool {
    &&& g.len() == roots.len()
    &&& forall|i: int|
        0 <= i < roots.len() ==> {
            &&& (#[trigger] g[i]).id == roots[i].id
            &&& g[i].label == roots[i].label
            &&& rect_is(
                g[i].bounds,
                bar_offset(widths, i),
                0,
                widths[i] + 2 * BAR_ITEM_PADDING_X,
                BAR_HEIGHT as int,
            )
        }
}

/// Row of the submenu named `id` in `items` (the first one).
pub open spec fn anchor_of(items: Seq<MenuItem>, id: Seq<char>) -> int {
    match first_submenu(items, id) {
        Some(a) => a,
        None => 0,
    }
}

/// Top-left corner of the panel at depth `d`: the root's panel hangs below
/// the root at `x0`; each submenu panel starts just right of the row that
/// opened it, level with that row.
pub open spec fn panel_origin(
    chain: Seq<Seq<MenuItem>>,
    path: Seq<Seq<char>>,
    widths: Seq<Vec<u32>>,
    x0: int,
    d: int,
) -> (int, int)
    decreases d,
{
    if d <= 0 {
        (x0, BAR_HEIGHT + PANEL_GAP)
    } else {
        let (px, py) = panel_origin(chain, path, widths, x0, d - 1);
        let items = chain[d - 1];
        let w = panel_width(items, widths[d - 1]@);
        (
            px + PANEL_PADDING + (w - 2 * PANEL_PADDING) + PANEL_GAP,
            py + PANEL_PADDING + heights_before(items, anchor_of(items, path[d - 1])),
        )
    }
}

/// `panels` lays out each panel of `chain`, with labels measuring `widths`,
/// at its depth and origin, the root's panel below the root at `x0`.
pub open spec fn panels_laid_out(
    panels: Seq<PanelGeometry>,
    chain: Seq<Seq<MenuItem>>,
    path: Seq<Seq<char>>,
    widths: Seq<Vec<u32>>,
    x0: int,
) -> bool {
    &&& panels.len() == chain.len()
    &&& forall|d: int|
        0 <= d < chain.len() ==> panel_laid_out(
            #[trigger] panels[d],
            chain[d],
            widths[d]@,
            d,
            panel_origin(chain, path, widths, x0, d).0,
            panel_origin(chain, path, widths, x0, d).1,
        )
}

/// The measured labels fit the open panels: one width list per open panel,
/// one width per row.
pub open spec fn widths_fit_chain(chain: Seq<Seq<MenuItem>>, widths: Seq<Vec<u32>>) -> bool {
    &&& widths.len() == chain.len()
    &&& forall|d: int|
        0 <= d < chain.len() ==> {
            &&& (#[trigger] widths[d])@.len() == chain[d].len()
            &&& measured(widths[d]@)
        }
}

/// The roots before the `n`-th take at most `n` of the widest roots.
proof fn lemma_bar_offset_bounded(widths: Seq<u32>, n: int)
    requires
        0 <= n <= widths.len(),
        measured(widths),
    ensures
        0 <= bar_offset(widths, n) <= n * 16777244,
    decreases n,
{
    if n > 0 {
        lemma_bar_offset_bounded(widths, n - 1);
    }
}

impl MenuGeometry {
    /// Lays out the bar of `roots` and the panels that `state` has open.
    /// `root_widths` measures the root labels; `panel_widths` measures the
    /// row labels of each open panel (see `open_panels`).
    pub fn new(
        roots: &[MenuRoot],
        state: &MenuState,
        root_widths: &Vec<u32>,
        panel_widths: &Vec<Vec<u32>>,
    ) -> (geometry: MenuGeometry)
        requires
            root_widths@.len() == roots@.len(),
            measured(root_widths@),
            state@.open_path.len() < MAX_EXTENT,
            widths_fit_chain(open_chain(roots@, state@), panel_widths@),
        ensures
            roots_laid_out(geometry.roots@, roots@, root_widths@),
            match open_root_index(roots@, state@) {
                Some(r) => panels_laid_out(
                    geometry.panels@,
                    open_chain(roots@, state@),
                    state@.open_path,
                    panel_widths@,
                    bar_offset(root_widths@, r),
                ),
                None => geometry.panels@.len() == 0,
            },
            geometry.roots@.len() == roots@.len(),
            geometry.roots@.len() > 0 ==> geometry.roots@[0].bounds.x == 0,
            forall|i: int|
                0 <= i < geometry.roots@.len() ==> {
                    &&& (#[trigger] geometry.roots@[i]).id == roots@[i].id
                    &&& geometry.roots@[i].label == roots@[i].label
                    &&& geometry.roots@[i].bounds.y == 0
                    &&& geometry.roots@[i].bounds.height == BAR_HEIGHT
                    &&& geometry.roots@[i].bounds.width == root_widths@[i] + 2 * BAR_ITEM_PADDING_X
                },
            forall|i: int|
                0 <= i < geometry.roots@.len() - 1 ==> (#[trigger] geometry.roots@[i + 1]).bounds.x
                    == geometry.roots@[i].bounds.x + geometry.roots@[i].bounds.width + BAR_ITEM_GAP,
            geometry.panels@.len() == open_chain(roots@, state@).len(),
            geometry.panels@.len() > 0 ==> {
                &&& geometry.panels@[0].bounds.x == geometry.roots@[open_root_index(roots@, state@)->0].bounds.x
                &&& geometry.panels@[0].bounds.y == BAR_HEIGHT + PANEL_GAP
            },
            forall|d: int|
                #![trigger geometry.panels@[d]]
                0 <= d < geometry.panels@.len() - 1 ==> exists|a: int|
                    0 <= a < geometry.panels@[d].items@.len() && (#[trigger] geometry.panels@[d].items@[a].kind
                        matches ItemKind::Submenu { id, .. } && id@ == state@.open_path[d])
                        && geometry.panels@[d + 1].bounds.x == geometry.panels@[d].items@[a].bounds.x
                        + geometry.panels@[d].items@[a].bounds.width + PANEL_GAP
                        && geometry.panels@[d + 1].bounds.y == geometry.panels@[d].items@[a].bounds.y,
    {
        let n = roots.len();
        let mut root_rows: Vec<RootGeometry> = Vec::new();
        let mut x: u64 = 0;
        let mut i: usize = 0;
        while i < n
            invariant
                n == roots@.len(),
                n == root_widths@.len(),
                measured(root_widths@),
                i <= n,
                x == bar_offset(root_widths@, i as int),
                root_rows@.len() == i,
                forall|k: int|
                    0 <= k < i ==> {
                        &&& (#[trigger] root_rows@[k]).id == roots@[k].id
                        &&& root_rows@[k].label == roots@[k].label
                        &&& rect_is(
                            root_rows@[k].bounds,
                            bar_offset(root_widths@, k),
                            0,
                            root_widths@[k] + 2 * BAR_ITEM_PADDING_X,
                            BAR_HEIGHT as int,
                        )
                    },
            decreases n - i,
        {
            proof {
                lemma_bar_offset_bounded(root_widths@, i as int);
            }
            let width = root_widths[i] as u64 + 2 * BAR_ITEM_PADDING_X;
            root_rows.push(
                RootGeometry {
                    id: roots[i].id,
                    label: roots[i].label,
                    bounds: Rect { x, y: 0, width, height: BAR_HEIGHT },
                },
            );
            x = x + width + BAR_ITEM_GAP;
            i = i + 1;
        }
        let mut panels: Vec<PanelGeometry> = Vec::new();
        match open_panels(roots, state) {
            None => {},
            Some(open) => {
                let ghost chain = open_chain(roots@, state@);
                let ghost path = state@.open_path;
                let ghost r = open.root_index as int;
                proof {
                    lemma_chain_len(roots@[r].items@, path, 0);
                    lemma_bar_offset_bounded(root_widths@, r);
                    assert(chain.len() == open.panels@.len());
                }
                let x0 = root_rows[open.root_index].bounds.x;
                let m = open.panels.len();
                let mut px: u64 = x0;
                let mut py: u64 = BAR_HEIGHT + PANEL_GAP;
                let mut d: usize = 0;
                while d < m
                    invariant
                        m == chain.len(),
                        m <= MAX_EXTENT,
                        chain == crate::menu::chain::slices_view(open.panels@),
                        open.anchors@.len() + 1 == m,
                        forall|k: int|
                            0 <= k < open.anchors@.len() ==> first_submenu(
                                open.panels@[k]@,
                                path[k],
                            ) == Some(#[trigger] open.anchors@[k] as int),
                        path.len() < MAX_EXTENT,
                        widths_fit_chain(chain, panel_widths@),
                        x0 <= 281475446472704,
                        m <= path.len() + 1,
                        d <= m,
                        d < m ==> (px as int, py as int) == panel_origin(chain, path, panel_widths@, x0 as int, d as int),
                        px <= x0 + d * 16777260,
                        py <= 34 + d * 469762054,
                        panels@.len() == d,
                        forall|k: int|
                            0 <= k < d ==> panel_laid_out(
                                #[trigger] panels@[k],
                                chain[k],
                                panel_widths@[k]@,
                                k,
                                panel_origin(chain, path, panel_widths@, x0 as int, k).0,
                                panel_origin(chain, path, panel_widths@, x0 as int, k).1,
                            ),
                    decreases m - d,
                {
                    assert(open.panels@[d as int]@ == chain[d as int]);
                    let panel = layout_panel(open.panels[d], &panel_widths[d], d, px, py);
                    if d + 1 < m {
                        let a = open.anchors[d];
                        let ghost items = chain[d as int];
                        proof {
                            assert(first_submenu(items, path[d as int]) == Some(a as int));
                            let c = choose|k: int| crate::menu::model::is_first_submenu(items, path[d as int], k);
                            assert(crate::menu::model::is_first_submenu(items, path[d as int], c));
                            lemma_heights_bounded(items, a as int);
                            lemma_widest_bounded(items, panel_widths@[d as int]@, items.len() as int);
                        }
                        let row = panel.items[a];
                        px = row.bounds.x + row.bounds.width + PANEL_GAP;
                        py = row.bounds.y;
                    }
                    panels.push(panel);
                    d = d + 1;
                }
            },
        }
        let geometry = MenuGeometry { roots: root_rows, panels };
        proof {
            crate::menu::layout_laws::roots_line_up(geometry.roots@, roots@, root_widths@);
            if let Some(r) = open_root_index(roots@, state@) {
                let items = roots@[r].items@;
                let path = state@.open_path;
                let x0 = bar_offset(root_widths@, r);
                assert forall|d: int|
                    #![trigger geometry.panels@[d]]
                    0 <= d < geometry.panels@.len() - 1 implies exists|a: int|
                    0 <= a < geometry.panels@[d].items@.len() && (#[trigger] geometry.panels@[d].items@[a].kind
                        matches ItemKind::Submenu { id, .. } && id@ == path[d])
                        && geometry.panels@[d + 1].bounds.x == geometry.panels@[d].items@[a].bounds.x
                        + geometry.panels@[d].items@[a].bounds.width + PANEL_GAP
                        && geometry.panels@[d + 1].bounds.y == geometry.panels@[d].items@[a].bounds.y by {
                    crate::menu::layout_laws::submenu_panels_open_beside_their_rows(
                        geometry.panels@, items, path, panel_widths@, x0, d);
                    let a = anchor_of(panel_chain(items, path, 0)[d], path[d]);
                    assert(geometry.panels@[d].items@[a].kind matches ItemKind::Submenu { id, .. } && id@ == path[d]);
                }
                if geometry.panels@.len() > 0 {
                    assert(panel_laid_out(geometry.panels@[0], open_chain(roots@, state@)[0], panel_widths@[0]@, 0,
                        panel_origin(open_chain(roots@, state@), path, panel_widths@, x0, 0).0,
                        panel_origin(open_chain(roots@, state@), path, panel_widths@, x0, 0).1));
                }
            }
        }
        geometry
    }
}

} // verus!
