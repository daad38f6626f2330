//! Properties of the bar and panel layout.

use vstd::prelude::*;

use crate::menu::chain::{first_submenu, lemma_chain_len, panel_chain};
use crate::menu::geometry::{
    anchor_of, bar_offset, item_height, lemma_widest_is_max, panel_laid_out, panel_origin,
    panels_laid_out, roots_laid_out, ItemKind, PanelGeometry, RootGeometry, ARROW_GUTTER,
    BAR_HEIGHT, BAR_ITEM_GAP, BAR_ITEM_PADDING_X, PANEL_GAP, PANEL_MIN_WIDTH, PANEL_PADDING,
    PANEL_TEXT_OFFSET,
};
use crate::menu::model::{children, is_first_submenu, MenuItem, MenuRoot};

verus! {

/// The rows of a panel stack from its top padding down with no gap and no
/// overlap, each spans the panel less its side padding, and the last ends
/// one padding above the panel's bottom.
pub proof fn rows_tile_the_panel(
    p: PanelGeometry,
    items: Seq<MenuItem>,
    widths: Seq<u32>,
    depth: int,
    ox: int,
    oy: int,
)
    requires
        panel_laid_out(p, items, widths, depth, ox, oy),
    ensures
        p.items@.len() > 0 ==> p.items@[0].bounds.y == p.bounds.y + PANEL_PADDING,
        forall|i: int|
            0 <= i < p.items@.len() - 1 ==> (#[trigger] p.items@[i + 1]).bounds.y == p.items@[i].bounds.y
                + p.items@[i].bounds.height,
        p.items@.len() > 0 ==> p.items@.last().bounds.y + p.items@.last().bounds.height + PANEL_PADDING
            == p.bounds.y + p.bounds.height,
        forall|i: int|
            0 <= i < p.items@.len() ==> {
                &&& (#[trigger] p.items@[i]).bounds.x == p.bounds.x + PANEL_PADDING
                &&& p.items@[i].bounds.x + p.items@[i].bounds.width + PANEL_PADDING == p.bounds.x
                    + p.bounds.width
            },
{
    assert forall|i: int| 0 <= i < p.items@.len() - 1 implies (#[trigger] p.items@[i + 1]).bounds.y
        == p.items@[i].bounds.y + p.items@[i].bounds.height by {
        assert(p.items@[i].bounds.height == item_height(items[i]));
    }
    if p.items@.len() > 0 {
        let n = items.len() as int;
        assert(p.items@[n - 1].bounds.height == item_height(items[n - 1]));
    }
}

/// A panel is at least the minimum width and wide enough for every action
/// and submenu label with both text indents and the arrow gutter; its width
/// is the minimum width or one of those.
pub proof fn panel_fits_its_labels(
    p: PanelGeometry,
    items: Seq<MenuItem>,
    widths: Seq<u32>,
    depth: int,
    ox: int,
    oy: int,
)
    requires
        panel_laid_out(p, items, widths, depth, ox, oy),
        widths.len() == items.len(),
    ensures
        p.bounds.width >= PANEL_MIN_WIDTH,
        forall|i: int|
            0 <= i < items.len() && !(items[i] is Separator) ==> p.bounds.width >= #[trigger] widths[i]
                + 2 * PANEL_TEXT_OFFSET + ARROW_GUTTER,
        p.bounds.width == PANEL_MIN_WIDTH || exists|i: int|
            0 <= i < items.len() && !(items[i] is Separator) && p.bounds.width == #[trigger] widths[i]
                + 2 * PANEL_TEXT_OFFSET + ARROW_GUTTER,
{
    lemma_widest_is_max(items, widths, items.len() as int);
}

/// The roots sit left to right from the bar's left edge, one gap apart, all
/// as tall as the bar.
pub proof fn roots_line_up(g: Seq<RootGeometry>, roots: Seq<MenuRoot>, widths: Seq<u32>)
    requires
        roots_laid_out(g, roots, widths),
    ensures
        g.len() > 0 ==> g[0].bounds.x == 0,
        forall|i: int|
            0 <= i < g.len() - 1 ==> (#[trigger] g[i + 1]).bounds.x == g[i].bounds.x + g[i].bounds.width
                + BAR_ITEM_GAP,
        forall|i: int| 0 <= i < g.len() ==> (#[trigger] g[i]).bounds.y == 0 && g[i].bounds.height == BAR_HEIGHT,
        forall|i: int|
            0 <= i < g.len() ==> {
                &&& (#[trigger] g[i]).bounds.width == widths[i] + 2 * BAR_ITEM_PADDING_X
                &&& g[i].id == roots[i].id
                &&& g[i].label == roots[i].label
            },
{
    assert forall|i: int| 0 <= i < g.len() - 1 implies (#[trigger] g[i + 1]).bounds.x == g[i].bounds.x
        + g[i].bounds.width + BAR_ITEM_GAP by {
        assert(bar_offset(widths, i + 1) == bar_offset(widths, i) + widths[i] + 24 + 4);
    }
}

/// In a chain of open panels, every panel but the last has a submenu named
/// by the path at its depth, and the next panel shows that submenu's items.
pub proof fn lemma_chain_links(items: Seq<MenuItem>, path: Seq<Seq<char>>, d0: int, k: int)
    requires
        0 <= d0,
        0 <= k,
        k + 1 < panel_chain(items, path, d0).len(),
    ensures
        ({
            let c = panel_chain(items, path, d0);
            &&& d0 + k < path.len()
            &&& first_submenu(c[k], path[d0 + k]) is Some
            &&& c[k + 1] == children(c[k][first_submenu(c[k], path[d0 + k])->0])
        }),
    decreases k,
{
    let c = panel_chain(items, path, d0);
    if 0 <= d0 < path.len() {
        match first_submenu(items, path[d0]) {
            Some(i) => {
                let sub = panel_chain(children(items[i]), path, d0 + 1);
                lemma_chain_len(children(items[i]), path, d0 + 1);
                assert(c == seq![items] + sub);
                if k > 0 {
                    lemma_chain_links(children(items[i]), path, d0 + 1, k - 1);
                    assert(c[k] == sub[k - 1]);
                    assert(c[k + 1] == sub[k]);
                }
            },
            None => {},
        }
    } else {
        lemma_chain_len(items, path, d0);
    }
}

/// The root's panel hangs one gap below the bar at `x0`, and each submenu
/// panel opens one gap right of the submenu row that the path names in the
/// panel before it, level with that row.
pub proof fn submenu_panels_open_beside_their_rows(
    panels: Seq<PanelGeometry>,
    items: Seq<MenuItem>,
    path: Seq<Seq<char>>,
    widths: Seq<Vec<u32>>,
    x0: int,
    d: int,
)
    requires
        panels_laid_out(panels, panel_chain(items, path, 0), path, widths, x0),
        0 <= d,
        d + 1 < panels.len(),
    ensures
        panels[0].bounds.x == x0,
        panels[0].bounds.y == BAR_HEIGHT + PANEL_GAP,
        ({
            let a = anchor_of(panel_chain(items, path, 0)[d], path[d]);
            let row = panels[d].items@[a];
            &&& 0 <= a < panels[d].items@.len()
            &&& row.kind matches ItemKind::Submenu { id, .. } && id@ == path[d]
            &&& panels[d + 1].bounds.x == row.bounds.x + row.bounds.width + PANEL_GAP
            &&& panels[d + 1].bounds.y == row.bounds.y
        }),
{
    let c = panel_chain(items, path, 0);
    lemma_chain_links(items, path, 0, d);
    let a = anchor_of(c[d], path[d]);
    let i = choose|k: int| is_first_submenu(c[d], path[d], k);
    assert(is_first_submenu(c[d], path[d], i));
    assert(a == i);
    assert(panel_laid_out(panels[d], c[d], widths[d]@, d, panel_origin(c, path, widths, x0, d).0, panel_origin(c, path, widths, x0, d).1));
    assert(panel_laid_out(panels[d + 1], c[d + 1], widths[d + 1]@, d + 1, panel_origin(c, path, widths, x0, d + 1).0, panel_origin(c, path, widths, x0, d + 1).1));
    assert(panel_laid_out(panels[0], c[0], widths[0]@, 0, panel_origin(c, path, widths, x0, 0).0, panel_origin(c, path, widths, x0, 0).1));
    let row = panels[d].items@[a];
    assert(row.kind == crate::menu::geometry::kind_of(c[d][a]));
}

} // verus!
