//! Properties of the menu state machine that span several messages.

use vstd::prelude::*;

use crate::menu::chain::{first_submenu, lemma_chain_len, open_chain, open_root_index, panel_chain};
use crate::menu::model::{children, MenuItem, MenuRoot};
use crate::menu::bar::{expected_hit, expected_response, first_true, Hit, PointerEvent};
use crate::menu::geometry::{ItemGeometry, ItemKind, PanelGeometry, RootGeometry};
use crate::menu::state::{closed_state, invoked, step, truncated, MenuMessage, MenuStateView};

verus! {

/// Toggling a root that is not open opens it with no submenu open, and
/// toggling the same root again closes the bar.
pub proof fn toggle_root_twice_closes(s: MenuStateView, id: &'static str)
    requires
        s.open_root != Some(id@),
    ensures
        step(s, MenuMessage::ToggleRoot(id)) == (MenuStateView {
            open_root: Some(id@),
            open_path: Seq::empty(),
        }),
        step(step(s, MenuMessage::ToggleRoot(id)), MenuMessage::ToggleRoot(id)) == closed_state(),
{
}

/// Toggling to another root reopens cleanly: the new root is open and no
/// submenu of the old one stays open.
pub proof fn toggle_other_root_reopens_cleanly(s: MenuStateView, id: &'static str)
    requires
        s.open_root is Some,
        s.open_root != Some(id@),
    ensures
        step(s, MenuMessage::ToggleRoot(id)).open_root == Some(id@),
        step(s, MenuMessage::ToggleRoot(id)).open_path.len() == 0,
{
}

/// Hovering the root that is already open changes nothing, so open
/// submenus survive; opening a root twice is the same as opening it once.
pub proof fn open_root_is_idempotent(s: MenuStateView, id: &'static str)
    ensures
        s.open_root == Some(id@) ==> step(s, MenuMessage::OpenRoot(id)) == s,
        step(step(s, MenuMessage::OpenRoot(id)), MenuMessage::OpenRoot(id)) == step(
            s,
            MenuMessage::OpenRoot(id),
        ),
{
}

/// Trimming the path to `depth` keeps every submenu above `depth` open and
/// closes the rest; the open root is untouched.
pub proof fn trim_path_keeps_parents(s: MenuStateView, depth: usize)
    ensures
        ({
            let t = step(s, MenuMessage::TrimPath(depth));
            &&& t.open_root == s.open_root
            &&& t.open_path.len() == if depth < s.open_path.len() {
                depth as int
            } else {
                s.open_path.len() as int
            }
            &&& forall|k: int| 0 <= k < t.open_path.len() ==> t.open_path[k] == s.open_path[k]
        }),
{
}

/// Two trims are one trim to the smaller depth.
pub proof fn trim_path_composes(s: MenuStateView, a: usize, b: usize)
    ensures
        step(step(s, MenuMessage::TrimPath(a)), MenuMessage::TrimPath(b)) == step(
            s,
            MenuMessage::TrimPath(if a < b { a } else { b }),
        ),
{
    let p = s.open_path;
    let m: int = if a < b { a as int } else { b as int };
    assert(truncated(truncated(p, a as int), b as int) =~= truncated(p, m));
}

/// Opening submenu `id` at `depth` leaves it open at that depth (or at the
/// end of a shorter path), keeps the submenus above it, and closes the ones
/// below it.
pub proof fn open_submenu_opens_at_depth(s: MenuStateView, depth: usize, id: &'static str)
    ensures
        ({
            let t = step(s, MenuMessage::OpenSubmenu { depth, id });
            let d: int = if depth < s.open_path.len() { depth as int } else { s.open_path.len() as int };
            &&& t.open_root == s.open_root
            &&& t.open_path.len() == d + 1
            &&& t.open_path[d] == id@
            &&& forall|k: int| 0 <= k < d ==> t.open_path[k] == s.open_path[k]
        }),
{
}

/// Closing, and invoking an action, always end in the closed bar, from any
/// state; closing twice is closing once.
pub proof fn close_is_idempotent(s: MenuStateView, id: &'static str)
    ensures
        step(s, MenuMessage::Close) == closed_state(),
        step(s, MenuMessage::Invoke(id)) == closed_state(),
        step(step(s, MenuMessage::Close), MenuMessage::Close) == step(s, MenuMessage::Close),
{
}

/// Pressing the left button on an action row sends `Invoke` for that action;
/// the state then reports the action and closes the bar.
pub proof fn clicking_an_action_invokes_it_and_closes(
    s: MenuStateView,
    item: ItemGeometry,
    over_bar: bool,
)
    requires
        item.kind is Action,
    ensures
        ({
            let id = item.kind->Action_id;
            let r = expected_response(
                PointerEvent::LeftPressed,
                Some(Hit::PanelItem(item)),
                s.open_root is Some,
                over_bar,
            );
            &&& r.message == Some(MenuMessage::Invoke(id))
            &&& r.captured
            &&& invoked(MenuMessage::Invoke(id)) == Some(id)
            &&& step(s, MenuMessage::Invoke(id)) == closed_state()
        }),
{
}

/// Pressing the left button away from the roots and panels of an open bar
/// closes it.
pub proof fn clicking_outside_closes(s: MenuStateView, over_bar: bool)
    requires
        s.open_root is Some,
    ensures
        ({
            let r = expected_response(PointerEvent::LeftPressed, None, true, over_bar);
            &&& r == (crate::menu::bar::EventResponse { message: Some(MenuMessage::Close), captured: true })
            &&& step(s, r.message.unwrap()) == closed_state()
        }),
{
}

/// Pointer moves and presses over a root, a panel or a row stop at the bar.
pub proof fn hits_are_captured(event: PointerEvent, hit: Hit, menu_open: bool, over_bar: bool)
    requires
        event != PointerEvent::Other,
    ensures
        expected_response(event, Some(hit), menu_open, over_bar).captured,
{
}

/// Moving the pointer never closes an open bar: whatever it sends leaves a
/// root open.
pub proof fn moving_never_closes(s: MenuStateView, hit: Option<Hit>, over_bar: bool)
    requires
        s.open_root is Some,
    ensures
        ({
            let r = expected_response(PointerEvent::CursorMoved, hit, true, over_bar);
            r.message matches Some(m) ==> step(s, m).open_root is Some
        }),
{
}

/// Moving the pointer never opens a closed bar: with no panel shown, a move
/// sends nothing.
pub proof fn moving_over_a_closed_bar_sends_nothing(
    roots: Seq<RootGeometry>,
    over_roots: Seq<bool>,
    over_rows: Seq<Vec<bool>>,
    over_bar: bool,
)
    ensures
        ({
            let panels = Seq::<PanelGeometry>::empty();
            let hit = expected_hit(roots, panels, over_roots, Seq::empty(), over_rows);
            expected_response(PointerEvent::CursorMoved, hit, false, over_bar).message is None
        }),
{
    assert(!exists|i: int| crate::menu::bar::is_first_true(Seq::<bool>::empty(), i));
    assert(first_true(Seq::<bool>::empty()) is None);
}

/// Any other event is left alone.
pub proof fn other_events_are_ignored(hit: Option<Hit>, menu_open: bool, over_bar: bool)
    ensures
        expected_response(PointerEvent::Other, hit, menu_open, over_bar)
            == (crate::menu::bar::EventResponse { message: None, captured: false }),
{
}

/// Two paths that agree from depth `d0` for `m` entries open the same first
/// `m + 1` panels from depth `d0`, provided the first path opens that many.
proof fn lemma_chain_prefix(items: Seq<MenuItem>, p: Seq<Seq<char>>, q: Seq<Seq<char>>, d0: int, m: int)
    requires
        0 <= d0,
        0 <= m < panel_chain(items, p, d0).len(),
        d0 + m <= p.len(),
        d0 + m <= q.len(),
        forall|k: int| d0 <= k < d0 + m ==> #[trigger] p[k] == q[k],
    ensures
        panel_chain(items, q, d0).len() > m,
        forall|j: int|
            0 <= j <= m ==> #[trigger] panel_chain(items, q, d0)[j] == panel_chain(items, p, d0)[j],
    decreases m,
{
    lemma_chain_len(items, p, d0);
    lemma_chain_len(items, q, d0);
    if m > 0 {
        assert(p[d0] == q[d0]);
        let i = first_submenu(items, p[d0])->0;
        let cp = panel_chain(items, p, d0);
        let cq = panel_chain(items, q, d0);
        let sp = panel_chain(children(items[i]), p, d0 + 1);
        let sq = panel_chain(children(items[i]), q, d0 + 1);
        assert(cp == seq![items] + sp);
        assert(cq == seq![items] + sq);
        assert(0 <= m - 1 < sp.len());
        lemma_chain_prefix(children(items[i]), p, q, d0 + 1, m - 1);
        assert forall|j: int| 0 <= j <= m implies #[trigger] cq[j] == cp[j] by {
            if j > 0 {
                assert(cq[j] == sq[j - 1]);
                assert(cp[j] == sp[j - 1]);
            }
        }
    }
}

/// A chain goes on past panel `k` when the path names, at that depth, a
/// submenu of the panel; the next panel shows the submenu's items.
proof fn lemma_chain_continues(items: Seq<MenuItem>, p: Seq<Seq<char>>, d0: int, k: int)
    requires
        0 <= d0,
        0 <= k < panel_chain(items, p, d0).len(),
        d0 + k < p.len(),
        first_submenu(panel_chain(items, p, d0)[k], p[d0 + k]) is Some,
    ensures
        panel_chain(items, p, d0).len() > k + 1,
        panel_chain(items, p, d0)[k + 1] == children(
            panel_chain(items, p, d0)[k][first_submenu(panel_chain(items, p, d0)[k], p[d0 + k])->0],
        ),
    decreases k,
{
    lemma_chain_len(items, p, d0);
    let c = panel_chain(items, p, d0);
    if k == 0 {
        let i = first_submenu(items, p[d0])->0;
        lemma_chain_len(children(items[i]), p, d0 + 1);
        assert(c == seq![items] + panel_chain(children(items[i]), p, d0 + 1));
    } else {
        assert(d0 < p.len());
        assert(first_submenu(items, p[d0]) is Some);
        let i = first_submenu(items, p[d0])->0;
        let sub = panel_chain(children(items[i]), p, d0 + 1);
        assert(c == seq![items] + sub);
        assert(c[k] == sub[k - 1]);
        lemma_chain_continues(children(items[i]), p, d0 + 1, k - 1);
        assert(c[k + 1] == sub[k]);
    }
}

/// Hovering (or clicking) a submenu row in an open panel opens that submenu:
/// the panels down to that row's panel stay as they were, and the next panel
/// shows the submenu's items.
pub proof fn opening_a_submenu_shows_its_items(
    roots: Seq<MenuRoot>,
    s: MenuStateView,
    depth: usize,
    id: &'static str,
)
    requires
        open_root_index(roots, s) is Some,
        depth < open_chain(roots, s).len(),
        first_submenu(open_chain(roots, s)[depth as int], id@) is Some,
    ensures
        ({
            let t = step(s, MenuMessage::OpenSubmenu { depth, id });
            let before = open_chain(roots, s);
            let after = open_chain(roots, t);
            let panel = before[depth as int];
            &&& open_root_index(roots, t) == open_root_index(roots, s)
            &&& after.len() > depth + 1
            &&& forall|k: int| 0 <= k <= depth ==> #[trigger] after[k] == before[k]
            &&& after[depth + 1] == children(panel[first_submenu(panel, id@)->0])
        }),
{
    let t = step(s, MenuMessage::OpenSubmenu { depth, id });
    let r = open_root_index(roots, s)->0;
    let items = roots[r].items@;
    let p = s.open_path;
    let q = t.open_path;
    lemma_chain_len(items, p, 0);
    assert(depth <= p.len());
    assert(q == truncated(p, depth as int).push(id@));
    assert forall|k: int| 0 <= k < depth implies #[trigger] p[k] == q[k] by {}
    lemma_chain_prefix(items, p, q, 0, depth as int);
    assert(q[depth as int] == id@);
    lemma_chain_continues(items, q, 0, depth as int);
}

/// Toggling the open root closes the bar, whatever submenus are open; toggling
/// any other root opens it with no submenu open, whatever was open before.
pub proof fn toggle_root_closes_or_opens_cleanly(s: MenuStateView, id: &'static str)
    ensures
        s.open_root == Some(id@) ==> {
            &&& step(s, MenuMessage::ToggleRoot(id)).open_root is None
            &&& step(s, MenuMessage::ToggleRoot(id)).open_path.len() == 0
        },
        s.open_root != Some(id@) ==> {
            &&& step(s, MenuMessage::ToggleRoot(id)).open_root == Some(id@)
            &&& step(s, MenuMessage::ToggleRoot(id)).open_path.len() == 0
        },
{
}

/// Opening a root that is not open shows it with no submenu open.
pub proof fn open_other_root_shows_it_alone(s: MenuStateView, id: &'static str)
    requires
        s.open_root != Some(id@),
    ensures
        step(s, MenuMessage::OpenRoot(id)).open_root == Some(id@),
        step(s, MenuMessage::OpenRoot(id)).open_path.len() == 0,
{
}

/// `Close` and `Invoke` leave no root and no submenu open, from any state.
pub proof fn close_and_invoke_empty_the_bar(s: MenuStateView, id: &'static str)
    ensures
        step(s, MenuMessage::Close).open_root is None,
        step(s, MenuMessage::Close).open_path.len() == 0,
        step(s, MenuMessage::Invoke(id)).open_root is None,
        step(s, MenuMessage::Invoke(id)).open_path.len() == 0,
{
}

/// An `Invoke` reports its own action; no other message reports one.
pub proof fn only_invoke_reports_its_action(message: MenuMessage)
    ensures
        message matches MenuMessage::Invoke(id) ==> invoked(message) == Some(id),
        !(message is Invoke) ==> invoked(message) is None,
{
}

/// Submenu and trim messages never change which root is open.
pub proof fn path_messages_keep_the_root(s: MenuStateView, depth: usize, id: &'static str)
    ensures
        step(s, MenuMessage::OpenSubmenu { depth, id }).open_root == s.open_root,
        step(s, MenuMessage::TrimPath(depth)).open_root == s.open_root,
{
}

/// Moving the pointer over an action row at depth `d` keeps the submenus
/// above `d` open and closes the ones below: the path is cut to its first
/// `d` entries, and the panels down to the row's own panel stay as they were.
pub proof fn hovering_an_action_keeps_its_panel(
    roots: Seq<MenuRoot>,
    s: MenuStateView,
    item: ItemGeometry,
    over_bar: bool,
)
    requires
        item.kind is Action,
        open_root_index(roots, s) is Some,
        item.depth < open_chain(roots, s).len(),
    ensures
        ({
            let r = expected_response(
                PointerEvent::CursorMoved,
                Some(Hit::PanelItem(item)),
                true,
                over_bar,
            );
            &&& r.message == Some(MenuMessage::TrimPath(item.depth))
            &&& r.captured
            &&& r.message matches Some(m) && {
                let t = step(s, m);
                let before = open_chain(roots, s);
                let after = open_chain(roots, t);
                &&& t.open_root == s.open_root
                &&& t.open_path.len() == item.depth
                &&& forall|k: int| 0 <= k < item.depth ==> #[trigger] t.open_path[k] == s.open_path[k]
                &&& after.len() > item.depth
                &&& forall|k: int| 0 <= k <= item.depth ==> #[trigger] after[k] == before[k]
            }
        }),
{
    let d = item.depth as int;
    let m = MenuMessage::TrimPath(item.depth);
    let t = step(s, m);
    let ri = open_root_index(roots, s)->0;
    let items = roots[ri].items@;
    let p = s.open_path;
    let q = t.open_path;
    lemma_chain_len(items, p, 0);
    assert(d <= p.len());
    assert(q == truncated(p, d));
    assert(q.len() == d);
    assert forall|k: int| 0 <= k < d implies #[trigger] p[k] == q[k] by {}
    lemma_chain_prefix(items, p, q, 0, d);
}

/// Moving over, or pressing on, a submenu row at depth `d` opens that
/// submenu at `d` (or at the end of a shorter path) and keeps the submenus
/// above it.
pub proof fn pointing_at_a_submenu_opens_it(
    s: MenuStateView,
    event: PointerEvent,
    item: ItemGeometry,
    over_bar: bool,
)
    requires
        event != PointerEvent::Other,
        item.kind is Submenu,
    ensures
        ({
            let id = item.kind->Submenu_id;
            let r = expected_response(event, Some(Hit::PanelItem(item)), s.open_root is Some, over_bar);
            let d: int = if item.depth < s.open_path.len() { item.depth as int } else { s.open_path.len() as int };
            &&& r.message == Some(MenuMessage::OpenSubmenu { depth: item.depth, id })
            &&& r.captured
            &&& r.message matches Some(m) && {
                let t = step(s, m);
                &&& t.open_root == s.open_root
                &&& t.open_path.len() == d + 1
                &&& t.open_path[d] == id@
                &&& forall|k: int| 0 <= k < d ==> #[trigger] t.open_path[k] == s.open_path[k]
            }
        }),
{
}

/// Pressing on a root toggles it: the bar closes if that root was open, and
/// otherwise shows that root with no submenu open.
pub proof fn pressing_a_root_toggles_it(s: MenuStateView, root: RootGeometry, over_bar: bool)
    ensures
        ({
            let r = expected_response(PointerEvent::LeftPressed, Some(Hit::Root(root)), s.open_root is Some, over_bar);
            &&& r.message == Some(MenuMessage::ToggleRoot(root.id))
            &&& r.captured
            &&& r.message matches Some(m) && {
                let t = step(s, m);
                &&& s.open_root == Some(root.id@) ==> t.open_root is None && t.open_path.len() == 0
                &&& s.open_root != Some(root.id@) ==> t.open_root == Some(root.id@) && t.open_path.len() == 0
            }
        }),
{
}

/// Moving over a root switches the open bar to it (keeping the submenus when
/// it is already the open one) and does nothing to a closed bar.
pub proof fn hovering_a_root_switches_an_open_bar(s: MenuStateView, root: RootGeometry, over_bar: bool)
    ensures
        ({
            let r = expected_response(PointerEvent::CursorMoved, Some(Hit::Root(root)), s.open_root is Some, over_bar);
            &&& r.captured
            &&& s.open_root is None ==> r.message is None
            &&& s.open_root is Some ==> r.message == Some(MenuMessage::OpenRoot(root.id))
            &&& s.open_root is Some ==> (r.message matches Some(m) && {
                let t = step(s, m);
                &&& t.open_root == Some(root.id@)
                &&& s.open_root == Some(root.id@) ==> t == s
            })
        }),
{
}

/// Separators and the panel padding take the event and send nothing.
pub proof fn inert_targets_send_nothing(event: PointerEvent, item: ItemGeometry, menu_open: bool, over_bar: bool)
    requires
        event != PointerEvent::Other,
        item.kind is Separator,
    ensures
        expected_response(event, Some(Hit::PanelItem(item)), menu_open, over_bar).message is None,
        expected_response(event, Some(Hit::PanelItem(item)), menu_open, over_bar).captured,
        expected_response(event, Some(Hit::Panel), menu_open, over_bar).message is None,
        expected_response(event, Some(Hit::Panel), menu_open, over_bar).captured,
{
}

/// Away from every root and panel: moving over the bar's area while a menu
/// is open closes all its submenus but keeps the root; pressing closes an
/// open bar; anything else passes through.
pub proof fn pointer_away_from_the_menu(s: MenuStateView, over_bar: bool)
    ensures
        ({
            let open = s.open_root is Some;
            let moved = expected_response(PointerEvent::CursorMoved, None, open, over_bar);
            let pressed = expected_response(PointerEvent::LeftPressed, None, open, over_bar);
            &&& open && over_bar ==> moved.message == Some(MenuMessage::TrimPath(0)) && moved.captured
                && step(s, MenuMessage::TrimPath(0)).open_root == s.open_root
                && step(s, MenuMessage::TrimPath(0)).open_path.len() == 0
            &&& !(open && over_bar) ==> moved.message is None && !moved.captured
            &&& open ==> pressed.message == Some(MenuMessage::Close) && pressed.captured
            &&& !open ==> pressed.message is None && !pressed.captured
        }),
{
}

/// A chain ends at panel `k` when the path has no entry at depth `k` or
/// names no submenu of that panel.
proof fn lemma_chain_stops(items: Seq<MenuItem>, p: Seq<Seq<char>>, d0: int, k: int)
    requires
        0 <= d0,
        0 <= k < panel_chain(items, p, d0).len(),
        d0 + k >= p.len() || first_submenu(panel_chain(items, p, d0)[k], p[d0 + k]) is None,
    ensures
        panel_chain(items, p, d0).len() == k + 1,
    decreases k,
{
    lemma_chain_len(items, p, d0);
    if k > 0 {
        assert(d0 < p.len());
        assert(first_submenu(items, p[d0]) is Some);
        let i = first_submenu(items, p[d0])->0;
        let sub = panel_chain(children(items[i]), p, d0 + 1);
        assert(panel_chain(items, p, d0) == seq![items] + sub);
        lemma_chain_stops(children(items[i]), p, d0 + 1, k - 1);
    } else if d0 < p.len() {
        assert(panel_chain(items, p, d0) == seq![items]);
    }
}

/// The open panels follow the open path: the first shows the open root's
/// items; after panel `k`, the next panel shows the items of the first
/// submenu of panel `k` named by the path at depth `k`; and the panels end
/// where the path ends or names no submenu of the last panel.
pub proof fn open_panels_follow_the_path(roots: Seq<MenuRoot>, s: MenuStateView, k: int)
    requires
        open_root_index(roots, s) is Some,
        0 <= k < open_chain(roots, s).len(),
    ensures
        ({
            let c = open_chain(roots, s);
            let r = open_root_index(roots, s)->0;
            &&& c[0] == roots[r].items@
            &&& s.open_root == Some(roots[r].id@)
            &&& forall|i: int|
                0 <= i < c[k].len() && k < s.open_path.len() && (#[trigger] c[k][i] matches MenuItem::Submenu { id, .. } && id@
                    == s.open_path[k]) && (forall|j: int|
                    0 <= j < i ==> !(#[trigger] c[k][j] matches MenuItem::Submenu { id, .. } && id@
                        == s.open_path[k])) ==> c.len() > k + 1 && c[k + 1] == children(c[k][i])
            &&& (k >= s.open_path.len() || forall|j: int|
                0 <= j < c[k].len() ==> !(#[trigger] c[k][j] matches MenuItem::Submenu { id, .. } && id@
                    == s.open_path[k])) ==> c.len() == k + 1
        }),
{
    let r = open_root_index(roots, s)->0;
    let items = roots[r].items@;
    let p = s.open_path;
    let c = panel_chain(items, p, 0);
    lemma_chain_len(items, p, 0);
    let id0 = s.open_root->0;
    let ri = choose|i: int| crate::menu::chain::is_first_root(roots, id0, i);
    assert(crate::menu::chain::is_first_root(roots, id0, ri));
    assert forall|i: int|
        0 <= i < c[k].len() && k < p.len() && (#[trigger] c[k][i] matches MenuItem::Submenu { id, .. } && id@ == p[k]) && (forall|j: int|
            0 <= j < i ==> !(#[trigger] c[k][j] matches MenuItem::Submenu { id, .. } && id@ == p[k]))
        implies c.len() > k + 1 && c[k + 1] == children(c[k][i]) by {
        assert(crate::menu::model::is_first_submenu(c[k], p[k], i));
        crate::menu::chain::lemma_first_submenu_is(c[k], p[k], i);
        lemma_chain_continues(items, p, 0, k);
    }
    if k >= p.len() || forall|j: int|
        0 <= j < c[k].len() ==> !(#[trigger] c[k][j] matches MenuItem::Submenu { id, .. } && id@ == p[k]) {
        if k < p.len() {
            assert(!exists|i: int| crate::menu::model::is_first_submenu(c[k], p[k], i));
        }
        lemma_chain_stops(items, p, 0, k);
    }
}

} // verus!
