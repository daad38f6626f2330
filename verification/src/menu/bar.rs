//! The menu bar as a whole: what the pointer is over, and which message each
//! pointer event sends.

use vstd::prelude::*;

use crate::menu::chain::{open_chain, open_panels, open_root_index, OpenPanels};
use crate::menu::geometry::{
    bar_offset, measured, panels_laid_out, roots_laid_out, widths_fit_chain, ItemGeometry, ItemKind,
    MenuGeometry, PanelGeometry, RootGeometry, BAR_HEIGHT, MAX_EXTENT,
};
use crate::menu::model::MenuRoot;
use crate::menu::state::{MenuMessage, MenuState};

verus! {

/// What the pointer is over.
#[derive(Debug, Clone, Copy)]
pub enum Hit {
    /// A root of the bar.
    Root(RootGeometry),
    /// A panel, but none of its rows.
    Panel,
    /// A row of a panel.
    PanelItem(ItemGeometry),
}

/// The pointer events the bar reacts to.
#[derive(Debug, Clone, Copy, PartialEq, Eq)]
pub enum PointerEvent {
    /// The pointer moved.
    CursorMoved,
    /// The left button went down.
    LeftPressed,
    /// Anything else.
    Other,
}

/// The bar's answer to an event: the message to send, if any, and whether
/// the event stops at the bar.
#[derive(Debug, Clone, Copy)]
pub struct EventResponse {
    pub message: Option<MenuMessage>,
    pub captured: bool,
}

/// The pointer shape over the bar.
#[derive(Debug, Clone, Copy, PartialEq, Eq)]
pub enum Interaction {
    /// Over something the bar reacts to.
    Pointer,
    /// Elsewhere.
    Idle,
}

/// `i` is the first position at which `flags` holds.
pub open spec fn is_first_true(flags: Seq<bool>, i: int) -> bool {
    &&& 0 <= i < flags.len()
    &&& flags[i]
    &&& forall|j: int| 0 <= j < i ==> !#[trigger] flags[j]
}

/// The first position at which `flags` holds.
pub open spec fn first_true(flags: Seq<bool>) -> Option<int> {
    if exists|i: int| is_first_true(flags, i) {
        Some(choose|i: int| is_first_true(flags, i))
    } else {
        None
    }
}

/// What the pointer is over, given which roots, panels and rows it is over:
/// the first root under it; else the first panel under it, and there the
/// first row under it, if any.
pub open spec fn expected_hit(
    roots: Seq<RootGeometry>,
    panels: Seq<PanelGeometry>,
    over_roots: Seq<bool>,
    over_panels: Seq<bool>,
    over_rows: Seq<Vec<bool>>,
) -> Option<Hit> {
    match first_true(over_roots) {
        Some(i) => Some(Hit::Root(roots[i])),
        None => match first_true(over_panels) {
            Some(p) => match first_true(over_rows[p]@) {
                Some(j) => Some(Hit::PanelItem(panels[p].items@[j])),
                None => Some(Hit::Panel),
            },
            None => None,
        },
    }
}

/// A response that sends `message` and captures the event.
pub open spec fn sends(message: MenuMessage) -> EventResponse {
    EventResponse { message: Some(message), captured: true }
}

/// A response that sends nothing but captures the event.
pub open spec fn swallows() -> EventResponse {
    EventResponse { message: None, captured: true }
}

/// A response that sends nothing and lets the event through.
pub open spec fn ignores() -> EventResponse {
    EventResponse { message: None, captured: false }
}

/// The bar's response to `event` when the pointer is over `hit`.
///
/// Moving over a root switches to it only while a menu is open; moving over
/// a submenu row opens it, over an action row closes deeper submenus, and
/// moving over the bar's area outside roots and panels while a menu is open
/// closes every submenu. A left press on a root toggles it, on an action
/// invokes it, on a submenu row opens it, and outside the bar's roots and
/// panels closes an open menu. Whatever the pointer is over is captured.
pub open spec fn expected_response(
    event: PointerEvent,
    hit: Option<Hit>,
    menu_open: bool,
    over_bar: bool,
) -> EventResponse {
    match event {
        PointerEvent::CursorMoved => match hit {
            Some(Hit::Root(root)) => if menu_open {
                sends(MenuMessage::OpenRoot(root.id))
            } else {
                swallows()
            },
            Some(Hit::PanelItem(item)) => match item.kind {
                ItemKind::Submenu { id, .. } => sends(
                    MenuMessage::OpenSubmenu { depth: item.depth, id },
                ),
                ItemKind::Action { .. } => sends(MenuMessage::TrimPath(item.depth)),
                ItemKind::Separator => swallows(),
            },
            Some(Hit::Panel) => swallows(),
            None => if menu_open && over_bar {
                sends(MenuMessage::TrimPath(0))
            } else {
                ignores()
            },
        },
        PointerEvent::LeftPressed => match hit {
            Some(Hit::Root(root)) => sends(MenuMessage::ToggleRoot(root.id)),
            Some(Hit::PanelItem(item)) => match item.kind {
                ItemKind::Action { id, .. } => sends(MenuMessage::Invoke(id)),
                ItemKind::Submenu { id, .. } => sends(
                    MenuMessage::OpenSubmenu { depth: item.depth, id },
                ),
                ItemKind::Separator => swallows(),
            },
            Some(Hit::Panel) => swallows(),
            None => if menu_open {
                sends(MenuMessage::Close)
            } else {
                ignores()
            },
        },
        PointerEvent::Other => ignores(),
    }
}

/// The first set flag is unique; with no flag set there is none.
pub proof fn lemma_first_true_is(flags: Seq<bool>, i: int)
    ensures
        is_first_true(flags, i) ==> first_true(flags) == Some(i),
        (forall|k: int| 0 <= k < flags.len() ==> !#[trigger] flags[k]) ==> first_true(flags) is None,
{
    if is_first_true(flags, i) {
        let c = choose|k: int| is_first_true(flags, k);
        assert(is_first_true(flags, c));
        if c < i {
            assert(!flags[c]);
        } else if i < c {
            assert(!flags[i]);
        }
    }
    if forall|k: int| 0 <= k < flags.len() ==> !#[trigger] flags[k] {
        assert(!exists|k: int| is_first_true(flags, k));
    }
}

/// What the pointer is over: the first root under it; else, in the first
/// panel under it, the first row under it, or the panel itself; else nothing.
/// Stated for every root, panel and row position.
pub proof fn lemma_hit_targets(
    roots: Seq<RootGeometry>,
    panels: Seq<PanelGeometry>,
    over_roots: Seq<bool>,
    over_panels: Seq<bool>,
    over_rows: Seq<Vec<bool>>,
)
    requires
        over_panels.len() == over_rows.len(),
    ensures
        forall|i: int|
            0 <= i < over_roots.len() && over_roots[i] && (forall|k: int| 0 <= k < i ==> !#[trigger] over_roots[k])
                ==> expected_hit(roots, panels, over_roots, over_panels, over_rows) == Some(
                Hit::Root(#[trigger] roots[i]),
            ),
        forall|p: int, j: int|
            (forall|k: int| 0 <= k < over_roots.len() ==> !#[trigger] over_roots[k]) && 0 <= p
                < over_panels.len() && over_panels[p] && (forall|q: int|
                0 <= q < p ==> !#[trigger] over_panels[q]) && 0 <= j < over_rows[p]@.len()
                && over_rows[p]@[j] && (forall|k: int| 0 <= k < j ==> !#[trigger] over_rows[p]@[k])
                ==> expected_hit(roots, panels, over_roots, over_panels, over_rows) == Some(
                Hit::PanelItem(#[trigger] panels[p].items@[j]),
            ),
        forall|p: int|
            (forall|k: int| 0 <= k < over_roots.len() ==> !#[trigger] over_roots[k]) && 0 <= p
                < over_panels.len() && #[trigger] over_panels[p] && (forall|q: int|
                0 <= q < p ==> !#[trigger] over_panels[q]) && (forall|k: int|
                0 <= k < over_rows[p]@.len() ==> !#[trigger] over_rows[p]@[k])
                ==> expected_hit(roots, panels, over_roots, over_panels, over_rows) == Some(Hit::Panel),
        (forall|k: int| 0 <= k < over_roots.len() ==> !#[trigger] over_roots[k]) && (forall|q: int|
            0 <= q < over_panels.len() ==> !#[trigger] over_panels[q]) ==> expected_hit(
            roots,
            panels,
            over_roots,
            over_panels,
            over_rows,
        ) is None,
{
    assert forall|i: int|
        0 <= i < over_roots.len() && over_roots[i] && (forall|k: int| 0 <= k < i ==> !#[trigger] over_roots[k])
        implies expected_hit(roots, panels, over_roots, over_panels, over_rows) == Some(
        Hit::Root(#[trigger] roots[i]),
    ) by {
        lemma_first_true_is(over_roots, i);
    }
    lemma_first_true_is(over_roots, 0);
    lemma_first_true_is(over_panels, 0);
    assert forall|p: int, j: int|
        (forall|k: int| 0 <= k < over_roots.len() ==> !#[trigger] over_roots[k]) && 0 <= p < over_panels.len()
            && over_panels[p] && (forall|q: int| 0 <= q < p ==> !#[trigger] over_panels[q]) && 0 <= j
            < over_rows[p]@.len() && over_rows[p]@[j] && (forall|k: int|
            0 <= k < j ==> !#[trigger] over_rows[p]@[k]) implies expected_hit(
        roots,
        panels,
        over_roots,
        over_panels,
        over_rows,
    ) == Some(Hit::PanelItem(#[trigger] panels[p].items@[j])) by {
        lemma_first_true_is(over_panels, p);
        lemma_first_true_is(over_rows[p]@, j);
    }
    assert forall|p: int|
        (forall|k: int| 0 <= k < over_roots.len() ==> !#[trigger] over_roots[k]) && 0 <= p < over_panels.len()
            && #[trigger] over_panels[p] && (forall|q: int| 0 <= q < p ==> !#[trigger] over_panels[q])
            && (forall|k: int| 0 <= k < over_rows[p]@.len() ==> !#[trigger] over_rows[p]@[k]) implies expected_hit(
        roots,
        panels,
        over_roots,
        over_panels,
        over_rows,
    ) == Some(Hit::Panel) by {
        lemma_first_true_is(over_panels, p);
        lemma_first_true_is(over_rows[p]@, 0);
    }
}

/// Position of the first set flag, if any.
fn first_set(flags: &Vec<bool>) -> (found: Option<usize>)
    ensures
        found is None <==> first_true(flags@) is None,
        found matches Some(i) ==> first_true(flags@) == Some(i as int),
{
    let n = flags.len();
    let mut i: usize = 0;
    while i < n
        invariant
            n == flags@.len(),
            i <= n,
            forall|j: int| 0 <= j < i ==> !#[trigger] flags@[j],
        decreases n - i,
    {
        if flags[i] {
            proof {
                let c = choose|k: int| is_first_true(flags@, k);
                assert(is_first_true(flags@, i as int));
                assert(is_first_true(flags@, c));
                if c < i {
                    assert(!flags@[c]);
                } else if i < c {
                    assert(!flags@[i as int]);
                }
            }
            return Some(i);
        }
        i = i + 1;
    }
    assert(!exists|k: int| is_first_true(flags@, k));
    None
}

/// Rightmost edge of the first `n` panels (0 when there are none).
pub open spec fn max_right(panels: Seq<PanelGeometry>, n: int) -> int
    decreases n,
{
    if n <= 0 {
        0
    } else {
        let r = max_right(panels, n - 1);
        let e = panels[n - 1].bounds.x + panels[n - 1].bounds.width;
        if e > r {
            e
        } else {
            r
        }
    }
}

/// Lowest edge of the bar and the first `n` panels.
pub open spec fn max_bottom(panels: Seq<PanelGeometry>, n: int) -> int
    decreases n,
{
    if n <= 0 {
        BAR_HEIGHT as int
    } else {
        let b = max_bottom(panels, n - 1);
        let e = panels[n - 1].bounds.y + panels[n - 1].bounds.height;
        if e > b {
            e
        } else {
            b
        }
    }
}

/// The right edge of the first `n` panels is at least the right edge of
/// each of them and equal to one of them (0 with none); the bottom edge is
/// at least the bar's and each panel's bottom, and equal to one of them.
pub proof fn lemma_edges_are_maxima(panels: Seq<PanelGeometry>, n: int)
    requires
        0 <= n <= panels.len(),
    ensures
        max_right(panels, n) >= 0,
        forall|p: int|
            0 <= p < n ==> max_right(panels, n) >= (#[trigger] panels[p]).bounds.x + panels[p].bounds.width,
        max_right(panels, n) == 0 || exists|p: int|
            0 <= p < n && max_right(panels, n) == (#[trigger] panels[p]).bounds.x + panels[p].bounds.width,
        max_bottom(panels, n) >= BAR_HEIGHT,
        forall|p: int|
            0 <= p < n ==> max_bottom(panels, n) >= (#[trigger] panels[p]).bounds.y + panels[p].bounds.height,
        max_bottom(panels, n) == BAR_HEIGHT || exists|p: int|
            0 <= p < n && max_bottom(panels, n) == (#[trigger] panels[p]).bounds.y
                + panels[p].bounds.height,
    decreases n,
{
    if n > 0 {
        lemma_edges_are_maxima(panels, n - 1);
        let last = n - 1;
        if max_right(panels, n) != max_right(panels, n - 1) {
            assert(max_right(panels, n) == panels[last].bounds.x + panels[last].bounds.width);
        } else if max_right(panels, n - 1) != 0 {
            let p = choose|p: int|
                0 <= p < n - 1 && max_right(panels, n - 1) == (#[trigger] panels[p]).bounds.x
                    + panels[p].bounds.width;
            assert(0 <= p < n && max_right(panels, n) == panels[p].bounds.x + panels[p].bounds.width);
        }
        if max_bottom(panels, n) != max_bottom(panels, n - 1) {
            assert(max_bottom(panels, n) == panels[last].bounds.y + panels[last].bounds.height);
        } else if max_bottom(panels, n - 1) != BAR_HEIGHT {
            let p = choose|p: int|
                0 <= p < n - 1 && max_bottom(panels, n - 1) == (#[trigger] panels[p]).bounds.y
                    + panels[p].bounds.height;
            assert(0 <= p < n && max_bottom(panels, n) == panels[p].bounds.y + panels[p].bounds.height);
        }
    }
}

impl MenuGeometry {
    /// The right edge of the open panels and the bottom edge of the bar and
    /// the open panels: with the bar's own width, the size the bar needs.
    pub fn extent(&self) -> (extent: (u64, u64))
        requires
            forall|p: int|
                0 <= p < self.panels@.len() ==> {
                    &&& (#[trigger] self.panels@[p]).bounds.x + self.panels@[p].bounds.width <= u64::MAX
                    &&& self.panels@[p].bounds.y + self.panels@[p].bounds.height <= u64::MAX
                },
        ensures
            extent.0 == max_right(self.panels@, self.panels@.len() as int),
            extent.1 == max_bottom(self.panels@, self.panels@.len() as int),
            forall|p: int|
                0 <= p < self.panels@.len() ==> extent.0 >= (#[trigger] self.panels@[p]).bounds.x
                    + self.panels@[p].bounds.width,
            extent.0 == 0 || exists|p: int|
                0 <= p < self.panels@.len() && extent.0 == (#[trigger] self.panels@[p]).bounds.x
                    + self.panels@[p].bounds.width,
            extent.1 >= BAR_HEIGHT,
            forall|p: int|
                0 <= p < self.panels@.len() ==> extent.1 >= (#[trigger] self.panels@[p]).bounds.y
                    + self.panels@[p].bounds.height,
            extent.1 == BAR_HEIGHT || exists|p: int|
                0 <= p < self.panels@.len() && extent.1 == (#[trigger] self.panels@[p]).bounds.y
                    + self.panels@[p].bounds.height,
    {
        let n = self.panels.len();
        let mut right: u64 = 0;
        let mut bottom: u64 = BAR_HEIGHT;
        let mut p: usize = 0;
        while p < n
            invariant
                n == self.panels@.len(),
                p <= n,
                right == max_right(self.panels@, p as int),
                bottom == max_bottom(self.panels@, p as int),
                forall|q: int|
                    0 <= q < self.panels@.len() ==> {
                        &&& (#[trigger] self.panels@[q]).bounds.x + self.panels@[q].bounds.width <= u64::MAX
                        &&& self.panels@[q].bounds.y + self.panels@[q].bounds.height <= u64::MAX
                    },
            decreases n - p,
        {
            let b = self.panels[p].bounds;
            assert(b == self.panels@[p as int].bounds);
            if b.x + b.width > right {
                right = b.x + b.width;
            }
            if b.y + b.height > bottom {
                bottom = b.y + b.height;
            }
            p = p + 1;
        }
        proof {
            lemma_edges_are_maxima(self.panels@, n as int);
        }
        (right, bottom)
    }

    /// What the pointer is over, given whether it is over each root
    /// (`over_roots`), each panel (`over_panels`) and each row of each panel
    /// (`over_rows`).
    pub fn hit_test(&self, over_roots: &Vec<bool>, over_panels: &Vec<bool>, over_rows: &Vec<Vec<bool>>) -> (hit: Option<Hit>)
        requires
            over_roots@.len() == self.roots@.len(),
            over_panels@.len() == self.panels@.len(),
            over_rows@.len() == self.panels@.len(),
            forall|p: int|
                0 <= p < self.panels@.len() ==> (#[trigger] over_rows@[p])@.len()
                    == self.panels@[p].items@.len(),
        ensures
            hit == expected_hit(self.roots@, self.panels@, over_roots@, over_panels@, over_rows@),
            forall|i: int|
                0 <= i < over_roots@.len() && over_roots@[i] && (forall|k: int| 0 <= k < i ==> !#[trigger] over_roots@[k])
                    ==> hit == Some(
                    Hit::Root(#[trigger] self.roots@[i]),
                ),
            forall|p: int, j: int|
                (forall|k: int| 0 <= k < over_roots@.len() ==> !#[trigger] over_roots@[k]) && 0 <= p
                    < over_panels@.len() && over_panels@[p] && (forall|q: int|
                    0 <= q < p ==> !#[trigger] over_panels@[q]) && 0 <= j < over_rows@[p]@.len()
                    && over_rows@[p]@[j] && (forall|k: int| 0 <= k < j ==> !#[trigger] over_rows@[p]@[k])
                    ==> hit == Some(
                    Hit::PanelItem(#[trigger] self.panels@[p].items@[j]),
                ),
            forall|p: int|
                (forall|k: int| 0 <= k < over_roots@.len() ==> !#[trigger] over_roots@[k]) && 0 <= p
                    < over_panels@.len() && #[trigger] over_panels@[p] && (forall|q: int|
                    0 <= q < p ==> !#[trigger] over_panels@[q]) && (forall|k: int|
                    0 <= k < over_rows@[p]@.len() ==> !#[trigger] over_rows@[p]@[k])
                    ==> hit == Some(Hit::Panel),
            (forall|k: int| 0 <= k < over_roots@.len() ==> !#[trigger] over_roots@[k]) && (forall|q: int|
                0 <= q < over_panels@.len() ==> !#[trigger] over_panels@[q]) ==> hit is None,
    {
        proof {
            lemma_hit_targets(self.roots@, self.panels@, over_roots@, over_panels@, over_rows@);
        }
        match first_set(over_roots) {
            Some(i) => Some(Hit::Root(self.roots[i])),
            None => match first_set(over_panels) {
                Some(p) => match first_set(&over_rows[p]) {
                    Some(j) => Some(Hit::PanelItem(self.panels[p].items[j])),
                    None => Some(Hit::Panel),
                },
                None => None,
            },
        }
    }
}

/// The menu bar over the roots `roots`, showing `state`.
pub struct MenuBar<'a> {
    roots: &'a [MenuRoot],
    state: &'a MenuState,
}

impl<'a> MenuBar<'a> {
    /// The bar of `roots` showing `state`.
    pub fn new(roots: &'a [MenuRoot], state: &'a MenuState) -> (bar: Self)
        ensures
            bar.roots() == roots,
            bar.state() == state,
    {
        MenuBar { roots, state }
    }

    /// The roots of the bar.
    #[verifier::when_used_as_spec(spec_roots)]
    pub fn roots(&self) -> (roots: &'a [MenuRoot])
        ensures
            roots == self.spec_roots(),
    {
        self.roots
    }

    /// The roots of the bar.
    pub closed spec fn spec_roots(&self) -> &'a [MenuRoot] {
        self.roots
    }

    /// The state the bar shows.
    #[verifier::when_used_as_spec(spec_state)]
    pub fn state(&self) -> (state: &'a MenuState)
        ensures
            state == self.spec_state(),
    {
        self.state
    }

    /// The state the bar shows.
    pub closed spec fn spec_state(&self) -> &'a MenuState {
        self.state
    }

    /// The bar's response to `event` when the pointer is over `hit`;
    /// `over_bar` tells whether the pointer is inside the bar's area.
    pub fn respond(&self, event: PointerEvent, hit: Option<Hit>, over_bar: bool) -> (response: EventResponse)
        ensures
            response == expected_response(event, hit, self.state()@.open_root is Some, over_bar),
    {
        let menu_open = self.state.open_root().is_some();
        match event {
            PointerEvent::CursorMoved => match hit {
                Some(Hit::Root(root)) => {
                    if menu_open {
                        EventResponse { message: Some(MenuMessage::OpenRoot(root.id)), captured: true }
                    } else {
                        EventResponse { message: None, captured: true }
                    }
                },
                Some(Hit::PanelItem(item)) => match item.kind {
                    ItemKind::Submenu { id, .. } => EventResponse {
                        message: Some(MenuMessage::OpenSubmenu { depth: item.depth, id }),
                        captured: true,
                    },
                    ItemKind::Action { .. } => EventResponse {
                        message: Some(MenuMessage::TrimPath(item.depth)),
                        captured: true,
                    },
                    ItemKind::Separator => EventResponse { message: None, captured: true },
                },
                Some(Hit::Panel) => EventResponse { message: None, captured: true },
                None => {
                    if menu_open && over_bar {
                        EventResponse { message: Some(MenuMessage::TrimPath(0)), captured: true }
                    } else {
                        EventResponse { message: None, captured: false }
                    }
                },
            },
            PointerEvent::LeftPressed => match hit {
                Some(Hit::Root(root)) => EventResponse {
                    message: Some(MenuMessage::ToggleRoot(root.id)),
                    captured: true,
                },
                Some(Hit::PanelItem(item)) => match item.kind {
                    ItemKind::Action { id, .. } => EventResponse {
                        message: Some(MenuMessage::Invoke(id)),
                        captured: true,
                    },
                    ItemKind::Submenu { id, .. } => EventResponse {
                        message: Some(MenuMessage::OpenSubmenu { depth: item.depth, id }),
                        captured: true,
                    },
                    ItemKind::Separator => EventResponse { message: None, captured: true },
                },
                Some(Hit::Panel) => EventResponse { message: None, captured: true },
                None => {
                    if menu_open {
                        EventResponse { message: Some(MenuMessage::Close), captured: true }
                    } else {
                        EventResponse { message: None, captured: false }
                    }
                },
            },
            PointerEvent::Other => EventResponse { message: None, captured: false },
        }
    }

    /// The pointer shape: a pointer over anything the bar reacts to.
    pub fn mouse_interaction(&self, hit: Option<Hit>) -> (interaction: Interaction)
        ensures
            interaction == (if hit is Some {
                Interaction::Pointer
            } else {
                Interaction::Idle
            }),
    {
        if hit.is_some() {
            Interaction::Pointer
        } else {
            Interaction::Idle
        }
    }

    /// Lays out the bar and its open panels; see `MenuGeometry::new`.
    pub fn geometry(&self, root_widths: &Vec<u32>, panel_widths: &Vec<Vec<u32>>) -> (geometry: MenuGeometry)
        requires
            root_widths@.len() == self.roots()@.len(),
            measured(root_widths@),
            self.state()@.open_path.len() < MAX_EXTENT,
            widths_fit_chain(open_chain(self.roots()@, self.state()@), panel_widths@),
        ensures
            roots_laid_out(geometry.roots@, self.roots()@, root_widths@),
            match open_root_index(self.roots()@, self.state()@) {
                Some(r) => panels_laid_out(
                    geometry.panels@,
                    open_chain(self.roots()@, self.state()@),
                    self.state()@.open_path,
                    panel_widths@,
                    bar_offset(root_widths@, r),
                ),
                None => geometry.panels@.len() == 0,
            },
    {
        MenuGeometry::new(self.roots, self.state, root_widths, panel_widths)
    }

    /// The panels the bar has open.
    pub fn open_panels(&self) -> (open: Option<OpenPanels>)
        ensures
            open is None <==> open_root_index(self.roots()@, self.state()@) is None,
            open matches Some(o) ==> {
                &&& open_root_index(self.roots()@, self.state()@) == Some(o.root_index as int)
                &&& crate::menu::chain::slices_view(o.panels@) == open_chain(
                    self.roots()@,
                    self.state()@,
                )
                &&& o.anchors@.len() + 1 == o.panels@.len()
                &&& forall|d: int|
                    0 <= d < o.anchors@.len() ==> crate::menu::chain::first_submenu(
                        o.panels@[d]@,
                        self.state()@.open_path[d],
                    ) == Some(#[trigger] o.anchors@[d] as int)
            },
    {
        open_panels(self.roots, self.state)
    }
}

} // verus!
