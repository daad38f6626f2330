//! Which panels are open: the root's panel, then each submenu of the open
//! path, as far as the path names submenus that exist.

use vstd::prelude::*;

use crate::ident::same_id;
use crate::menu::model::{children, find_submenu, is_first_submenu, MenuItem, MenuRoot};
use crate::menu::state::{MenuState, MenuStateView};

verus! {

/// `i` is the position of the first root of `roots` whose identifier is `id`.
pub open spec fn is_first_root(roots: Seq<MenuRoot>, id: Seq<char>, i: int) -> bool {
    &&& 0 <= i < roots.len()
    &&& roots[i].id@ == id
    &&& forall|j: int| 0 <= j < i ==> (#[trigger] roots[j]).id@ != id
}

/// Position of the first root of `roots` whose identifier is `id`.
pub open spec fn first_root(roots: Seq<MenuRoot>, id: Seq<char>) -> Option<int> {
    if exists|i: int| is_first_root(roots, id, i) {
        Some(choose|i: int| is_first_root(roots, id, i))
    } else {
        None
    }
}

/// Position of the first submenu of `items` whose identifier is `id`.
pub open spec fn first_submenu(items: Seq<MenuItem>, id: Seq<char>) -> Option<int> {
    if exists|i: int| is_first_submenu(items, id, i) {
        Some(choose|i: int| is_first_submenu(items, id, i))
    } else {
        None
    }
}

/// The item lists of the open panels from depth `d` on, the first being
/// `items`: the next one is the first submenu of the current list named by
/// the path at that depth, until the path ends or names no such submenu.
pub open spec fn panel_chain(items: Seq<MenuItem>, path: Seq<Seq<char>>, d: int) -> Seq<Seq<MenuItem>>
    decreases path.len() - d,
{
    if 0 <= d < path.len() {
        match first_submenu(items, path[d]) {
            Some(i) => seq![items] + panel_chain(children(items[i]), path, d + 1),
            None => seq![items],
        }
    } else {
        seq![items]
    }
}

/// Position in `roots` of the open root, if a root is open and exists.
pub open spec fn open_root_index(roots: Seq<MenuRoot>, s: MenuStateView) -> Option<int> {
    match s.open_root {
        Some(id) => first_root(roots, id),
        None => None,
    }
}

/// The item lists of the open panels, outermost first (none when no root
/// of `roots` is open).
pub open spec fn open_chain(roots: Seq<MenuRoot>, s: MenuStateView) -> Seq<Seq<MenuItem>> {
    match open_root_index(roots, s) {
        Some(r) => panel_chain(roots[r].items@, s.open_path, 0),
        None => Seq::empty(),
    }
}

/// The contents of each slice of `panels`.
pub open spec fn slices_view(panels: Seq<&'static [MenuItem]>) -> Seq<Seq<MenuItem>> {
    panels.map_values(|p: &'static [MenuItem]| p@)
}

/// The open panels: the open root's position, the item list of each open
/// panel, and in each panel but the last the position of the submenu row
/// that opened the next one.
pub struct OpenPanels {
    pub root_index: usize,
    pub panels: Vec<&'static [MenuItem]>,
    pub anchors: Vec<usize>,
}

/// The first submenu with a given identifier is unique.
pub proof fn lemma_first_submenu_is(items: Seq<MenuItem>, id: Seq<char>, i: int)
    requires
        is_first_submenu(items, id, i),
    ensures
        first_submenu(items, id) == Some(i),
{
    let c = choose|k: int| is_first_submenu(items, id, k);
    assert(is_first_submenu(items, id, c));
    if c < i {
        assert(!crate::menu::model::is_submenu_with_id(items[c], id));
    } else if i < c {
        assert(!crate::menu::model::is_submenu_with_id(items[i], id));
    }
}

/// The first root with a given identifier is unique.
pub proof fn lemma_first_root_is(roots: Seq<MenuRoot>, id: Seq<char>, i: int)
    requires
        is_first_root(roots, id, i),
    ensures
        first_root(roots, id) == Some(i),
{
    let c = choose|k: int| is_first_root(roots, id, k);
    assert(is_first_root(roots, id, c));
    if c < i {
        assert(roots[c].id@ != id);
    } else if i < c {
        assert(roots[i].id@ != id);
    }
}

/// A chain from depth `d` has at most one panel per remaining path entry,
/// plus one.
pub proof fn lemma_chain_len(items: Seq<MenuItem>, path: Seq<Seq<char>>, d: int)
    requires
        0 <= d,
    ensures
        1 <= panel_chain(items, path, d).len(),
        d <= path.len() ==> panel_chain(items, path, d).len() <= path.len() - d + 1,
        d > path.len() ==> panel_chain(items, path, d).len() == 1,
        panel_chain(items, path, d)[0] == items,
    decreases path.len() - d,
{
    if 0 <= d < path.len() {
        match first_submenu(items, path[d]) {
            Some(i) => {
                lemma_chain_len(children(items[i]), path, d + 1);
            },
            None => {},
        }
    }
}

/// Position of the first root of `roots` named `id`.
pub fn find_root(roots: &[MenuRoot], id: &str) -> (found: Option<usize>)
    ensures
        found is None <==> first_root(roots@, id@) is None,
        found matches Some(i) ==> first_root(roots@, id@) == Some(i as int),
        found is None ==> forall|j: int| 0 <= j < roots@.len() ==> (#[trigger] roots@[j]).id@ != id@,
        found matches Some(i) ==> {
            &&& i < roots@.len()
            &&& roots@[i as int].id@ == id@
            &&& forall|j: int| 0 <= j < i ==> (#[trigger] roots@[j]).id@ != id@
        },
{
    let n = roots.len();
    let mut i: usize = 0;
    while i < n
        invariant
            n == roots@.len(),
            i <= n,
            forall|j: int| 0 <= j < i ==> (#[trigger] roots@[j]).id@ != id@,
        decreases n - i,
    {
        if same_id(roots[i].id, id) {
            proof {
                lemma_first_root_is(roots@, id@, i as int);
            }
            return Some(i);
        }
        i = i + 1;
    }
    assert(!exists|k: int| is_first_root(roots@, id@, k));
    None
}

/// The panels that `state` has open over `roots`.
pub fn open_panels(roots: &[MenuRoot], state: &MenuState) -> (open: Option<OpenPanels>)
    ensures
        open is None <==> open_root_index(roots@, state@) is None,
        open matches Some(o) ==> {
            &&& open_root_index(roots@, state@) == Some(o.root_index as int)
            &&& slices_view(o.panels@) == open_chain(roots@, state@)
            &&& o.anchors@.len() + 1 == o.panels@.len()
            &&& forall|d: int|
                0 <= d < o.anchors@.len() ==> first_submenu(
                    o.panels@[d]@,
                    state@.open_path[d],
                ) == Some(#[trigger] o.anchors@[d] as int)
        },
{
    let root_id = match state.open_root() {
        Some(id) => id,
        None => {
            return None;
        },
    };
    let root_index = match find_root(roots, root_id) {
        Some(i) => i,
        None => {
            return None;
        },
    };
    let path = state.open_path();
    let ghost pathv = state@.open_path;
    let ghost whole = panel_chain(roots@[root_index as int].items@, pathv, 0);
    assert(crate::menu::state::ids_view(path@) == pathv);
    let mut current: &'static [MenuItem] = roots[root_index].items;
    let mut panels: Vec<&'static [MenuItem]> = Vec::new();
    let mut anchors: Vec<usize> = Vec::new();
    let mut d: usize = 0;
    assert(slices_view(panels@) + panel_chain(current@, pathv, 0) =~= whole);
    loop
        invariant_except_break
            crate::menu::state::ids_view(path@) == pathv,
            d <= path@.len(),
            panels@.len() == d,
            anchors@.len() == d,
            slices_view(panels@) + panel_chain(current@, pathv, d as int) == whole,
            forall|k: int|
                0 <= k < d ==> first_submenu(panels@[k]@, pathv[k]) == Some(
                    #[trigger] anchors@[k] as int,
                ),
        ensures
            slices_view(panels@) == whole,
            anchors@.len() + 1 == panels@.len(),
            forall|k: int|
                0 <= k < anchors@.len() ==> first_submenu(panels@[k]@, pathv[k]) == Some(
                    #[trigger] anchors@[k] as int,
                ),
        decreases path@.len() - d,
    {
        let ghost before = panels@;
        panels.push(current);
        assert(slices_view(panels@) =~= slices_view(before).push(current@));
        if d < path.len() {
            let id = path[d];
            assert(id@ == pathv[d as int]);
            match find_submenu(current, id) {
                Some(i) => {
                    proof {
                        lemma_first_submenu_is(current@, id@, i as int);
                    }
                    let next: &'static [MenuItem] = match current[i] {
                        MenuItem::Submenu { items, .. } => items,
                        _ => {
                            proof {
                                assert(false);
                            }
                            current
                        },
                    };
                    assert(next@ == children(current@[i as int]));
                    assert(slices_view(panels@) + panel_chain(next@, pathv, d + 1) =~= slices_view(
                        before,
                    ) + panel_chain(current@, pathv, d as int));
                    anchors.push(i);
                    current = next;
                    d = d + 1;
                },
                None => {
                    assert(first_submenu(current@, pathv[d as int]) is None);
                    assert(slices_view(panels@) =~= whole);
                    break ;
                },
            }
        } else {
            assert(slices_view(panels@) =~= whole);
            break ;
        }
    }
    Some(OpenPanels { root_index, panels, anchors })
}

} // verus!
