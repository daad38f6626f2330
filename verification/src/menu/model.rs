use vstd::prelude::*;

use crate::ident::same_id;

verus! {

/// A top-level entry of the menu bar and the items of its drop-down panel.
#[derive(Debug, Clone, Copy)]
pub struct MenuRoot {
    pub id: &'static str,
    pub label: &'static str,
    pub items: &'static [MenuItem],
}

/// One row of a drop-down panel.
#[derive(Debug, Clone, Copy)]
pub enum MenuItem {
    Action { id: &'static str, label: &'static str },
    Submenu { id: &'static str, label: &'static str, items: &'static [MenuItem] },
    Separator,
}

/// `item` is a submenu whose identifier is `id`.
pub open spec fn is_submenu_with_id(item: MenuItem, id: Seq<char>) -> bool {
    item matches MenuItem::Submenu { id: sid, .. } && sid@ == id
}

/// `i` is the position of the first submenu of `items` whose identifier is `id`.
pub open spec fn is_first_submenu(items: Seq<MenuItem>, id: Seq<char>, i: int) -> bool {
    &&& 0 <= i < items.len()
    &&& is_submenu_with_id(items[i], id)
    &&& forall|j: int| 0 <= j < i ==> !is_submenu_with_id(#[trigger] items[j], id)
}

/// No item of `items` is a submenu whose identifier is `id`.
pub open spec fn has_no_submenu(items: Seq<MenuItem>, id: Seq<char>) -> bool {
    forall|j: int| 0 <= j < items.len() ==> !is_submenu_with_id(#[trigger] items[j], id)
}

/// The children of a submenu item (empty for any other item).
pub open spec fn children(item: MenuItem) -> Seq<MenuItem> {
    match item {
        MenuItem::Submenu { items, .. } => items@,
        _ => Seq::empty(),
    }
}

/// Position of the first submenu in `items` whose identifier is `id`.
pub fn find_submenu(items: &[MenuItem], id: &str) -> (found: Option<usize>)
    ensures
        found is None <==> has_no_submenu(items@, id@),
        found matches Some(i) ==> is_first_submenu(items@, id@, i as int),
        found is None ==> forall|j: int|
            0 <= j < items@.len() ==> !(#[trigger] items@[j] matches MenuItem::Submenu { id: sid, .. } && sid@
                == id@),
        found matches Some(i) ==> {
            &&& i < items@.len()
            &&& items@[i as int] matches MenuItem::Submenu { id: sid, .. } && sid@ == id@
            &&& forall|j: int|
                0 <= j < i ==> !(#[trigger] items@[j] matches MenuItem::Submenu { id: sid, .. } && sid@ == id@)
        },
{
    let n = items.len();
    let mut i: usize = 0;
    while i < n
        invariant
            n == items@.len(),
            i <= n,
            forall|j: int| 0 <= j < i ==> !is_submenu_with_id(#[trigger] items@[j], id@),
        decreases n - i,
    {
        match &items[i] {
            MenuItem::Submenu { id: sid, .. } => {
                if same_id(sid, id) {
                    return Some(i);
                }
            },
            _ => {},
        }
        i = i + 1;
    }
    None
}

/// The items of the first submenu of `items` whose identifier is `id`, if
/// there is one.
pub fn submenu_items(items: &[MenuItem], id: &str) -> (found: Option<&'static [MenuItem]>)
    ensures
        found is None <==> has_no_submenu(items@, id@),
        found matches Some(children_found) ==> exists|i: int|
            is_first_submenu(items@, id@, i) && children_found@ == children(#[trigger] items@[i]),
        found matches Some(children_found) ==> exists|i: int|
            0 <= i < items@.len() && (#[trigger] items@[i] matches MenuItem::Submenu { id: sid, items: sub, .. }
                && sid@ == id@ && sub@ == children_found@) && forall|j: int|
                0 <= j < i ==> !(#[trigger] items@[j] matches MenuItem::Submenu { id: sid, .. } && sid@ == id@),
{
    match find_submenu(items, id) {
        Some(i) => match &items[i] {
            MenuItem::Submenu { items: sub, .. } => Some(*sub),
            _ => None,
        },
        None => None,
    }
}

} // verus!
