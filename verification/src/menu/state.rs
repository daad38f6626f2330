use vstd::prelude::*;

use crate::ident::same_id;

verus! {

/// What the menu bar asks its state to do.
#[derive(Debug, Clone, Copy, PartialEq, Eq)]
pub enum MenuMessage {
    /// Open the root menu `id`, or close the bar when `id` is already open.
    ToggleRoot(&'static str),
    /// Open the root menu `id`, keeping the open submenus when it already is.
    OpenRoot(&'static str),
    /// Open submenu `id` at `depth`, closing every submenu at or below it.
    OpenSubmenu { depth: usize, id: &'static str },
    /// Keep only the submenus above `depth` open.
    TrimPath(usize),
    /// The action `id` was chosen; the bar closes and reports it.
    Invoke(&'static str),
    /// Close the bar.
    Close,
}

/// Which root menu is open, and the chain of submenus opened below it.
#[derive(Debug)]
pub struct MenuState {
    open_root: Option<&'static str>,
    open_path: Vec<&'static str>,
}

/// The abstract menu state: the open root (by its characters) and the ids of
/// the open submenus, outermost first.
pub struct MenuStateView {
    pub open_root: Option<Seq<char>>,
    pub open_path: Seq<Seq<char>>,
}

/// The characters of each id of `ids`.
pub open spec fn ids_view(ids: Seq<&'static str>) -> Seq<Seq<char>> {
    ids.map_values(|s: &'static str| s@)
}

/// The characters of an optional id.
pub open spec fn opt_id_view(id: Option<&'static str>) -> Option<Seq<char>> {
    match id {
        Some(s) => Some(s@),
        None => None,
    }
}

/// The first `depth` entries of `path` (all of it when it is shorter).
pub open spec fn truncated(path: Seq<Seq<char>>, depth: int) -> Seq<Seq<char>> {
    if depth < path.len() {
        path.take(depth)
    } else {
        path
    }
}

/// The closed bar: no root open, no submenu open.
pub open spec fn closed_state() -> MenuStateView {
    MenuStateView { open_root: None, open_path: Seq::empty() }
}

/// The state after one message.
pub open spec fn step(s: MenuStateView, message: MenuMessage) -> MenuStateView {
    match message {
        MenuMessage::ToggleRoot(id) => if s.open_root == Some(id@) {
            closed_state()
        } else {
            MenuStateView { open_root: Some(id@), open_path: Seq::empty() }
        },
        MenuMessage::OpenRoot(id) => if s.open_root == Some(id@) {
            s
        } else {
            MenuStateView { open_root: Some(id@), open_path: Seq::empty() }
        },
        MenuMessage::OpenSubmenu { depth, id } => MenuStateView {
            open_root: s.open_root,
            open_path: truncated(s.open_path, depth as int).push(id@),
        },
        MenuMessage::TrimPath(depth) => MenuStateView {
            open_root: s.open_root,
            open_path: truncated(s.open_path, depth as int),
        },
        MenuMessage::Invoke(_) => closed_state(),
        MenuMessage::Close => closed_state(),
    }
}

/// The action that a message reports: the id of an `Invoke`, nothing else.
pub open spec fn invoked(message: MenuMessage) -> Option<&'static str> {
    match message {
        MenuMessage::Invoke(id) => Some(id),
        _ => None,
    }
}

impl View for MenuState {
    type V = MenuStateView;

    closed spec fn view(&self) -> MenuStateView {
        MenuStateView { open_root: opt_id_view(self.open_root), open_path: ids_view(self.open_path@) }
    }
}

impl Default for MenuState {
    fn default() -> (state: MenuState)
        ensures
            state@ == closed_state(),
            state@.open_root is None,
            state@.open_path.len() == 0,
    {
        let state = MenuState { open_root: None, open_path: Vec::new() };
        assert(state@.open_path =~= Seq::<Seq<char>>::empty());
        state
    }
}

impl MenuState {
    /// Truncating the id list commutes with taking each id's characters.
    proof fn lemma_truncate_view(path: Seq<&'static str>, after: Seq<&'static str>, depth: int)
        requires
            0 <= depth,
            depth <= path.len() ==> after == path.subrange(0, depth),
            depth > path.len() ==> after == path,
        ensures
            ids_view(after) == truncated(ids_view(path), depth),
    {
        if depth < path.len() {
            assert(ids_view(after) =~= ids_view(path).take(depth));
        } else if depth == path.len() {
            assert(after =~= path);
        }
    }

    /// Applies `message`; returns the id of the invoked action, if any.
    pub fn update(&mut self, message: MenuMessage) -> (action: Option<&'static str>)
        ensures
            final(self)@ == step(old(self)@, message),
            action == invoked(message),
    {
        match message {
            MenuMessage::ToggleRoot(id) => {
                if self.is_root_open(id) {
                    self.close();
                } else {
                    self.set_open_root(id);
                }
                None
            },
            MenuMessage::OpenRoot(id) => {
                if !self.is_root_open(id) {
                    self.set_open_root(id);
                }
                None
            },
            MenuMessage::OpenSubmenu { depth, id } => {
                self.set_open_submenu(depth, id);
                None
            },
            MenuMessage::TrimPath(depth) => {
                self.trim_path(depth);
                None
            },
            MenuMessage::Invoke(id) => {
                self.close();
                Some(id)
            },
            MenuMessage::Close => {
                self.close();
                None
            },
        }
    }

    /// Whether the root menu `id` is the open one.
    pub fn is_root_open(&self, id: &'static str) -> (open: bool)
        ensures
            open == (self@.open_root == Some(id@)),
    {
        match self.open_root {
            Some(root) => same_id(root, id),
            None => false,
        }
    }

    /// Whether the submenu opened at `depth` is `id`.
    pub fn is_submenu_open(&self, depth: usize, id: &'static str) -> (open: bool)
        ensures
            open == (depth < self@.open_path.len() && self@.open_path[depth as int] == id@),
    {
        if depth < self.open_path.len() {
            same_id(self.open_path[depth], id)
        } else {
            false
        }
    }

    /// The open root menu, if any.
    pub fn open_root(&self) -> (root: Option<&'static str>)
        ensures
            opt_id_view(root) == self@.open_root,
    {
        self.open_root
    }

    /// The ids of the open submenus, outermost first.
    pub fn open_path(&self) -> (path: &[&'static str])
        ensures
            ids_view(path@) == self@.open_path,
    {
        self.open_path.as_slice()
    }

    /// Opens the root menu `id` with no submenu open.
    pub fn set_open_root(&mut self, id: &'static str)
        ensures
            final(self)@ == (MenuStateView { open_root: Some(id@), open_path: Seq::empty() }),
    {
        self.open_root = Some(id);
        self.open_path.clear();
        assert(self@.open_path =~= Seq::<Seq<char>>::empty());
    }

    /// Opens submenu `id` at `depth`, dropping what was open at or below it.
    pub fn set_open_submenu(&mut self, depth: usize, id: &'static str)
        ensures
            final(self)@ == (MenuStateView {
                open_root: old(self)@.open_root,
                open_path: truncated(old(self)@.open_path, depth as int).push(id@),
            }),
    {
        let ghost before = self.open_path@;
        self.open_path.truncate(depth);
        proof {
            Self::lemma_truncate_view(before, self.open_path@, depth as int);
        }
        let ghost mid = self.open_path@;
        self.open_path.push(id);
        assert(ids_view(self.open_path@) =~= ids_view(mid).push(id@));
    }

    /// Keeps only the submenus above `depth` open.
    pub fn trim_path(&mut self, depth: usize)
        ensures
            final(self)@ == (MenuStateView {
                open_root: old(self)@.open_root,
                open_path: truncated(old(self)@.open_path, depth as int),
            }),
    {
        let ghost before = self.open_path@;
        self.open_path.truncate(depth);
        proof {
            Self::lemma_truncate_view(before, self.open_path@, depth as int);
        }
    }

    /// Closes the bar.
    pub fn close(&mut self)
        ensures
            final(self)@ == closed_state(),
            final(self)@.open_root is None,
            final(self)@.open_path.len() == 0,
    {
        self.open_root = None;
        self.open_path.clear();
        assert(self@.open_path =~= Seq::<Seq<char>>::empty());
    }
}

} // verus!
