//! The entry scanner: which children of a collection's directory are entries.

use vstd::prelude::*;
use crate::search::{lemma_selected_none, lemma_selected_step, selected};
use crate::text::opt_text;

verus! {

/// One child of a directory, as a listing gave it: its path, its name
/// (`None` where the name is not valid Unicode), whether it is a directory
/// (`None` where its type could not be read), and whether it holds a result
/// container.
#[derive(Debug)]
pub struct DirChild {
    pub path: String,
    pub name: Option<String>,
    pub is_dir: Option<bool>,
    pub has_container: bool,
}

/// A `DirChild` as a value.
pub struct DirChildView {
    pub path: Seq<char>,
    pub name: Option<Seq<char>>,
    pub is_dir: Option<bool>,
    pub has_container: bool,
}

impl View for DirChild {
    type V = DirChildView;

    open spec fn view(&self) -> DirChildView {
        DirChildView {
            path: self.path@,
            name: opt_text(self.name),
            is_dir: self.is_dir,
            has_container: self.has_container,
        }
    }
}

/// The children of a directory; `None` stands for a child that could not be
/// read.
pub open spec fn children_view(children: Seq<Option<DirChild>>) -> Seq<Option<DirChildView>> {
    children.map_values(
        |c: Option<DirChild>|
            match c {
                Some(child) => Some(child@),
                None => None,
            },
    )
}

/// What stands at a path.
#[derive(Debug)]
pub enum PathState {
    /// Nothing.
    Missing,
    /// Something that is no directory.
    NotADirectory,
    /// A directory that could not be listed.
    Unreadable,
    /// A directory with these children.
    Directory(Vec<Option<DirChild>>),
}

/// A `PathState` as a value.
pub enum PathStateView {
    Missing,
    NotADirectory,
    Unreadable,
    Directory(Seq<Option<DirChildView>>),
}

impl View for PathState {
    type V = PathStateView;

    open spec fn view(&self) -> PathStateView {
        match self {
            PathState::Missing => PathStateView::Missing,
            PathState::NotADirectory => PathStateView::NotADirectory,
            PathState::Unreadable => PathStateView::Unreadable,
            PathState::Directory(children) => PathStateView::Directory(children_view(children@)),
        }
    }
}

/// The child is an entry: a directory that holds a result container.
pub open spec fn is_entry(child: Option<DirChildView>) -> bool {
    child matches Some(c) && c.is_dir == Some(true) && c.has_container
}

/// The paths of the children that are entries, in the order of the listing.
pub open spec fn entries_among(children: Seq<Option<DirChildView>>) -> Seq<Seq<char>> {
    selected(
        children,
        |c: Option<DirChildView>| is_entry(c),
        |c: Option<DirChildView>| c->0.path,
    )
}

/// The entries of the collection at a path: every immediate child that is a
/// directory and holds a result container. A child that could not be read is
/// passed over, and a path that is no readable directory has no entries.
pub open spec fn spec_find_entries(state: PathStateView) -> Seq<Seq<char>> {
    match state {
        PathStateView::Directory(children) => entries_among(children),
        _ => Seq::empty(),
    }
}

/// The paths of the entries of the collection whose directory stands at a
/// path, in the order of the listing.
pub fn find_entries(state: &PathState) -> (r: Vec<String>)
    ensures
        r@.map_values(|s: String| s@) == spec_find_entries(state@),
{
    let mut r: Vec<String> = Vec::new();
    let children = match state {
        PathState::Directory(children) => children,
        _ => {
            assert(r@.map_values(|s: String| s@) =~= Seq::empty());
            return r;
        },
    };
    let ghost all = children_view(children@);
    let mut i: usize = 0;
    proof {
        lemma_selected_none(
            all,
            |c: Option<DirChildView>| is_entry(c),
            |c: Option<DirChildView>| c->0.path,
        );
        assert(r@.map_values(|s: String| s@) =~= entries_among(all.take(0)));
    }
    while i < children.len()
        invariant
            i <= children.len(),
            all == children_view(children@),
            r@.map_values(|s: String| s@) == entries_among(all.take(i as int)),
        decreases children.len() - i,
    {
        proof {
            lemma_selected_step(
                all,
                |c: Option<DirChildView>| is_entry(c),
                |c: Option<DirChildView>| c->0.path,
                i as int,
            );
        }
        match &children[i] {
            Some(child) => {
                let is_dir = match child.is_dir {
                    Some(b) => b,
                    None => false,
                };
                if is_dir && child.has_container {
                    let ghost before = r@.map_values(|s: String| s@);
                    r.push(child.path.clone());
                    assert(r@.map_values(|s: String| s@) =~= before.push(child.path@));
                }
            },
            None => {},
        }
        i += 1;
    }
    assert(all.take(i as int) =~= all);
    r
}

} // verus!
