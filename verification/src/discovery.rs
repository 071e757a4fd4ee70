//! The marker scanner and the collection initializer: which files mark a
//! collection, where a collection is found, and what it takes to make one.

use vstd::prelude::*;
use vstd::string::*;
use crate::collection::{children_view, DirChild, DirChildView, PathState, PathStateView};
use crate::config::{MAX_DEPTH, META_FILE_EXTENSION, META_FILE_PREFIX, MIN_DEPTH};
use crate::db::{get_collection_path, Cache, CacheView};
use crate::search::{
    first_where, lemma_first_where, lemma_selected_none, lemma_selected_step, selected,
};
use crate::text::{chars_of, ends_with, holds_at, occurs_between, opt_text, starts_with};
use crate::types::{Author, AuthorView, MetaFile, MetaFileView, Timestamp};

verus! {

/// Why a collection could not be found or made.
#[derive(Clone, Copy, Debug, PartialEq, Eq, Structural)]
pub enum DiscoveryError {
    /// The path does not lead to a directory.
    NotADirectory,
    /// The directory could not be listed.
    Unreadable,
    /// The directory holds no marker file.
    NoMarker,
    /// No marker file of the uid was found.
    NotFound,
    /// The path of a new collection is taken by something that is no
    /// directory.
    AlreadyExists,
    /// The directory of a new collection is not empty.
    DirectoryNotEmpty,
}

impl DiscoveryError {
    /// The error says that the place of a new collection is taken.
    pub open spec fn spec_is_conflict(self) -> bool {
        self == DiscoveryError::AlreadyExists || self == DiscoveryError::DirectoryNotEmpty
    }

    /// Whether the error says that the place of a new collection is taken.
    #[verifier::when_used_as_spec(spec_is_conflict)]
    pub fn is_conflict(self) -> (r: bool)
        ensures
            r == self.spec_is_conflict(),
    {
        match self {
            DiscoveryError::AlreadyExists => true,
            DiscoveryError::DirectoryNotEmpty => true,
            _ => false,
        }
    }
}

impl DiscoveryError {
    /// What the error says of `subject`: the path it came up at, or the uid
    /// that was looked for.
    pub open spec fn spec_message(self, subject: Seq<char>) -> Seq<char> {
        match self {
            DiscoveryError::NotADirectory => "Path '"@ + subject + "' is not a directory"@,
            DiscoveryError::Unreadable => "Failed to read directory '"@ + subject + "'"@,
            DiscoveryError::NoMarker => "No collection file found in '"@ + subject
                + "'. Expected a file starting with '"@ + marker_prefix() + "'"@,
            DiscoveryError::NotFound => "Collection with UID '"@ + subject + "' not found"@,
            DiscoveryError::AlreadyExists => "Path '"@ + subject
                + "' already exists and is not a directory"@,
            DiscoveryError::DirectoryNotEmpty => "Directory '"@ + subject
                + "' already exists and is not empty"@,
        }
    }

    /// What the error says of `subject`, for a reader.
    pub fn message(self, subject: &str) -> (r: String)
        ensures
            r@ == self.spec_message(subject@),
    {
        match self {
            DiscoveryError::NotADirectory => "Path '".to_owned().concat(subject).concat(
                "' is not a directory",
            ),
            DiscoveryError::Unreadable => "Failed to read directory '".to_owned().concat(
                subject,
            ).concat("'"),
            DiscoveryError::NoMarker => "No collection file found in '".to_owned().concat(
                subject,
            ).concat("'. Expected a file starting with '").concat(META_FILE_PREFIX).concat("'"),
            DiscoveryError::NotFound => "Collection with UID '".to_owned().concat(subject).concat(
                "' not found",
            ),
            DiscoveryError::AlreadyExists => "Path '".to_owned().concat(subject).concat(
                "' already exists and is not a directory",
            ),
            DiscoveryError::DirectoryNotEmpty => "Directory '".to_owned().concat(subject).concat(
                "' already exists and is not empty",
            ),
        }
    }
}

/// The characters that every marker file name begins with.
pub open spec fn marker_prefix() -> Seq<char> {
    META_FILE_PREFIX@
}

/// The characters that a marker file name may end with.
pub open spec fn marker_extension() -> Seq<char> {
    META_FILE_EXTENSION@
}

/// The uid that a file name declares: what follows the prefix, without the
/// extension where the name ends with it. A name without the prefix declares
/// nothing.
pub open spec fn spec_marker_uid(name: Seq<char>) -> Option<Seq<char>> {
    if starts_with(name, marker_prefix()) {
        let rest = name.subrange(marker_prefix().len() as int, name.len() as int);
        if ends_with(rest, marker_extension()) {
            Some(rest.subrange(0, rest.len() - marker_extension().len()))
        } else {
            Some(rest)
        }
    } else {
        None
    }
}

/// The uid that a file name declares when only a uid of at least one
/// character and without a dot counts.
pub open spec fn spec_strict_marker_uid(name: Seq<char>) -> Option<Seq<char>> {
    match spec_marker_uid(name) {
        Some(uid) => if uid.len() > 0 && !uid.contains('.') {
            Some(uid)
        } else {
            None
        },
        None => None,
    }
}

/// The name of the marker file that declares `uid`.
pub open spec fn spec_marker_file_name(uid: Seq<char>) -> Seq<char> {
    marker_prefix() + uid + marker_extension()
}

/// The marker file that is written for a uid declares that uid.
pub proof fn lemma_marker_file_name_declares_uid(uid: Seq<char>)
    ensures
        spec_marker_uid(spec_marker_file_name(uid)) == Some(uid),
        uid.len() > 0 && !uid.contains('.') ==> spec_strict_marker_uid(spec_marker_file_name(uid))
            == Some(uid),
{
    let name = spec_marker_file_name(uid);
    let p = marker_prefix();
    let x = marker_extension();
    assert(name.subrange(0, p.len() as int) =~= p);
    let rest = name.subrange(p.len() as int, name.len() as int);
    assert(rest =~= uid + x);
    assert(rest.subrange(rest.len() - x.len(), rest.len() as int) =~= x);
    assert(rest.subrange(0, rest.len() - x.len()) =~= uid);
}

/// Where in `name` the uid stands, if `name` declares one.
fn marker_uid_range(n: &Vec<char>) -> (r: Option<(usize, usize)>)
    ensures
        match r {
            Some((from, to)) => from <= to <= n@.len() && spec_marker_uid(n@) == Some(
                n@.subrange(from as int, to as int),
            ),
            None => spec_marker_uid(n@) is None,
        },
{
    let p = chars_of(META_FILE_PREFIX);
    let x = chars_of(META_FILE_EXTENSION);
    if !holds_at(n, 0, &p) {
        return None;
    }
    let from = p.len();
    let ghost rest = n@.subrange(from as int, n@.len() as int);
    if n.len() - from >= x.len() && holds_at(n, n.len() - x.len(), &x) {
        let to = n.len() - x.len();
        assert(rest.subrange(rest.len() - x@.len(), rest.len() as int) =~= n@.subrange(
            to as int,
            n@.len() as int,
        ));
        assert(rest.subrange(0, rest.len() - x@.len()) =~= n@.subrange(from as int, to as int));
        Some((from, to))
    } else {
        proof {
            if x@.len() <= rest.len() {
                assert(rest.subrange(rest.len() - x@.len(), rest.len() as int) =~= n@.subrange(
                    n@.len() - x@.len(),
                    n@.len() as int,
                ));
            }
            assert(rest =~= n@.subrange(from as int, n@.len() as int));
        }
        Some((from, n.len()))
    }
}

/// The uid that the file name declares, if it is the name of a marker file.
pub fn marker_uid(name: &str) -> (r: Option<String>)
    ensures
        opt_text(r) == spec_marker_uid(name@),
{
    let n = chars_of(name);
    match marker_uid_range(&n) {
        Some((from, to)) => Some(name.substring_char(from, to).to_owned()),
        None => None,
    }
}

/// The uid that the file name declares, if it is the name of a marker file
/// and the uid has at least one character and no dot.
pub fn strict_marker_uid(name: &str) -> (r: Option<String>)
    ensures
        opt_text(r) == spec_strict_marker_uid(name@),
{
    let n = chars_of(name);
    match marker_uid_range(&n) {
        Some((from, to)) => {
            if from == to || occurs_between(&n, from, to, '.') {
                None
            } else {
                Some(name.substring_char(from, to).to_owned())
            }
        },
        None => None,
    }
}

/// The name of the marker file that declares `uid`.
pub fn marker_file_name(uid: &str) -> (r: String)
    ensures
        r@ == spec_marker_file_name(uid@),
{
    META_FILE_PREFIX.to_owned().concat(uid).concat(META_FILE_EXTENSION)
}

/// One node that a walk of a directory tree came by: how deep below the root
/// it lies, whether it is a file, its name (`None` where the name is not valid
/// Unicode), and the directory it lies in.
#[derive(Debug)]
pub struct WalkEntry {
    pub depth: usize,
    pub is_file: bool,
    pub file_name: Option<String>,
    pub parent: Option<String>,
}

/// A `WalkEntry` as a value.
pub struct WalkEntryView {
    pub depth: usize,
    pub is_file: bool,
    pub file_name: Option<Seq<char>>,
    pub parent: Option<Seq<char>>,
}

impl View for WalkEntry {
    type V = WalkEntryView;

    open spec fn view(&self) -> WalkEntryView {
        WalkEntryView {
            depth: self.depth,
            is_file: self.is_file,
            file_name: opt_text(self.file_name),
            parent: opt_text(self.parent),
        }
    }
}

/// A walk as a value; `None` stands for a node that could not be read.
pub open spec fn walk_view(walk: Seq<Option<WalkEntry>>) -> Seq<Option<WalkEntryView>> {
    walk.map_values(
        |n: Option<WalkEntry>|
            match n {
                Some(e) => Some(e@),
                None => None,
            },
    )
}

/// The depth is one at which marker files count.
pub open spec fn in_depth(depth: usize) -> bool {
    MIN_DEPTH <= depth <= MAX_DEPTH
}

/// The collection that a node of a walk declares: the directory it lies in
/// and its uid, if it is a marker file at a depth that counts.
pub open spec fn marker_at(node: Option<WalkEntryView>) -> Option<(Seq<char>, Seq<char>)> {
    match node {
        Some(e) => match (e.file_name, e.parent) {
            (Some(name), Some(parent)) => match spec_marker_uid(name) {
                Some(uid) => if e.is_file && in_depth(e.depth) {
                    Some((parent, uid))
                } else {
                    None
                },
                None => None,
            },
            _ => None,
        },
        None => None,
    }
}

/// The collections that a walk declares, each as its directory and its uid,
/// in the order of the walk. A node that could not be read is passed over.
pub open spec fn spec_find_all(walk: Seq<Option<WalkEntryView>>) -> Seq<(Seq<char>, Seq<char>)> {
    selected(
        walk,
        |n: Option<WalkEntryView>| marker_at(n) is Some,
        |n: Option<WalkEntryView>| marker_at(n)->0,
    )
}

/// Pairs of strings as pairs of their characters.
pub open spec fn pairs_view(pairs: Seq<(String, String)>) -> Seq<(Seq<char>, Seq<char>)> {
    pairs.map_values(|p: (String, String)| (p.0@, p.1@))
}

fn marker_of(node: &Option<WalkEntry>) -> (r: Option<(String, String)>)
    ensures
        match r {
            Some(p) => marker_at(walk_view(seq![*node])[0]) == Some((p.0@, p.1@)),
            None => marker_at(walk_view(seq![*node])[0]) is None,
        },
{
    let e = match node {
        Some(e) => e,
        None => {
            return None;
        },
    };
    if !e.is_file || e.depth < MIN_DEPTH || e.depth > MAX_DEPTH {
        return None;
    }
    match (&e.file_name, &e.parent) {
        (Some(name), Some(parent)) => match marker_uid(name.as_str()) {
            Some(uid) => Some((parent.clone(), uid)),
            None => None,
        },
        _ => None,
    }
}

/// The collections that a walk of a directory tree declares.
pub fn find_all(walk: &Vec<Option<WalkEntry>>) -> (r: Vec<(String, String)>)
    ensures
        pairs_view(r@) == spec_find_all(walk_view(walk@)),
{
    let ghost all = walk_view(walk@);
    let ghost p = |n: Option<WalkEntryView>| marker_at(n) is Some;
    let ghost f = |n: Option<WalkEntryView>| marker_at(n)->0;
    let mut r: Vec<(String, String)> = Vec::new();
    let mut i: usize = 0;
    proof {
        lemma_selected_none(all, p, f);
        assert(pairs_view(r@) =~= selected(all.take(0), p, f));
    }
    while i < walk.len()
        invariant
            i <= walk.len(),
            all == walk_view(walk@),
            p == |n: Option<WalkEntryView>| marker_at(n) is Some,
            f == |n: Option<WalkEntryView>| marker_at(n)->0,
            pairs_view(r@) == selected(all.take(i as int), p, f),
        decreases walk.len() - i,
    {
        proof {
            lemma_selected_step(all, p, f, i as int);
            assert(walk_view(seq![walk@[i as int]])[0] == all[i as int]);
        }
        match marker_of(&walk[i]) {
            Some(pair) => {
                let ghost before = pairs_view(r@);
                r.push(pair);
                assert(pairs_view(r@) =~= before.push((pair.0@, pair.1@)));
            },
            None => {},
        }
        i += 1;
    }
    assert(all.take(i as int) =~= all);
    r
}

/// The node is a marker file of the collection `uid`, by one of the two names
/// that such a file can have.
pub open spec fn names_collection(node: Option<WalkEntryView>, uid: Seq<char>) -> bool {
    &&& node matches Some(e)
    &&& e.is_file
    &&& in_depth(e.depth)
    &&& e.parent is Some
    &&& e.file_name matches Some(name)
    &&& (name == marker_prefix() + uid || name == spec_marker_file_name(uid))
}

/// The directory of the first marker file of the collection `uid` that the
/// walk came by.
pub open spec fn spec_find_one(uid: Seq<char>, walk: Seq<Option<WalkEntryView>>) -> Option<Seq<char>> {
    match first_where(walk, |n: Option<WalkEntryView>| names_collection(n, uid)) {
        Some(i) => walk[i]->0.parent,
        None => None,
    }
}

/// The directory of the collection `uid`: that of the first marker file of
/// the uid that the walk came by.
pub fn find_one(uid: &str, walk: &Vec<Option<WalkEntry>>) -> (r: Result<String, DiscoveryError>)
    ensures
        match r {
            Ok(path) => spec_find_one(uid@, walk_view(walk@)) == Some(path@),
            Err(e) => e == DiscoveryError::NotFound && spec_find_one(uid@, walk_view(walk@)) is None,
        },
{
    let ghost all = walk_view(walk@);
    let ghost p = |n: Option<WalkEntryView>| names_collection(n, uid@);
    let bare = META_FILE_PREFIX.to_owned().concat(uid);
    let full = marker_file_name(uid);
    let mut i: usize = 0;
    while i < walk.len()
        invariant
            i <= walk.len(),
            all == walk_view(walk@),
            p == |n: Option<WalkEntryView>| names_collection(n, uid@),
            bare@ == marker_prefix() + uid@,
            full@ == spec_marker_file_name(uid@),
            forall|j: int| 0 <= j < i ==> !p(#[trigger] all[j]),
        decreases walk.len() - i,
    {
        match &walk[i] {
            Some(e) => {
                if e.is_file && MIN_DEPTH <= e.depth && e.depth <= MAX_DEPTH {
                    match (&e.file_name, &e.parent) {
                        (Some(name), Some(parent)) => {
                            if name.as_str().eq(bare.as_str()) || name.as_str().eq(full.as_str()) {
                                proof {
                                    assert(p(all[i as int]));
                                    lemma_first_where(all, p);
                                }
                                return Ok(parent.clone());
                            }
                        },
                        _ => {},
                    }
                }
            },
            None => {},
        }
        i += 1;
    }
    proof {
        lemma_first_where(all, p);
    }
    Err(DiscoveryError::NotFound)
}

/// Where the collection `uid` is: at the path that the cache has for it, if
/// something is there, and else where a walk finds its marker file.
pub open spec fn spec_get_path(
    c: CacheView,
    uid: Seq<char>,
    on_disk: bool,
    walk: Seq<Option<WalkEntryView>>,
) -> Option<Seq<char>> {
    match c.collection_path(uid) {
        Some(path) => if on_disk {
            Some(path)
        } else {
            spec_find_one(uid, walk)
        },
        None => spec_find_one(uid, walk),
    }
}

/// The directory of the collection `uid`. `on_disk` says whether something
/// stands at the path that the cache has for the uid; `walk` is gone through
/// only where the cache has no path that is still there.
pub fn get_path(cache: &Cache, uid: &str, on_disk: bool, walk: &Vec<Option<WalkEntry>>) -> (r: Result<
    String,
    DiscoveryError,
>)
    ensures
        match r {
            Ok(path) => spec_get_path(cache@, uid@, on_disk, walk_view(walk@)) == Some(path@),
            Err(e) => e == DiscoveryError::NotFound && spec_get_path(
                cache@,
                uid@,
                on_disk,
                walk_view(walk@),
            ) is None,
        },
{
    match get_collection_path(cache, uid) {
        Some(path) => {
            if on_disk {
                Ok(path)
            } else {
                find_one(uid, walk)
            }
        },
        None => find_one(uid, walk),
    }
}

/// The child is a marker file whose uid has at least one character and no dot.
pub open spec fn declares_uid(child: Option<DirChildView>) -> bool {
    child matches Some(c) && c.name matches Some(name) && spec_strict_marker_uid(name) is Some
}

/// The uid that the first marker file among the children of a directory
/// declares.
pub open spec fn spec_read_uid_from_meta_file(children: Seq<Option<DirChildView>>) -> Result<
    Seq<char>,
    DiscoveryError,
> {
    match first_where(children, |c: Option<DirChildView>| declares_uid(c)) {
        Some(i) => Ok(spec_strict_marker_uid(children[i]->0.name->0)->0),
        None => Err(DiscoveryError::NoMarker),
    }
}

/// The uid of the collection at a path: the one that the first marker file
/// among the children of the directory declares.
pub open spec fn spec_get_uid(state: PathStateView) -> Result<Seq<char>, DiscoveryError> {
    match state {
        PathStateView::Missing => Err(DiscoveryError::NotADirectory),
        PathStateView::NotADirectory => Err(DiscoveryError::NotADirectory),
        PathStateView::Unreadable => Err(DiscoveryError::Unreadable),
        PathStateView::Directory(children) => spec_read_uid_from_meta_file(children),
    }
}

/// The uid that the marker file of a directory declares, given the children
/// of the directory. A child that could not be read, or whose name is not
/// valid Unicode, is passed over; the first marker file counts.
pub fn read_uid_from_meta_file(children: &Vec<Option<DirChild>>) -> (r: Result<String, DiscoveryError>)
    ensures
        match r {
            Ok(uid) => spec_read_uid_from_meta_file(children_view(children@)) == Ok::<
                Seq<char>,
                DiscoveryError,
            >(uid@),
            Err(e) => spec_read_uid_from_meta_file(children_view(children@)) == Err::<
                Seq<char>,
                DiscoveryError,
            >(e),
        },
{
    let ghost all = children_view(children@);
    let ghost p = |c: Option<DirChildView>| declares_uid(c);
    let mut i: usize = 0;
    while i < children.len()
        invariant
            i <= children.len(),
            all == children_view(children@),
            p == |c: Option<DirChildView>| declares_uid(c),
            forall|j: int| 0 <= j < i ==> !p(#[trigger] all[j]),
        decreases children.len() - i,
    {
        match &children[i] {
            Some(child) => match &child.name {
                Some(name) => match strict_marker_uid(name.as_str()) {
                    Some(uid) => {
                        proof {
                            assert(all[i as int] == Some(child@));
                            assert(p(all[i as int]));
                            lemma_first_where(all, p);
                        }
                        return Ok(uid);
                    },
                    None => {},
                },
                None => {},
            },
            None => {},
        }
        i += 1;
    }
    proof {
        lemma_first_where(all, p);
    }
    Err(DiscoveryError::NoMarker)
}

/// The uid of the collection whose directory stands at a path.
pub fn get_uid(state: &PathState) -> (r: Result<String, DiscoveryError>)
    ensures
        match r {
            Ok(uid) => spec_get_uid(state@) == Ok::<Seq<char>, DiscoveryError>(uid@),
            Err(e) => spec_get_uid(state@) == Err::<Seq<char>, DiscoveryError>(e),
        },
{
    match state {
        PathState::Missing => Err(DiscoveryError::NotADirectory),
        PathState::NotADirectory => Err(DiscoveryError::NotADirectory),
        PathState::Unreadable => Err(DiscoveryError::Unreadable),
        PathState::Directory(children) => read_uid_from_meta_file(children),
    }
}

/// The author of a collection, where both a name and an e-mail address are
/// known.
pub fn get_author(name: Option<String>, email: Option<String>) -> (r: Option<Author>)
    ensures
        match r {
            Some(a) => opt_text(name) == Some(a@.name) && opt_text(email) == Some(a@.email),
            None => name is None || email is None,
        },
{
    match (name, email) {
        (Some(name), Some(email)) => Some(Author { name, email }),
        _ => None,
    }
}

/// The marker file of a collection: the name of the file, and what it records.
#[derive(Debug)]
pub struct Identifier {
    pub file_name: String,
    pub uid: String,
    pub created: String,
    pub author: Option<Author>,
}

/// An `Identifier` as a value.
pub struct IdentifierView {
    pub file_name: Seq<char>,
    pub uid: Seq<char>,
    pub created: Seq<char>,
    pub author: Option<AuthorView>,
}

/// The author as a value.
pub open spec fn author_view(author: Option<Author>) -> Option<AuthorView> {
    match author {
        Some(a) => Some(a@),
        None => None,
    }
}

impl View for Identifier {
    type V = IdentifierView;

    open spec fn view(&self) -> IdentifierView {
        IdentifierView {
            file_name: self.file_name@,
            uid: self.uid@,
            created: self.created@,
            author: author_view(self.author),
        }
    }
}

impl Identifier {
    /// What the marker file records.
    pub fn meta_file(&self) -> (r: MetaFile<'_>)
        ensures
            r@ == (MetaFileView { uid: self@.uid, created: self@.created, author: self@.author }),
    {
        MetaFile {
            uid: self.uid.as_str(),
            created: self.created.as_str(),
            author: match &self.author {
                Some(a) => Some(Author { name: a.name.clone(), email: a.email.clone() }),
                None => None,
            },
        }
    }
}

/// The marker file of the collection `uid`, made at the time `created` by
/// `author`.
pub open spec fn spec_identifier(
    uid: Seq<char>,
    created: Seq<char>,
    author: Option<AuthorView>,
) -> IdentifierView {
    IdentifierView { file_name: spec_marker_file_name(uid), uid, created, author }
}

/// The marker file of the collection `uid`, made at the time `created`.
pub fn create_identifier_at(uid: &str, created: String, author: Option<Author>) -> (r: Identifier)
    ensures
        r@ == spec_identifier(uid@, created@, author_view(author)),
{
    Identifier { file_name: marker_file_name(uid), uid: uid.to_owned(), created, author }
}

/// The marker file of the collection `uid`, made at the wall-clock time of the
/// call.
pub fn create_identifier(uid: &str, author: Option<Author>) -> (r: Identifier)
    ensures
        r@ == spec_identifier(uid@, r@.created, author_view(author)),
{
    create_identifier_at(uid, Timestamp::now_rfc3339(), author)
}

/// What is to be done to make a collection: whether its directory is to be
/// made first, and the marker file to write into it.
#[derive(Debug)]
pub struct NewCollection {
    pub create_directory: bool,
    pub identifier: Identifier,
}

/// Why no collection can be made at a path, if it cannot: the path is taken
/// by something that is no directory, or by a directory that is not empty or
/// cannot be listed.
pub open spec fn refusal(state: PathStateView) -> Option<DiscoveryError> {
    match state {
        PathStateView::Missing => None,
        PathStateView::NotADirectory => Some(DiscoveryError::AlreadyExists),
        PathStateView::Unreadable => Some(DiscoveryError::Unreadable),
        PathStateView::Directory(children) => if children.len() > 0 {
            Some(DiscoveryError::DirectoryNotEmpty)
        } else {
            None
        },
    }
}

/// Plans the collection `uid` at a path, given what stands there. A path that
/// is free, or holds an empty directory, gets the marker file of the uid, made
/// at the time `created`; any other path is refused and gets nothing.
pub fn new_collection_at(
    state: &PathState,
    uid: &str,
    created: String,
    author: Option<Author>,
) -> (r: Result<NewCollection, DiscoveryError>)
    ensures
        match r {
            Ok(plan) => refusal(state@) is None && plan.create_directory == (state@
                is Missing) && plan.identifier@ == spec_identifier(
                uid@,
                created@,
                author_view(author),
            ),
            Err(e) => refusal(state@) == Some(e),
        },
{
    let create_directory = match state {
        PathState::Missing => true,
        PathState::NotADirectory => {
            return Err(DiscoveryError::AlreadyExists);
        },
        PathState::Unreadable => {
            return Err(DiscoveryError::Unreadable);
        },
        PathState::Directory(children) => {
            if children.len() > 0 {
                return Err(DiscoveryError::DirectoryNotEmpty);
            }
            false
        },
    };
    Ok(NewCollection { create_directory, identifier: create_identifier_at(uid, created, author) })
}

/// Plans the collection `uid` at a path, given what stands there, with a
/// marker file made at the wall-clock time of the call.
pub fn new_collection(state: &PathState, uid: &str, author: Option<Author>) -> (r: Result<
    NewCollection,
    DiscoveryError,
>)
    ensures
        match r {
            Ok(plan) => refusal(state@) is None && plan.create_directory == (state@
                is Missing) && plan.identifier@ == spec_identifier(
                uid@,
                plan.identifier@.created,
                author_view(author),
            ),
            Err(e) => refusal(state@) == Some(e),
        },
{
    new_collection_at(state, uid, Timestamp::now_rfc3339(), author)
}

/// The refusal is a conflict: the path is taken.
pub open spec fn refused_as_taken(state: PathStateView) -> bool {
    match refusal(state) {
        Some(e) => e.spec_is_conflict(),
        None => false,
    }
}

/// A path is refused as taken exactly when it holds something that is no
/// directory, or a directory that has a child.
pub proof fn lemma_taken_path_is_a_conflict(state: PathStateView)
    ensures
        refused_as_taken(state) <==> (state is NotADirectory || (state is Directory
            && state->Directory_0.len() > 0)),
{
}

} // verus!
