//! The file tree of the sidebar, which is loaded one directory at a time.
//!
//! [`Sidebar`] hands out [`DirectoryRequest`]s. Whoever reads the directory answers
//! with a [`DirectoryResult`]; an answer to a request from before the root changed
//! has no effect.

use crate::outside::{lowercase, lowercase_of};
use crate::paths::{are_same_path, display_name, display_name_of, same_path};
use crate::text::{chars_of, is_text_le, owned, same_text, text_le, text_order};
use vstd::prelude::*;

verus! {

/// How far a directory has been loaded.
#[derive(Clone, Debug, PartialEq, Eq)]
pub enum DirectoryState {
    Unloaded,
    Loading,
    Loaded,
    Error(String),
}

/// What a [`DirectoryState`] says.
pub enum LoadModel {
    Unloaded,
    Loading,
    Loaded,
    Error(Seq<char>),
}

impl View for DirectoryState {
    type V = LoadModel;

    open spec fn view(&self) -> LoadModel {
        match self {
            DirectoryState::Unloaded => LoadModel::Unloaded,
            DirectoryState::Loading => LoadModel::Loading,
            DirectoryState::Loaded => LoadModel::Loaded,
            DirectoryState::Error(e) => LoadModel::Error(e@),
        }
    }
}

/// A file or directory of the tree.
#[derive(Debug)]
pub struct FileTreeNode {
    pub name: String,
    pub path: String,
    pub is_dir: bool,
    pub children: Vec<FileTreeNode>,
    pub expanded: bool,
    pub state: DirectoryState,
}

/// What a [`FileTreeNode`] holds.
pub struct NodeModel {
    pub name: Seq<char>,
    pub path: Seq<char>,
    pub is_dir: bool,
    pub children: Seq<NodeModel>,
    pub expanded: bool,
    pub state: LoadModel,
}

impl FileTreeNode {
    pub open spec fn model(self) -> NodeModel
        decreases self,
    {
        NodeModel {
            name: self.name@,
            path: self.path@,
            is_dir: self.is_dir,
            children: Seq::new(
                self.children@.len(),
                |i: int|
                    if 0 <= i < self.children@.len() {
                        self.children@[i].model()
                    } else {
                        arbitrary()
                    },
            ),
            expanded: self.expanded,
            state: self.state@,
        }
    }
}

/// The models of some nodes.
pub open spec fn node_models(nodes: Seq<FileTreeNode>) -> Seq<NodeModel> {
    Seq::new(nodes.len(), |i: int| nodes[i].model())
}

impl NodeModel {
    /// A directory that has not been loaded.
    pub open spec fn directory(path: Seq<char>, expanded: bool) -> Self {
        NodeModel {
            name: display_name_of(path),
            path,
            is_dir: true,
            children: Seq::empty(),
            expanded,
            state: LoadModel::Unloaded,
        }
    }

    /// The first node with a path, a node before its children.
    pub open spec fn found(self, path: Seq<char>) -> Option<NodeModel>
        decreases self, self.children.len() + 1,
    {
        if same_path(self.path, path) {
            Some(self)
        } else {
            self.found_below(path, 0)
        }
    }

    /// The first node with a path below the children from `i` on.
    pub open spec fn found_below(self, path: Seq<char>, i: int) -> Option<NodeModel>
        decreases self, self.children.len() - i,
    {
        if i < 0 || i >= self.children.len() {
            None
        } else {
            match self.children[i].found(path) {
                Some(node) => Some(node),
                None => self.found_below(path, i + 1),
            }
        }
    }

    /// The tree with the first node of a path changed.
    pub open spec fn changed(self, path: Seq<char>, change: Change) -> NodeModel
        decreases self, self.children.len() + 1,
    {
        if same_path(self.path, path) {
            change.on(self)
        } else {
            self.changed_below(path, change, 0)
        }
    }

    pub open spec fn changed_below(self, path: Seq<char>, change: Change, i: int) -> NodeModel
        decreases self, self.children.len() - i,
    {
        if i < 0 || i >= self.children.len() {
            self
        } else if self.children[i].found(path) is Some {
            NodeModel {
                children: self.children.update(i, self.children[i].changed(path, change)),
                ..self
            }
        } else {
            self.changed_below(path, change, i + 1)
        }
    }

    /// A directory opened or closed. One that is not loaded is opened, and is now
    /// being loaded.
    pub open spec fn toggled(self) -> NodeModel {
        if !self.is_dir {
            self
        } else {
            match self.state {
                LoadModel::Loading | LoadModel::Loaded => NodeModel {
                    expanded: !self.expanded,
                    ..self
                },
                _ => NodeModel { expanded: true, state: LoadModel::Loading, ..self },
            }
        }
    }

    /// Whether opening it has to load it first.
    pub open spec fn needs_load(self) -> bool {
        self.is_dir && (self.state is Unloaded || self.state is Error)
    }

    /// A directory after it was read, or could not be.
    pub open spec fn loaded(self, entries: Result<Seq<NodeModel>, Seq<char>>) -> NodeModel {
        match entries {
            Ok(children) => NodeModel { children, state: LoadModel::Loaded, ..self },
            Err(error) => NodeModel {
                children: Seq::empty(),
                state: LoadModel::Error(error),
                ..self
            },
        }
    }
}

/// A line of the tree as it is shown.
#[derive(Debug, Clone, PartialEq, Eq)]
pub struct SidebarRow {
    /// How far below the root the node is.
    pub depth: u32,
    pub name: String,
    pub path: String,
    pub is_dir: bool,
    pub expanded: bool,
}

/// A line of the tree as it is shown.
pub struct RowModel {
    pub depth: u32,
    pub name: Seq<char>,
    pub path: Seq<char>,
    pub is_dir: bool,
    pub expanded: bool,
}

impl View for SidebarRow {
    type V = RowModel;

    open spec fn view(&self) -> RowModel {
        RowModel {
            depth: self.depth,
            name: self.name@,
            path: self.path@,
            is_dir: self.is_dir,
            expanded: self.expanded,
        }
    }
}

pub open spec fn row_models(rows: Seq<SidebarRow>) -> Seq<RowModel> {
    Seq::new(rows.len(), |i: int| rows[i]@)
}

/// One deeper, as far as depths are told apart.
pub open spec fn deeper(depth: u32) -> u32 {
    if depth == u32::MAX {
        depth
    } else {
        (depth + 1) as u32
    }
}

impl NodeModel {
    pub open spec fn row(self, depth: u32) -> RowModel {
        RowModel {
            depth,
            name: self.name,
            path: self.path,
            is_dir: self.is_dir,
            expanded: self.expanded,
        }
    }

    /// The lines that are shown of a tree: a node, and below it the lines of its children
    /// where it is open.
    pub open spec fn rows(self, depth: u32) -> Seq<RowModel>
        decreases self, self.children.len() + 1,
    {
        if self.is_dir && self.expanded {
            seq![self.row(depth)] + self.rows_below(deeper(depth), self.children.len() as int)
        } else {
            seq![self.row(depth)]
        }
    }

    /// The lines of the first `n` children.
    pub open spec fn rows_below(self, depth: u32, n: int) -> Seq<RowModel>
        decreases self, n,
    {
        if n <= 0 || n > self.children.len() {
            Seq::empty()
        } else {
            self.rows_below(depth, n - 1) + self.children[n - 1].rows(depth)
        }
    }
}

/// A change of one node.
pub enum Change {
    Toggle,
    Load(Result<Seq<NodeModel>, Seq<char>>),
}

impl Change {
    pub open spec fn on(self, node: NodeModel) -> NodeModel {
        match self {
            Change::Toggle => node.toggled(),
            Change::Load(entries) => node.loaded(entries),
        }
    }
}

/// A directory to be read. `generation` tells answers for an earlier root.
#[derive(Clone, Debug)]
pub struct DirectoryRequest {
    pub generation: u64,
    pub path: String,
}

/// What reading a directory gave.
#[derive(Debug)]
pub struct DirectoryResult {
    pub generation: u64,
    pub path: String,
    pub entries: Result<Vec<FileTreeNode>, String>,
}

pub open spec fn entries_view(entries: Result<Vec<FileTreeNode>, String>) -> Result<
    Seq<NodeModel>,
    Seq<char>,
> {
    match entries {
        Ok(nodes) => Ok(node_models(nodes@)),
        Err(e) => Err(e@),
    }
}

/// The file tree.
#[derive(Debug)]
pub struct Sidebar {
    pub current_dir: String,
    pub root: FileTreeNode,
    pub generation: u64,
}

impl FileTreeNode {
    fn directory(path: String, expanded: bool) -> (node: Self)
        ensures
            node.model() == NodeModel::directory(path@, expanded),
    {
        let node = FileTreeNode {
            name: display_name(path.as_str()),
            path,
            is_dir: true,
            children: Vec::new(),
            expanded,
            state: DirectoryState::Unloaded,
        };
        proof {
            assert(node.model().children =~= Seq::empty());
        }
        node
    }

    /// An entry of a directory that was read.
    pub fn entry(name: String, path: String, is_dir: bool) -> (node: Self)
        ensures
            node.model() == entry_model(name@, path@, is_dir),
    {
        let node = FileTreeNode {
            name,
            path,
            is_dir,
            children: Vec::new(),
            expanded: false,
            state: if is_dir {
                DirectoryState::Unloaded
            } else {
                DirectoryState::Loaded
            },
        };
        proof {
            assert(node.model().children =~= Seq::empty());
        }
        node
    }
}

/// An entry of a directory that was read.
pub open spec fn entry_model(name: Seq<char>, path: Seq<char>, is_dir: bool) -> NodeModel {
    NodeModel {
        name,
        path,
        is_dir,
        children: Seq::empty(),
        expanded: false,
        state: if is_dir {
            LoadModel::Unloaded
        } else {
            LoadModel::Loaded
        },
    }
}

/// A model of a node is made of the models of its children.
proof fn lemma_children(node: FileTreeNode)
    ensures
        node.model().children == node_models(node.children@),
{
    assert(node.model().children =~= node_models(node.children@));
}

/// Whether a node, or one below it, has a path.
fn holds_path(node: &FileTreeNode, path: &str) -> (v: bool)
    ensures
        v == (node.model().found(path@) is Some),
    decreases node,
{
    proof {
        lemma_children(*node);
    }
    if are_same_path(node.path.as_str(), path) {
        return true;
    }
    let mut i: usize = 0;
    while i < node.children.len()
        invariant
            i <= node.children@.len(),
            node.model().children == node_models(node.children@),
            !same_path(node.path@, path@),
            node.model().found_below(path@, i as int) == node.model().found_below(path@, 0),
        decreases node.children@.len() - i,
    {
        if holds_path(&node.children[i], path) {
            return true;
        }
        i = i + 1;
    }
    false
}

/// Changes the first node with a path; whether there is one, and whether it is a
/// directory that has to be loaded.
fn toggle_in(node: &mut FileTreeNode, path: &str) -> (found: Option<(bool, String)>)
    ensures
        final(node).model() == old(node).model().changed(path@, Change::Toggle),
        found is Some <==> old(node).model().found(path@) is Some,
        found matches Some(f) ==> f.0 == old(node).model().found(path@)->0.needs_load() && f.1@
            == old(node).model().found(path@)->0.path,
    decreases *old(node),
{
    let ghost before = node.model();
    proof {
        lemma_children(*node);
    }
    if are_same_path(node.path.as_str(), path) {
        let needs_load = node.is_dir && match node.state {
            DirectoryState::Unloaded | DirectoryState::Error(_) => true,
            _ => false,
        };
        let node_path = owned(node.path.as_str());
        if node.is_dir {
            if needs_load {
                node.expanded = true;
                node.state = DirectoryState::Loading;
            } else {
                node.expanded = !node.expanded;
            }
        }
        proof {
            lemma_children(*node);
        }
        return Some((needs_load, node_path));
    }
    let mut i: usize = 0;
    while i < node.children.len()
        invariant
            i <= node.children@.len(),
            *node == *old(node),
            before == node.model(),
            before.children == node_models(node.children@),
            !same_path(before.path, path@),
            before.found_below(path@, i as int) == before.found_below(path@, 0),
            before.changed_below(path@, Change::Toggle, i as int) == before.changed_below(
                path@,
                Change::Toggle,
                0,
            ),
        decreases node.children@.len() - i,
    {
        if holds_path(&node.children[i], path) {
            let result = toggle_in(&mut node.children[i], path);
            proof {
                lemma_children(*node);
                assert(node.model().children =~= before.children.update(
                    i as int,
                    before.children[i as int].changed(path@, Change::Toggle),
                ));
            }
            return result;
        }
        i = i + 1;
    }
    None
}

/// Puts what was read into the first node with a path, if there is one.
fn load_in(node: &mut FileTreeNode, path: &str, entries: Result<Vec<FileTreeNode>, String>) -> (found:
    bool)
    ensures
        final(node).model() == old(node).model().changed(
            path@,
            Change::Load(entries_view(entries)),
        ),
        found == (old(node).model().found(path@) is Some),
    decreases *old(node),
{
    let ghost before = node.model();
    let ghost change = Change::Load(entries_view(entries));
    proof {
        lemma_children(*node);
    }
    if are_same_path(node.path.as_str(), path) {
        match entries {
            Ok(children) => {
                node.children = children;
                node.state = DirectoryState::Loaded;
            },
            Err(error) => {
                node.children = Vec::new();
                node.state = DirectoryState::Error(error);
            },
        }
        proof {
            lemma_children(*node);
            assert(node.model().children =~= before.loaded(entries_view(entries)).children);
        }
        return true;
    }
    let mut i: usize = 0;
    while i < node.children.len()
        invariant
            i <= node.children@.len(),
            *node == *old(node),
            before == node.model(),
            before.children == node_models(node.children@),
            change == Change::Load(entries_view(entries)),
            !same_path(before.path, path@),
            before.found_below(path@, i as int) == before.found_below(path@, 0),
            before.changed_below(path@, change, i as int) == before.changed_below(
                path@,
                change,
                0,
            ),
        decreases node.children@.len() - i,
    {
        if holds_path(&node.children[i], path) {
            load_in(&mut node.children[i], path, entries);
            proof {
                lemma_children(*node);
                assert(node.model().children =~= before.children.update(
                    i as int,
                    before.children[i as int].changed(path@, change),
                ));
            }
            return true;
        }
        i = i + 1;
    }
    false
}

/// Adds the lines that are shown of a tree.
fn collect_rows(node: &FileTreeNode, depth: u32, rows: &mut Vec<SidebarRow>)
    ensures
        row_models(final(rows)@) == row_models(old(rows)@) + node.model().rows(depth),
    decreases node, 1int,
{
    let ghost m = node.model();
    let ghost before = row_models(rows@);
    rows.push(
        SidebarRow {
            depth,
            name: owned(node.name.as_str()),
            path: owned(node.path.as_str()),
            is_dir: node.is_dir,
            expanded: node.expanded,
        },
    );
    let ghost start = row_models(rows@);
    proof {
        assert(start =~= before + seq![m.row(depth)]);
        lemma_children(*node);
    }
    if node.is_dir && node.expanded {
        let below: u32 = if depth == u32::MAX {
            depth
        } else {
            depth + 1
        };
        collect_children(node, below, rows);
        proof {
            assert(start + m.rows_below(below, m.children.len() as int) =~= before + m.rows(
                depth,
            ));
        }
    }
}

/// Adds the lines that are shown of the children of a node.
fn collect_children(node: &FileTreeNode, depth: u32, rows: &mut Vec<SidebarRow>)
    ensures
        row_models(final(rows)@) == row_models(old(rows)@) + node.model().rows_below(
            depth,
            node.model().children.len() as int,
        ),
    decreases node, 0int,
{
    let ghost m = node.model();
    let ghost start = row_models(rows@);
    let mut i: usize = 0;
    proof {
        lemma_children(*node);
        assert(start + m.rows_below(depth, 0) =~= start);
    }
    while i < node.children.len()
        invariant
            i <= node.children@.len(),
            m == node.model(),
            m.children == node_models(node.children@),
            row_models(rows@) == start + m.rows_below(depth, i as int),
        decreases node.children@.len() - i,
    {
        collect_rows(&node.children[i], depth, rows);
        proof {
            assert(m.children[i as int] == node.children@[i as int].model());
            assert(row_models(rows@) =~= start + m.rows_below(depth, i + 1));
        }
        i = i + 1;
    }
}

impl Sidebar {
    /// The lines that are shown below the root, each with how far below it is.
    pub fn rows(&self) -> (rows: Vec<SidebarRow>)
        ensures
            row_models(rows@) == self.root.model().rows_below(
                0,
                self.root.model().children.len() as int,
            ),
    {
        let mut rows: Vec<SidebarRow> = Vec::new();
        collect_children(&self.root, 0, &mut rows);
        proof {
            assert(row_models(Seq::<SidebarRow>::empty()) =~= Seq::empty());
            let all = self.root.model().rows_below(0, self.root.model().children.len() as int);
            assert(Seq::<RowModel>::empty() + all =~= all);
        }
        rows
    }

    /// A tree of one directory that has not been loaded.
    pub fn new(current_dir: String) -> (sidebar: Self)
        ensures
            sidebar.current_dir@ == current_dir@,
            sidebar.root.model() == NodeModel::directory(current_dir@, true),
            sidebar.generation == 0,
    {
        let path = owned(current_dir.as_str());
        Sidebar { root: FileTreeNode::directory(path, true), current_dir, generation: 0 }
    }

    /// Makes another directory the root, which is to be loaded.
    pub fn set_current_dir(&mut self, path: String) -> (request: DirectoryRequest)
        ensures
            final(self).generation == old(self).generation.wrapping_add(1),
            final(self).current_dir@ == path@,
            final(self).root.model() == (NodeModel {
                state: LoadModel::Loading,
                ..NodeModel::directory(path@, true)
            }),
            request.generation == final(self).generation,
            request.path@ == path@,
    {
        self.generation = self.generation.wrapping_add(1);
        self.current_dir = owned(path.as_str());
        self.root = FileTreeNode::directory(path, true);
        self.begin_load_root()
    }

    /// Asks for the root to be loaded.
    pub fn begin_load_root(&mut self) -> (request: DirectoryRequest)
        ensures
            final(self).generation == old(self).generation,
            final(self).current_dir == old(self).current_dir,
            final(self).root.model() == (NodeModel {
                state: LoadModel::Loading,
                ..old(self).root.model()
            }),
            request.generation == old(self).generation,
            request.path@ == old(self).root.path@,
    {
        let ghost before = self.root;
        self.root.state = DirectoryState::Loading;
        proof {
            lemma_children(before);
            lemma_children(self.root);
        }
        DirectoryRequest {
            generation: self.generation,
            path: owned(self.root.path.as_str()),
        }
    }

    /// Opens or closes a directory; one that has not been loaded is to be loaded.
    pub fn toggle_node(&mut self, path: &str) -> (request: Option<DirectoryRequest>)
        ensures
            final(self).generation == old(self).generation,
            final(self).current_dir == old(self).current_dir,
            final(self).root.model() == old(self).root.model().changed(path@, Change::Toggle),
            request is Some <==> (old(self).root.model().found(path@) matches Some(node)
                && node.needs_load()),
            request matches Some(r) ==> r.generation == old(self).generation && r.path@ == old(
                self,
            ).root.model().found(path@)->0.path,
    {
        match toggle_in(&mut self.root, path) {
            Some((true, node_path)) => Some(
                DirectoryRequest { generation: self.generation, path: node_path },
            ),
            _ => None,
        }
    }

    /// Loads the current directory anew. Answers that are under way have no effect.
    pub fn refresh(&mut self) -> (request: DirectoryRequest)
        ensures
            final(self).generation == old(self).generation.wrapping_add(1),
            final(self).current_dir@ == old(self).current_dir@,
            final(self).root.model() == (NodeModel {
                state: LoadModel::Loading,
                ..NodeModel::directory(old(self).current_dir@, true)
            }),
            request.generation == final(self).generation,
            request.path@ == old(self).current_dir@,
    {
        let path = owned(self.current_dir.as_str());
        self.set_current_dir(path)
    }

    /// Takes in what reading a directory gave. An answer for an earlier root, or for a
    /// directory that is not in the tree, has no effect.
    pub fn apply_load(&mut self, result: DirectoryResult) -> (applied: bool)
        ensures
            applied == (result.generation == old(self).generation && old(self).root.model().found(
                result.path@,
            ) is Some),
            final(self).generation == old(self).generation,
            final(self).current_dir == old(self).current_dir,
            final(self).root.model() == (if applied {
                old(self).root.model().changed(
                    result.path@,
                    Change::Load(entries_view(result.entries)),
                )
            } else {
                old(self).root.model()
            }),
    {
        if result.generation != self.generation {
            return false;
        }
        if !holds_path(&self.root, result.path.as_str()) {
            return false;
        }
        load_in(&mut self.root, result.path.as_str(), result.entries)
    }
}

/// The order of a directory's entries: directories first, then by name without regard
/// to case, then by name.
pub open spec fn entry_le(a: NodeModel, b: NodeModel) -> bool {
    let x = lowercase_of(a.name);
    let y = lowercase_of(b.name);
    if a.is_dir != b.is_dir {
        a.is_dir
    } else if x != y {
        text_le(x, y)
    } else {
        text_le(a.name, b.name)
    }
}

/// Whether an entry of some name is hidden: the name starts with a dot.
pub open spec fn hides(name: Seq<char>) -> bool {
    name.len() > 0 && name[0] == '.'
}

pub open spec fn is_hidden(entry: NodeModel) -> bool {
    hides(entry.name)
}

/// Whether an entry of some name is hidden.
pub fn is_hidden_name(name: &str) -> (hidden: bool)
    ensures
        hidden == hides(name@),
{
    let name = chars_of(name);
    name.len() > 0 && name[0] == '.'
}

/// An entry put before the first one that does not come before it.
pub open spec fn entry_inserted(entry: NodeModel, entries: Seq<NodeModel>) -> Seq<NodeModel>
    decreases entries.len(),
{
    if entries.len() == 0 || entry_le(entry, entries[0]) {
        seq![entry] + entries
    } else {
        seq![entries[0]] + entry_inserted(entry, entries.drop_first())
    }
}

/// The entries that are shown, in their order.
pub open spec fn arranged(entries: Seq<NodeModel>) -> Seq<NodeModel>
    decreases entries.len(),
{
    if entries.len() == 0 {
        Seq::empty()
    } else if is_hidden(entries[0]) {
        arranged(entries.drop_first())
    } else {
        entry_inserted(entries[0], arranged(entries.drop_first()))
    }
}

/// Whether entries are in order.
pub open spec fn in_entry_order(entries: Seq<NodeModel>) -> bool {
    forall|i: int, j: int| 0 <= i <= j < entries.len() ==> entry_le(entries[i], entries[j])
}

/// The order of entries is total and transitive.
pub proof fn entry_order(a: NodeModel, b: NodeModel, c: NodeModel)
    ensures
        entry_le(a, b) || entry_le(b, a),
        entry_le(a, b) && entry_le(b, c) ==> entry_le(a, c),
{
    text_order(lowercase_of(a.name), lowercase_of(b.name), lowercase_of(c.name));
    text_order(lowercase_of(b.name), lowercase_of(c.name), lowercase_of(a.name));
    text_order(lowercase_of(c.name), lowercase_of(a.name), lowercase_of(b.name));
    text_order(a.name, b.name, c.name);
}

proof fn lemma_entry_inserted(entry: NodeModel, entries: Seq<NodeModel>)
    requires
        in_entry_order(entries),
    ensures
        in_entry_order(entry_inserted(entry, entries)),
        entry_inserted(entry, entries).len() == entries.len() + 1,
        forall|k: int|
            0 <= k < entries.len() + 1 ==> (#[trigger] entry_inserted(entry, entries)[k] == entry
                || entries.contains(entry_inserted(entry, entries)[k])),
    decreases entries.len(),
{
    let all = entry_inserted(entry, entries);
    if entries.len() == 0 {
        entry_order(entry, entry, entry);
        assert(all =~= seq![entry]);
    } else if entry_le(entry, entries[0]) {
        assert forall|k: int| 0 <= k < all.len() implies (#[trigger] all[k] == entry
            || entries.contains(all[k])) by {
            if k > 0 {
                assert(all[k] == entries[k - 1]);
            }
        }
        assert forall|i: int, j: int| 0 <= i <= j < all.len() implies entry_le(all[i], all[j]) by {
            entry_order(entry, entry, entry);
            if i == 0 && j > 0 {
                assert(entry_le(entries[0], entries[j - 1]));
                entry_order(entry, entries[0], entries[j - 1]);
            } else if i > 0 {
                assert(entry_le(entries[i - 1], entries[j - 1]));
            }
        }
    } else {
        let rest = entries.drop_first();
        assert(in_entry_order(rest)) by {
            assert forall|i: int, j: int| 0 <= i <= j < rest.len() implies entry_le(
                rest[i],
                rest[j],
            ) by {
                assert(entry_le(entries[i + 1], entries[j + 1]));
            }
        }
        lemma_entry_inserted(entry, rest);
        let sub = entry_inserted(entry, rest);
        entry_order(entry, entries[0], entry);
        assert forall|k: int| 0 <= k < all.len() implies (#[trigger] all[k] == entry
            || entries.contains(all[k])) by {
            if k == 0 {
                assert(all[0] == entries[0]);
            } else {
                assert(all[k] == sub[k - 1]);
                if sub[k - 1] != entry {
                    assert(rest.contains(sub[k - 1]));
                    let m = choose|m: int| 0 <= m < rest.len() && rest[m] == sub[k - 1];
                    assert(entries[m + 1] == sub[k - 1]);
                }
            }
        }
        assert forall|i: int, j: int| 0 <= i <= j < all.len() implies entry_le(all[i], all[j]) by {
            if i > 0 {
                assert(all[i] == sub[i - 1] && all[j] == sub[j - 1]);
            } else if j > 0 {
                assert(all[j] == sub[j - 1]);
                if sub[j - 1] != entry {
                    assert(rest.contains(sub[j - 1]));
                    let m = choose|m: int| 0 <= m < rest.len() && rest[m] == sub[j - 1];
                    assert(entry_le(entries[0], entries[m + 1]));
                }
            } else {
                entry_order(entries[0], entries[0], entries[0]);
            }
        }
    }
}

/// A directory's entries come in order, and none of them is hidden.
pub proof fn arranged_entries_are_in_order(entries: Seq<NodeModel>)
    ensures
        in_entry_order(arranged(entries)),
        arranged(entries).len() <= entries.len(),
        forall|k: int|
            0 <= k < arranged(entries).len() ==> !is_hidden(#[trigger] arranged(entries)[k])
                && entries.contains(arranged(entries)[k]),
    decreases entries.len(),
{
    if entries.len() > 0 {
        let rest = entries.drop_first();
        arranged_entries_are_in_order(rest);
        let sub = arranged(rest);
        assert forall|k: int| 0 <= k < sub.len() implies entries.contains(#[trigger] sub[k]) by {
            assert(rest.contains(sub[k]));
            let m = choose|m: int| 0 <= m < rest.len() && rest[m] == sub[k];
            assert(entries[m + 1] == sub[k]);
        }
        if !is_hidden(entries[0]) {
            lemma_entry_inserted(entries[0], sub);
            let all = arranged(entries);
            assert forall|k: int| 0 <= k < all.len() implies !is_hidden(#[trigger] all[k])
                && entries.contains(all[k]) by {
                assert(all[k] == entries[0] || sub.contains(all[k]));
                assert(entries.contains(entries[0]));
                if all[k] != entries[0] {
                    let m = choose|m: int| 0 <= m < sub.len() && sub[m] == all[k];
                    assert(!is_hidden(sub[m]) && entries.contains(sub[m]));
                }
            }
        }
    }
}

/// Whether an entry comes before another, or with it.
fn is_entry_le(a: &FileTreeNode, b: &FileTreeNode) -> (v: bool)
    ensures
        v == entry_le(a.model(), b.model()),
{
    if a.is_dir != b.is_dir {
        return a.is_dir;
    }
    let x = lowercase(a.name.as_str());
    let y = lowercase(b.name.as_str());
    if !same_text(x.as_str(), y.as_str()) {
        return is_text_le(x.as_str(), y.as_str());
    }
    is_text_le(a.name.as_str(), b.name.as_str())
}

/// Where an entry goes: before the first one that does not come before it.
fn entry_position(entry: &FileTreeNode, entries: &Vec<FileTreeNode>) -> (at: usize)
    ensures
        at <= entries@.len(),
        entry_inserted(entry.model(), node_models(entries@)) == node_models(entries@).insert(
            at as int,
            entry.model(),
        ),
{
    let ghost all = node_models(entries@);
    let ghost m = entry.model();
    let mut at: usize = 0;
    proof {
        assert(all.subrange(0, all.len() as int) =~= all);
        assert(all.subrange(0, 0) + entry_inserted(m, all) =~= entry_inserted(m, all));
    }
    while at < entries.len() && !is_entry_le(entry, &entries[at])
        invariant
            at <= entries@.len(),
            all == node_models(entries@),
            m == entry.model(),
            entry_inserted(m, all) == all.subrange(0, at as int) + entry_inserted(
                m,
                all.subrange(at as int, all.len() as int),
            ),
        decreases entries@.len() - at,
    {
        proof {
            let rest = all.subrange(at as int, all.len() as int);
            assert(rest.drop_first() =~= all.subrange(at + 1, all.len() as int));
            assert(rest[0] == all[at as int]);
            let sub = entry_inserted(m, all.subrange(at + 1, all.len() as int));
            assert(all.subrange(0, at as int) + (seq![rest[0]] + sub) =~= all.subrange(0, at + 1)
                + sub);
        }
        at = at + 1;
    }
    proof {
        let rest = all.subrange(at as int, all.len() as int);
        if at < entries@.len() {
            assert(rest[0] == all[at as int]);
        }
        assert(all.subrange(0, at as int) + (seq![m] + rest) =~= all.insert(at as int, m));
    }
    at
}

/// The entries of a directory as they are shown: without the hidden ones, directories
/// first, then by name.
pub fn arrange_entries(entries: Vec<FileTreeNode>) -> (shown: Vec<FileTreeNode>)
    ensures
        node_models(shown@) == arranged(node_models(entries@)),
{
    let ghost all = node_models(entries@);
    let mut rest = entries;
    let mut shown: Vec<FileTreeNode> = Vec::new();
    proof {
        assert(node_models(shown@) =~= arranged(all.subrange(all.len() as int, all.len() as int)));
    }
    loop
        invariant
            rest@.len() <= all.len(),
            node_models(rest@) == all.subrange(0, rest@.len() as int),
            node_models(shown@) == arranged(all.subrange(rest@.len() as int, all.len() as int)),
        ensures
            node_models(shown@) == arranged(all),
        decreases rest@.len(),
    {
        let ghost before = rest@;
        match rest.pop() {
            None => {
                proof {
                    assert(all.subrange(0, all.len() as int) =~= all);
                }
                break;
            },
            Some(entry) => {
                let ghost tail = all.subrange(rest@.len() as int, all.len() as int);
                proof {
                    assert(node_models(before)[rest@.len() as int] == entry.model());
                    assert(tail[0] == entry.model());
                    assert(tail.drop_first() =~= all.subrange(
                        (rest@.len() + 1) as int,
                        all.len() as int,
                    ));
                    assert(node_models(rest@) =~= all.subrange(0, rest@.len() as int));
                }
                if !is_hidden_name(entry.name.as_str()) {
                    let at: usize = entry_position(&entry, &shown);
                    let ghost now = node_models(shown@);
                    shown.insert(at, entry);
                    proof {
                        assert(node_models(shown@) =~= now.insert(at as int, entry.model()));
                    }
                }
            },
        }
    }
    shown
}

/// Directories come before files, whatever their names; among each, names are in order
/// without regard to case, and names that differ in case only in their own order.
pub proof fn directories_come_before_files(a: NodeModel, b: NodeModel)
    ensures
        a.is_dir && !b.is_dir ==> entry_le(a, b) && !entry_le(b, a),
        a.is_dir == b.is_dir && lowercase_of(a.name) != lowercase_of(b.name) ==> entry_le(a, b)
            == text_le(lowercase_of(a.name), lowercase_of(b.name)),
        a.is_dir == b.is_dir && lowercase_of(a.name) == lowercase_of(b.name) ==> entry_le(a, b)
            == text_le(a.name, b.name),
{
}

/// A directory that is read opens and closes in turn; one that is not opens and is then
/// read; a file does neither.
pub proof fn directories_open_and_close(node: NodeModel)
    ensures
        !node.is_dir ==> node.toggled() == node && !node.needs_load(),
        node.is_dir && node.state == LoadModel::Loaded ==> {
            &&& node.toggled().expanded == !node.expanded
            &&& node.toggled().toggled() == node
            &&& !node.needs_load()
        },
        node.is_dir && (node.state == LoadModel::Unloaded || node.state is Error) ==> {
            &&& node.needs_load()
            &&& node.toggled().expanded
            &&& node.toggled().state == LoadModel::Loading
            &&& node.toggled().children == node.children
        },
{
}

/// What was read of a directory is below it, and an error is told in its place.
pub proof fn what_was_read_is_below(node: NodeModel, entries: Seq<NodeModel>, error: Seq<char>)
    ensures
        node.loaded(Ok(entries)).children == entries,
        node.loaded(Ok(entries)).state == LoadModel::Loaded,
        node.loaded(Err(error)).children.len() == 0,
        node.loaded(Err(error)).state == LoadModel::Error(error),
        node.loaded(Ok(entries)).path == node.path,
        node.loaded(Ok(entries)).expanded == node.expanded,
{
}

proof fn lemma_rows_below(node: NodeModel, depth: u32, n: int, k: int)
    requires
        0 <= k < n <= node.children.len(),
    ensures
        ({
            let before = node.rows_below(depth, k);
            let own = node.children[k].rows(depth);
            let all = node.rows_below(depth, n);
            &&& before.len() + own.len() <= all.len()
            &&& all.subrange(before.len() as int, (before.len() + own.len()) as int) == own
        }),
    decreases n,
{
    let before = node.rows_below(depth, k);
    let own = node.children[k].rows(depth);
    let all = node.rows_below(depth, n);
    if k < n - 1 {
        lemma_rows_below(node, depth, n - 1, k);
        let shorter = node.rows_below(depth, n - 1);
        assert(all.subrange(before.len() as int, (before.len() + own.len()) as int)
            =~= shorter.subrange(before.len() as int, (before.len() + own.len()) as int));
    } else {
        assert(all.subrange(before.len() as int, (before.len() + own.len()) as int) =~= own);
    }
}

/// Of a closed directory one line is shown. Of an open one, its own line comes first, and
/// then the lines of what is below it, one deeper, each directory with all of its own.
pub proof fn an_open_directory_shows_what_is_below(node: NodeModel, depth: u32, k: int)
    requires
        depth < u32::MAX,
        0 <= k < node.children.len(),
    ensures
        node.rows(depth).len() > 0,
        node.rows(depth)[0] == node.row(depth),
        node.rows(depth)[0].depth == depth,
        !node.is_dir || !node.expanded ==> node.rows(depth).len() == 1,
        node.is_dir && node.expanded ==> ({
            let below = node.rows(depth).drop_first();
            let at = node.rows_below((depth + 1) as u32, k).len() as int;
            let own = node.children[k].rows((depth + 1) as u32);
            &&& at + own.len() <= below.len()
            &&& below.subrange(at, at + own.len()) == own
            &&& k == 0 ==> at == 0
        }),
{
    if node.is_dir && node.expanded {
        let n = node.children.len() as int;
        lemma_rows_below(node, (depth + 1) as u32, n, k);
        assert(node.rows(depth).drop_first() =~= node.rows_below((depth + 1) as u32, n));
    }
}

/// Every entry that is not hidden is shown.
pub proof fn every_entry_is_shown(entries: Seq<NodeModel>, k: int)
    requires
        0 <= k < entries.len(),
        entries[k].name.len() == 0 || entries[k].name[0] != '.',
    ensures
        arranged(entries).contains(entries[k]),
    decreases entries.len(),
{
    let rest = entries.drop_first();
    arranged_entries_are_in_order(rest);
    let sub = arranged(rest);
    if k > 0 {
        every_entry_is_shown(rest, k - 1);
        assert(rest[k - 1] == entries[k]);
    }
    if !is_hidden(entries[0]) {
        lemma_inserted_holds(entries[0], sub, entries[k]);
    }
}

proof fn lemma_inserted_holds(entry: NodeModel, entries: Seq<NodeModel>, other: NodeModel)
    ensures
        entry_inserted(entry, entries).contains(entry),
        entries.contains(other) ==> entry_inserted(entry, entries).contains(other),
    decreases entries.len(),
{
    let all = entry_inserted(entry, entries);
    if entries.len() == 0 || all[0] == entry && all == seq![entry] + entries {
        assert(all[0] == entry);
        if entries.contains(other) {
            let i = choose|i: int| 0 <= i < entries.len() && entries[i] == other;
            assert(all[i + 1] == other);
        }
    } else {
        let rest = entries.drop_first();
        lemma_inserted_holds(entry, rest, other);
        let sub = entry_inserted(entry, rest);
        let i = choose|i: int| 0 <= i < sub.len() && sub[i] == entry;
        assert(all[i + 1] == entry);
        if entries.contains(other) {
            let j = choose|j: int| 0 <= j < entries.len() && entries[j] == other;
            if j == 0 {
                assert(all[0] == other);
            } else {
                assert(rest[j - 1] == other);
                let t = choose|t: int| 0 <= t < sub.len() && sub[t] == other;
                assert(all[t + 1] == other);
            }
        }
    }
}

} // verus!
