//! The cockpit: which space, source, tab and object are chosen, and the file being edited.

use vstd::prelude::*;

use crate::catalog::{entities, leaves, sources, Entity, Leaf, Source, Space};
use crate::paths::file_name;
use crate::text::{concat2, concat3, copy_str, str_eq, trim};
use crate::workspace::{WorkspaceStats, WorkspaceTree};

verus! {

broadcast use vstd::string::group_string_axioms;

use crate::catalog::{entity_catalog, leaf_catalog, source_catalog, EntityView};
use crate::paths::{file_name_of, joined_path, law_joined_path_parts_again};
use crate::text::{opt_chars, trimmed};

/// How deep the vault is searched.
pub const SCAN_DEPTH: usize = 6;

/// The cockpit's state.
pub struct OceanGuiApp {
    pub root: String,
    pub tree: WorkspaceTree,
    pub selected_path: Option<String>,
    pub editor_text: String,
    pub dirty: bool,
    pub status: String,
    pub active_space: Space,
    pub selected_source_id: &'static str,
    pub selected_entity_id: &'static str,
    pub active_leaf_id: &'static str,
    pub command_text: String,
}

/// The cockpit's state, but for the vault's tree.
#[verifier::ext_equal]
pub struct CockpitView {
    pub root: Seq<char>,
    pub path: Option<Seq<char>>,
    pub text: Seq<char>,
    pub dirty: bool,
    pub status: Seq<char>,
    pub space: Space,
    pub source: Seq<char>,
    pub entity: Seq<char>,
    pub leaf: Seq<char>,
    pub command: Seq<char>,
}

impl View for OceanGuiApp {
    type V = CockpitView;

    open spec fn view(&self) -> CockpitView {
        CockpitView {
            root: self.root@,
            path: opt_chars(self.selected_path),
            text: self.editor_text@,
            dirty: self.dirty,
            status: self.status@,
            space: self.active_space,
            source: self.selected_source_id@,
            entity: self.selected_entity_id@,
            leaf: self.active_leaf_id@,
            command: self.command_text@,
        }
    }
}

/// What a path was found to be.
pub enum PathFound {
    /// A directory.
    Folder,
    /// A file; what reading it gave.
    File(Result<String, String>),
}

/// The first place from `from` on, of `len`, where something holds.
pub open spec fn first_where(len: int, from: int, holds: spec_fn(int) -> bool) -> Option<int>
    decreases len - from,
{
    if from < 0 || from >= len {
        None
    } else if holds(from) {
        Some(from)
    } else {
        first_where(len, from + 1, holds)
    }
}

proof fn lemma_first_where(len: int, from: int, holds: spec_fn(int) -> bool)
    requires
        0 <= from,
    ensures
        first_where(len, from, holds) matches Some(i) ==> from <= i < len && holds(i),
        first_where(len, from, holds) is None ==> forall|i: int|
            from <= i < len ==> !#[trigger] holds(i),
    decreases len - from,
{
    if from < len && !holds(from) {
        lemma_first_where(len, from + 1, holds);
    }
}

/// Whether a tab belongs to a space.
pub open spec fn leaf_in_space(space: Space) -> spec_fn(int) -> bool {
    |i: int| leaf_catalog()[i].space == space
}

/// Whether a tab shows a source.
pub open spec fn leaf_of_source(source: Seq<char>) -> spec_fn(int) -> bool {
    |i: int| leaf_catalog()[i].source_id == source
}

/// Whether a tab has an id.
pub open spec fn leaf_named(id: Seq<char>) -> spec_fn(int) -> bool {
    |i: int| leaf_catalog()[i].id == id
}

/// Whether a source belongs to a space.
pub open spec fn source_in_space(space: Space) -> spec_fn(int) -> bool {
    |i: int| source_catalog()[i].space == space
}

/// Whether a source has an id.
pub open spec fn source_named(id: Seq<char>) -> spec_fn(int) -> bool {
    |i: int| source_catalog()[i].id == id
}

/// Whether an object comes from a source.
pub open spec fn entity_of_source(source: Seq<char>) -> spec_fn(int) -> bool {
    |i: int| entity_catalog()[i].source_id == source
}

/// Whether an object has an id and comes from a source.
pub open spec fn entity_named(id: Seq<char>, source: Seq<char>) -> spec_fn(int) -> bool {
    |i: int| entity_catalog()[i].id == id && entity_catalog()[i].source_id == source
}

/// The first tab for which something holds.
pub open spec fn first_leaf(holds: spec_fn(int) -> bool) -> Option<int> {
    first_where(leaf_catalog().len() as int, 0, holds)
}

/// The first source for which something holds.
pub open spec fn first_source(holds: spec_fn(int) -> bool) -> Option<int> {
    first_where(source_catalog().len() as int, 0, holds)
}

/// The first object for which something holds.
pub open spec fn first_entity(holds: spec_fn(int) -> bool) -> Option<int> {
    first_where(entity_catalog().len() as int, 0, holds)
}

/// The state with a source chosen, its first object and its first tab with it. The tab
/// stays where the source has none.
pub open spec fn source_chosen(v: CockpitView, source: Seq<char>) -> CockpitView {
    CockpitView {
        source,
        entity: match first_entity(entity_of_source(source)) {
            Some(i) => entity_catalog()[i].id,
            None => Seq::empty(),
        },
        leaf: match first_leaf(leaf_of_source(source)) {
            Some(i) => leaf_catalog()[i].id,
            None => v.leaf,
        },
        ..v
    }
}

/// The state with a tab chosen, and its space, source and object with it.
pub open spec fn leaf_chosen(v: CockpitView, leaf: Seq<char>) -> CockpitView {
    match first_leaf(leaf_named(leaf)) {
        Some(i) => {
            let found = leaf_catalog()[i];
            CockpitView {
                leaf: found.id,
                space: found.space,
                source: found.source_id,
                entity: match found.entity_id {
                    Some(id) => id,
                    None => Seq::empty(),
                },
                ..v
            }
        },
        None => v,
    }
}

/// The state with a space chosen: its first tab, or its first source where it has none.
pub open spec fn space_chosen(v: CockpitView, space: Space) -> CockpitView {
    let there = CockpitView { space, ..v };
    match first_leaf(leaf_in_space(space)) {
        Some(i) => leaf_chosen(there, leaf_catalog()[i].id),
        None => match first_source(source_in_space(space)) {
            Some(i) => source_chosen(there, source_catalog()[i].id),
            None => there,
        },
    }
}

/// The objects of a source among the first `upto`.
pub open spec fn objects_of(source: Seq<char>, upto: int) -> Seq<EntityView>
    decreases upto,
{
    if upto <= 0 {
        Seq::empty()
    } else if entity_catalog()[upto - 1].source_id == source {
        objects_of(source, upto - 1).push(entity_catalog()[upto - 1])
    } else {
        objects_of(source, upto - 1)
    }
}

/// The objects of a list.
pub open spec fn entity_views(list: Seq<Entity>) -> Seq<EntityView> {
    Seq::new(list.len(), |i: int| list[i]@)
}

/// The state with a path opened.
pub open spec fn path_opened(v: CockpitView, path: Seq<char>, found: PathFound) -> CockpitView {
    match found {
        PathFound::Folder => CockpitView {
            path: Some(path),
            text: Seq::empty(),
            dirty: false,
            status: "Folder selected: "@ + path,
            ..v
        },
        PathFound::File(Ok(text)) => CockpitView {
            path: Some(path),
            text: text@,
            dirty: false,
            status: "Opened file: "@ + path,
            ..v
        },
        PathFound::File(Err(error)) => CockpitView {
            status: "Unable to open "@ + path + ": "@ + error@,
            ..v
        },
    }
}

/// The state with a file of the tree chosen.
pub open spec fn file_chosen(v: CockpitView, path: Seq<char>, found: PathFound) -> CockpitView {
    CockpitView {
        space: Space::Vault,
        source: "vault.files"@,
        entity: Seq::empty(),
        leaf: "leaf-files"@,
        ..path_opened(v, path, found)
    }
}

/// Whether a tree is what a search gave, or an empty one where it failed.
pub open spec fn found_tree(
    tree: WorkspaceTree,
    root: Seq<char>,
    scan: Result<WorkspaceTree, String>,
) -> bool {
    match scan {
        Ok(found) => tree == found,
        Err(_) => {
            &&& tree.root@ == root
            &&& tree.entries@.len() == 0
            &&& tree.max_depth == SCAN_DEPTH
            &&& tree.stats == (WorkspaceStats { files: 0, folders: 0 })
        },
    }
}

fn tree_or_empty(root: &str, scan: Result<WorkspaceTree, String>) -> (r: WorkspaceTree)
    ensures
        found_tree(r, root@, scan),
{
    match scan {
        Ok(tree) => tree,
        Err(_) => WorkspaceTree {
            root: copy_str(root),
            entries: Vec::new(),
            max_depth: SCAN_DEPTH,
            stats: WorkspaceStats { files: 0, folders: 0 },
        },
    }
}

/// A row of the list of objects.
#[derive(Debug)]
pub struct ObjectRow {
    pub id: &'static str,
    pub label: String,
    pub detail: String,
    pub selected: bool,
}

/// A row of the list of objects.
pub struct ObjectRowView {
    pub id: Seq<char>,
    pub label: Seq<char>,
    pub detail: Seq<char>,
    pub selected: bool,
}

impl View for ObjectRow {
    type V = ObjectRowView;

    open spec fn view(&self) -> ObjectRowView {
        ObjectRowView {
            id: self.id@,
            label: self.label@,
            detail: self.detail@,
            selected: self.selected,
        }
    }
}

/// The file editor: the name and the path at its top, and what stands below.
#[derive(Debug)]
pub struct FilePane {
    pub heading: Option<(String, String)>,
    pub body: FileBody,
}

/// What stands in the file editor.
#[derive(Clone, Copy, Debug, PartialEq, Eq, Structural)]
pub enum FileBody {
    Folder,
    Editor,
    NothingSelected,
}

/// What the surface of a tab shows: the file editor, or the objects of the source and the
/// one that is chosen, with the flow that it stands for.
#[derive(Debug)]
pub enum LeafSurface {
    File(FilePane),
    Objects(Vec<ObjectRow>, Option<(Entity, String)>),
}

/// How an object is listed.
pub open spec fn object_row(entity: EntityView, chosen: Seq<char>) -> ObjectRowView {
    ObjectRowView {
        id: entity.id,
        label: entity.id + "  "@ + entity.title,
        detail: entity.kind + " · "@ + entity.status + " · "@ + entity.owner,
        selected: chosen == entity.id,
    }
}

/// The flow that an object stands for.
pub open spec fn object_flow(entity: EntityView) -> Seq<char> {
    entity.source_id + " -> "@ + entity.kind + " -> action -> event -> note"@
}

/// What the file editor shows.
pub open spec fn shows_file(pane: FilePane, path: Option<Seq<char>>, is_dir: bool) -> bool {
    match path {
        Some(path) => {
            &&& pane.heading matches Some(heading)
            &&& heading.0@ == match file_name_of(path) {
                Some(name) => name,
                None => Seq::empty(),
            }
            &&& heading.1@ == path
            &&& pane.body == if is_dir {
                FileBody::Folder
            } else {
                FileBody::Editor
            }
        },
        None => pane.heading is None && pane.body == FileBody::NothingSelected,
    }
}

fn leaf_index_by_id(all: &Vec<Leaf>, id: &str) -> (r: Option<usize>)
    requires
        all@.len() == leaf_catalog().len(),
        forall|i: int| 0 <= i < all@.len() ==> (#[trigger] all@[i])@ == leaf_catalog()[i],
    ensures
        match first_leaf(leaf_named(id@)) {
            Some(at) => r matches Some(i) && i == at && i < all@.len(),
            None => r is None,
        },
{
    let mut i: usize = 0;
    while i < all.len()
        invariant
            i <= all.len(),
            all@.len() == leaf_catalog().len(),
            forall|k: int| 0 <= k < all@.len() ==> (#[trigger] all@[k])@ == leaf_catalog()[k],
            first_where(leaf_catalog().len() as int, i as int, leaf_named(id@)) == first_leaf(
                leaf_named(id@),
            ),
        decreases all.len() - i,
    {
        assert(all@[i as int]@ == leaf_catalog()[i as int]);
        if str_eq(all[i].id, id) {
            assert(leaf_named(id@)(i as int));
            return Some(i);
        }
        i += 1;
    }
    None
}

fn leaf_index_by_space(all: &Vec<Leaf>, space: Space) -> (r: Option<usize>)
    requires
        all@.len() == leaf_catalog().len(),
        forall|i: int| 0 <= i < all@.len() ==> (#[trigger] all@[i])@ == leaf_catalog()[i],
    ensures
        match first_leaf(leaf_in_space(space)) {
            Some(at) => r matches Some(i) && i == at && i < all@.len(),
            None => r is None,
        },
{
    let mut i: usize = 0;
    while i < all.len()
        invariant
            i <= all.len(),
            all@.len() == leaf_catalog().len(),
            forall|k: int| 0 <= k < all@.len() ==> (#[trigger] all@[k])@ == leaf_catalog()[k],
            first_where(leaf_catalog().len() as int, i as int, leaf_in_space(space))
                == first_leaf(leaf_in_space(space)),
        decreases all.len() - i,
    {
        assert(all@[i as int]@ == leaf_catalog()[i as int]);
        if all[i].space == space {
            assert(leaf_in_space(space)(i as int));
            return Some(i);
        }
        i += 1;
    }
    None
}

fn leaf_index_by_source(all: &Vec<Leaf>, source: &str) -> (r: Option<usize>)
    requires
        all@.len() == leaf_catalog().len(),
        forall|i: int| 0 <= i < all@.len() ==> (#[trigger] all@[i])@ == leaf_catalog()[i],
    ensures
        match first_leaf(leaf_of_source(source@)) {
            Some(at) => r matches Some(i) && i == at && i < all@.len(),
            None => r is None,
        },
{
    let mut i: usize = 0;
    while i < all.len()
        invariant
            i <= all.len(),
            all@.len() == leaf_catalog().len(),
            forall|k: int| 0 <= k < all@.len() ==> (#[trigger] all@[k])@ == leaf_catalog()[k],
            first_where(leaf_catalog().len() as int, i as int, leaf_of_source(source@))
                == first_leaf(leaf_of_source(source@)),
        decreases all.len() - i,
    {
        assert(all@[i as int]@ == leaf_catalog()[i as int]);
        if str_eq(all[i].source_id, source) {
            assert(leaf_of_source(source@)(i as int));
            return Some(i);
        }
        i += 1;
    }
    None
}

fn source_index_by_id(all: &Vec<Source>, id: &str) -> (r: Option<usize>)
    requires
        all@.len() == source_catalog().len(),
        forall|i: int| 0 <= i < all@.len() ==> (#[trigger] all@[i])@ == source_catalog()[i],
    ensures
        match first_source(source_named(id@)) {
            Some(at) => r matches Some(i) && i == at && i < all@.len(),
            None => r is None,
        },
{
    let mut i: usize = 0;
    while i < all.len()
        invariant
            i <= all.len(),
            all@.len() == source_catalog().len(),
            forall|k: int| 0 <= k < all@.len() ==> (#[trigger] all@[k])@ == source_catalog()[k],
            first_where(source_catalog().len() as int, i as int, source_named(id@))
                == first_source(source_named(id@)),
        decreases all.len() - i,
    {
        assert(all@[i as int]@ == source_catalog()[i as int]);
        if str_eq(all[i].id, id) {
            assert(source_named(id@)(i as int));
            return Some(i);
        }
        i += 1;
    }
    None
}

fn source_index_by_space(all: &Vec<Source>, space: Space) -> (r: Option<usize>)
    requires
        all@.len() == source_catalog().len(),
        forall|i: int| 0 <= i < all@.len() ==> (#[trigger] all@[i])@ == source_catalog()[i],
    ensures
        match first_source(source_in_space(space)) {
            Some(at) => r matches Some(i) && i == at && i < all@.len(),
            None => r is None,
        },
{
    let mut i: usize = 0;
    while i < all.len()
        invariant
            i <= all.len(),
            all@.len() == source_catalog().len(),
            forall|k: int| 0 <= k < all@.len() ==> (#[trigger] all@[k])@ == source_catalog()[k],
            first_where(source_catalog().len() as int, i as int, source_in_space(space))
                == first_source(source_in_space(space)),
        decreases all.len() - i,
    {
        assert(all@[i as int]@ == source_catalog()[i as int]);
        if all[i].space == space {
            assert(source_in_space(space)(i as int));
            return Some(i);
        }
        i += 1;
    }
    None
}

fn entity_index_by_source(all: &Vec<Entity>, source: &str) -> (r: Option<usize>)
    requires
        all@.len() == entity_catalog().len(),
        forall|i: int| 0 <= i < all@.len() ==> (#[trigger] all@[i])@ == entity_catalog()[i],
    ensures
        match first_entity(entity_of_source(source@)) {
            Some(at) => r matches Some(i) && i == at && i < all@.len(),
            None => r is None,
        },
{
    let mut i: usize = 0;
    while i < all.len()
        invariant
            i <= all.len(),
            all@.len() == entity_catalog().len(),
            forall|k: int| 0 <= k < all@.len() ==> (#[trigger] all@[k])@ == entity_catalog()[k],
            first_where(entity_catalog().len() as int, i as int, entity_of_source(source@))
                == first_entity(entity_of_source(source@)),
        decreases all.len() - i,
    {
        assert(all@[i as int]@ == entity_catalog()[i as int]);
        if str_eq(all[i].source_id, source) {
            assert(entity_of_source(source@)(i as int));
            return Some(i);
        }
        i += 1;
    }
    None
}

fn entity_index_by_id(all: &Vec<Entity>, id: &str, source: &str) -> (r: Option<usize>)
    requires
        all@.len() == entity_catalog().len(),
        forall|i: int| 0 <= i < all@.len() ==> (#[trigger] all@[i])@ == entity_catalog()[i],
    ensures
        match first_entity(entity_named(id@, source@)) {
            Some(at) => r matches Some(i) && i == at && i < all@.len(),
            None => r is None,
        },
{
    let mut i: usize = 0;
    while i < all.len()
        invariant
            i <= all.len(),
            all@.len() == entity_catalog().len(),
            forall|k: int| 0 <= k < all@.len() ==> (#[trigger] all@[k])@ == entity_catalog()[k],
            first_where(entity_catalog().len() as int, i as int, entity_named(id@, source@))
                == first_entity(entity_named(id@, source@)),
        decreases all.len() - i,
    {
        assert(all@[i as int]@ == entity_catalog()[i as int]);
        if str_eq(all[i].id, id) && str_eq(all[i].source_id, source) {
            assert(entity_named(id@, source@)(i as int));
            return Some(i);
        }
        i += 1;
    }
    None
}

impl OceanGuiApp {
    /// The cockpit at the start, over a vault as it was found.
    #[must_use]
    pub fn new(root: String, scan: Result<WorkspaceTree, String>) -> (r: Self)
        ensures
            found_tree(r.tree, root@, scan),
            r@ == (CockpitView {
                root: root@,
                path: None,
                text: Seq::empty(),
                dirty: false,
                status: "Ready"@,
                space: Space::Mesh,
                source: "mesh.sessions"@,
                entity: "session-henry"@,
                leaf: "leaf-chat"@,
                command: Seq::empty(),
            }),
    {
        let tree = tree_or_empty(root.as_str(), scan);
        let state = OceanGuiApp {
            root,
            tree,
            selected_path: None,
            editor_text: String::new(),
            dirty: false,
            status: copy_str("Ready"),
            active_space: Space::Mesh,
            selected_source_id: "mesh.sessions",
            selected_entity_id: "session-henry",
            active_leaf_id: "leaf-chat",
            command_text: String::new(),
        };
        assert(state.editor_text@ =~= Seq::<char>::empty());
        state
    }

    /// Takes in what searching the vault gave.
    pub fn refresh_workspace(&mut self, scan: Result<WorkspaceTree, String>)
        ensures
            found_tree(final(self).tree, old(self)@.root, scan),
            final(self)@ == (CockpitView {
                status: "Loaded workspace: "@ + old(self)@.root,
                ..old(self)@
            }),
    {
        self.tree = tree_or_empty(self.root.as_str(), scan);
        self.status = concat2("Loaded workspace: ", self.root.as_str());
    }

    /// Moves to another vault, where it can be opened.
    pub fn set_workspace(&mut self, root: Option<String>, scan: Result<WorkspaceTree, String>)
        ensures
            match root {
                Some(path) => {
                    &&& found_tree(final(self).tree, path@, scan)
                    &&& final(self)@ == (CockpitView {
                        root: path@,
                        path: None,
                        text: Seq::empty(),
                        dirty: false,
                        status: "Loaded workspace: "@ + path@,
                        ..old(self)@
                    })
                },
                None => *final(self) == *old(self),
            },
    {
        if let Some(path) = root {
            self.root = path;
            self.selected_path = None;
            self.editor_text = String::new();
            self.dirty = false;
            assert(self.editor_text@ =~= Seq::<char>::empty());
            self.refresh_workspace(scan);
        }
    }

    /// Opens a path.
    pub fn open_selected(&mut self, path: &str, found: PathFound)
        ensures
            final(self).tree == old(self).tree,
            final(self)@ == path_opened(old(self)@, path@, found),
    {
        match found {
            PathFound::Folder => {
                self.selected_path = Some(copy_str(path));
                self.editor_text = String::new();
                self.dirty = false;
                self.status = concat2("Folder selected: ", path);
                assert(self.editor_text@ =~= Seq::<char>::empty());
            },
            PathFound::File(Ok(text)) => {
                self.selected_path = Some(copy_str(path));
                self.editor_text = text;
                self.dirty = false;
                self.status = concat2("Opened file: ", path);
            },
            PathFound::File(Err(error)) => {
                let start = concat3("Unable to open ", path, ": ");
                self.status = concat2(start.as_str(), error.as_str());
            },
        }
    }

    /// Opens a path of the tree and turns to the files.
    pub fn choose_file(&mut self, path: &str, found: PathFound)
        ensures
            final(self).tree == old(self).tree,
            final(self)@ == file_chosen(old(self)@, path@, found),
    {
        self.open_selected(path, found);
        proof {
            reveal_strlit("");
            assert(""@ =~= Seq::<char>::empty());
        }
        self.selected_source_id = "vault.files";
        self.selected_entity_id = "";
        self.active_space = Space::Vault;
        self.active_leaf_id = "leaf-files";
    }

    /// Takes in what writing the edited file gave; `is_dir` tells whether what is selected
    /// is a directory.
    pub fn save_selected(&mut self, is_dir: bool, written: Result<(), String>)
        ensures
            final(self).tree == old(self).tree,
            final(self)@ == match old(self)@.path {
                None => CockpitView { status: "No file selected"@, ..old(self)@ },
                Some(path) => if is_dir {
                    CockpitView { status: "Selected item is a folder"@, ..old(self)@ }
                } else {
                    match written {
                        Ok(_) => CockpitView {
                            dirty: false,
                            status: "Saved "@ + path,
                            ..old(self)@
                        },
                        Err(error) => CockpitView {
                            status: "Failed to save "@ + path + ": "@ + error@,
                            ..old(self)@
                        },
                    }
                },
            },
    {
        match &self.selected_path {
            None => {
                self.status = copy_str("No file selected");
            },
            Some(path) => if is_dir {
                self.status = copy_str("Selected item is a folder");
            } else {
                match written {
                    Ok(_) => {
                        self.status = concat2("Saved ", path.as_str());
                        self.dirty = false;
                    },
                    Err(error) => {
                        let start = concat3("Failed to save ", path.as_str(), ": ");
                        self.status = concat2(start.as_str(), error.as_str());
                    },
                }
            },
        }
    }

    /// How many files and directories the vault holds.
    #[must_use]
    pub fn workspace_stats(&self) -> (r: (usize, usize))
        ensures
            r == (self.tree.stats.files, self.tree.stats.folders),
    {
        (self.tree.stats.files, self.tree.stats.folders)
    }

    /// Takes in what was typed into the file editor.
    pub fn edit(&mut self, text: String)
        ensures
            final(self).tree == old(self).tree,
            final(self)@ == (CockpitView { text: text@, dirty: true, ..old(self)@ }),
    {
        self.editor_text = text;
        self.dirty = true;
    }

    /// Chooses a space.
    pub fn select_space(&mut self, space: Space)
        ensures
            final(self).tree == old(self).tree,
            final(self)@ == space_chosen(old(self)@, space),
    {
        self.active_space = space;
        let all_leaves = leaves();
        match leaf_index_by_space(&all_leaves, space) {
            Some(i) => {
                assert(all_leaves@[i as int]@ == leaf_catalog()[i as int]);
                self.select_leaf(all_leaves[i].id);
            },
            None => {
                let all_sources = sources();
                if let Some(i) = source_index_by_space(&all_sources, space) {
                    assert(all_sources@[i as int]@ == source_catalog()[i as int]);
                    self.select_source(all_sources[i].id);
                }
            },
        }
    }

    /// Chooses a source.
    pub fn select_source(&mut self, source_id: &'static str)
        ensures
            final(self).tree == old(self).tree,
            final(self)@ == source_chosen(old(self)@, source_id@),
    {
        self.selected_source_id = source_id;
        let all_entities = entities();
        match entity_index_by_source(&all_entities, source_id) {
            Some(i) => {
                assert(all_entities@[i as int]@ == entity_catalog()[i as int]);
                self.selected_entity_id = all_entities[i].id;
            },
            None => {
                proof {
                    reveal_strlit("");
                    assert(""@ =~= Seq::<char>::empty());
                }
                self.selected_entity_id = "";
            },
        }
        let all_leaves = leaves();
        if let Some(i) = leaf_index_by_source(&all_leaves, source_id) {
            assert(all_leaves@[i as int]@ == leaf_catalog()[i as int]);
            self.active_leaf_id = all_leaves[i].id;
        }
    }

    /// Chooses a tab.
    pub fn select_leaf(&mut self, leaf_id: &'static str)
        ensures
            final(self).tree == old(self).tree,
            final(self)@ == leaf_chosen(old(self)@, leaf_id@),
    {
        let all = leaves();
        if let Some(i) = leaf_index_by_id(&all, leaf_id) {
            assert(all@[i as int]@ == leaf_catalog()[i as int]);
            self.active_leaf_id = all[i].id;
            self.active_space = all[i].space;
            self.selected_source_id = all[i].source_id;
            proof {
                reveal_strlit("");
                assert(""@ =~= Seq::<char>::empty());
            }
            self.selected_entity_id = match all[i].entity_id {
                Some(id) => id,
                None => "",
            };
        }
    }

    /// Chooses an object of the source.
    pub fn select_entity(&mut self, entity_id: &'static str)
        ensures
            final(self).tree == old(self).tree,
            final(self)@ == (CockpitView { entity: entity_id@, ..old(self)@ }),
    {
        self.selected_entity_id = entity_id;
    }

    /// The chosen tab.
    #[must_use]
    pub fn selected_leaf(&self) -> (r: Option<Leaf>)
        ensures
            match first_leaf(leaf_named(self@.leaf)) {
                Some(i) => r matches Some(leaf) && leaf@ == leaf_catalog()[i],
                None => r is None,
            },
    {
        let mut all = leaves();
        match leaf_index_by_id(&all, self.active_leaf_id) {
            Some(i) => {
                assert(all@[i as int]@ == leaf_catalog()[i as int]);
                Some(all.remove(i))
            },
            None => None,
        }
    }

    /// The chosen source.
    #[must_use]
    pub fn selected_source(&self) -> (r: Option<Source>)
        ensures
            match first_source(source_named(self@.source)) {
                Some(i) => r matches Some(source) && source@ == source_catalog()[i],
                None => r is None,
            },
    {
        let mut all = sources();
        match source_index_by_id(&all, self.selected_source_id) {
            Some(i) => {
                assert(all@[i as int]@ == source_catalog()[i as int]);
                Some(all.remove(i))
            },
            None => None,
        }
    }

    /// The chosen object of the chosen source.
    #[must_use]
    pub fn selected_entity(&self) -> (r: Option<Entity>)
        ensures
            match first_entity(entity_named(self@.entity, self@.source)) {
                Some(i) => r matches Some(entity) && entity@ == entity_catalog()[i],
                None => r is None,
            },
    {
        let mut all = entities();
        match entity_index_by_id(&all, self.selected_entity_id, self.selected_source_id) {
            Some(i) => {
                assert(all@[i as int]@ == entity_catalog()[i as int]);
                Some(all.remove(i))
            },
            None => None,
        }
    }

    /// The objects of the chosen source.
    #[must_use]
    pub fn source_entities(&self) -> (r: Vec<Entity>)
        ensures
            entity_views(r@) == objects_of(self@.source, entity_catalog().len() as int),
    {
        let all = entities();
        let ghost items = all@;
        let mut found: Vec<Entity> = Vec::new();
        assert(entity_views(found@) =~= objects_of(self@.source, 0));
        for entity in it: all
            invariant
                it.seq() == items,
                items.len() == entity_catalog().len(),
                forall|k: int| 0 <= k < items.len() ==> (#[trigger] items[k])@ == entity_catalog()[k],
                entity_views(found@) == objects_of(self@.source, it.index() as int),
        {
            let ghost i = it.index() as int;
            assert(items[i]@ == entity_catalog()[i]);
            if str_eq(entity.source_id, self.selected_source_id) {
                let ghost before = found@;
                found.push(entity);
                assert(entity_views(found@) =~= entity_views(before).push(entity_catalog()[i]));
            }
        }
        found
    }

    /// Queues the command that was typed, where it is not blank.
    pub fn run_demo_command(&mut self)
        ensures
            final(self).tree == old(self).tree,
            final(self)@ == if trimmed(old(self)@.command).len() == 0 {
                old(self)@
            } else {
                CockpitView {
                    status: "Queued command: "@ + trimmed(old(self)@.command),
                    command: Seq::empty(),
                    ..old(self)@
                }
            },
    {
        let command = trim(self.command_text.as_str());
        if command.is_empty() {
            return;
        }
        self.status = concat2("Queued command: ", command.as_str());
        self.command_text = String::new();
        assert(self.command_text@ =~= Seq::<char>::empty());
    }

    /// Queues an action on an object.
    pub fn queue_action(&mut self, action: &str, entity_id: &str)
        ensures
            final(self).tree == old(self).tree,
            final(self)@ == (CockpitView {
                status: "Action queued: "@ + action@ + " -> "@ + entity_id@,
                ..old(self)@
            }),
    {
        let start = concat3("Action queued: ", action, " -> ");
        self.status = concat2(start.as_str(), entity_id);
    }

    /// What the file editor shows; `is_dir` tells whether what is selected is a directory.
    #[must_use]
    pub fn file_editor(&self, is_dir: bool) -> (r: FilePane)
        ensures
            shows_file(r, self@.path, is_dir),
    {
        match &self.selected_path {
            Some(path) => {
                let name = match file_name(path.as_str()) {
                    Some(name) => name,
                    None => String::new(),
                };
                FilePane {
                    heading: Some((name, path.clone())),
                    body: if is_dir {
                        FileBody::Folder
                    } else {
                        FileBody::Editor
                    },
                }
            },
            None => FilePane { heading: None, body: FileBody::NothingSelected },
        }
    }

    /// What the surface of the chosen tab shows.
    #[must_use]
    pub fn leaf_surface(&self, is_dir: bool) -> (r: LeafSurface)
        ensures
            match r {
                LeafSurface::File(pane) => self@.source == "vault.files"@ && shows_file(
                    pane,
                    self@.path,
                    is_dir,
                ),
                LeafSurface::Objects(rows, work) => {
                    let listed = objects_of(self@.source, entity_catalog().len() as int);
                    &&& self@.source != "vault.files"@
                    &&& rows@.len() == listed.len()
                    &&& forall|i: int|
                        0 <= i < rows@.len() ==> (#[trigger] rows@[i])@ == object_row(
                            listed[i],
                            self@.entity,
                        )
                    &&& match first_entity(entity_named(self@.entity, self@.source)) {
                        Some(i) => work matches Some(shown) && shown.0@ == entity_catalog()[i]
                            && shown.1@ == object_flow(entity_catalog()[i]),
                        None => work is None,
                    }
                },
            },
    {
        if str_eq(self.selected_source_id, "vault.files") {
            return LeafSurface::File(self.file_editor(is_dir));
        }
        let listed = self.source_entities();
        let ghost wanted = objects_of(self@.source, entity_catalog().len() as int);
        let mut rows: Vec<ObjectRow> = Vec::new();
        let mut i: usize = 0;
        while i < listed.len()
            invariant
                i <= listed.len(),
                rows@.len() == i,
                entity_views(listed@) == wanted,
                forall|k: int|
                    0 <= k < i ==> (#[trigger] rows@[k])@ == object_row(wanted[k], self@.entity),
            decreases listed.len() - i,
        {
            let entity = &listed[i];
            assert(entity@ == wanted[i as int]);
            let label = concat3(entity.id, "  ", entity.title);
            let start = concat3(entity.kind, " · ", entity.status);
            let detail = concat3(start.as_str(), " · ", entity.owner);
            assert(detail@ =~= entity.kind@ + " · "@ + entity.status@ + " · "@ + entity.owner@);
            rows.push(
                ObjectRow {
                    id: entity.id,
                    label,
                    detail,
                    selected: str_eq(self.selected_entity_id, entity.id),
                },
            );
            i += 1;
        }
        let work = match self.selected_entity() {
            Some(entity) => {
                let start = concat3(entity.source_id, " -> ", entity.kind);
                let flow = concat2(start.as_str(), " -> action -> event -> note");
                Some((entity, flow))
            },
            None => None,
        };
        LeafSurface::Objects(rows, work)
    }
}

/// Whether a place of the catalog holds an object of a source.
pub open spec fn is_object(id: Seq<char>, source: Seq<char>, i: int) -> bool {
    &&& 0 <= i < entity_catalog().len()
    &&& entity_catalog()[i].id == id
    &&& entity_catalog()[i].source_id == source
}

/// Whether a place of the catalog holds a source of a space.
pub open spec fn is_source(id: Seq<char>, space: Space, i: int) -> bool {
    &&& 0 <= i < source_catalog().len()
    &&& source_catalog()[i].id == id
    &&& source_catalog()[i].space == space
}

/// Whether the chosen object, where there is one, is an object of the chosen source.
pub open spec fn object_belongs(v: CockpitView) -> bool {
    v.entity.len() == 0 || exists|i: int| is_object(v.entity, v.source, i)
}

proof fn lemma_leaves_lead_somewhere(i: int)
    requires
        0 <= i < leaf_catalog().len(),
    ensures
        leaf_catalog()[i].entity_id matches Some(id) ==> exists|k: int|
            is_object(id, leaf_catalog()[i].source_id, k),
        exists|k: int| is_source(leaf_catalog()[i].source_id, leaf_catalog()[i].space, k),
{
    reveal(leaf_catalog);
    reveal(entity_catalog);
    reveal(source_catalog);
    assert(is_source(leaf_catalog()[0].source_id, leaf_catalog()[0].space, 0));
    assert(is_object(leaf_catalog()[1].entity_id->0, leaf_catalog()[1].source_id, 3));
    assert(is_source(leaf_catalog()[1].source_id, leaf_catalog()[1].space, 4));
    assert(is_object(leaf_catalog()[2].entity_id->0, leaf_catalog()[2].source_id, 2));
    assert(is_source(leaf_catalog()[2].source_id, leaf_catalog()[2].space, 3));
    assert(is_object(leaf_catalog()[3].entity_id->0, leaf_catalog()[3].source_id, 5));
    assert(is_source(leaf_catalog()[3].source_id, leaf_catalog()[3].space, 5));
    assert(is_object(leaf_catalog()[4].entity_id->0, leaf_catalog()[4].source_id, 8));
    assert(is_source(leaf_catalog()[4].source_id, leaf_catalog()[4].space, 8));
    assert(is_object(leaf_catalog()[5].entity_id->0, leaf_catalog()[5].source_id, 6));
    assert(is_source(leaf_catalog()[5].source_id, leaf_catalog()[5].space, 6));
    assert(is_object(leaf_catalog()[6].entity_id->0, leaf_catalog()[6].source_id, 7));
    assert(is_source(leaf_catalog()[6].source_id, leaf_catalog()[6].space, 7));
    assert(is_object(leaf_catalog()[7].entity_id->0, leaf_catalog()[7].source_id, 12));
    assert(is_source(leaf_catalog()[7].source_id, leaf_catalog()[7].space, 12));
    assert(is_object(leaf_catalog()[8].entity_id->0, leaf_catalog()[8].source_id, 9));
    assert(is_source(leaf_catalog()[8].source_id, leaf_catalog()[8].space, 9));
}

/// A chosen tab shows an object of its source, and its source belongs to its space.
pub proof fn law_tab_agrees_with_its_source(v: CockpitView, leaf: Seq<char>)
    requires
        first_leaf(leaf_named(leaf)) is Some,
    ensures
        object_belongs(leaf_chosen(v, leaf)),
        exists|i: int|
            is_source(leaf_chosen(v, leaf).source, leaf_chosen(v, leaf).space, i),
        leaf_chosen(v, leaf).leaf == leaf,
{
    lemma_first_where(leaf_catalog().len() as int, 0, leaf_named(leaf));
    let i = first_leaf(leaf_named(leaf))->0;
    let found = leaf_catalog()[i];
    lemma_leaves_lead_somewhere(i);
    if let Some(id) = found.entity_id {
        let k = choose|k: int| is_object(id, found.source_id, k);
        assert(is_object(leaf_chosen(v, leaf).entity, leaf_chosen(v, leaf).source, k));
    }
    let k = choose|k: int| is_source(found.source_id, found.space, k);
    assert(is_source(leaf_chosen(v, leaf).source, leaf_chosen(v, leaf).space, k));
}

/// A chosen source shows one of its own objects, or none where it has none.
pub proof fn law_source_shows_its_own_objects(v: CockpitView, source: Seq<char>)
    ensures
        object_belongs(source_chosen(v, source)),
        source_chosen(v, source).source == source,
{
    lemma_first_where(entity_catalog().len() as int, 0, entity_of_source(source));
    if let Some(i) = first_entity(entity_of_source(source)) {
        let chosen = source_chosen(v, source);
        assert(is_object(chosen.entity, chosen.source, i));
    }
}

/// Every space has a tab, and choosing a space leads to a tab of that space.
pub proof fn law_space_leads_to_its_tab(v: CockpitView, space: Space)
    ensures
        space_chosen(v, space).space == space,
        object_belongs(space_chosen(v, space)),
        first_leaf(leaf_in_space(space)) is Some,
{
    lemma_first_where(leaf_catalog().len() as int, 0, leaf_in_space(space));
    let place: int = match space {
        Space::Vault => 0,
        Space::Dev => 2,
        Space::Mesh => 1,
        Space::Ops => 8,
        Space::Data => 7,
    };
    assert(place < leaf_catalog().len() && leaf_catalog()[place].space == space) by {
        reveal(leaf_catalog);
    }
    assert(leaf_in_space(space)(place));
    let i = first_leaf(leaf_in_space(space))->0;
    let id = leaf_catalog()[i].id;
    lemma_first_where(leaf_catalog().len() as int, 0, leaf_named(id));
    assert(leaf_named(id)(i));
    let there = CockpitView { space, ..v };
    law_tab_agrees_with_its_source(there, id);
    lemma_leaf_ids_differ(i, first_leaf(leaf_named(id))->0);
}

proof fn lemma_leaf_ids_differ(i: int, j: int)
    requires
        0 <= i < leaf_catalog().len(),
        0 <= j < leaf_catalog().len(),
        leaf_catalog()[i].id == leaf_catalog()[j].id,
    ensures
        i == j,
{
    reveal(leaf_catalog);
    reveal_strlit("leaf-files");
    reveal_strlit("leaf-chat");
    reveal_strlit("leaf-terminal");
    reveal_strlit("leaf-model");
    reveal_strlit("leaf-tickets");
    reveal_strlit("leaf-skills");
    reveal_strlit("leaf-crons");
    reveal_strlit("leaf-living");
    reveal_strlit("leaf-ops");
    assert(leaf_catalog()[0].id.len() == 10 && leaf_catalog()[0].id[5] == 'f' && leaf_catalog()[0].id[6] == 'i');
    assert(leaf_catalog()[1].id.len() == 9 && leaf_catalog()[1].id[5] == 'c' && leaf_catalog()[1].id[6] == 'h');
    assert(leaf_catalog()[2].id.len() == 13 && leaf_catalog()[2].id[5] == 't' && leaf_catalog()[2].id[6] == 'e');
    assert(leaf_catalog()[3].id.len() == 10 && leaf_catalog()[3].id[5] == 'm' && leaf_catalog()[3].id[6] == 'o');
    assert(leaf_catalog()[4].id.len() == 12 && leaf_catalog()[4].id[5] == 't' && leaf_catalog()[4].id[6] == 'i');
    assert(leaf_catalog()[5].id.len() == 11 && leaf_catalog()[5].id[5] == 's' && leaf_catalog()[5].id[6] == 'k');
    assert(leaf_catalog()[6].id.len() == 10 && leaf_catalog()[6].id[5] == 'c' && leaf_catalog()[6].id[6] == 'r');
    assert(leaf_catalog()[7].id.len() == 11 && leaf_catalog()[7].id[5] == 'l' && leaf_catalog()[7].id[6] == 'i');
    assert(leaf_catalog()[8].id.len() == 8 && leaf_catalog()[8].id[5] == 'o' && leaf_catalog()[8].id[6] == 'p');
}

/// No two tabs have the same id.
pub proof fn law_tabs_are_told_apart(i: int, j: int)
    requires
        0 <= i < j < leaf_catalog().len(),
    ensures
        leaf_catalog()[i].id != leaf_catalog()[j].id,
{
    if leaf_catalog()[i].id == leaf_catalog()[j].id {
        lemma_leaf_ids_differ(i, j);
    }
}

/// Choosing a tab that is not there changes nothing; choosing anything leaves the file that is
/// open, its text and the command as they are.
pub proof fn law_choosing_leaves_the_open_file(v: CockpitView, id: Seq<char>, space: Space)
    ensures
        ({
            let by_source = source_chosen(v, id);
            let by_leaf = leaf_chosen(v, id);
            let by_space = space_chosen(v, space);
            &&& by_source.path == v.path && by_leaf.path == v.path && by_space.path == v.path
            &&& by_source.text == v.text && by_leaf.text == v.text && by_space.text == v.text
            &&& by_source.dirty == v.dirty && by_leaf.dirty == v.dirty && by_space.dirty == v.dirty
            &&& by_source.command == v.command && by_leaf.command == v.command && by_space.command
                == v.command
            &&& (forall|i: int|
                0 <= i < leaf_catalog().len() ==> (#[trigger] leaf_catalog()[i]).id != id)
                ==> by_leaf == v
        }),
{
    lemma_first_where(leaf_catalog().len() as int, 0, leaf_named(id));
}

/// What is found first is found, and nothing before it is.
pub proof fn law_first_found_comes_first(len: int, from: int, holds: spec_fn(int) -> bool)
    requires
        0 <= from,
    ensures
        match first_where(len, from, holds) {
            Some(i) => from <= i < len && holds(i) && forall|k: int|
                from <= k < i ==> !#[trigger] holds(k),
            None => forall|k: int| from <= k < len ==> !#[trigger] holds(k),
        },
    decreases len - from,
{
    if from < len && !holds(from) {
        law_first_found_comes_first(len, from + 1, holds);
    }
}

/// A chosen source shows the first of its objects and its first tab; the tab stays where it
/// has none.
pub proof fn law_source_shows_its_first_object_and_tab(
    v: CockpitView,
    source: Seq<char>,
    i: int,
    k: int,
)
    ensures
        ({
            let after = source_chosen(v, source);
            &&& 0 <= i < entity_catalog().len() && entity_catalog()[i].source_id == source && (
            forall|a: int|
                0 <= a < i ==> (#[trigger] entity_catalog()[a]).source_id != source)
                ==> after.entity == entity_catalog()[i].id
            &&& 0 <= k < leaf_catalog().len() && leaf_catalog()[k].source_id == source && (forall|
                a: int,
            | 0 <= a < k ==> (#[trigger] leaf_catalog()[a]).source_id != source) ==> after.leaf
                == leaf_catalog()[k].id
            &&& (forall|a: int|
                0 <= a < leaf_catalog().len() ==> (#[trigger] leaf_catalog()[a]).source_id != source)
                ==> after.leaf == v.leaf
        }),
{
    let by_source = entity_of_source(source);
    let by_leaf = leaf_of_source(source);
    law_first_found_comes_first(entity_catalog().len() as int, 0, by_source);
    law_first_found_comes_first(leaf_catalog().len() as int, 0, by_leaf);
    if 0 <= i < entity_catalog().len() && entity_catalog()[i].source_id == source && (forall|
        a: int,
    | 0 <= a < i ==> (#[trigger] entity_catalog()[a]).source_id != source) {
        assert(by_source(i));
        let f = first_entity(by_source)->0;
        if f < i {
            assert(by_source(f));
            assert(entity_catalog()[f].source_id == source);
        }
    }
    if 0 <= k < leaf_catalog().len() && leaf_catalog()[k].source_id == source && (forall|a: int|
        0 <= a < k ==> (#[trigger] leaf_catalog()[a]).source_id != source) {
        assert(by_leaf(k));
        let f = first_leaf(by_leaf)->0;
        if f < k {
            assert(by_leaf(f));
            assert(leaf_catalog()[f].source_id == source);
        }
    }
    if forall|a: int|
        0 <= a < leaf_catalog().len() ==> (#[trigger] leaf_catalog()[a]).source_id != source {
        if let Some(f) = first_leaf(by_leaf) {
            assert(leaf_catalog()[f].source_id == source);
        }
    }
}

/// A chosen tab brings its own space, source and object.
pub proof fn law_tab_brings_its_own(v: CockpitView, i: int)
    requires
        0 <= i < leaf_catalog().len(),
    ensures
        ({
            let leaf = leaf_catalog()[i];
            let after = leaf_chosen(v, leaf.id);
            &&& after.leaf == leaf.id
            &&& after.space == leaf.space
            &&& after.source == leaf.source_id
            &&& leaf.entity_id matches Some(id) ==> after.entity == id
            &&& leaf.entity_id is None ==> after.entity.len() == 0
        }),
{
    let id = leaf_catalog()[i].id;
    lemma_first_where(leaf_catalog().len() as int, 0, leaf_named(id));
    assert(leaf_named(id)(i));
    lemma_leaf_ids_differ(i, first_leaf(leaf_named(id))->0);
}

/// The objects of a source are all those of the catalog that come from it, in order.
pub proof fn law_objects_come_from_the_source(source: Seq<char>, i: int, k: int)
    requires
        0 <= i < entity_catalog().len(),
    ensures
        ({
            let all = objects_of(source, entity_catalog().len() as int);
            let before = objects_of(source, i);
            &&& before.is_prefix_of(all)
            &&& entity_catalog()[i].source_id == source ==> before.len() < all.len()
                && all[before.len() as int] == entity_catalog()[i]
            &&& 0 <= k < all.len() ==> all[k].source_id == source
        }),
{
    let n = entity_catalog().len() as int;
    lemma_objects_grow(source, i, n);
    lemma_objects_grow(source, i + 1, n);
    let before = objects_of(source, i);
    let with = objects_of(source, i + 1);
    let all = objects_of(source, n);
    if with.len() > before.len() {
        assert(with == before.push(with.last()));
        assert(with[before.len() as int] == all.subrange(0, with.len() as int)[before.len() as int]);
    }
    if 0 <= k < all.len() {
        lemma_objects_of(source, n, k);
    }
}

proof fn lemma_objects_grow(source: Seq<char>, i: int, n: int)
    requires
        0 <= i <= n <= entity_catalog().len(),
    ensures
        objects_of(source, i).is_prefix_of(objects_of(source, n)),
    decreases n,
{
    if i < n {
        lemma_objects_grow(source, i, n - 1);
    }
}

proof fn lemma_objects_of(source: Seq<char>, n: int, k: int)
    requires
        0 <= n <= entity_catalog().len(),
        0 <= k < objects_of(source, n).len(),
    ensures
        objects_of(source, n)[k].source_id == source,
    decreases n,
{
    if n > 0 && k < objects_of(source, n - 1).len() {
        lemma_objects_of(source, n - 1, k);
    }
}

/// A file that is opened is shown as it was read, and is clean; a folder shows no text; what
/// cannot be read leaves what is open. Only the status tells of an error.
pub proof fn law_opened_file_is_shown_as_read(v: CockpitView, path: Seq<char>, text: String)
    ensures
        ({
            let file = path_opened(v, path, PathFound::File(Ok(text)));
            let folder = path_opened(v, path, PathFound::Folder);
            let broken = path_opened(v, path, PathFound::File(Err(text)));
            &&& file.path == Some(path) && file.text == text@ && !file.dirty
            &&& folder.path == Some(path) && folder.text.len() == 0 && !folder.dirty
            &&& broken.path == v.path && broken.text == v.text && broken.dirty == v.dirty
            &&& file.status == "Opened file: "@ + path
            &&& folder.status == "Folder selected: "@ + path
            &&& broken.status == "Unable to open "@ + path + ": "@ + text@
            &&& file.space == v.space && file.source == v.source && file.leaf == v.leaf
        }),
{
}

/// A file of the tree is shown among the files of the vault.
pub proof fn law_file_of_the_tree_is_a_file_of_the_vault(
    v: CockpitView,
    path: Seq<char>,
    text: String,
)
    ensures
        ({
            let after = file_chosen(v, path, PathFound::File(Ok(text)));
            &&& after.space is Vault
            &&& after.source == "vault.files"@
            &&& after.leaf == "leaf-files"@
            &&& after.entity.len() == 0
            &&& after.path == Some(path)
            &&& after.text == text@
        }),
{
}

/// An object is listed by its id and title, with what it is, how it stands and whose it is, and
/// is marked just where it is the chosen one.
pub proof fn law_object_is_listed_by_id_and_title(entity: EntityView, chosen: Seq<char>)
    ensures
        ({
            let row = object_row(entity, chosen);
            &&& row.id == entity.id
            &&& entity.id.is_prefix_of(row.label)
            &&& row.label.skip((entity.id.len() + 2) as int) == entity.title
            &&& entity.kind.is_prefix_of(row.detail)
            &&& row.selected <==> chosen == entity.id
        }),
{
    reveal_strlit("  ");
    let row = object_row(entity, chosen);
    assert(row.label.skip((entity.id.len() + 2) as int) =~= entity.title);
}

/// Where a search failed, a tree without entries is shown; where it worked, what it found.
pub proof fn law_failed_search_shows_nothing(
    tree: WorkspaceTree,
    root: Seq<char>,
    found: WorkspaceTree,
    error: String,
)
    ensures
        found_tree(tree, root, Err(error)) ==> tree.entries@.len() == 0 && tree.stats.files == 0
            && tree.stats.folders == 0 && tree.root@ == root,
        found_tree(tree, root, Ok(found)) ==> tree == found,
{
}

/// The editor is headed by the name and the path of what is selected, and shows a folder just
/// where that is one.
pub proof fn law_editor_is_headed_by_the_selection(
    pane: FilePane,
    directory: Seq<char>,
    name: Seq<char>,
    is_dir: bool,
)
    requires
        name.len() > 0,
        name != "."@,
        name != ".."@,
        forall|i: int| 0 <= i < name.len() ==> name[i] != '/',
        shows_file(pane, Some(joined_path(directory, name)), is_dir),
    ensures
        pane.heading matches Some(heading) && heading.0@ == name && heading.1@ == joined_path(
            directory,
            name,
        ),
        pane.body is Folder <==> is_dir,
        pane.body is Editor <==> !is_dir,
{
    law_joined_path_parts_again(directory, name);
}

} // verus!
