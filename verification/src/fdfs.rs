//! FDFS, the in-memory filesystem: a flat vector of nodes in which node 0 is
//! the root directory and each directory lists the indices of its children.
use vstd::prelude::*;
use vstd::utf8::{decode_utf8, valid_utf8};
use crate::text::{
    bytes_of, chars_of, nonempty_pieces, split_on, split_parts, string_from_chars,
    string_from_utf8, views,
};

verus! {

/// A single node in the filesystem: a file or a directory.
#[derive(Debug)]
pub enum Node {
    File { name: String, data: Vec<u8> },
    Dir {
        name: String,
        /// Indices into the filesystem's node vector, one per child.
        children: Vec<usize>,
    },
}

/// What a node holds, as plain values.
pub enum NodeView {
    File { name: Seq<char>, data: Seq<u8> },
    Dir { name: Seq<char>, children: Seq<usize> },
}

impl View for Node {
    type V = NodeView;

    open spec fn view(&self) -> NodeView {
        match self {
            Node::File { name, data } => NodeView::File { name: name@, data: data@ },
            Node::Dir { name, children } => NodeView::Dir { name: name@, children: children@ },
        }
    }
}

/// The name of a node, whatever its kind.
pub open spec fn node_name(n: NodeView) -> Seq<char> {
    match n {
        NodeView::File { name, .. } => name,
        NodeView::Dir { name, .. } => name,
    }
}

impl Node {
    /// The name of this node regardless of type.
    pub fn name(&self) -> (s: &str)
        ensures
            s@ == node_name(self@),
    {
        match self {
            Node::File { name, .. } => name.as_str(),
            Node::Dir { name, .. } => name.as_str(),
        }
    }

    /// Whether this node is a directory.
    pub fn is_dir(&self) -> (b: bool)
        ensures
            b == self@ is Dir,
    {
        matches!(self, Node::Dir { .. })
    }

    /// Whether this node is a file.
    pub fn is_file(&self) -> (b: bool)
        ensures
            b == self@ is File,
    {
        matches!(self, Node::File { .. })
    }
}

/// The first of `children` whose node is called `name`.
pub open spec fn first_named(v: Seq<NodeView>, children: Seq<usize>, name: Seq<char>) -> Option<usize>
    decreases children.len(),
{
    if children.len() == 0 {
        None
    } else if node_name(v[children[0] as int]) == name {
        Some(children[0])
    } else {
        first_named(v, children.drop_first(), name)
    }
}

/// The first child called `name` of node `dir`; none when `dir` is a file.
pub open spec fn child_named(v: Seq<NodeView>, dir: int, name: Seq<char>) -> Option<usize> {
    match v[dir] {
        NodeView::Dir { children, .. } => first_named(v, children, name),
        NodeView::File { .. } => None,
    }
}

/// The node reached from `cur` by following the names in `comps`, one level each.
pub open spec fn walk(v: Seq<NodeView>, cur: usize, comps: Seq<Seq<char>>) -> Option<usize>
    decreases comps.len(),
{
    if comps.len() == 0 {
        Some(cur)
    } else {
        match child_named(v, cur as int, comps[0]) {
            Some(c) => walk(v, c, comps.drop_first()),
            None => None,
        }
    }
}

/// The names along a path: its non-empty pieces between slashes.
pub open spec fn path_components(p: Seq<char>) -> Seq<Seq<char>> {
    nonempty_pieces(split_on(p, '/'))
}

/// The node that an absolute path names, if any.
pub open spec fn resolve_spec(v: Seq<NodeView>, p: Seq<char>) -> Option<usize> {
    walk(v, 0, path_components(p))
}

/// The invariant of a filesystem: node 0 is a directory; every child index of a
/// directory points past the directory itself and into the vector (so paths
/// never loop); and no two children of a directory share a name.
pub open spec fn fs_wf(v: Seq<NodeView>) -> bool {
    &&& 1 <= v.len() <= usize::MAX
    &&& v[0] is Dir
    &&& forall|i: int, j: int|
        #![trigger v[i]->Dir_children[j]]
        0 <= i < v.len() && v[i] is Dir && 0 <= j < v[i]->Dir_children.len() ==> i
            < v[i]->Dir_children[j] < v.len()
    &&& forall|i: int, j: int, k: int|
        #![trigger v[i]->Dir_children[j], v[i]->Dir_children[k]]
        0 <= i < v.len() && v[i] is Dir && 0 <= j < k < v[i]->Dir_children.len() ==> node_name(
            v[v[i]->Dir_children[j] as int],
        ) != node_name(v[v[i]->Dir_children[k] as int])
}

/// The filesystem itself. Holds all nodes in a flat vector; node 0 is the root.
pub struct Fdfs {
    nodes: Vec<Node>,
}

impl View for Fdfs {
    type V = Seq<NodeView>;

    closed spec fn view(&self) -> Seq<NodeView> {
        self.nodes@.map_values(|n: Node| n@)
    }
}

impl Fdfs {
    /// The filesystem's invariant (see `fs_wf`).
    pub open spec fn wf(&self) -> bool {
        fs_wf(self@)
    }

    /// The nodes of a new filesystem: the root directory `/`, empty.
    pub open spec fn new_spec() -> Seq<NodeView> {
        seq![NodeView::Dir { name: "/"@, children: Seq::empty() }]
    }

    /// A new filesystem holding only the root directory `/`.
    pub fn new() -> (fs: Self)
        ensures
            fs.wf(),
            fs@ == Self::new_spec(),
    {
        let root = Node::Dir { name: "/".to_owned(), children: Vec::new() };
        let mut nodes: Vec<Node> = Vec::new();
        nodes.push(root);
        let fs = Fdfs { nodes };
        assert(fs@ =~= seq![NodeView::Dir { name: "/"@, children: Seq::empty() }]);
        fs
    }

    /// Finds a child of a directory node by name (case-sensitive): the first one.
    pub fn find_child(&self, dir_idx: usize, name: &str) -> (r: Option<usize>)
        requires
            self.wf(),
            dir_idx < self@.len(),
        ensures
            r == child_named(self@, dir_idx as int, name@),
            r matches Some(c) ==> c < self@.len(),
    {
        let ghost v = self@;
        assert(self.nodes@[dir_idx as int]@ == v[dir_idx as int]);
        match &self.nodes[dir_idx] {
            Node::Dir { children, .. } => {
                let mut i: usize = 0;
                assert(children@.skip(0) == children@);
                while i < children.len()
                    invariant
                        v == self@,
                        fs_wf(v),
                        dir_idx < v.len(),
                        v[dir_idx as int] == (NodeView::Dir { name: v[dir_idx as int]->Dir_name, children: children@ }),
                        i <= children@.len(),
                        first_named(v, children@, name@) == first_named(v, children@.skip(i as int), name@),
                    decreases children@.len() - i,
                {
                    let c = children[i];
                    assert(children@.skip(i as int).drop_first() == children@.skip(i + 1));
                    assert(v[dir_idx as int]->Dir_children[i as int] == c);
                    assert(self.nodes@[c as int]@ == v[c as int]);
                    if same_text(self.nodes[c].name(), name) {
                        return Some(c);
                    }
                    i = i + 1;
                }
                None
            },
            Node::File { .. } => None,
        }
    }

    /// Resolves an absolute path like `/documents/hello.txt` to a node index;
    /// `None` if some component of the path does not exist.
    pub fn resolve(&self, path: &str) -> (r: Option<usize>)
        requires
            self.wf(),
        ensures
            r == resolve_spec(self@, path@),
            r matches Some(i) ==> i < self@.len(),
    {
        if same_text(path, "/") {
            proof {
                lemma_resolve_root(self@, path@);
            }
            return Some(0);
        }
        let parts = components(path);
        let ghost comps = path_components(path@);
        let mut current: usize = 0;
        let mut i: usize = 0;
        assert(comps.skip(0) == comps);
        while i < parts.len()
            invariant
                self.wf(),
                comps == path_components(path@),
                views(parts@) == comps,
                i <= parts@.len(),
                current < self@.len(),
                walk(self@, 0, comps) == walk(self@, current, comps.skip(i as int)),
            decreases parts@.len() - i,
        {
            assert(comps.skip(i as int)[0] == parts@[i as int]@);
            assert(comps.skip(i as int).drop_first() == comps.skip(i + 1));
            match self.find_child(current, parts[i].as_str()) {
                Some(idx) => {
                    current = idx;
                },
                None => {
                    assert(walk(self@, current, comps.skip(i as int)) == None::<usize>);
                    return None;
                },
            }
            i = i + 1;
        }
        Some(current)
    }

    /// Lists the contents of a directory as (name, is directory) pairs, in the
    /// order the children were added.
    pub fn list_dir(&self, path: &str) -> (r: Result<Vec<(String, bool)>, &'static str>)
        requires
            self.wf(),
        ensures
            listing_view(r) == list_dir_spec(self@, path@),
    {
        let idx = match self.resolve(path) {
            Some(i) => i,
            None => return Err("Directory not found"),
        };
        let ghost v = self@;
        assert(self.nodes@[idx as int]@ == v[idx as int]);
        match &self.nodes[idx] {
            Node::Dir { children, .. } => {
                let mut entries: Vec<(String, bool)> = Vec::new();
                let mut i: usize = 0;
                while i < children.len()
                    invariant
                        v == self@,
                        fs_wf(v),
                        idx < v.len(),
                        v[idx as int]->Dir_children == children@,
                        v[idx as int] is Dir,
                        i <= children@.len(),
                        entries@.len() == i,
                        forall|j: int|
                            0 <= j < i ==> (#[trigger] entries@[j]).0@ == node_name(
                                v[children@[j] as int],
                            ) && entries@[j].1 == v[children@[j] as int] is Dir,
                    decreases children@.len() - i,
                {
                    let c = children[i];
                    assert(v[idx as int]->Dir_children[i as int] == c);
                    assert(self.nodes@[c as int]@ == v[c as int]);
                    let node = &self.nodes[c];
                    entries.push((node.name().to_owned(), node.is_dir()));
                    i = i + 1;
                }
                assert(listing_view(Ok::<Vec<(String, bool)>, &'static str>(entries)) == list_dir_spec(v, path@)) by {
                    assert(entry_views(entries@) =~= children@.map_values(
                        |c: usize| (node_name(v[c as int]), v[c as int] is Dir),
                    ));
                }
                Ok(entries)
            },
            Node::File { .. } => Err("Not a directory"),
        }
    }

    /// Reads the contents of a file as a `String`.
    pub fn read_file(&self, path: &str) -> (r: Result<String, &'static str>)
        requires
            self.wf(),
        ensures
            text_result_view(r) == read_file_spec(self@, path@),
    {
        let idx = match self.resolve(path) {
            Some(i) => i,
            None => return Err("File not found"),
        };
        assert(self.nodes@[idx as int]@ == self@[idx as int]);
        match &self.nodes[idx] {
            Node::File { data, .. } => {
                match string_from_utf8(vstd::slice::slice_to_vec(data.as_slice())) {
                    Some(s) => Ok(s),
                    None => Err("File is not valid UTF-8"),
                }
            },
            Node::Dir { .. } => Err("Is a directory"),
        }
    }

    /// Whether a path exists and is a directory.
    pub fn is_dir(&self, path: &str) -> (b: bool)
        requires
            self.wf(),
        ensures
            b == is_dir_spec(self@, path@),
    {
        match self.resolve(path) {
            Some(idx) => {
                assert(self.nodes@[idx as int]@ == self@[idx as int]);
                self.nodes[idx].is_dir()
            },
            None => false,
        }
    }

    /// Appends `node` to the vector and lists it as the last child of directory
    /// `parent_idx`.
    fn add_child(&mut self, parent_idx: usize, node: Node)
        requires
            old(self).wf(),
            parent_idx < old(self)@.len(),
            old(self)@[parent_idx as int] is Dir,
            child_named(old(self)@, parent_idx as int, node_name(node@)) == None::<usize>,
            node@ is Dir ==> node@->Dir_children.len() == 0,
        ensures
            final(self).wf(),
            final(self)@ == add_node(old(self)@, parent_idx as int, node@),
    {
        let ghost v = self@;
        let ghost n = node@;
        let new_idx = self.nodes.len();
        self.nodes.push(node);
        assert(self.nodes@.len() == self.nodes.len());
        proof {
            lemma_add_node_wf(v, parent_idx as int, n);
        }
        assert(self.nodes@[parent_idx as int]@ == v[parent_idx as int]);
        if let Node::Dir { children, .. } = &mut self.nodes[parent_idx] {
            children.push(new_idx);
        }
        assert(self@ =~= add_node(v, parent_idx as int, n));
    }

    /// Writes a string to a file: creates the file if it does not exist and
    /// overwrites it if it does. The parent directory must already exist.
    pub fn write_file(&mut self, path: &str, contents: &str) -> (r: Result<(), &'static str>)
        requires
            old(self).wf(),
        ensures
            final(self).wf(),
            (r, final(self)@) == write_file_spec(old(self)@, path@, contents@),
    {
        let ghost v = self@;
        let (parent_path, filename) = match split_path(path) {
            Ok(parts) => parts,
            Err(e) => return Err(e),
        };
        let parent_idx = match self.resolve(parent_path) {
            Some(i) => i,
            None => return Err("Parent directory not found"),
        };
        assert(self.nodes@[parent_idx as int]@ == v[parent_idx as int]);
        if !self.nodes[parent_idx].is_dir() {
            return Err("Parent is not a directory");
        }
        if let Some(existing_idx) = self.find_child(parent_idx, filename) {
            assert(self.nodes@[existing_idx as int]@ == v[existing_idx as int]);
            if self.nodes[existing_idx].is_dir() {
                return Err("Is a directory");
            }
            if let Node::File { data, .. } = &mut self.nodes[existing_idx] {
                *data = vstd::slice::slice_to_vec(contents.as_bytes());
            }
            proof {
                lemma_set_data_wf(v, existing_idx as int, bytes_of(contents@));
            }
            assert(self@ =~= v.update(
                existing_idx as int,
                NodeView::File { name: node_name(v[existing_idx as int]), data: bytes_of(contents@) },
            ));
            return Ok(());
        }
        let node = Node::File {
            name: filename.to_owned(),
            data: vstd::slice::slice_to_vec(contents.as_bytes()),
        };
        self.add_child(parent_idx, node);
        Ok(())
    }

    /// Creates a directory. The parent must already exist and hold nothing of
    /// that name.
    pub fn make_dir(&mut self, path: &str) -> (r: Result<(), &'static str>)
        requires
            old(self).wf(),
        ensures
            final(self).wf(),
            (r, final(self)@) == make_dir_spec(old(self)@, path@),
    {
        let (parent_path, dirname) = match split_path(path) {
            Ok(parts) => parts,
            Err(e) => return Err(e),
        };
        let parent_idx = match self.resolve(parent_path) {
            Some(i) => i,
            None => return Err("Parent directory not found"),
        };
        assert(self.nodes@[parent_idx as int]@ == self@[parent_idx as int]);
        if !self.nodes[parent_idx].is_dir() {
            return Err("Parent is not a directory");
        }
        if self.find_child(parent_idx, dirname).is_some() {
            return Err("Already exists");
        }
        let node = Node::Dir { name: dirname.to_owned(), children: Vec::new() };
        self.add_child(parent_idx, node);
        Ok(())
    }

    /// Removes a file or an empty directory from its parent's listing. The node
    /// itself stays in the vector, so that no other index moves.
    pub fn remove(&mut self, path: &str) -> (r: Result<(), &'static str>)
        requires
            old(self).wf(),
        ensures
            final(self).wf(),
            (r, final(self)@) == remove_spec(old(self)@, path@),
    {
        let ghost v = self@;
        let (parent_path, name) = match split_path(path) {
            Ok(parts) => parts,
            Err(e) => return Err(e),
        };
        let parent_idx = match self.resolve(parent_path) {
            Some(i) => i,
            None => return Err("Parent not found"),
        };
        let target_idx = match self.find_child(parent_idx, name) {
            Some(i) => i,
            None => return Err("Not found"),
        };
        assert(self.nodes@[target_idx as int]@ == v[target_idx as int]);
        if let Node::Dir { children, .. } = &self.nodes[target_idx] {
            if children.len() > 0 {
                return Err("Directory is not empty");
            }
        }
        assert(self.nodes@[parent_idx as int]@ == v[parent_idx as int]);
        if let Node::Dir { children, .. } = &mut self.nodes[parent_idx] {
            let kept = without(children, target_idx);
            *children = kept;
        }
        proof {
            lemma_remove_child_wf(v, parent_idx as int, target_idx);
        }
        assert(self@ =~= remove_child(v, parent_idx as int, target_idx));
        Ok(())
    }
}

/// `children` without any occurrence of `target`, order kept.
fn without(children: &Vec<usize>, target: usize) -> (kept: Vec<usize>)
    ensures
        kept@ == kept_children(children@, target),
{
    let mut kept: Vec<usize> = Vec::new();
    let mut i: usize = 0;
    assert(kept_children(children@.take(0), target) =~= Seq::<usize>::empty()) by {
        reveal(Seq::filter);
    }
    while i < children.len()
        invariant
            i <= children@.len(),
            kept@ == kept_children(children@.take(i as int), target),
        decreases children@.len() - i,
    {
        let c = children[i];
        assert(children@.take(i + 1).drop_last() == children@.take(i as int));
        assert(children@.take(i + 1).last() == c);
        reveal(Seq::filter);
        if c != target {
            kept.push(c);
        }
        i = i + 1;
    }
    assert(children@.take(children@.len() as int) == children@);
    kept
}

/// The children left after taking out every occurrence of `target`, order kept.
pub open spec fn kept_children(s: Seq<usize>, target: usize) -> Seq<usize> {
    s.filter(|x: usize| x != target)
}

/// Node `n` added at the end of the vector and listed last among the children
/// of directory `parent`.
pub open spec fn add_node(v: Seq<NodeView>, parent: int, n: NodeView) -> Seq<NodeView> {
    v.update(
        parent,
        NodeView::Dir {
            name: v[parent]->Dir_name,
            children: v[parent]->Dir_children.push(v.len() as usize),
        },
    ).push(n)
}

/// Child `target` taken out of the listing of directory `parent`.
pub open spec fn remove_child(v: Seq<NodeView>, parent: int, target: usize) -> Seq<NodeView> {
    v.update(
        parent,
        NodeView::Dir {
            name: v[parent]->Dir_name,
            children: kept_children(v[parent]->Dir_children, target),
        },
    )
}

/// The outcome of writing `contents` to the file at `p`: the result and the
/// nodes afterwards.
pub open spec fn write_file_spec(v: Seq<NodeView>, p: Seq<char>, contents: Seq<char>) -> (Result<(), &'static str>, Seq<NodeView>) {
    match split_path_spec(p) {
        Err(e) => (Err(e), v),
        Ok((parent, name)) => match resolve_spec(v, parent) {
            None => (Err("Parent directory not found"), v),
            Some(pi) => if !(v[pi as int] is Dir) {
                (Err("Parent is not a directory"), v)
            } else {
                match child_named(v, pi as int, name) {
                    Some(e) => match v[e as int] {
                        NodeView::File { name: n, .. } => (
                            Ok(()),
                            v.update(e as int, NodeView::File { name: n, data: bytes_of(contents) }),
                        ),
                        NodeView::Dir { .. } => (Err("Is a directory"), v),
                    },
                    None => (
                        Ok(()),
                        add_node(v, pi as int, NodeView::File { name, data: bytes_of(contents) }),
                    ),
                }
            },
        },
    }
}

/// The outcome of creating a directory at `p`.
pub open spec fn make_dir_spec(v: Seq<NodeView>, p: Seq<char>) -> (Result<(), &'static str>, Seq<NodeView>) {
    match split_path_spec(p) {
        Err(e) => (Err(e), v),
        Ok((parent, name)) => match resolve_spec(v, parent) {
            None => (Err("Parent directory not found"), v),
            Some(pi) => if !(v[pi as int] is Dir) {
                (Err("Parent is not a directory"), v)
            } else if child_named(v, pi as int, name) is Some {
                (Err("Already exists"), v)
            } else {
                (Ok(()), add_node(v, pi as int, NodeView::Dir { name, children: Seq::empty() }))
            },
        },
    }
}

/// The outcome of removing the entry at `p`.
pub open spec fn remove_spec(v: Seq<NodeView>, p: Seq<char>) -> (Result<(), &'static str>, Seq<NodeView>) {
    match split_path_spec(p) {
        Err(e) => (Err(e), v),
        Ok((parent, name)) => match resolve_spec(v, parent) {
            None => (Err("Parent not found"), v),
            Some(pi) => match child_named(v, pi as int, name) {
                None => (Err("Not found"), v),
                Some(t) => if v[t as int] is Dir && v[t as int]->Dir_children.len() > 0 {
                    (Err("Directory is not empty"), v)
                } else {
                    (Ok(()), remove_child(v, pi as int, t))
                },
            },
        },
    }
}

/// When no child has the name, every child has another name.
pub proof fn lemma_first_named_none(v: Seq<NodeView>, children: Seq<usize>, name: Seq<char>)
    requires
        first_named(v, children, name) == None::<usize>,
    ensures
        forall|j: int| 0 <= j < children.len() ==> node_name(#[trigger] v[children[j] as int]) != name,
    decreases children.len(),
{
    if children.len() > 0 {
        lemma_first_named_none(v, children.drop_first(), name);
        assert forall|j: int| 0 <= j < children.len() implies node_name(#[trigger] v[children[j] as int]) != name by {
            if j > 0 {
                assert(children[j] == children.drop_first()[j - 1]);
            }
        }
    }
}

/// A found child is one of the children and carries the name.
pub proof fn lemma_first_named_some(v: Seq<NodeView>, children: Seq<usize>, name: Seq<char>)
    requires
        first_named(v, children, name) is Some,
    ensures
        exists|j: int| 0 <= j < children.len() && children[j] == first_named(v, children, name)->0,
        node_name(v[first_named(v, children, name)->0 as int]) == name,
    decreases children.len(),
{
    if node_name(v[children[0] as int]) != name {
        lemma_first_named_some(v, children.drop_first(), name);
        let j = choose|j: int| 0 <= j < children.drop_first().len() && children.drop_first()[j] == first_named(v, children.drop_first(), name)->0;
        assert(children[j + 1] == children.drop_first()[j]);
    } else {
        assert(children[0] == first_named(v, children, name)->0);
    }
}

/// Adding a fresh node under a directory that has no child of its name keeps the invariant.
pub proof fn lemma_add_node_wf(v: Seq<NodeView>, parent: int, n: NodeView)
    requires
        fs_wf(v),
        v.len() < usize::MAX,
        0 <= parent < v.len(),
        v[parent] is Dir,
        child_named(v, parent, node_name(n)) == None::<usize>,
        n is Dir ==> n->Dir_children.len() == 0,
    ensures
        fs_wf(add_node(v, parent, n)),
{
    let w = add_node(v, parent, n);
    let cs = v[parent]->Dir_children.push(v.len() as usize);
    assert(w.len() == v.len() + 1);
    assert(w[parent] == NodeView::Dir { name: v[parent]->Dir_name, children: cs });
    assert(w[v.len() as int] == n);
    assert forall|i: int| 0 <= i < v.len() && i != parent implies #[trigger] w[i] == v[i] by {}
    lemma_first_named_none(v, v[parent]->Dir_children, node_name(n));
    assert forall|i: int| 0 <= i < v.len() implies node_name(#[trigger] w[i]) == node_name(v[i]) by {}
    assert forall|i: int, j: int|
        #![trigger w[i]->Dir_children[j]]
        0 <= i < w.len() && w[i] is Dir && 0 <= j < w[i]->Dir_children.len() implies i
            < w[i]->Dir_children[j] < w.len() by {
        if i == parent {
            if j < v[parent]->Dir_children.len() {
                assert(cs[j] == v[parent]->Dir_children[j]);
            } else {
                assert(cs[j] == v.len());
            }
        } else if i < v.len() {
            assert(w[i] == v[i]);
        }
    }
    assert forall|i: int, j: int, k: int|
        #![trigger w[i]->Dir_children[j], w[i]->Dir_children[k]]
        0 <= i < w.len() && w[i] is Dir && 0 <= j < k < w[i]->Dir_children.len() implies node_name(
            w[w[i]->Dir_children[j] as int],
        ) != node_name(w[w[i]->Dir_children[k] as int]) by {
        if i == parent {
            let cj = cs[j];
            let ck = cs[k];
            assert(cj == v[parent]->Dir_children[j]);
            assert(v[parent]->Dir_children[j] < v.len());
            assert(w[cj as int] == v[cj as int]);
            if k == v[parent]->Dir_children.len() {
                assert(ck == v.len());
                assert(node_name(v[v[parent]->Dir_children[j] as int]) != node_name(n));
            } else {
                assert(ck == v[parent]->Dir_children[k]);
                assert(v[parent]->Dir_children[k] < v.len());
                assert(w[ck as int] == v[ck as int]);
            }
        } else if i < v.len() {
            assert(w[i] == v[i]);
            let cj = v[i]->Dir_children[j];
            let ck = v[i]->Dir_children[k];
            assert(node_name(w[cj as int]) == node_name(v[cj as int]));
            assert(node_name(w[ck as int]) == node_name(v[ck as int]));
        }
    }
}

/// Replacing a file's bytes keeps the invariant.
pub proof fn lemma_set_data_wf(v: Seq<NodeView>, e: int, data: Seq<u8>)
    requires
        fs_wf(v),
        0 <= e < v.len(),
        v[e] is File,
    ensures
        fs_wf(v.update(e, NodeView::File { name: node_name(v[e]), data })),
{
    let w = v.update(e, NodeView::File { name: node_name(v[e]), data });
    assert forall|i: int| 0 <= i < v.len() implies node_name(#[trigger] w[i]) == node_name(v[i]) by {}
    assert forall|i: int, j: int|
        #![trigger w[i]->Dir_children[j]]
        0 <= i < w.len() && w[i] is Dir && 0 <= j < w[i]->Dir_children.len() implies i
            < w[i]->Dir_children[j] < w.len() by {
        assert(w[i] == v[i]);
    }
    assert forall|i: int, j: int, k: int|
        #![trigger w[i]->Dir_children[j], w[i]->Dir_children[k]]
        0 <= i < w.len() && w[i] is Dir && 0 <= j < k < w[i]->Dir_children.len() implies node_name(
            w[w[i]->Dir_children[j] as int],
        ) != node_name(w[w[i]->Dir_children[k] as int]) by {
        assert(w[i] == v[i]);
        assert(node_name(v[v[i]->Dir_children[j] as int]) != node_name(v[v[i]->Dir_children[k] as int]));
    }
}

/// Keeping some children of a directory whose children have distinct names
/// leaves children with distinct names, each one of the originals.
pub proof fn lemma_filter_children(v: Seq<NodeView>, s: Seq<usize>, target: usize)
    requires
        forall|j: int, k: int|
            #![trigger s[j], s[k]]
            0 <= j < k < s.len() ==> node_name(v[s[j] as int]) != node_name(v[s[k] as int]),
    ensures
        forall|j: int|
            0 <= j < kept_children(s, target).len() ==> s.contains(
                #[trigger] kept_children(s, target)[j],
            ) && kept_children(s, target)[j] != target,
        forall|j: int, k: int|
            #![trigger kept_children(s, target)[j], kept_children(s, target)[k]]
            0 <= j < k < kept_children(s, target).len() ==> node_name(
                v[kept_children(s, target)[j] as int],
            ) != node_name(v[kept_children(s, target)[k] as int]),
    decreases s.len(),
{
    reveal(Seq::filter);
    let f = kept_children(s, target);
    if s.len() > 0 {
        let d = s.drop_last();
        lemma_filter_children(v, d, target);
        let g = kept_children(d, target);
        assert(f == if s.last() != target {
            g.push(s.last())
        } else {
            g
        });
        assert forall|j: int| 0 <= j < f.len() implies s.contains(#[trigger] f[j]) && f[j] != target by {
            if j < g.len() {
                assert(f[j] == g[j]);
                assert(d.contains(g[j]));
                let a = choose|a: int| 0 <= a < d.len() && d[a] == g[j];
                assert(s[a] == d[a]);
            } else {
                assert(f[j] == s[s.len() - 1]);
            }
        }
        assert forall|j: int, k: int|
            #![trigger f[j], f[k]]
            0 <= j < k < f.len() implies node_name(v[f[j] as int]) != node_name(v[f[k] as int]) by {
            if k < g.len() {
                assert(f[j] == g[j] && f[k] == g[k]);
            } else {
                assert(f[k] == s.last());
                assert(f[j] == g[j]);
                assert(d.contains(g[j]));
                let a = choose|a: int| 0 <= a < d.len() && d[a] == g[j];
                assert(s[a] == d[a]);
                assert(node_name(v[s[a] as int]) != node_name(v[s[s.len() - 1] as int]));
            }
        }
    }
}

/// Taking a child out of a directory's listing keeps the invariant.
pub proof fn lemma_remove_child_wf(v: Seq<NodeView>, parent: int, target: usize)
    requires
        fs_wf(v),
        0 <= parent < v.len(),
        v[parent] is Dir,
    ensures
        fs_wf(remove_child(v, parent, target)),
{
    let w = remove_child(v, parent, target);
    let s = v[parent]->Dir_children;
    let f = kept_children(s, target);
    assert forall|j: int, k: int|
        #![trigger s[j], s[k]]
        0 <= j < k < s.len() implies node_name(v[s[j] as int]) != node_name(v[s[k] as int]) by {
        assert(s[j] == v[parent]->Dir_children[j]);
    }
    lemma_filter_children(v, s, target);
    assert forall|i: int| 0 <= i < v.len() implies node_name(#[trigger] w[i]) == node_name(v[i]) by {}
    assert forall|i: int, j: int|
        #![trigger w[i]->Dir_children[j]]
        0 <= i < w.len() && w[i] is Dir && 0 <= j < w[i]->Dir_children.len() implies i
            < w[i]->Dir_children[j] < w.len() by {
        if i == parent {
            assert(s.contains(f[j]));
            let a = choose|a: int| 0 <= a < s.len() && s[a] == f[j];
            assert(v[parent]->Dir_children[a] == s[a]);
        } else {
            assert(w[i] == v[i]);
        }
    }
    assert forall|i: int, j: int, k: int|
        #![trigger w[i]->Dir_children[j], w[i]->Dir_children[k]]
        0 <= i < w.len() && w[i] is Dir && 0 <= j < k < w[i]->Dir_children.len() implies node_name(
            w[w[i]->Dir_children[j] as int],
        ) != node_name(w[w[i]->Dir_children[k] as int]) by {
        if i == parent {
            assert(w[i]->Dir_children == f);
        } else {
            assert(w[i] == v[i]);
            assert(node_name(v[v[i]->Dir_children[j] as int]) != node_name(v[v[i]->Dir_children[k] as int]));
        }
    }
}

/// What listing a directory gives: each child's name and whether it is a directory.
pub open spec fn list_dir_spec(v: Seq<NodeView>, p: Seq<char>) -> Result<Seq<(Seq<char>, bool)>, &'static str> {
    match resolve_spec(v, p) {
        None => Err("Directory not found"),
        Some(i) => match v[i as int] {
            NodeView::Dir { children, .. } => Ok(
                children.map_values(|c: usize| (node_name(v[c as int]), v[c as int] is Dir)),
            ),
            NodeView::File { .. } => Err("Not a directory"),
        },
    }
}

/// What reading a file gives: its bytes decoded as UTF-8.
pub open spec fn read_file_spec(v: Seq<NodeView>, p: Seq<char>) -> Result<Seq<char>, &'static str> {
    match resolve_spec(v, p) {
        None => Err("File not found"),
        Some(i) => match v[i as int] {
            NodeView::File { data, .. } => if valid_utf8(data) {
                Ok(decode_utf8(data))
            } else {
                Err("File is not valid UTF-8")
            },
            NodeView::Dir { .. } => Err("Is a directory"),
        },
    }
}

/// Whether a path names a directory.
pub open spec fn is_dir_spec(v: Seq<NodeView>, p: Seq<char>) -> bool {
    match resolve_spec(v, p) {
        Some(i) => v[i as int] is Dir,
        None => false,
    }
}

/// The plain values of directory entries.
pub open spec fn entry_views(es: Seq<(String, bool)>) -> Seq<(Seq<char>, bool)> {
    es.map_values(|e: (String, bool)| (e.0@, e.1))
}

/// The plain value of a listing.
pub open spec fn listing_view(r: Result<Vec<(String, bool)>, &'static str>) -> Result<Seq<(Seq<char>, bool)>, &'static str> {
    match r {
        Ok(es) => Ok(entry_views(es@)),
        Err(e) => Err(e),
    }
}

/// The plain value of a text result.
pub open spec fn text_result_view(r: Result<String, &'static str>) -> Result<Seq<char>, &'static str> {
    match r {
        Ok(s) => Ok(s@),
        Err(e) => Err(e),
    }
}

/// The root path names the root directory.
pub proof fn lemma_resolve_root(v: Seq<NodeView>, p: Seq<char>)
    requires
        p == "/"@,
    ensures
        resolve_spec(v, p) == Some(0usize),
{
    reveal_strlit("/");
    assert(p == seq!['/']);
    assert(p.drop_last() == Seq::<char>::empty());
    let e = Seq::<char>::empty();
    assert(split_parts(e, '/') == (Seq::<Seq<char>>::empty(), e));
    assert(p.last() == '/');
    assert(split_parts(p, '/') == (Seq::<Seq<char>>::empty().push(e), e));
    lemma_nonempty_pieces_push(Seq::empty(), e);
    lemma_nonempty_pieces_push(seq![e], e);
    assert(Seq::<Seq<char>>::empty().push(e) == seq![e]);
    reveal(Seq::filter);
    assert(path_components(p) == Seq::<Seq<char>>::empty());
}

/// The names along a path, as the resolver follows them.
fn components(path: &str) -> (parts: Vec<String>)
    ensures
        views(parts@) == path_components(path@),
{
    let chars = chars_of(path);
    let mut parts: Vec<String> = Vec::new();
    let mut cur: Vec<char> = Vec::new();
    let mut i: usize = 0;
    while i < chars.len()
        invariant
            i <= chars@.len(),
            chars@ == path@,
            views(parts@) == nonempty_pieces(split_parts(chars@.take(i as int), '/').0),
            cur@ == split_parts(chars@.take(i as int), '/').1,
        decreases chars@.len() - i,
    {
        let ghost prev = chars@.take(i as int);
        let ghost done = split_parts(prev, '/').0;
        let ghost old_parts = views(parts@);
        let ghost old_cur = cur@;
        let c = chars[i];
        i = i + 1;
        assert(chars@.take(i as int).drop_last() == prev);
        assert(c == chars@.take(i as int).last());
        if c == '/' {
            proof {
                lemma_nonempty_pieces_push(done, old_cur);
            }
            if cur.len() > 0 {
                let part = string_from_chars(cur.as_slice());
                parts.push(part);
                assert(views(parts@) =~= old_parts.push(old_cur));
            } else {
                assert(views(parts@) =~= old_parts);
            }
            cur = Vec::new();
        } else {
            cur.push(c);
            assert(views(parts@) =~= old_parts);
        }
    }
    assert(chars@.take(i as int) == path@);
    let ghost done = split_parts(path@, '/').0;
    let ghost old_parts = views(parts@);
    proof {
        lemma_nonempty_pieces_push(done, cur@);
    }
    if cur.len() > 0 {
        let part = string_from_chars(cur.as_slice());
        parts.push(part);
        assert(views(parts@) =~= old_parts.push(cur@));
    }
    parts
}

/// Keeping the non-empty pieces commutes with appending one piece.
pub proof fn lemma_nonempty_pieces_push(ps: Seq<Seq<char>>, p: Seq<char>)
    ensures
        nonempty_pieces(ps.push(p)) == if p.len() > 0 {
            nonempty_pieces(ps).push(p)
        } else {
            nonempty_pieces(ps)
        },
{
    reveal(Seq::filter);
    assert(ps.push(p).drop_last() == ps);
}

/// The position of the last `c` in `p`.
pub open spec fn last_index_of(p: Seq<char>, c: char) -> Option<int>
    decreases p.len(),
{
    if p.len() == 0 {
        None
    } else if p.last() == c {
        Some(p.len() - 1)
    } else {
        last_index_of(p.drop_last(), c)
    }
}

/// How a path splits into its parent directory and its last name: at the last
/// slash, the parent being `/` when that slash is the first character.
pub open spec fn split_path_spec(p: Seq<char>) -> Result<(Seq<char>, Seq<char>), &'static str> {
    match last_index_of(p, '/') {
        None => Err("Invalid path"),
        Some(i) => if p.skip(i + 1).len() == 0 {
            Err("Path ends with /")
        } else {
            Ok((if i == 0 { seq!['/'] } else { p.take(i) }, p.skip(i + 1)))
        },
    }
}

/// The views of a split path.
pub open spec fn split_view(r: Result<(&str, &str), &'static str>) -> Result<(Seq<char>, Seq<char>), &'static str> {
    match r {
        Ok((a, b)) => Ok((a@, b@)),
        Err(e) => Err(e),
    }
}

/// Splits `/documents/hello.txt` into `("/documents", "hello.txt")` and
/// `/hello.txt` into `("/", "hello.txt")`; an error when the path has no slash
/// or nothing after its last slash.
pub fn split_path(path: &str) -> (r: Result<(&str, &str), &'static str>)
    ensures
        split_view(r) == split_path_spec(path@),
{
    let chars = chars_of(path);
    let n = chars.len();
    let mut i: usize = n;
    assert(chars@.take(n as int) == chars@);
    while i > 0
        invariant
            i <= n,
            n == chars@.len(),
            chars@ == path@,
            last_index_of(path@, '/') == last_index_of(chars@.take(i as int), '/'),
        decreases i,
    {
        assert(chars@.take(i as int).drop_last() == chars@.take(i - 1));
        assert(chars@.take(i as int).last() == chars@[i - 1]);
        if chars[i - 1] == '/' {
            let last_slash = i - 1;
            let parent: &str = if last_slash == 0 {
                proof {
                    reveal_strlit("/");
                }
                "/"
            } else {
                path.substring_char(0, last_slash)
            };
            assert(parent@ == if last_slash == 0 {
                seq!['/']
            } else {
                path@.take(last_slash as int)
            });
            let name = path.substring_char(last_slash + 1, n);
            assert(name@ == path@.skip(last_slash + 1));
            assert(last_index_of(path@, '/') == Some(last_slash as int));
            if name.is_empty() {
                return Err("Path ends with /");
            }
            return Ok((parent, name));
        }
        i = i - 1;
    }
    Err("Invalid path")
}

/// Whether two string slices hold the same characters.
pub fn same_text(a: &str, b: &str) -> (r: bool)
    ensures
        r == (a@ == b@),
{
    let x = chars_of(a);
    let y = chars_of(b);
    if x.len() != y.len() {
        return false;
    }
    let mut i: usize = 0;
    while i < x.len()
        invariant
            x@ == a@,
            y@ == b@,
            x@.len() == y@.len(),
            i <= x@.len(),
            forall|j: int| 0 <= j < i ==> x@[j] == y@[j],
        decreases x@.len() - i,
    {
        if x[i] != y[i] {
            return false;
        }
        i = i + 1;
    }
    assert(x@ =~= y@);
    true
}

} // verus!
