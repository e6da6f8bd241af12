//! What the filesystem promises across operations: a read gives back what a
//! write wrote, a new directory is there to list, a removed entry is gone.
use vstd::prelude::*;
use vstd::utf8::{encode_utf8_decode_utf8, valid_utf8};
use crate::fdfs::{
    add_node, child_named, first_named, fs_wf, is_dir_spec, kept_children, last_index_of,
    lemma_add_node_wf, lemma_filter_children, lemma_first_named_none, lemma_first_named_some,
    lemma_remove_child_wf, lemma_resolve_root, lemma_set_data_wf, Fdfs, lemma_nonempty_pieces_push, list_dir_spec,
    make_dir_spec, node_name, path_components, read_file_spec, remove_child, remove_spec,
    resolve_spec, split_path_spec, walk, write_file_spec, NodeView,
};
use crate::text::{bytes_of, lemma_split_parts_around, lemma_split_parts_no_sep, nonempty_pieces, split_on, split_parts};

verus! {

broadcast use vstd::utf8::encode_utf8_valid_utf8;

/// The last occurrence is an occurrence, and nothing after it matches.
pub proof fn lemma_last_index_of(p: Seq<char>, c: char)
    requires
        last_index_of(p, c) is Some,
    ensures
        0 <= last_index_of(p, c)->0 < p.len(),
        p[last_index_of(p, c)->0] == c,
        forall|j: int| last_index_of(p, c)->0 < j < p.len() ==> p[j] != c,
    decreases p.len(),
{
    if p.last() != c {
        lemma_last_index_of(p.drop_last(), c);
        let i = last_index_of(p, c)->0;
        assert forall|j: int| i < j < p.len() implies p[j] != c by {
            if j < p.len() - 1 {
                assert(p[j] == p.drop_last()[j]);
            }
        }
    }
}

/// The path `/` has no components; neither has the empty path.
pub proof fn lemma_root_components()
    ensures
        path_components(seq!['/']) == Seq::<Seq<char>>::empty(),
        path_components(Seq::<char>::empty()) == Seq::<Seq<char>>::empty(),
{
    let e = Seq::<char>::empty();
    assert(seq!['/'] == e + seq!['/'] + e);
    lemma_split_parts_around(e, '/', e);
    assert(split_parts(e, '/') == (Seq::<Seq<char>>::empty(), e));
    assert(split_on(e, '/') == seq![e]);
    lemma_nonempty_pieces_push(Seq::empty(), e);
    assert(Seq::<Seq<char>>::empty().push(e) == seq![e]);
    assert(nonempty_pieces(Seq::<Seq<char>>::empty()) == Seq::<Seq<char>>::empty()) by {
        reveal(Seq::filter);
    }
    assert(split_on(seq!['/'], '/') == seq![e].push(e));
    lemma_nonempty_pieces_push(seq![e], e);
}

/// The components of a path are those of its parent followed by its last name.
pub proof fn lemma_split_path_components(p: Seq<char>)
    requires
        split_path_spec(p) is Ok,
    ensures
        path_components(p) == path_components(split_path_spec(p)->Ok_0.0) + seq![
            split_path_spec(p)->Ok_0.1,
        ],
{
    lemma_last_index_of(p, '/');
    let i = last_index_of(p, '/')->0;
    let a = p.take(i);
    let name = p.skip(i + 1);
    assert(p == a + seq!['/'] + name);
    lemma_split_parts_around(a, '/', name);
    lemma_split_parts_no_sep(name, '/');
    assert(split_on(p, '/') == split_on(a, '/').push(name)) by {
        assert((split_on(a, '/') + Seq::<Seq<char>>::empty()).push(name) == split_on(a, '/').push(name));
    }
    lemma_nonempty_pieces_push(split_on(a, '/'), name);
    assert(path_components(p) == path_components(a) + seq![name]);
    lemma_root_components();
    if i == 0 {
        assert(a == Seq::<char>::empty());
    }
}

/// Following a path in two parts is following the first, then the second.
pub proof fn lemma_walk_append(v: Seq<NodeView>, cur: usize, a: Seq<Seq<char>>, b: Seq<Seq<char>>)
    ensures
        walk(v, cur, a + b) == match walk(v, cur, a) {
            Some(x) => walk(v, x, b),
            None => None,
        },
    decreases a.len(),
{
    if a.len() == 0 {
        assert(a + b == b);
    } else {
        assert((a + b)[0] == a[0]);
        assert((a + b).drop_first() == a.drop_first() + b);
        match child_named(v, cur as int, a[0]) {
            Some(c) => lemma_walk_append(v, c, a.drop_first(), b),
            None => {},
        }
    }
}

/// A path whose parent resolves names the parent's child of its last name.
pub proof fn lemma_resolve_split(v: Seq<NodeView>, p: Seq<char>)
    requires
        split_path_spec(p) is Ok,
    ensures
        resolve_spec(v, p) == match resolve_spec(v, split_path_spec(p)->Ok_0.0) {
            Some(pi) => child_named(v, pi as int, split_path_spec(p)->Ok_0.1),
            None => None,
        },
{
    let (pp, name) = split_path_spec(p)->Ok_0;
    lemma_split_path_components(p);
    lemma_walk_append(v, 0, path_components(pp), seq![name]);
    match resolve_spec(v, pp) {
        Some(pi) => {
            assert(seq![name][0] == name);
            assert(seq![name].drop_first() == Seq::<Seq<char>>::empty());
            reveal_with_fuel(walk, 2);
        },
        None => {},
    }
}

/// When the children's nodes carry the same names in `v` and `w`, the first
/// child of a name is the same.
pub proof fn lemma_first_named_same_names(
    v: Seq<NodeView>,
    w: Seq<NodeView>,
    ch: Seq<usize>,
    name: Seq<char>,
)
    requires
        forall|j: int| 0 <= j < ch.len() ==> node_name(v[#[trigger] ch[j] as int]) == node_name(w[ch[j] as int]),
    ensures
        first_named(v, ch, name) == first_named(w, ch, name),
    decreases ch.len(),
{
    if ch.len() > 0 {
        assert(node_name(v[ch[0] as int]) == node_name(w[ch[0] as int]));
        assert forall|j: int| 0 <= j < ch.drop_first().len() implies node_name(
            v[#[trigger] ch.drop_first()[j] as int],
        ) == node_name(w[ch.drop_first()[j] as int]) by {
            assert(ch.drop_first()[j] == ch[j + 1]);
        }
        lemma_first_named_same_names(v, w, ch.drop_first(), name);
    }
}

/// Listing one more child changes the first child of a name only when no
/// earlier child had it.
pub proof fn lemma_first_named_push(v: Seq<NodeView>, ch: Seq<usize>, x: usize, name: Seq<char>)
    ensures
        first_named(v, ch.push(x), name) == match first_named(v, ch, name) {
            Some(y) => Some(y),
            None => if node_name(v[x as int]) == name {
                Some(x)
            } else {
                None
            },
        },
    decreases ch.len(),
{
    if ch.len() == 0 {
        assert(ch.push(x) == seq![x]);
        assert(seq![x].drop_first() == Seq::<usize>::empty());
        assert(seq![x][0] == x);
        reveal_with_fuel(first_named, 2);
    } else {
        assert(ch.push(x)[0] == ch[0]);
        assert(ch.push(x).drop_first() == ch.drop_first().push(x));
        lemma_first_named_push(v, ch.drop_first(), x, name);
    }
}

/// Every node of a well-formed filesystem that a walk reaches lies in the
/// vector at or after the start, strictly after it when the walk moved.
pub proof fn lemma_walk_forward(v: Seq<NodeView>, cur: usize, cs: Seq<Seq<char>>)
    requires
        fs_wf(v),
        cur < v.len(),
        walk(v, cur, cs) is Some,
    ensures
        cur <= walk(v, cur, cs)->0 < v.len(),
        cs.len() > 0 ==> cur < walk(v, cur, cs)->0,
    decreases cs.len(),
{
    if cs.len() > 0 {
        let c = child_named(v, cur as int, cs[0])->0;
        lemma_first_named_some(v, v[cur as int]->Dir_children, cs[0]);
        let j = choose|j: int|
            0 <= j < v[cur as int]->Dir_children.len() && v[cur as int]->Dir_children[j] == c;
        assert(cur < v[cur as int]->Dir_children[j] < v.len());
        lemma_walk_forward(v, c, cs.drop_first());
    }
}

/// Adding a node under a directory with no child of its name leaves every
/// path that resolved resolving to the same node.
pub proof fn lemma_walk_add_node(
    v: Seq<NodeView>,
    parent: int,
    n: NodeView,
    cur: usize,
    cs: Seq<Seq<char>>,
)
    requires
        fs_wf(v),
        0 <= parent < v.len(),
        v[parent] is Dir,
        child_named(v, parent, node_name(n)) == None::<usize>,
        cur < v.len(),
        walk(v, cur, cs) is Some,
    ensures
        walk(add_node(v, parent, n), cur, cs) == walk(v, cur, cs),
    decreases cs.len(),
{
    let w = add_node(v, parent, n);
    if cs.len() > 0 {
        let k = cs[0];
        let ch = v[cur as int]->Dir_children;
        let c = child_named(v, cur as int, k)->0;
        assert forall|j: int| 0 <= j < ch.len() implies node_name(v[#[trigger] ch[j] as int]) == node_name(
            w[ch[j] as int],
        ) by {
            assert(cur < ch[j] < v.len());
        }
        lemma_first_named_same_names(v, w, ch, k);
        if cur as int == parent {
            lemma_first_named_push(w, ch, v.len() as usize, k);
            assert(w[parent]->Dir_children == ch.push(v.len() as usize));
        } else {
            assert(w[cur as int] == v[cur as int]);
        }
        assert(child_named(w, cur as int, k) == Some(c));
        lemma_first_named_some(v, ch, k);
        let j = choose|j: int| 0 <= j < ch.len() && ch[j] == c;
        assert(cur < ch[j] < v.len());
        lemma_walk_add_node(v, parent, n, c, cs.drop_first());
    }
}

/// Changing one node while keeping every name leaves each walk that ends at
/// that node ending there: such a walk only looks inside nodes before it.
pub proof fn lemma_walk_to_changed(
    v: Seq<NodeView>,
    w: Seq<NodeView>,
    x: usize,
    cur: usize,
    cs: Seq<Seq<char>>,
)
    requires
        fs_wf(v),
        w.len() == v.len(),
        forall|i: int| 0 <= i < v.len() && i != x ==> #[trigger] w[i] == v[i],
        forall|i: int| 0 <= i < v.len() ==> node_name(#[trigger] w[i]) == node_name(v[i]),
        cur < v.len(),
        walk(v, cur, cs) == Some(x),
    ensures
        walk(w, cur, cs) == Some(x),
    decreases cs.len(),
{
    if cs.len() > 0 {
        lemma_walk_forward(v, cur, cs);
        assert(w[cur as int] == v[cur as int]);
        let k = cs[0];
        let ch = v[cur as int]->Dir_children;
        let c = child_named(v, cur as int, k)->0;
        assert forall|j: int| 0 <= j < ch.len() implies node_name(v[#[trigger] ch[j] as int]) == node_name(
            w[ch[j] as int],
        ) by {
            assert(cur < ch[j] < v.len());
        }
        lemma_first_named_same_names(v, w, ch, k);
        lemma_first_named_some(v, ch, k);
        let j = choose|j: int| 0 <= j < ch.len() && ch[j] == c;
        assert(cur < ch[j] < v.len());
        lemma_walk_to_changed(v, w, x, c, cs.drop_first());
    }
}

/// Changing a file's bytes changes no walk.
pub proof fn lemma_walk_set_data(v: Seq<NodeView>, e: int, data: Seq<u8>, cur: usize, cs: Seq<Seq<char>>)
    requires
        fs_wf(v),
        0 <= e < v.len(),
        v[e] is File,
        cur < v.len(),
    ensures
        walk(v.update(e, NodeView::File { name: node_name(v[e]), data }), cur, cs) == walk(v, cur, cs),
    decreases cs.len(),
{
    let w = v.update(e, NodeView::File { name: node_name(v[e]), data });
    if cs.len() > 0 {
        let k = cs[0];
        if v[cur as int] is Dir {
            let ch = v[cur as int]->Dir_children;
            assert(w[cur as int] == v[cur as int]);
            assert forall|j: int| 0 <= j < ch.len() implies node_name(v[#[trigger] ch[j] as int]) == node_name(
                w[ch[j] as int],
            ) by {
                assert(cur < ch[j] < v.len());
            }
            lemma_first_named_same_names(v, w, ch, k);
            match child_named(v, cur as int, k) {
                Some(c) => {
                    lemma_first_named_some(v, ch, k);
                    let j = choose|j: int| 0 <= j < ch.len() && ch[j] == c;
                    assert(cur < ch[j] < v.len());
                    lemma_walk_set_data(v, e, data, c, cs.drop_first());
                },
                None => {},
            }
        } else {
            assert(w[cur as int] is File);
        }
    }
}

/// A node added under the parent of `p`, named like the last component of `p`,
/// is what `p` then names.
pub proof fn lemma_resolve_added(v: Seq<NodeView>, p: Seq<char>, n: NodeView)
    requires
        fs_wf(v),
        split_path_spec(p) is Ok,
        resolve_spec(v, split_path_spec(p)->Ok_0.0) is Some,
        v[resolve_spec(v, split_path_spec(p)->Ok_0.0)->0 as int] is Dir,
        child_named(v, resolve_spec(v, split_path_spec(p)->Ok_0.0)->0 as int, split_path_spec(p)->Ok_0.1)
            == None::<usize>,
        node_name(n) == split_path_spec(p)->Ok_0.1,
    ensures
        resolve_spec(add_node(v, resolve_spec(v, split_path_spec(p)->Ok_0.0)->0 as int, n), p)
            == Some(v.len() as usize),
        add_node(v, resolve_spec(v, split_path_spec(p)->Ok_0.0)->0 as int, n)[v.len() as int] == n,
{
    let (pp, name) = split_path_spec(p)->Ok_0;
    let pi = resolve_spec(v, pp)->0;
    let w = add_node(v, pi as int, n);
    lemma_resolve_split(w, p);
    lemma_walk_forward(v, 0, path_components(pp));
    lemma_walk_add_node(v, pi as int, n, 0, path_components(pp));
    let ch = v[pi as int]->Dir_children;
    lemma_first_named_push(w, ch, v.len() as usize, name);
    lemma_first_named_none(v, ch, name);
    assert forall|k: int| 0 <= k < ch.len() implies node_name(v[#[trigger] ch[k] as int]) == node_name(
        w[ch[k] as int],
    ) by {
        assert(pi < ch[k] < v.len());
    }
    lemma_first_named_same_names(v, w, ch, name);
    assert(w[v.len() as int] == n);
}

/// Read after write: once writing `contents` to `p` has succeeded, reading `p`
/// gives back exactly `contents`.
pub proof fn law_read_after_write(v: Seq<NodeView>, p: Seq<char>, contents: Seq<char>)
    requires
        fs_wf(v),
        write_file_spec(v, p, contents).0 is Ok,
    ensures
        read_file_spec(write_file_spec(v, p, contents).1, p) == Ok::<Seq<char>, &'static str>(contents),
{
    let (pp, name) = split_path_spec(p)->Ok_0;
    let pi = resolve_spec(v, pp)->0;
    let w = write_file_spec(v, p, contents).1;
    lemma_resolve_split(v, p);
    lemma_resolve_split(w, p);
    encode_utf8_decode_utf8(contents);
    match child_named(v, pi as int, name) {
        Some(e) => {
            lemma_walk_forward(v, 0, path_components(pp));
            lemma_first_named_some(v, v[pi as int]->Dir_children, name);
            let j = choose|j: int| 0 <= j < v[pi as int]->Dir_children.len() && v[pi as int]->Dir_children[j] == e;
            assert(pi < v[pi as int]->Dir_children[j] < v.len());
            lemma_walk_set_data(v, e as int, bytes_of(contents), 0, path_components(pp));
            assert(w[pi as int] == v[pi as int]);
            assert forall|k: int| 0 <= k < v[pi as int]->Dir_children.len() implies node_name(
                v[#[trigger] v[pi as int]->Dir_children[k] as int],
            ) == node_name(w[v[pi as int]->Dir_children[k] as int]) by {
                assert(pi < v[pi as int]->Dir_children[k] < v.len());
            }
            lemma_first_named_same_names(v, w, v[pi as int]->Dir_children, name);
        },
        None => {
            lemma_resolve_added(v, p, NodeView::File { name, data: bytes_of(contents) });
        },
    }
}

/// A write changes no other file: every path that named a node other than the
/// one written names the same node afterwards and reads the same.
pub proof fn law_write_keeps_others(v: Seq<NodeView>, p: Seq<char>, contents: Seq<char>, q: Seq<char>)
    requires
        fs_wf(v),
        write_file_spec(v, p, contents).0 is Ok,
        resolve_spec(v, q) is Some,
        resolve_spec(v, q) != resolve_spec(v, p),
    ensures
        resolve_spec(write_file_spec(v, p, contents).1, q) == resolve_spec(v, q),
        read_file_spec(write_file_spec(v, p, contents).1, q) == read_file_spec(v, q),
{
    let (pp, name) = split_path_spec(p)->Ok_0;
    let pi = resolve_spec(v, pp)->0;
    let w = write_file_spec(v, p, contents).1;
    let x = resolve_spec(v, q)->0;
    lemma_resolve_split(v, p);
    lemma_walk_forward(v, 0, path_components(q));
    lemma_walk_forward(v, 0, path_components(pp));
    match child_named(v, pi as int, name) {
        Some(e) => {
            lemma_first_named_some(v, v[pi as int]->Dir_children, name);
            let j = choose|j: int| 0 <= j < v[pi as int]->Dir_children.len() && v[pi as int]->Dir_children[j] == e;
            assert(pi < v[pi as int]->Dir_children[j] < v.len());
            lemma_walk_set_data(v, e as int, bytes_of(contents), 0, path_components(q));
            assert(x != e);
            assert(w[x as int] == v[x as int]);
        },
        None => {
            let n = NodeView::File { name, data: bytes_of(contents) };
            lemma_walk_add_node(v, pi as int, n, 0, path_components(q));
            if x != pi {
                assert(w[x as int] == v[x as int]);
            } else {
                assert(w[x as int] is Dir);
            }
        },
    }
}

/// A directory just made is there: its path names a directory, and listing it
/// gives nothing.
pub proof fn law_make_dir_then_empty_dir(v: Seq<NodeView>, p: Seq<char>)
    requires
        fs_wf(v),
        make_dir_spec(v, p).0 is Ok,
    ensures
        is_dir_spec(make_dir_spec(v, p).1, p),
        list_dir_spec(make_dir_spec(v, p).1, p) == Ok::<Seq<(Seq<char>, bool)>, &'static str>(Seq::empty()),
{
    let (pp, name) = split_path_spec(p)->Ok_0;
    let n = NodeView::Dir { name, children: Seq::empty() };
    lemma_resolve_added(v, p, n);
    let w = make_dir_spec(v, p).1;
    assert(w[v.len() as int]->Dir_children.map_values(
        |c: usize| (node_name(w[c as int]), w[c as int] is Dir),
    ) == Seq::<(Seq<char>, bool)>::empty());
}

/// Making a directory changes nothing else: every path that named a node names
/// the same node afterwards, and every file reads the same.
pub proof fn law_make_dir_keeps_others(v: Seq<NodeView>, p: Seq<char>, q: Seq<char>)
    requires
        fs_wf(v),
        make_dir_spec(v, p).0 is Ok,
        resolve_spec(v, q) is Some,
    ensures
        resolve_spec(make_dir_spec(v, p).1, q) == resolve_spec(v, q),
        read_file_spec(make_dir_spec(v, p).1, q) == read_file_spec(v, q),
{
    let (pp, name) = split_path_spec(p)->Ok_0;
    let pi = resolve_spec(v, pp)->0;
    let n = NodeView::Dir { name, children: Seq::empty() };
    let w = make_dir_spec(v, p).1;
    let x = resolve_spec(v, q)->0;
    lemma_walk_forward(v, 0, path_components(pp));
    lemma_walk_forward(v, 0, path_components(q));
    lemma_walk_add_node(v, pi as int, n, 0, path_components(q));
    if x != pi {
        assert(w[x as int] == v[x as int]);
    } else {
        assert(w[x as int] is Dir);
    }
}

/// Making the same directory twice: the second attempt fails with "Already
/// exists" and changes nothing.
pub proof fn law_make_dir_twice(v: Seq<NodeView>, p: Seq<char>)
    requires
        fs_wf(v),
        make_dir_spec(v, p).0 is Ok,
    ensures
        make_dir_spec(make_dir_spec(v, p).1, p) == (
            Err::<(), &'static str>("Already exists"),
            make_dir_spec(v, p).1,
        ),
{
    let (pp, name) = split_path_spec(p)->Ok_0;
    let pi = resolve_spec(v, pp)->0;
    let n = NodeView::Dir { name, children: Seq::empty() };
    let w = make_dir_spec(v, p).1;
    lemma_resolve_added(v, p, n);
    lemma_walk_forward(v, 0, path_components(pp));
    lemma_walk_add_node(v, pi as int, n, 0, path_components(pp));
    lemma_resolve_split(w, p);
}

/// A removed entry is gone: after a successful removal the path names nothing,
/// so reading it reports "File not found".
pub proof fn law_remove_then_gone(v: Seq<NodeView>, p: Seq<char>)
    requires
        fs_wf(v),
        remove_spec(v, p).0 is Ok,
    ensures
        resolve_spec(remove_spec(v, p).1, p) == None::<usize>,
        read_file_spec(remove_spec(v, p).1, p) == Err::<Seq<char>, &'static str>("File not found"),
{
    let (pp, name) = split_path_spec(p)->Ok_0;
    let pi = resolve_spec(v, pp)->0;
    let t = child_named(v, pi as int, name)->0;
    let w = remove_child(v, pi as int, t);
    let ch = v[pi as int]->Dir_children;
    let kept = kept_children(ch, t);
    lemma_walk_forward(v, 0, path_components(pp));
    assert forall|i: int| 0 <= i < v.len() implies node_name(#[trigger] w[i]) == node_name(v[i]) by {}
    lemma_walk_to_changed(v, w, pi, 0, path_components(pp));
    lemma_resolve_split(w, p);
    // The removed child was the only one of that name.
    lemma_first_named_some(v, ch, name);
    let jt = choose|j: int| 0 <= j < ch.len() && ch[j] == t;
    crate::fdfs::lemma_filter_children(v, ch, t);
    assert forall|k: int| 0 <= k < kept.len() implies node_name(#[trigger] w[kept[k] as int]) != name by {
        assert(ch.contains(kept[k]));
        let a = choose|a: int| 0 <= a < ch.len() && ch[a] == kept[k];
        assert(kept[k] != t);
        assert(a != jt);
        assert(pi < ch[a] < v.len());
        if a < jt {
            assert(node_name(v[ch[a] as int]) != node_name(v[ch[jt] as int]));
        } else {
            assert(node_name(v[ch[jt] as int]) != node_name(v[ch[a] as int]));
        }
    }
    lemma_first_named_absent(w, kept, name);
}

/// No child carrying the name: no child found.
pub proof fn lemma_first_named_absent(v: Seq<NodeView>, ch: Seq<usize>, name: Seq<char>)
    requires
        forall|k: int| 0 <= k < ch.len() ==> node_name(#[trigger] v[ch[k] as int]) != name,
    ensures
        first_named(v, ch, name) == None::<usize>,
    decreases ch.len(),
{
    if ch.len() > 0 {
        assert(node_name(v[ch[0] as int]) != name);
        assert forall|k: int| 0 <= k < ch.drop_first().len() implies node_name(
            #[trigger] v[ch.drop_first()[k] as int],
        ) != name by {
            assert(ch.drop_first()[k] == ch[k + 1]);
        }
        lemma_first_named_absent(v, ch.drop_first(), name);
    }
}

/// A name that a node other than the root can carry: non-empty, without `/`.
pub open spec fn valid_name(n: Seq<char>) -> bool {
    n.len() > 0 && forall|k: int| 0 <= k < n.len() ==> n[k] != '/'
}

/// No node is listed twice: not twice by one directory, not by two directories.
pub open spec fn single_parent(v: Seq<NodeView>) -> bool {
    forall|i1: int, j1: int, i2: int, j2: int|
        #![trigger v[i1]->Dir_children[j1], v[i2]->Dir_children[j2]]
        0 <= i1 < v.len() && 0 <= i2 < v.len() && v[i1] is Dir && v[i2] is Dir && 0 <= j1
            < v[i1]->Dir_children.len() && 0 <= j2 < v[i2]->Dir_children.len()
            && v[i1]->Dir_children[j1] == v[i2]->Dir_children[j2] ==> i1 == i2 && j1 == j2
}

/// The full invariant of a filesystem built by its operations: the structural
/// one (`fs_wf`), the root named `/`, every other name non-empty and free of
/// `/`, every file's bytes valid UTF-8, and every node listed at most once.
pub open spec fn fs_inv(v: Seq<NodeView>) -> bool {
    &&& fs_wf(v)
    &&& node_name(v[0]) == seq!['/']
    &&& forall|i: int| 1 <= i < v.len() ==> valid_name(#[trigger] node_name(v[i]))
    &&& forall|i: int| 0 <= i < v.len() && v[i] is File ==> valid_utf8(#[trigger] v[i]->File_data)
    &&& single_parent(v)
}

/// The last component of a split path is a valid name.
pub proof fn lemma_split_name_valid(p: Seq<char>)
    requires
        split_path_spec(p) is Ok,
    ensures
        valid_name(split_path_spec(p)->Ok_0.1),
{
    lemma_last_index_of(p, '/');
    let i = last_index_of(p, '/')->0;
    let name = p.skip(i + 1);
    assert forall|k: int| 0 <= k < name.len() implies name[k] != '/' by {
        assert(name[k] == p[i + 1 + k]);
    }
}

/// Adding a fresh, validly named node under a directory keeps the full invariant.
pub proof fn lemma_inv_add_node(v: Seq<NodeView>, parent: int, n: NodeView)
    requires
        fs_inv(v),
        v.len() < usize::MAX,
        0 <= parent < v.len(),
        v[parent] is Dir,
        child_named(v, parent, node_name(n)) == None::<usize>,
        n is Dir ==> n->Dir_children.len() == 0,
        n is File ==> valid_utf8(n->File_data),
        valid_name(node_name(n)),
    ensures
        fs_inv(add_node(v, parent, n)),
{
    let w = add_node(v, parent, n);
    let ch = v[parent]->Dir_children;
    let cs = ch.push(v.len() as usize);
    lemma_add_node_wf(v, parent, n);
    assert(w[parent] == NodeView::Dir { name: v[parent]->Dir_name, children: cs });
    assert(w[v.len() as int] == n);
    assert forall|i: int| 0 <= i < v.len() && i != parent implies #[trigger] w[i] == v[i] by {}
    assert(node_name(w[0]) == node_name(v[0]));
    assert forall|i: int| 1 <= i < w.len() implies valid_name(#[trigger] node_name(w[i])) by {
        if i < v.len() {
            assert(node_name(w[i]) == node_name(v[i]));
        }
    }
    assert forall|i: int| 0 <= i < w.len() && w[i] is File implies valid_utf8(#[trigger] w[i]->File_data) by {
        if i < v.len() {
            assert(i != parent);
            assert(w[i] == v[i]);
        }
    }
    assert forall|i1: int, j1: int, i2: int, j2: int|
        #![trigger w[i1]->Dir_children[j1], w[i2]->Dir_children[j2]]
        0 <= i1 < w.len() && 0 <= i2 < w.len() && w[i1] is Dir && w[i2] is Dir && 0 <= j1
            < w[i1]->Dir_children.len() && 0 <= j2 < w[i2]->Dir_children.len()
            && w[i1]->Dir_children[j1] == w[i2]->Dir_children[j2] implies i1 == i2 && j1 == j2 by {
        let new1 = i1 == parent && j1 == ch.len();
        let new2 = i2 == parent && j2 == ch.len();
        assert(i1 < v.len() && i2 < v.len());
        if i1 == parent && j1 < ch.len() {
            assert(w[i1]->Dir_children[j1] == v[i1]->Dir_children[j1]);
        } else if i1 != parent {
            assert(w[i1] == v[i1]);
        }
        if i2 == parent && j2 < ch.len() {
            assert(w[i2]->Dir_children[j2] == v[i2]->Dir_children[j2]);
        } else if i2 != parent {
            assert(w[i2] == v[i2]);
        }
        if new1 && new2 {
        } else if new1 {
            assert(v[i2]->Dir_children[j2] < v.len());
        } else if new2 {
            assert(v[i1]->Dir_children[j1] < v.len());
        } else {
            assert(v[i1]->Dir_children[j1] == v[i2]->Dir_children[j2]);
        }
    }
}

/// Replacing a file's bytes with valid UTF-8 keeps the full invariant.
pub proof fn lemma_inv_set_data(v: Seq<NodeView>, e: int, data: Seq<u8>)
    requires
        fs_inv(v),
        0 <= e < v.len(),
        v[e] is File,
        valid_utf8(data),
    ensures
        fs_inv(v.update(e, NodeView::File { name: node_name(v[e]), data })),
{
    let w = v.update(e, NodeView::File { name: node_name(v[e]), data });
    lemma_set_data_wf(v, e, data);
    assert forall|i: int| 0 <= i < v.len() implies node_name(#[trigger] w[i]) == node_name(v[i]) by {}
    assert forall|i: int| 0 <= i < w.len() && w[i] is File implies valid_utf8(#[trigger] w[i]->File_data) by {
        if i != e {
            assert(w[i] == v[i]);
        }
    }
    assert forall|i1: int, j1: int, i2: int, j2: int|
        #![trigger w[i1]->Dir_children[j1], w[i2]->Dir_children[j2]]
        0 <= i1 < w.len() && 0 <= i2 < w.len() && w[i1] is Dir && w[i2] is Dir && 0 <= j1
            < w[i1]->Dir_children.len() && 0 <= j2 < w[i2]->Dir_children.len()
            && w[i1]->Dir_children[j1] == w[i2]->Dir_children[j2] implies i1 == i2 && j1 == j2 by {
        assert(w[i1] == v[i1]);
        assert(w[i2] == v[i2]);
    }
}

/// Taking a child out of a directory's listing keeps the full invariant.
pub proof fn lemma_inv_remove_child(v: Seq<NodeView>, parent: int, t: usize)
    requires
        fs_inv(v),
        0 <= parent < v.len(),
        v[parent] is Dir,
    ensures
        fs_inv(remove_child(v, parent, t)),
{
    let w = remove_child(v, parent, t);
    let ch = v[parent]->Dir_children;
    let kept = kept_children(ch, t);
    lemma_remove_child_wf(v, parent, t);
    assert forall|j: int, k: int|
        #![trigger ch[j], ch[k]]
        0 <= j < k < ch.len() implies node_name(v[ch[j] as int]) != node_name(v[ch[k] as int]) by {
        assert(ch[j] == v[parent]->Dir_children[j]);
    }
    lemma_filter_children(v, ch, t);
    assert(w[parent]->Dir_children == kept);
    assert forall|i: int| 0 <= i < v.len() && i != parent implies #[trigger] w[i] == v[i] by {}
    assert forall|i: int| 0 <= i < v.len() implies node_name(#[trigger] w[i]) == node_name(v[i]) by {}
    assert forall|i: int| 1 <= i < w.len() implies valid_name(#[trigger] node_name(w[i])) by {
        assert(node_name(w[i]) == node_name(v[i]));
    }
    assert forall|i: int| 0 <= i < w.len() && w[i] is File implies valid_utf8(#[trigger] w[i]->File_data) by {
        assert(i != parent);
        assert(w[i] == v[i]);
    }
    assert forall|i1: int, j1: int, i2: int, j2: int|
        #![trigger w[i1]->Dir_children[j1], w[i2]->Dir_children[j2]]
        0 <= i1 < w.len() && 0 <= i2 < w.len() && w[i1] is Dir && w[i2] is Dir && 0 <= j1
            < w[i1]->Dir_children.len() && 0 <= j2 < w[i2]->Dir_children.len()
            && w[i1]->Dir_children[j1] == w[i2]->Dir_children[j2] implies i1 == i2 && j1 == j2 by {
        if i1 == parent && i2 == parent {
            if j1 < j2 {
                assert(node_name(v[kept[j1] as int]) != node_name(v[kept[j2] as int]));
            } else if j2 < j1 {
                assert(node_name(v[kept[j2] as int]) != node_name(v[kept[j1] as int]));
            }
        } else if i1 == parent {
            assert(w[i2] == v[i2]);
            assert(ch.contains(kept[j1]));
            let a = choose|a: int| 0 <= a < ch.len() && ch[a] == kept[j1];
            assert(v[parent]->Dir_children[a] == v[i2]->Dir_children[j2]);
        } else if i2 == parent {
            assert(w[i1] == v[i1]);
            assert(ch.contains(kept[j2]));
            let a = choose|a: int| 0 <= a < ch.len() && ch[a] == kept[j2];
            assert(v[i1]->Dir_children[j1] == v[parent]->Dir_children[a]);
        } else {
            assert(w[i1] == v[i1]);
            assert(w[i2] == v[i2]);
        }
    }
}

/// A new filesystem satisfies the full invariant.
pub proof fn law_new_fs_inv()
    ensures
        fs_inv(Fdfs::new_spec()),
{
    reveal_strlit("/");
    let v = Fdfs::new_spec();
    assert(node_name(v[0]) == seq!['/']);
}

/// Writing a file keeps the full invariant, whether it succeeds or fails.
pub proof fn law_write_file_keeps_inv(v: Seq<NodeView>, p: Seq<char>, contents: Seq<char>)
    requires
        fs_inv(v),
        v.len() < usize::MAX,
    ensures
        fs_inv(write_file_spec(v, p, contents).1),
{
    if write_file_spec(v, p, contents).0 is Ok {
        let (pp, name) = split_path_spec(p)->Ok_0;
        let pi = resolve_spec(v, pp)->0;
        lemma_walk_forward(v, 0, path_components(pp));
        match child_named(v, pi as int, name) {
            Some(e) => {
                lemma_first_named_some(v, v[pi as int]->Dir_children, name);
                let j = choose|j: int| 0 <= j < v[pi as int]->Dir_children.len() && v[pi as int]->Dir_children[j] == e;
                assert(pi < v[pi as int]->Dir_children[j] < v.len());
                lemma_inv_set_data(v, e as int, bytes_of(contents));
            },
            None => {
                lemma_split_name_valid(p);
                lemma_inv_add_node(v, pi as int, NodeView::File { name, data: bytes_of(contents) });
            },
        }
    }
}

/// Making a directory keeps the full invariant, whether it succeeds or fails.
pub proof fn law_make_dir_keeps_inv(v: Seq<NodeView>, p: Seq<char>)
    requires
        fs_inv(v),
        v.len() < usize::MAX,
    ensures
        fs_inv(make_dir_spec(v, p).1),
{
    if make_dir_spec(v, p).0 is Ok {
        let (pp, name) = split_path_spec(p)->Ok_0;
        let pi = resolve_spec(v, pp)->0;
        lemma_walk_forward(v, 0, path_components(pp));
        lemma_split_name_valid(p);
        lemma_inv_add_node(v, pi as int, NodeView::Dir { name, children: Seq::empty() });
    }
}

/// Removing an entry keeps the full invariant, whether it succeeds or fails.
pub proof fn law_remove_keeps_inv(v: Seq<NodeView>, p: Seq<char>)
    requires
        fs_inv(v),
    ensures
        fs_inv(remove_spec(v, p).1),
{
    if remove_spec(v, p).0 is Ok {
        let (pp, name) = split_path_spec(p)->Ok_0;
        let pi = resolve_spec(v, pp)->0;
        let t = child_named(v, pi as int, name)->0;
        lemma_walk_forward(v, 0, path_components(pp));
        lemma_inv_remove_child(v, pi as int, t);
    }
}

/// The root stays: in every state that keeps the invariant, `/` names node 0,
/// a directory called `/`.
pub proof fn law_root_is_slash(v: Seq<NodeView>)
    requires
        fs_inv(v),
    ensures
        resolve_spec(v, "/"@) == Some(0usize),
        v[0] is Dir,
        node_name(v[0]) == "/"@,
{
    lemma_resolve_root(v, "/"@);
    reveal_strlit("/");
}

/// Among children with distinct names, the first child carrying the name of
/// one of them is that child.
pub proof fn lemma_first_named_unique(v: Seq<NodeView>, s: Seq<usize>, j0: int)
    requires
        forall|j: int, k: int|
            #![trigger s[j], s[k]]
            0 <= j < k < s.len() ==> node_name(v[s[j] as int]) != node_name(v[s[k] as int]),
        0 <= j0 < s.len(),
    ensures
        first_named(v, s, node_name(v[s[j0] as int])) == Some(s[j0]),
    decreases s.len(),
{
    if j0 > 0 {
        assert(node_name(v[s[0] as int]) != node_name(v[s[j0] as int]));
        let t = s.drop_first();
        assert forall|j: int, k: int|
            #![trigger t[j], t[k]]
            0 <= j < k < t.len() implies node_name(v[t[j] as int]) != node_name(v[t[k] as int]) by {
            assert(t[j] == s[j + 1] && t[k] == s[k + 1]);
        }
        lemma_first_named_unique(v, t, j0 - 1);
        assert(t[j0 - 1] == s[j0]);
    }
}

/// The path of a child: the parent's path, a slash and the child's name.
pub proof fn lemma_child_components(p: Seq<char>, n: Seq<char>)
    requires
        valid_name(n),
    ensures
        path_components(p + seq!['/'] + n) == path_components(p) + seq![n],
{
    let q = p + seq!['/'] + n;
    lemma_split_parts_around(p, '/', n);
    lemma_split_parts_no_sep(n, '/');
    assert(split_on(p, '/') + Seq::<Seq<char>>::empty() == split_on(p, '/'));
    assert(split_on(q, '/') == split_on(p, '/').push(n));
    lemma_nonempty_pieces_push(split_on(p, '/'), n);
    assert(path_components(p).push(n) == path_components(p) + seq![n]);
}

/// Listing a directory tells directories from files: every entry's name, put
/// after the directory's path and a slash, names a node, and the entry is
/// flagged as a directory exactly when that path names a directory.
pub proof fn law_list_dir_flags(v: Seq<NodeView>, p: Seq<char>, i: int)
    requires
        fs_inv(v),
        list_dir_spec(v, p) is Ok,
        0 <= i < list_dir_spec(v, p)->Ok_0.len(),
    ensures
        resolve_spec(v, p + seq!['/'] + list_dir_spec(v, p)->Ok_0[i].0) is Some,
        list_dir_spec(v, p)->Ok_0[i].1 == is_dir_spec(v, p + seq!['/'] + list_dir_spec(v, p)->Ok_0[i].0),
{
    let pi = resolve_spec(v, p)->0;
    let ch = v[pi as int]->Dir_children;
    lemma_walk_forward(v, 0, path_components(p));
    let c = ch[i];
    assert(pi < c < v.len());
    let n = node_name(v[c as int]);
    assert(list_dir_spec(v, p)->Ok_0[i] == (n, v[c as int] is Dir));
    assert(valid_name(n));
    lemma_child_components(p, n);
    lemma_walk_append(v, 0, path_components(p), seq![n]);
    lemma_first_named_unique(v, ch, i);
    assert(seq![n][0] == n);
    assert(seq![n].drop_first() == Seq::<Seq<char>>::empty());
    reveal_with_fuel(walk, 2);
    assert(resolve_spec(v, p + seq!['/'] + n) == Some(c));
}

/// A directory just made is listed in its parent, flagged as a directory.
pub proof fn law_make_dir_listed(v: Seq<NodeView>, q: Seq<char>)
    requires
        fs_wf(v),
        make_dir_spec(v, q).0 is Ok,
    ensures
        list_dir_spec(make_dir_spec(v, q).1, split_path_spec(q)->Ok_0.0) is Ok,
        list_dir_spec(make_dir_spec(v, q).1, split_path_spec(q)->Ok_0.0)->Ok_0.contains(
            (split_path_spec(q)->Ok_0.1, true),
        ),
{
    let (pp, name) = split_path_spec(q)->Ok_0;
    let pi = resolve_spec(v, pp)->0;
    let n = NodeView::Dir { name, children: Seq::empty() };
    let w = make_dir_spec(v, q).1;
    lemma_walk_forward(v, 0, path_components(pp));
    lemma_walk_add_node(v, pi as int, n, 0, path_components(pp));
    let ch = w[pi as int]->Dir_children;
    assert(ch == v[pi as int]->Dir_children.push(v.len() as usize));
    let l = list_dir_spec(w, pp)->Ok_0;
    assert(l[ch.len() - 1] == (name, true));
}

/// A child other than the one taken out stays listed.
pub proof fn lemma_kept_contains(s: Seq<usize>, target: usize, c: usize)
    requires
        s.contains(c),
        c != target,
    ensures
        kept_children(s, target).contains(c),
    decreases s.len(),
{
    reveal(Seq::filter);
    let d = s.drop_last();
    let f = kept_children(s, target);
    let g = kept_children(d, target);
    assert(f == if s.last() != target {
        g.push(s.last())
    } else {
        g
    });
    if s.last() == c {
        assert(f[f.len() - 1] == c);
    } else {
        let a = choose|a: int| 0 <= a < s.len() && s[a] == c;
        assert(d[a] == c);
        lemma_kept_contains(d, target, c);
        let b = choose|b: int| 0 <= b < g.len() && g[b] == c;
        assert(f[b] == c);
    }
}

/// Taking a childless node out of a directory's listing changes no walk that
/// ends elsewhere: such a walk never passes through that node.
pub proof fn lemma_walk_remove_child(
    v: Seq<NodeView>,
    pi: int,
    t: usize,
    cur: usize,
    cs: Seq<Seq<char>>,
)
    requires
        fs_wf(v),
        0 <= pi < v.len(),
        v[pi] is Dir,
        t < v.len(),
        !(v[t as int] is Dir && v[t as int]->Dir_children.len() > 0),
        cur < v.len(),
        walk(v, cur, cs) is Some,
        walk(v, cur, cs) != Some(t),
    ensures
        walk(remove_child(v, pi, t), cur, cs) == walk(v, cur, cs),
    decreases cs.len(),
{
    let w = remove_child(v, pi, t);
    if cs.len() > 0 {
        let k = cs[0];
        let rest = cs.drop_first();
        let ch = v[cur as int]->Dir_children;
        let c = child_named(v, cur as int, k)->0;
        lemma_first_named_some(v, ch, k);
        let jc = choose|j: int| 0 <= j < ch.len() && ch[j] == c;
        assert(cur < ch[jc] < v.len());
        assert(walk(v, c, rest) == walk(v, cur, cs));
        if c == t {
            if rest.len() > 0 {
                assert(child_named(v, t as int, rest[0]) == None::<usize>);
            }
            assert(false);
        }
        if cur as int == pi {
            let kept = kept_children(ch, t);
            crate::fdfs::lemma_filter_children(v, ch, t);
            lemma_kept_contains(ch, t, c);
            let a = choose|a: int| 0 <= a < kept.len() && kept[a] == c;
            assert forall|j: int| 0 <= j < kept.len() implies node_name(v[#[trigger] kept[j] as int])
                == node_name(w[kept[j] as int]) by {
                assert(ch.contains(kept[j]));
                let b = choose|b: int| 0 <= b < ch.len() && ch[b] == kept[j];
                assert(cur < ch[b] < v.len());
            }
            lemma_first_named_same_names(v, w, kept, k);
            lemma_first_named_unique(v, kept, a);
            assert(w[pi]->Dir_children == kept);
        } else {
            assert(w[cur as int] == v[cur as int]);
            assert forall|j: int| 0 <= j < ch.len() implies node_name(v[#[trigger] ch[j] as int])
                == node_name(w[ch[j] as int]) by {
                assert(cur < ch[j] < v.len());
            }
            lemma_first_named_same_names(v, w, ch, k);
        }
        assert(child_named(w, cur as int, k) == Some(c));
        lemma_walk_remove_child(v, pi, t, c, rest);
    }
}

/// Removing an entry leaves every other path alone: each path that named a
/// node other than the removed one names the same node afterwards, reads the
/// same and is a directory or not as before.
pub proof fn law_remove_keeps_others(v: Seq<NodeView>, p: Seq<char>, q: Seq<char>)
    requires
        fs_wf(v),
        remove_spec(v, p).0 is Ok,
        resolve_spec(v, q) is Some,
        resolve_spec(v, q) != resolve_spec(v, p),
    ensures
        resolve_spec(remove_spec(v, p).1, q) == resolve_spec(v, q),
        read_file_spec(remove_spec(v, p).1, q) == read_file_spec(v, q),
        is_dir_spec(remove_spec(v, p).1, q) == is_dir_spec(v, q),
{
    let (pp, name) = split_path_spec(p)->Ok_0;
    let pi = resolve_spec(v, pp)->0;
    let ch = v[pi as int]->Dir_children;
    let t = child_named(v, pi as int, name)->0;
    let w = remove_child(v, pi as int, t);
    lemma_resolve_split(v, p);
    lemma_walk_forward(v, 0, path_components(pp));
    lemma_first_named_some(v, ch, name);
    let jt = choose|j: int| 0 <= j < ch.len() && ch[j] == t;
    assert(pi < ch[jt] < v.len());
    lemma_walk_remove_child(v, pi as int, t, 0, path_components(q));
    let x = resolve_spec(v, q)->0;
    lemma_walk_forward(v, 0, path_components(q));
    if x != pi {
        assert(w[x as int] == v[x as int]);
    } else {
        assert(w[x as int] is Dir);
    }
}

/// Listing a directory misses no entry: whenever the directory's path, a slash
/// and a name name a node, listing the directory shows that name, flagged as a
/// directory exactly when the node is one.
pub proof fn law_list_dir_complete(v: Seq<NodeView>, p: Seq<char>, n: Seq<char>)
    requires
        fs_wf(v),
        valid_name(n),
        is_dir_spec(v, p),
        resolve_spec(v, p + seq!['/'] + n) is Some,
    ensures
        list_dir_spec(v, p) is Ok,
        list_dir_spec(v, p)->Ok_0.contains((n, is_dir_spec(v, p + seq!['/'] + n))),
{
    let pi = resolve_spec(v, p)->0;
    let ch = v[pi as int]->Dir_children;
    lemma_child_components(p, n);
    lemma_walk_append(v, 0, path_components(p), seq![n]);
    assert(seq![n][0] == n);
    assert(seq![n].drop_first() == Seq::<Seq<char>>::empty());
    reveal_with_fuel(walk, 2);
    let c = child_named(v, pi as int, n)->0;
    assert(resolve_spec(v, p + seq!['/'] + n) == Some(c));
    lemma_first_named_some(v, ch, n);
    let j = choose|j: int| 0 <= j < ch.len() && ch[j] == c;
    let l = list_dir_spec(v, p)->Ok_0;
    assert(l[j] == (n, is_dir_spec(v, p + seq!['/'] + n)));
}

} // verus!
