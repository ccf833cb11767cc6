//! The settings store behind the settings window: typed values under dotted
//! keys kept in key order, the folder tree the window shows, and the search
//! that prunes it.
use vstd::prelude::*;
use vstd::string::StrSliceExecFns;
use crate::level_up::copy_string;
use crate::text::{
    split_on, split_text, last_sep, lemma_last_piece, lemma_split_nonempty, lowercase, lowercase_of,
    trim_text, trimmed,
};

verus! {

/// `a` comes before `b` in the order of strings: by code point, character by
/// character, a proper prefix first.
pub open spec fn text_lt(a: Seq<char>, b: Seq<char>) -> bool
    decreases a.len(),
{
    if a.len() == 0 {
        b.len() > 0
    } else if b.len() == 0 {
        false
    } else if a[0] != b[0] {
        (a[0] as int) < (b[0] as int)
    } else {
        text_lt(a.drop_first(), b.drop_first())
    }
}

/// No string comes before itself.
pub proof fn lemma_text_lt_irreflexive(a: Seq<char>)
    ensures
        !text_lt(a, a),
    decreases a.len(),
{
    if a.len() > 0 {
        lemma_text_lt_irreflexive(a.drop_first());
    }
}

/// Of two different strings one comes first, and never both.
pub proof fn lemma_text_lt_total(a: Seq<char>, b: Seq<char>)
    ensures
        a != b ==> (text_lt(a, b) || text_lt(b, a)),
        !(text_lt(a, b) && text_lt(b, a)),
    decreases a.len(),
{
    if a.len() > 0 && b.len() > 0 {
        lemma_text_lt_total(a.drop_first(), b.drop_first());
        if a[0] == b[0] && a.drop_first() == b.drop_first() {
            assert(a =~= seq![a[0]] + a.drop_first());
            assert(b =~= seq![b[0]] + b.drop_first());
        }
    } else if a.len() == 0 && b.len() == 0 {
        assert(a =~= b);
    }
}

/// The order of strings is transitive.
pub proof fn lemma_text_lt_transitive(a: Seq<char>, b: Seq<char>, c: Seq<char>)
    requires
        text_lt(a, b),
        text_lt(b, c),
    ensures
        text_lt(a, c),
    decreases a.len(),
{
    if a.len() > 0 && b.len() > 0 && c.len() > 0 && a[0] == b[0] && b[0] == c[0] {
        lemma_text_lt_transitive(a.drop_first(), b.drop_first(), c.drop_first());
    }
}

/// Whether `a` comes before `b` in the order of strings.
pub fn text_less(a: &String, b: &String) -> (r: bool)
    ensures
        r == text_lt(a@, b@),
{
    let sa = a.as_str();
    let sb = b.as_str();
    let na = sa.unicode_len();
    let nb = sb.unicode_len();
    let mut i: usize = 0;
    assert(a@.skip(0) =~= a@ && b@.skip(0) =~= b@);
    while i < na && i < nb
        invariant
            sa@ == a@,
            sb@ == b@,
            na == a@.len(),
            nb == b@.len(),
            i <= na,
            i <= nb,
            text_lt(a@, b@) == text_lt(a@.skip(i as int), b@.skip(i as int)),
        decreases na - i,
    {
        let ca = sa.get_char(i);
        let cb = sb.get_char(i);
        assert(a@.skip(i as int)[0] == ca && b@.skip(i as int)[0] == cb);
        if ca != cb {
            return (ca as u32) < (cb as u32);
        }
        assert(a@.skip(i as int).drop_first() =~= a@.skip(i + 1));
        assert(b@.skip(i as int).drop_first() =~= b@.skip(i + 1));
        i = i + 1;
    }
    i < nb
}

/// The parts of a key between dots, as `str::split('.')` gives them: one
/// more part than there are dots, empty parts included.
pub open spec fn segments(s: Seq<char>) -> Seq<Seq<char>> {
    split_on(s, '.')
}

/// The parts of `key` between dots.
pub fn split_key(key: &str) -> (parts: Vec<String>)
    ensures
        parts@.map_values(|p: String| p@) == segments(key@),
{
    split_text(key, '.')
}

/// The last part of a dotted key, shown as the label of its setting.
pub fn leaf_label(key: &str) -> (label: &str)
    ensures
        label@ == segments(key@).last(),
{
    proof {
        lemma_last_piece(key@, '.');
    }
    let n = key.unicode_len();
    let mut i: usize = n;
    assert(key@.take(n as int) =~= key@);
    while i > 0 && key.get_char(i - 1) != '.'
        invariant
            n == key@.len(),
            i <= n,
            last_sep(key@, '.') == last_sep(key@.take(i as int), '.'),
        decreases i,
    {
        assert(key@.take(i as int).drop_last() =~= key@.take(i - 1));
        i = i - 1;
    }
    proof {
        if i == 0 {
            assert(key@.take(0) =~= Seq::<char>::empty());
        } else {
            assert(key@.take(i as int).last() == '.');
        }
    }
    key.substring_char(i, n)
}


/// Folder view of the setting keys: child folders by name, in the order of
/// strings, and the full keys of the settings that sit in this folder, in
/// the order they were added.
pub struct ViewNode {
    pub children: Vec<(String, ViewNode)>,
    pub leaves: Vec<String>,
}

/// The names of a node's child folders.
pub open spec fn child_names(n: ViewNode) -> Seq<Seq<char>> {
    n.children@.map_values(|c: (String, ViewNode)| c.0@)
}

/// The keys of a node's settings.
pub open spec fn leaf_views(n: ViewNode) -> Seq<Seq<char>> {
    n.leaves@.map_values(|l: String| l@)
}

/// Names in strictly increasing order.
pub open spec fn names_sorted(ns: Seq<Seq<char>>) -> bool {
    forall|i: int, j: int| 0 <= i < j < ns.len() ==> text_lt(#[trigger] ns[i], #[trigger] ns[j])
}

/// The node has a child folder called `name`.
pub open spec fn has_child(n: ViewNode, name: Seq<char>) -> bool {
    exists|i: int| 0 <= i < n.children@.len() && #[trigger] n.children@[i].0@ == name
}

/// Position of the child folder called `name` (meaningful when there is one).
pub open spec fn child_index(n: ViewNode, name: Seq<char>) -> int {
    choose|i: int| 0 <= i < n.children@.len() && #[trigger] n.children@[i].0@ == name
}

/// The folder reached from `n` by following the folder names of `path`.
pub open spec fn node_at(n: ViewNode, path: Seq<Seq<char>>) -> Option<ViewNode>
    decreases path.len(),
{
    if path.len() == 0 {
        Some(n)
    } else if has_child(n, path[0]) {
        node_at(n.children@[child_index(n, path[0])].1, path.drop_first())
    } else {
        Option::None
    }
}

/// The keys of the settings in the folder at `path`; none if there is no
/// such folder.
pub open spec fn leaves_at(n: ViewNode, path: Seq<Seq<char>>) -> Seq<Seq<char>> {
    match node_at(n, path) {
        Some(m) => leaf_views(m),
        Option::None => Seq::empty(),
    }
}

/// Every folder of the tree lists its child folders in the order of strings.
pub open spec fn tree_sorted(n: ViewNode) -> bool {
    forall|p: Seq<Seq<char>>| #[trigger] node_at(n, p) is Some ==> names_sorted(child_names(node_at(n, p)->0))
}

/// `p` is a prefix of `f`.
pub open spec fn is_prefix(p: Seq<Seq<char>>, f: Seq<Seq<char>>) -> bool {
    p.len() <= f.len() && f.take(p.len() as int) == p
}

/// Names in increasing order are all different.
proof fn lemma_sorted_unique(ns: Seq<Seq<char>>, i: int, j: int)
    requires
        names_sorted(ns),
        0 <= i < ns.len(),
        0 <= j < ns.len(),
        ns[i] == ns[j],
    ensures
        i == j,
{
    if i < j {
        lemma_text_lt_irreflexive(ns[i]);
    } else if j < i {
        lemma_text_lt_irreflexive(ns[j]);
    }
}

/// Following a path through the child at position `i`.
proof fn lemma_node_at_via(n: ViewNode, i: int, p: Seq<Seq<char>>)
    requires
        names_sorted(child_names(n)),
        0 <= i < n.children@.len(),
        p.len() > 0,
        n.children@[i].0@ == p[0],
    ensures
        node_at(n, p) == node_at(n.children@[i].1, p.drop_first()),
{
    assert(has_child(n, p[0]));
    let k = child_index(n, p[0]);
    assert(child_names(n)[k] == child_names(n)[i]);
    lemma_sorted_unique(child_names(n), k, i);
}

/// A path whose first name is no child folder leads nowhere.
proof fn lemma_node_at_missing(n: ViewNode, p: Seq<Seq<char>>)
    requires
        p.len() > 0,
        forall|i: int| 0 <= i < n.children@.len() ==> n.children@[i].0@ != p[0],
    ensures
        node_at(n, p) is None,
{
}

/// Only the root of a folder with no children can be reached, and it holds
/// what the node holds.
proof fn lemma_node_at_childless(n: ViewNode, p: Seq<Seq<char>>)
    requires
        n.children@.len() == 0,
    ensures
        (node_at(n, p) is Some) == (p.len() == 0),
        leaves_at(n, p) == if p.len() == 0 { leaf_views(n) } else { Seq::empty() },
{
}

/// Two nodes with the same children reach the same folders below them.
proof fn lemma_node_at_same_children(a: ViewNode, b: ViewNode, p: Seq<Seq<char>>)
    requires
        a.children@ == b.children@,
        p.len() > 0,
    ensures
        node_at(a, p) == node_at(b, p),
{
    assert(has_child(a, p[0]) == has_child(b, p[0]));
}

impl ViewNode {
    /// A folder with nothing in it.
    pub fn empty() -> (n: Self)
        ensures
            n.children@.len() == 0,
            n.leaves@.len() == 0,
    {
        ViewNode { children: Vec::new(), leaves: Vec::new() }
    }
}

/// Position at which `name` is or belongs among the sorted `names`.
fn name_position(children: &Vec<(String, ViewNode)>, name: &String) -> (pos: usize)
    requires
        names_sorted(children@.map_values(|c: (String, ViewNode)| c.0@)),
    ensures
        pos <= children@.len(),
        forall|j: int| 0 <= j < pos ==> text_lt(#[trigger] children@[j].0@, name@),
        pos < children@.len() ==> !text_lt(children@[pos as int].0@, name@),
{
    let mut pos: usize = 0;
    while pos < children.len() && text_less(&children[pos].0, name)
        invariant
            pos <= children@.len(),
            forall|j: int| 0 <= j < pos ==> text_lt(#[trigger] children@[j].0@, name@),
        decreases children@.len() - pos,
    {
        pos = pos + 1;
    }
    pos
}

/// Adds `key` to the folder reached by the names `folder[start..]`, creating
/// the folders on the way that are missing.
fn insert_key(node: ViewNode, folder: &Vec<String>, start: usize, key: String) -> (r: ViewNode)
    requires
        start <= folder@.len(),
        tree_sorted(node),
    ensures
        tree_sorted(r),
        forall|p: Seq<Seq<char>>|
            (#[trigger] node_at(r, p) is Some) == (node_at(node, p) is Some || is_prefix(
                p,
                folder@.map_values(|s: String| s@).skip(start as int),
            )),
        forall|p: Seq<Seq<char>>|
            #[trigger] leaves_at(r, p) == if p == folder@.map_values(|s: String| s@).skip(start as int) {
                leaves_at(node, p).push(key@)
            } else {
                leaves_at(node, p)
            },
    decreases folder@.len() - start,
{
    let ghost f = folder@.map_values(|s: String| s@).skip(start as int);
    let ghost old_node = node;
    let ViewNode { mut children, mut leaves } = node;
    if start == folder.len() {
        let ghost key_view = key@;
        leaves.push(key);
        let r = ViewNode { children, leaves };
        proof {
            assert(f.len() == 0);
            assert(leaf_views(r) =~= leaf_views(old_node).push(key_view));
            assert forall|p: Seq<Seq<char>>| p.len() > 0 implies node_at(r, p) == node_at(old_node, p) by {
                lemma_node_at_same_children(r, old_node, p);
            }
            assert forall|p: Seq<Seq<char>>| (#[trigger] node_at(r, p) is Some) == (node_at(old_node, p) is Some || is_prefix(p, f)) by {
                if p.len() == 0 {
                    assert(f.take(0) =~= p);
                }
            }
            assert forall|p: Seq<Seq<char>>| #[trigger] leaves_at(r, p) == if p == f {
                leaves_at(old_node, p).push(key_view)
            } else {
                leaves_at(old_node, p)
            } by {
                if p.len() == 0 {
                    assert(p =~= f);
                }
            }
            assert forall|p: Seq<Seq<char>>| #[trigger] node_at(r, p) is Some implies names_sorted(child_names(node_at(r, p)->0)) by {
                if p.len() == 0 {
                    assert(node_at(old_node, p) is Some);
                    assert(child_names(r) == child_names(old_node));
                }
            }
        }
        return r;
    }
    let ghost fv = folder@.map_values(|s: String| s@);
    let ghost names = child_names(old_node);
    let ghost old_children = children@;
    let ghost key_view = key@;
    proof {
        assert(node_at(old_node, Seq::empty()) is Some);
        assert(names_sorted(names));
        assert(old_children.map_values(|c: (String, ViewNode)| c.0@) == names);
        assert(f[0] == folder@[start as int]@);
    }
    let pos = name_position(&children, &folder[start]);
    let found = pos < children.len() && children[pos].0 == folder[start];
    let fresh = ViewNode::empty();
    let ghost fresh_g = fresh;
    let ghost old_child = if found { old_children[pos as int].1 } else { fresh_g };
    let ghost f_rest = fv.skip(start + 1);
    proof {
        assert(f.drop_first() =~= f_rest);
        if found {
            assert(old_children[pos as int].0@ == f[0]);
            assert forall|q: Seq<Seq<char>>| #[trigger] node_at(old_child, q) is Some implies names_sorted(
                child_names(node_at(old_child, q)->0),
            ) by {
                let p = seq![f[0]] + q;
                assert(p.drop_first() =~= q);
                lemma_node_at_via(old_node, pos as int, p);
                assert(node_at(old_node, p) is Some);
            }
        }
    }
    let new_children: Vec<(String, ViewNode)>;
    if found {
        let (name, child) = children.remove(pos);
        let child2 = insert_key(child, folder, start + 1, key);
        children.insert(pos, (name, child2));
        new_children = children;
    } else {
        let child2 = insert_key(fresh, folder, start + 1, key);
        children.insert(pos, (copy_string(&folder[start]), child2));
        new_children = children;
    }
    let r = ViewNode { children: new_children, leaves };
    proof {
        let new_child = r.children@[pos as int].1;
        assert(r.children@[pos as int].0@ == f[0]);
        assert(leaf_views(r) == leaf_views(old_node));
        // The names stay in order.
        let nn = child_names(r);
        if found {
            assert(r.children@ =~= old_children.update(pos as int, r.children@[pos as int]));
            assert(nn =~= names);
        } else {
            assert(r.children@ =~= old_children.insert(pos as int, r.children@[pos as int]));
            assert forall|k: int| 0 <= k < pos implies text_lt(#[trigger] names[k], f[0]) by {
                assert(names[k] == old_children[k].0@);
            }
            assert forall|k: int| pos <= k < names.len() implies text_lt(f[0], #[trigger] names[k]) by {
                assert(names[pos as int] == old_children[pos as int].0@);
                lemma_text_lt_total(names[pos as int], f[0]);
                if k > pos {
                    lemma_text_lt_transitive(f[0], names[pos as int], names[k]);
                }
            }
            assert forall|a: int, b: int| 0 <= a < b < nn.len() implies text_lt(#[trigger] nn[a], #[trigger] nn[b]) by {
                if a < pos && b < pos {
                    assert(nn[a] == names[a] && nn[b] == names[b]);
                } else if a < pos && b == pos {
                    assert(nn[a] == names[a]);
                } else if a < pos {
                    assert(nn[a] == names[a] && nn[b] == names[b - 1]);
                    lemma_text_lt_transitive(names[a], f[0], names[b - 1]);
                } else if a == pos {
                    assert(nn[b] == names[b - 1]);
                } else {
                    assert(nn[a] == names[a - 1] && nn[b] == names[b - 1]);
                }
            }
        }
        assert(names_sorted(nn));
        assert forall|p: Seq<Seq<char>>| p.len() > 0 && p[0] != f[0] implies #[trigger] node_at(r, p) == node_at(old_node, p) by {
            if has_child(old_node, p[0]) {
                let i = choose|i: int| 0 <= i < old_children.len() && #[trigger] old_children[i].0@ == p[0];
                lemma_node_at_via(old_node, i, p);
                let j = if !found && i >= pos { i + 1 } else { i };
                assert(r.children@[j] == old_children[i]);
                lemma_node_at_via(r, j, p);
            } else {
                assert forall|j: int| 0 <= j < r.children@.len() implies r.children@[j].0@ != p[0] by {
                    if j != pos {
                        let i = if !found && j > pos { j - 1 } else { j };
                        assert(r.children@[j] == old_children[i]);
                    }
                }
                lemma_node_at_missing(r, p);
            }
        }
        assert forall|p: Seq<Seq<char>>| p.len() > 0 && p[0] == f[0] implies {
            &&& #[trigger] node_at(r, p) == node_at(new_child, p.drop_first())
            &&& found ==> node_at(old_node, p) == node_at(old_child, p.drop_first())
            &&& !found ==> node_at(old_node, p) is None
            &&& leaves_at(old_node, p) == leaves_at(old_child, p.drop_first())
        } by {
            lemma_node_at_via(r, pos as int, p);
            if found {
                lemma_node_at_via(old_node, pos as int, p);
            } else {
                assert forall|i: int| 0 <= i < old_children.len() implies old_children[i].0@ != p[0] by {
                    if old_children[i].0@ == p[0] {
                        if i < pos {
                            lemma_text_lt_irreflexive(f[0]);
                        } else {
                            lemma_text_lt_total(names[pos as int], f[0]);
                            if i > pos {
                                lemma_text_lt_transitive(f[0], names[pos as int], names[i]);
                            }
                            lemma_text_lt_irreflexive(f[0]);
                        }
                    }
                }
                lemma_node_at_missing(old_node, p);
                lemma_node_at_childless(fresh_g, p.drop_first());
            }
        }
        assert forall|p: Seq<Seq<char>>| (#[trigger] node_at(r, p) is Some) == (node_at(old_node, p) is Some || is_prefix(p, f)) by {
            if p.len() > 0 {
                if p[0] == f[0] {
                    let q = p.drop_first();
                    lemma_node_at_childless(fresh_g, q);
                    assert(is_prefix(p, f) == is_prefix(q, f_rest)) by {
                        if p.len() <= f.len() {
                            assert(f.take(p.len() as int).drop_first() =~= f_rest.take(q.len() as int));
                            if f_rest.take(q.len() as int) == q {
                                assert forall|k: int| 0 <= k < p.len() implies f.take(p.len() as int)[k] == p[k] by {
                                    if k > 0 {
                                        assert(f.take(p.len() as int)[k] == f_rest.take(q.len() as int)[k - 1]);
                                        assert(p[k] == q[k - 1]);
                                    }
                                }
                                assert(f.take(p.len() as int) =~= p);
                            }
                        }
                    }
                    assert(node_at(r, p) == node_at(new_child, q));
                    if !found {
                        if q.len() == 0 {
                            assert(f_rest.take(0) =~= q);
                        }
                        assert(node_at(old_node, p) is None);
                        assert((node_at(new_child, q) is Some) == (node_at(fresh_g, q) is Some || is_prefix(q, f_rest)));
                    } else {
                        assert((node_at(new_child, q) is Some) == (node_at(old_child, q) is Some || is_prefix(q, f_rest)));
                    }
                } else {
                    assert(!is_prefix(p, f)) by {
                        if is_prefix(p, f) {
                            assert(f.take(p.len() as int)[0] == f[0]);
                        }
                    }
                }
            }
        }
        assert forall|p: Seq<Seq<char>>| #[trigger] leaves_at(r, p) == if p == f {
            leaves_at(old_node, p).push(key_view)
        } else {
            leaves_at(old_node, p)
        } by {
            if p.len() == 0 {
                assert(p != f);
            } else if p[0] == f[0] {
                let q = p.drop_first();
                lemma_node_at_childless(fresh_g, q);
                assert((p == f) == (q == f_rest)) by {
                    if q == f_rest {
                        assert forall|k: int| 0 <= k < p.len() implies p[k] == f[k] by {
                            if k > 0 {
                                assert(p[k] == q[k - 1]);
                                assert(f[k] == f_rest[k - 1]);
                            }
                        }
                        assert(p =~= f);
                    }
                }
                assert(leaves_at(r, p) == leaves_at(new_child, q));
                assert(leaves_at(old_node, p) == leaves_at(old_child, q));
            } else {
                assert(p != f);
            }
        }
        assert forall|p: Seq<Seq<char>>| #[trigger] node_at(r, p) is Some implies names_sorted(child_names(node_at(r, p)->0)) by {
            if p.len() > 0 {
                if p[0] == f[0] {
                    assert(node_at(new_child, p.drop_first()) is Some);
                } else {
                    assert(node_at(old_node, p) is Some);
                }
            }
        }
    }
    r
}

/// `needle` occurs in `hay` as a run of consecutive characters.
pub open spec fn text_contains(hay: Seq<char>, needle: Seq<char>) -> bool {
    exists|i: int| 0 <= i && i + needle.len() <= hay.len() && #[trigger] hay.subrange(i, i + needle.len()) == needle
}

/// `str::contains` with a text pattern: whether the pattern occurs in the
/// text.
#[verifier::external_body]
fn contains_text(hay: &str, needle: &str) -> (r: bool)
    ensures
        r == text_contains(hay@, needle@),
{
    hay.contains(needle)
}

/// The search query typed into the settings window, trimmed and lowercased.
pub open spec fn normalized_query(search: Seq<char>) -> Seq<char> {
    lowercase_of(trimmed(search))
}

/// A key matches an (already normalized) query when the query is empty or
/// occurs in the lowercased key or in its lowercased last part.
pub open spec fn search_matches(query: Seq<char>, key: Seq<char>) -> bool {
    ||| query.len() == 0
    ||| text_contains(lowercase_of(key), query)
    ||| text_contains(lowercase_of(segments(key).last()), query)
}

/// The folder of a key: all its parts but the last.
pub open spec fn folder_of(key: Seq<char>) -> Seq<Seq<char>> {
    segments(key).drop_last()
}

/// The keys that match `query`, in their order.
pub open spec fn kept_keys(keys: Seq<Seq<char>>, query: Seq<char>) -> Seq<Seq<char>> {
    keys.filter(|k: Seq<char>| search_matches(query, k))
}

/// `t` is the folder tree of `keys`: its folders are the root and the
/// folders above some key, each lists its child folders in the order of
/// strings, and each holds the keys whose folder it is, in their order.
pub open spec fn shows_keys(t: ViewNode, keys: Seq<Seq<char>>) -> bool {
    &&& tree_sorted(t)
    &&& forall|p: Seq<Seq<char>>|
        (#[trigger] node_at(t, p) is Some) == (p.len() == 0 || exists|j: int|
            0 <= j < keys.len() && is_prefix(p, folder_of(#[trigger] keys[j])))
    &&& forall|p: Seq<Seq<char>>| #[trigger] leaves_at(t, p) == keys.filter(|k: Seq<char>| folder_of(k) == p)
}

/// Whether `key` matches the normalized `query`.
pub fn key_matches(query: &str, key: &str) -> (b: bool)
    ensures
        b == search_matches(query@, key@),
{
    if query.is_empty() {
        return true;
    }
    let lowered = lowercase(key);
    if contains_text(lowered.as_str(), query) {
        return true;
    }
    let leaf = lowercase(leaf_label(key));
    contains_text(leaf.as_str(), query)
}

/// The views of a list of keys.
pub open spec fn key_views(keys: Seq<String>) -> Seq<Seq<char>> {
    keys.map_values(|k: String| k@)
}

/// The keys whose pick is `true`, in their order.
pub open spec fn picked(keys: Seq<Seq<char>>, picks: Seq<bool>) -> Seq<Seq<char>>
    decreases keys.len(),
{
    if keys.len() == 0 || picks.len() == 0 {
        Seq::empty()
    } else if picks.last() {
        picked(keys.drop_last(), picks.drop_last()).push(keys.last())
    } else {
        picked(keys.drop_last(), picks.drop_last())
    }
}

/// `filter` answered `b` when asked about the text `k`.
pub open spec fn answered<F: Fn(&str) -> bool>(filter: F, k: Seq<char>, b: bool) -> bool {
    exists|s: &str| s@ == k && call_ensures(filter, (s,), b)
}

/// Picking by a predicate's answers is filtering by it.
proof fn lemma_picked_filter(keys: Seq<Seq<char>>, picks: Seq<bool>, pred: spec_fn(Seq<char>) -> bool)
    requires
        picks.len() == keys.len(),
        forall|i: int| 0 <= i < keys.len() ==> picks[i] == pred(#[trigger] keys[i]),
    ensures
        picked(keys, picks) == keys.filter(pred),
    decreases keys.len(),
{
    reveal(Seq::filter);
    if keys.len() > 0 {
        let kd = keys.drop_last();
        let pd = picks.drop_last();
        assert forall|i: int| 0 <= i < kd.len() implies pd[i] == pred(#[trigger] kd[i]) by {
            assert(kd[i] == keys[i]);
        }
        lemma_picked_filter(kd, pd, pred);
        assert(picks.last() == pred(keys[keys.len() - 1]));
        kd.lemma_filter_push(keys.last(), pred);
        assert(kd.push(keys.last()) =~= keys);
    } else {
        assert(keys.filter(pred) =~= Seq::<Seq<char>>::empty());
    }
}

impl ViewNode {
    /// The folder tree of the keys of `keys` that `filter` accepts, and the
    /// folders above them. Each folder lists its keys in the order of
    /// `keys`. `filter` is asked once about each key, in order.
    pub fn new_filtered<F: Fn(&str) -> bool>(keys: &Vec<String>, filter: F) -> (r: Self)
        requires
            forall|k: &str| call_requires(filter, (k,)),
        ensures
            exists|picks: Seq<bool>|
                {
                    &&& picks.len() == keys@.len()
                    &&& forall|i: int| 0 <= i < keys@.len() ==> #[trigger] answered(filter, keys@[i]@, picks[i])
                    &&& shows_keys(r, picked(key_views(keys@), picks))
                },
    {
        let mut answers: Vec<bool> = Vec::new();
        let mut a: usize = 0;
        while a < keys.len()
            invariant
                a <= keys@.len(),
                answers@.len() == a,
                forall|k: &str| call_requires(filter, (k,)),
                forall|i: int| 0 <= i < a ==> #[trigger] answered(filter, keys@[i]@, answers@[i]),
            decreases keys@.len() - a,
        {
            let text = keys[a].as_str();
            let b = filter(text);
            assert(answered(filter, keys@[a as int]@, b));
            let ghost prev = answers@;
            answers.push(b);
            assert forall|i: int| 0 <= i < a + 1 implies #[trigger] answered(filter, keys@[i]@, answers@[i]) by {
                if i < a {
                    assert(answers@[i] == prev[i]);
                }
            }
            a = a + 1;
        }
        let ghost picks = answers@;
        let r = ViewNode::picked_tree(keys, &answers);
        assert(picks.len() == keys@.len());
        r
    }
    /// The folder tree of the keys whose pick is `true`.
    fn picked_tree(keys: &Vec<String>, picks: &Vec<bool>) -> (r: Self)
        requires
            picks@.len() == keys@.len(),
        ensures
            shows_keys(r, picked(key_views(keys@), picks@)),
    {
        let ghost views = key_views(keys@);
        let mut root = ViewNode::empty();
        proof {
            reveal(Seq::filter);
            assert(views.take(0) =~= Seq::<Seq<char>>::empty());
            assert(picked(views.take(0), picks@.take(0)) =~= Seq::<Seq<char>>::empty());
            assert forall|p: Seq<Seq<char>>| #[trigger] node_at(root, p) is Some implies names_sorted(
                child_names(node_at(root, p)->0),
            ) by {
                lemma_node_at_childless(root, p);
            }
            assert forall|p: Seq<Seq<char>>| #[trigger] leaves_at(root, p) == picked(views.take(0), picks@.take(0)).filter(
                |k: Seq<char>| folder_of(k) == p,
            ) by {
                lemma_node_at_childless(root, p);
                assert(leaf_views(root) =~= Seq::<Seq<char>>::empty());
            }
            assert forall|p: Seq<Seq<char>>| (#[trigger] node_at(root, p) is Some) == (p.len() == 0) by {
                lemma_node_at_childless(root, p);
            }
        }
        let mut i: usize = 0;
        while i < keys.len()
            invariant
                i <= keys@.len(),
                views == key_views(keys@),
                picks@.len() == keys@.len(),
                tree_sorted(root),
                forall|p: Seq<Seq<char>>|
                    (#[trigger] node_at(root, p) is Some) == (p.len() == 0 || exists|j: int|
                        0 <= j < picked(views.take(i as int), picks@.take(i as int)).len() && is_prefix(
                            p,
                            folder_of(#[trigger] picked(views.take(i as int), picks@.take(i as int))[j]),
                        )),
                forall|p: Seq<Seq<char>>|
                    #[trigger] leaves_at(root, p) == picked(views.take(i as int), picks@.take(i as int)).filter(
                        |k: Seq<char>| folder_of(k) == p,
                    ),
            decreases keys@.len() - i,
        {
            let ghost k = views[i as int];
            let ghost before = picked(views.take(i as int), picks@.take(i as int));
            proof {
                assert(views.take(i + 1) =~= views.take(i as int).push(k));
                assert(views.take(i + 1).drop_last() =~= views.take(i as int));
                assert(picks@.take(i + 1).drop_last() =~= picks@.take(i as int));
                assert(picks@.take(i + 1).last() == picks@[i as int]);
            }
            if picks[i] {
                let mut parts = split_key(keys[i].as_str());
                proof {
                    lemma_split_nonempty(k, '.');
                }
                let ghost all_parts = parts@;
                parts.pop();
                proof {
                    assert(parts@.map_values(|s: String| s@).skip(0) =~= folder_of(k));
                }
                let ghost prev = root;
                root = insert_key(root, &parts, 0, copy_string(&keys[i]));
                proof {
                    let after = picked(views.take(i + 1), picks@.take(i + 1));
                    assert(after == before.push(k));
                    assert forall|p: Seq<Seq<char>>| (#[trigger] node_at(root, p) is Some) == (p.len() == 0 || exists|j: int|
                        0 <= j < after.len() && is_prefix(p, folder_of(#[trigger] after[j]))) by {
                        if is_prefix(p, folder_of(k)) {
                            assert(after[after.len() - 1] == k);
                        }
                        if exists|j: int| 0 <= j < after.len() && is_prefix(p, folder_of(#[trigger] after[j])) {
                            let j = choose|j: int| 0 <= j < after.len() && is_prefix(p, folder_of(#[trigger] after[j]));
                            if j < before.len() {
                                assert(after[j] == before[j]);
                            }
                        }
                        if exists|j: int| 0 <= j < before.len() && is_prefix(p, folder_of(#[trigger] before[j])) {
                            let j = choose|j: int| 0 <= j < before.len() && is_prefix(p, folder_of(#[trigger] before[j]));
                            assert(after[j] == before[j]);
                        }
                    }
                    assert forall|p: Seq<Seq<char>>| #[trigger] leaves_at(root, p) == after.filter(
                        |k2: Seq<char>| folder_of(k2) == p,
                    ) by {
                        before.lemma_filter_push(k, |k2: Seq<char>| folder_of(k2) == p);
                        assert(leaves_at(prev, p) == before.filter(|k2: Seq<char>| folder_of(k2) == p));
                    }
                }
            } else {
                proof {
                    let after = picked(views.take(i + 1), picks@.take(i + 1));
                    assert(after == before);
                }
            }
            i = i + 1;
        }
        assert(views.take(keys@.len() as int) =~= views);
        assert(picks@.take(keys@.len() as int) =~= picks@);
        root
    }

    /// The folder tree of all of `keys`.
    pub fn new(keys: &Vec<String>) -> (r: Self)
        ensures
            shows_keys(r, key_views(keys@)),
    {
        let accept = |k: &str| -> (b: bool)
            ensures
                b,
            { true };
        let r = ViewNode::new_filtered(keys, accept);
        proof {
            let views = key_views(keys@);
            let pred = |k: Seq<char>| true;
            let picks = choose|picks: Seq<bool>|
                {
                    &&& picks.len() == keys@.len()
                    &&& forall|i: int| 0 <= i < keys@.len() ==> #[trigger] answered(accept, keys@[i]@, picks[i])
                    &&& shows_keys(r, picked(key_views(keys@), picks))
                };
            assert forall|i: int| 0 <= i < views.len() implies picks[i] == pred(#[trigger] views[i]) by {
                assert(answered(accept, keys@[i]@, picks[i]));
            }
            lemma_picked_filter(views, picks, pred);
            lemma_filter_all(views, pred);
        }
        r
    }
}

/// Filtering by a predicate that holds of every entry keeps them all.
proof fn lemma_filter_all(s: Seq<Seq<char>>, pred: spec_fn(Seq<char>) -> bool)
    requires
        forall|i: int| 0 <= i < s.len() ==> pred(#[trigger] s[i]),
    ensures
        s.filter(pred) == s,
    decreases s.len(),
{
    reveal(Seq::filter);
    if s.len() > 0 {
        lemma_filter_all(s.drop_last(), pred);
        assert(s.drop_last().push(s.last()) =~= s);
    } else {
        assert(s.filter(pred) =~= s);
    }
}

/// One setting value. A float setting holds the bit pattern of its `f32`
/// (`f32::to_bits`), which the window converts back for editing.
#[derive(Clone, Copy, Debug, PartialEq, Eq, Structural)]
pub enum Setting {
    Bool(bool),
    I32(i32),
    F32(u32),
    U16(u16),
}

/// The types a setting can be read and written as, each tied to one variant
/// of [`Setting`]; `u32` stands for the bit pattern of a float setting.
pub trait SettingAccess: Sized {
    /// The value `s` holds, if it is of this type.
    spec fn value_in(s: Setting) -> Option<Self>;

    /// The setting that holds `v`.
    spec fn setting_for(v: Self) -> Setting;

    /// A setting made from a value holds that value.
    proof fn lemma_round_trip(v: Self)
        ensures
            Self::value_in(Self::setting_for(v)) == Some(v),
    ;

    /// The value `s` holds, if it is of this type.
    fn as_ref(s: &Setting) -> (r: Option<&Self>)
        ensures
            match r {
                Some(v) => Self::value_in(*s) == Some(*v),
                Option::None => Self::value_in(*s) is None,
            },
    ;

    /// The setting that holds this value.
    fn into_setting(self) -> (s: Setting)
        ensures
            s == Self::setting_for(self),
    ;
}

impl SettingAccess for bool {
    open spec fn value_in(s: Setting) -> Option<bool> {
        match s {
            Setting::Bool(v) => Some(v),
            _ => Option::None,
        }
    }

    open spec fn setting_for(v: bool) -> Setting {
        Setting::Bool(v)
    }

    proof fn lemma_round_trip(v: bool) {
    }

    fn as_ref(s: &Setting) -> (r: Option<&bool>) {
        match s {
            Setting::Bool(v) => Some(v),
            _ => None,
        }
    }

    fn into_setting(self) -> (s: Setting) {
        Setting::Bool(self)
    }
}

impl SettingAccess for i32 {
    open spec fn value_in(s: Setting) -> Option<i32> {
        match s {
            Setting::I32(v) => Some(v),
            _ => Option::None,
        }
    }

    open spec fn setting_for(v: i32) -> Setting {
        Setting::I32(v)
    }

    proof fn lemma_round_trip(v: i32) {
    }

    fn as_ref(s: &Setting) -> (r: Option<&i32>) {
        match s {
            Setting::I32(v) => Some(v),
            _ => None,
        }
    }

    fn into_setting(self) -> (s: Setting) {
        Setting::I32(self)
    }
}

impl SettingAccess for u32 {
    open spec fn value_in(s: Setting) -> Option<u32> {
        match s {
            Setting::F32(v) => Some(v),
            _ => Option::None,
        }
    }

    open spec fn setting_for(v: u32) -> Setting {
        Setting::F32(v)
    }

    proof fn lemma_round_trip(v: u32) {
    }

    fn as_ref(s: &Setting) -> (r: Option<&u32>) {
        match s {
            Setting::F32(v) => Some(v),
            _ => None,
        }
    }

    fn into_setting(self) -> (s: Setting) {
        Setting::F32(self)
    }
}

impl SettingAccess for u16 {
    open spec fn value_in(s: Setting) -> Option<u16> {
        match s {
            Setting::U16(v) => Some(v),
            _ => Option::None,
        }
    }

    open spec fn setting_for(v: u16) -> Setting {
        Setting::U16(v)
    }

    proof fn lemma_round_trip(v: u16) {
    }

    fn as_ref(s: &Setting) -> (r: Option<&u16>) {
        match s {
            Setting::U16(v) => Some(v),
            _ => None,
        }
    }

    fn into_setting(self) -> (s: Setting) {
        Setting::U16(self)
    }
}

/// The keys of stored entries.
pub open spec fn entry_keys(es: Seq<(String, Setting)>) -> Seq<Seq<char>> {
    es.map_values(|e: (String, Setting)| e.0@)
}

/// Position of the entry stored under `k` (meaningful when there is one).
pub open spec fn key_slot(es: Seq<(String, Setting)>, k: Seq<char>) -> int {
    choose|i: int| 0 <= i < es.len() && #[trigger] es[i].0@ == k
}

/// Stored entries as a map from key to setting.
pub open spec fn entries_map(es: Seq<(String, Setting)>) -> Map<Seq<char>, Setting> {
    Map::new(
        |k: Seq<char>| exists|i: int| 0 <= i < es.len() && #[trigger] es[i].0@ == k,
        |k: Seq<char>| es[key_slot(es, k)].1,
    )
}

/// Inserting a name at a position between smaller and larger names keeps
/// the names in order.
proof fn lemma_sorted_insert(ns: Seq<Seq<char>>, pos: int, x: Seq<char>)
    requires
        names_sorted(ns),
        0 <= pos <= ns.len(),
        forall|j: int| 0 <= j < pos ==> text_lt(#[trigger] ns[j], x),
        pos < ns.len() ==> text_lt(x, ns[pos]),
    ensures
        names_sorted(ns.insert(pos, x)),
{
    let nn = ns.insert(pos, x);
    assert forall|a: int, b: int| 0 <= a < b < nn.len() implies text_lt(#[trigger] nn[a], #[trigger] nn[b]) by {
        if b > pos && b - 1 > pos {
            lemma_text_lt_transitive(x, ns[pos], ns[b - 1]);
        }
        if a < pos && b > pos {
            assert(text_lt(x, ns[b - 1]));
            lemma_text_lt_transitive(ns[a], x, ns[b - 1]);
        }
    }
}

/// Typed settings under dotted keys, kept in the order of their keys; the
/// folder tree of those keys; and the text of the search box.
pub struct GuiSettings {
    settings: Vec<(String, Setting)>,
    view_tree: ViewNode,
    search: String,
}

impl View for GuiSettings {
    type V = Map<Seq<char>, Setting>;

    closed spec fn view(&self) -> Map<Seq<char>, Setting> {
        entries_map(self.settings@)
    }
}

impl GuiSettings {
    #[verifier::type_invariant]
    closed spec fn keys_in_order(self) -> bool {
        names_sorted(entry_keys(self.settings@))
    }

    /// The stored keys, in the order of strings.
    pub closed spec fn key_order(self) -> Seq<Seq<char>> {
        entry_keys(self.settings@)
    }

    /// The folder tree shown when nothing is searched.
    pub closed spec fn tree(self) -> ViewNode {
        self.view_tree
    }

    /// The text of the search box.
    pub closed spec fn search_text(self) -> Seq<char> {
        self.search@
    }
}

/// Position at which `key` is or belongs among sorted entries.
fn key_position(es: &Vec<(String, Setting)>, key: &String) -> (pos: usize)
    ensures
        pos <= es@.len(),
        forall|j: int| 0 <= j < pos ==> text_lt(#[trigger] es@[j].0@, key@),
        pos < es@.len() ==> !text_lt(es@[pos as int].0@, key@),
{
    let mut pos: usize = 0;
    while pos < es.len() && text_less(&es[pos].0, key)
        invariant
            pos <= es@.len(),
            forall|j: int| 0 <= j < pos ==> text_lt(#[trigger] es@[j].0@, key@),
        decreases es@.len() - pos,
    {
        pos = pos + 1;
    }
    pos
}

/// Position of `key` among sorted entries, if it is stored.
fn find_key(es: &Vec<(String, Setting)>, key: &String) -> (r: Option<usize>)
    requires
        names_sorted(entry_keys(es@)),
    ensures
        match r {
            Some(i) => i < es@.len() && es@[i as int].0@ == key@,
            Option::None => !entries_map(es@).contains_key(key@),
        },
{
    let pos = key_position(es, key);
    if pos < es.len() && es[pos].0 == *key {
        Some(pos)
    } else {
        proof {
            assert forall|i: int| 0 <= i < es@.len() implies es@[i].0@ != key@ by {
                if es@[i].0@ == key@ {
                    if i < pos {
                        lemma_text_lt_irreflexive(key@);
                    } else {
                        assert(entry_keys(es@)[pos as int] == es@[pos as int].0@);
                        assert(entry_keys(es@)[i] == es@[i].0@);
                        lemma_text_lt_total(es@[pos as int].0@, key@);
                        if i > pos {
                            lemma_text_lt_transitive(key@, es@[pos as int].0@, key@);
                        }
                        lemma_text_lt_irreflexive(key@);
                    }
                }
            }
        }
        None
    }
}

/// The stored setting of a key found at position `i`.
proof fn lemma_entry_lookup(es: Seq<(String, Setting)>, i: int)
    requires
        names_sorted(entry_keys(es)),
        0 <= i < es.len(),
    ensures
        entries_map(es).contains_key(es[i].0@),
        entries_map(es)[es[i].0@] == es[i].1,
{
    let k = es[i].0@;
    assert(entries_map(es).contains_key(k));
    let j = key_slot(es, k);
    assert(entry_keys(es)[j] == entry_keys(es)[i]);
    lemma_sorted_unique(entry_keys(es), i, j);
    assert(entries_map(es)[k] == es[j].1);
}

/// Stores `setting` under `key` in sorted entries.
fn store(es: &mut Vec<(String, Setting)>, key: String, setting: Setting)
    requires
        names_sorted(entry_keys(old(es)@)),
    ensures
        names_sorted(entry_keys(final(es)@)),
        entries_map(final(es)@) == entries_map(old(es)@).insert(key@, setting),
{
    let ghost before = es@;
    let ghost k = key@;
    let pos = key_position(es, &key);
    let found = pos < es.len() && es[pos].0 == key;
    proof {
        assert forall|j: int| 0 <= j < pos implies text_lt(#[trigger] entry_keys(before)[j], k) by {
            assert(entry_keys(before)[j] == before[j].0@);
        }
        if pos < before.len() {
            assert(entry_keys(before)[pos as int] == before[pos as int].0@);
            if !found {
                lemma_text_lt_total(before[pos as int].0@, k);
            }
        }
    }
    if found {
        es.set(pos, (key, setting));
        proof {
            assert(entry_keys(es@) =~= entry_keys(before));
        }
    } else {
        es.insert(pos, (key, setting));
        proof {
            assert(entry_keys(es@) =~= entry_keys(before).insert(pos as int, k));
            lemma_sorted_insert(entry_keys(before), pos as int, k);
        }
    }
    proof {
        let after = es@;
        let target = entries_map(before).insert(k, setting);
        lemma_entry_lookup(after, pos as int);
        assert forall|x: Seq<char>| #[trigger] entries_map(after).contains_key(x) <==> target.contains_key(x) by {
            if entries_map(after).contains_key(x) && x != k {
                let j = choose|j: int| 0 <= j < after.len() && #[trigger] after[j].0@ == x;
                let i = if !found && j > pos { j - 1 } else { j };
                assert(before[i] == after[j]);
            }
            if entries_map(before).contains_key(x) && x != k {
                let i = choose|i: int| 0 <= i < before.len() && #[trigger] before[i].0@ == x;
                let j = if !found && i >= pos { i + 1 } else { i };
                assert(before[i] == after[j]);
            }
        }
        assert forall|x: Seq<char>| entries_map(after).contains_key(x) implies #[trigger] entries_map(after)[x] == target[x] by {
            if x != k {
                let j = choose|j: int| 0 <= j < after.len() && #[trigger] after[j].0@ == x;
                let i = if !found && j > pos { j - 1 } else { j };
                assert(before[i] == after[j]);
                lemma_entry_lookup(after, j);
                lemma_entry_lookup(before, i);
            }
        }
        assert(entries_map(after) =~= target);
    }
}

/// The map that storing `es` one after the other gives: a later entry for a
/// key replaces an earlier one.
pub open spec fn collected(es: Seq<(String, Setting)>) -> Map<Seq<char>, Setting>
    decreases es.len(),
{
    if es.len() == 0 {
        Map::empty()
    } else {
        collected(es.drop_last()).insert(es.last().0@, es.last().1)
    }
}

/// Key of the setting that turns the Dear ImGui demo window on.
pub const RENDER_IMGUI_DEMO: &'static str = "render.imgui_demo";

/// Key of the setting that turns the navigation debug window on.
pub const RENDER_NAVIGATION_DEBUG: &'static str = "render.navigation.debug";

/// Key of the setting that draws the navigation mesh.
pub const RENDER_NAVIGATION_NAVMESH: &'static str = "render.navigation.navmesh";

/// Key of the setting that turns the camera debug window on.
pub const RENDER_CAMERA_DEBUG: &'static str = "render.camera.debug";

/// Key of the setting that draws the ground grid.
pub const RENDER_GRID: &'static str = "render.grid";

/// Key of the setting that turns the line of sight debug window on.
pub const RENDER_LINE_OF_SIGHT_DEBUG: &'static str = "render.line_of_sight.debug";

/// The keys of stored entries, in their order.
fn collect_keys(es: &Vec<(String, Setting)>) -> (keys: Vec<String>)
    ensures
        key_views(keys@) == entry_keys(es@),
{
    let mut keys: Vec<String> = Vec::new();
    let mut j: usize = 0;
    while j < es.len()
        invariant
            j <= es@.len(),
            key_views(keys@) == entry_keys(es@).take(j as int),
        decreases es@.len() - j,
    {
        let ghost prev = key_views(keys@);
        keys.push(copy_string(&es[j].0));
        assert(key_views(keys@) =~= prev.push(es@[j as int].0@));
        assert(entry_keys(es@).take(j + 1) =~= entry_keys(es@).take(j as int).push(es@[j as int].0@));
        j = j + 1;
    }
    assert(entry_keys(es@).take(es@.len() as int) =~= entry_keys(es@));
    keys
}

impl GuiSettings {
    /// The settings `entries` (a later entry for a key replaces an earlier
    /// one), their folder tree, and an empty search box.
    pub fn new(entries: Vec<(String, Setting)>) -> (r: Self)
        ensures
            r@ == collected(entries@),
            shows_keys(r.tree(), r.key_order()),
            r.search_text().len() == 0,
    {
        let mut settings: Vec<(String, Setting)> = Vec::new();
        let mut i: usize = 0;
        while i < entries.len()
            invariant
                i <= entries@.len(),
                names_sorted(entry_keys(settings@)),
                entries_map(settings@) == collected(entries@.take(i as int)),
            decreases entries@.len() - i,
        {
            proof {
                assert(entries@.take(i + 1).drop_last() =~= entries@.take(i as int));
                assert(entries@.take(i + 1).last() == entries@[i as int]);
                if i == 0 {
                    assert(entries_map(settings@) =~= Map::<Seq<char>, Setting>::empty());
                }
            }
            store(&mut settings, copy_string(&entries[i].0), entries[i].1);
            i = i + 1;
        }
        assert(entries@.take(entries@.len() as int) =~= entries@);
        let keys = collect_keys(&settings);
        let view_tree = ViewNode::new(&keys);
        let r = GuiSettings { settings, view_tree, search: String::new() };
        r
    }

    /// The value stored under `key`; the key must exist and hold a value of
    /// type `T`.
    pub fn get<T: SettingAccess>(&self, key: &str) -> (r: &T)
        requires
            self@.contains_key(key@),
            T::value_in(self@[key@]) is Some,
        ensures
            T::value_in(self@[key@]) == Some(*r),
    {
        proof {
            use_type_invariant(self);
        }
        let owned = key.to_owned();
        let i = match find_key(&self.settings, &owned) {
            Some(i) => i,
            None => 0,
        };
        proof {
            lemma_entry_lookup(self.settings@, i as int);
        }
        T::as_ref(&self.settings[i].1).unwrap()
    }

    /// The setting stored under `key`, of whatever type, if any.
    pub fn lookup(&self, key: &str) -> (r: Option<Setting>)
        ensures
            r == if self@.contains_key(key@) { Some(self@[key@]) } else { Option::<Setting>::None },
    {
        proof {
            use_type_invariant(self);
        }
        let owned = key.to_owned();
        match find_key(&self.settings, &owned) {
            Some(i) => {
                proof {
                    lemma_entry_lookup(self.settings@, i as int);
                }
                Some(self.settings[i].1)
            },
            None => None,
        }
    }

    /// Stores `value` under `key`, replacing what was there. The folder tree
    /// is the one built when the store was made.
    pub fn set<T: SettingAccess>(&mut self, key: &str, value: T)
        ensures
            final(self)@ == old(self)@.insert(key@, T::setting_for(value)),
            final(self).tree() == old(self).tree(),
            final(self).search_text() == old(self).search_text(),
    {
        proof {
            use_type_invariant(&*self);
        }
        let setting = value.into_setting();
        let mut entries: Vec<(String, Setting)> = Vec::new();
        std::mem::swap(&mut entries, &mut self.settings);
        store(&mut entries, key.to_owned(), setting);
        self.settings = entries;
    }

    /// The stored keys, in the order of strings: each stored key once, and
    /// nothing else.
    pub fn keys(&self) -> (r: Vec<String>)
        ensures
            key_views(r@) == self.key_order(),
            names_sorted(self.key_order()),
            forall|k: Seq<char>| self@.contains_key(k) <==> self.key_order().contains(k),
    {
        proof {
            use_type_invariant(self);
            let es = self.settings@;
            assert forall|k: Seq<char>| self@.contains_key(k) <==> self.key_order().contains(k) by {
                if self@.contains_key(k) {
                    let i = choose|i: int| 0 <= i < es.len() && #[trigger] es[i].0@ == k;
                    assert(entry_keys(es)[i] == k);
                }
                if self.key_order().contains(k) {
                    let i = choose|i: int| 0 <= i < entry_keys(es).len() && entry_keys(es)[i] == k;
                    assert(es[i].0@ == k);
                }
            }
        }
        let keys = collect_keys(&self.settings);
        keys
    }

    /// The folder tree shown when nothing is searched.
    pub fn view_tree(&self) -> (r: &ViewNode)
        ensures
            *r == self.tree(),
    {
        &self.view_tree
    }

    /// The text of the search box.
    pub fn search(&self) -> (r: &String)
        ensures
            r@ == self.search_text(),
    {
        &self.search
    }

    /// Replaces the text of the search box.
    pub fn set_search(&mut self, text: String)
        ensures
            final(self).search_text() == text@,
            final(self)@ == old(self)@,
            final(self).tree() == old(self).tree(),
            final(self).key_order() == old(self).key_order(),
    {
        proof {
            use_type_invariant(&*self);
        }
        self.search = text;
    }

    /// Empties the search box.
    pub fn clear_search(&mut self)
        ensures
            final(self).search_text().len() == 0,
            final(self)@ == old(self)@,
            final(self).tree() == old(self).tree(),
            final(self).key_order() == old(self).key_order(),
    {
        proof {
            use_type_invariant(&*self);
        }
        self.search = String::new();
    }

    /// The search box text, trimmed and lowercased.
    pub fn search_query(&self) -> (q: String)
        ensures
            q@ == normalized_query(self.search_text()),
    {
        lowercase(trim_text(self.search.as_str()))
    }

    /// The folder tree pruned to the settings that match the search, or
    /// `None` when the search is empty and the full tree is shown.
    pub fn search_tree(&self) -> (r: Option<ViewNode>)
        ensures
            r is None <==> normalized_query(self.search_text()).len() == 0,
            r matches Some(t) ==> shows_keys(t, kept_keys(self.key_order(), normalized_query(self.search_text()))),
    {
        let query = self.search_query();
        if query.as_str().is_empty() {
            None
        } else {
            let keys = self.keys();
            let q = query.as_str();
            let matches = |k: &str| -> (b: bool)
                ensures
                    b == search_matches(q@, k@),
                { key_matches(q, k) };
            let t = ViewNode::new_filtered(&keys, matches);
            proof {
                let views = key_views(keys@);
                let pred = |k: Seq<char>| search_matches(q@, k);
                let picks = choose|picks: Seq<bool>|
                    {
                        &&& picks.len() == keys@.len()
                        &&& forall|i: int| 0 <= i < keys@.len() ==> #[trigger] answered(matches, keys@[i]@, picks[i])
                        &&& shows_keys(t, picked(key_views(keys@), picks))
                    };
                assert forall|i: int| 0 <= i < views.len() implies picks[i] == pred(#[trigger] views[i]) by {
                    assert(answered(matches, keys@[i]@, picks[i]));
                }
                lemma_picked_filter(views, picks, pred);
            }
            Some(t)
        }
    }
}

impl Default for GuiSettings {
    /// The settings the window starts with: the grid is drawn, every debug
    /// window and the demo window are off.
    fn default() -> (r: Self)
        ensures
            r@ == map![
                RENDER_IMGUI_DEMO@ => Setting::Bool(false),
                RENDER_NAVIGATION_DEBUG@ => Setting::Bool(false),
                RENDER_NAVIGATION_NAVMESH@ => Setting::Bool(false),
                RENDER_CAMERA_DEBUG@ => Setting::Bool(false),
                RENDER_GRID@ => Setting::Bool(true),
                RENDER_LINE_OF_SIGHT_DEBUG@ => Setting::Bool(false),
            ],
    {
        let mut entries: Vec<(String, Setting)> = Vec::new();
        entries.push((RENDER_IMGUI_DEMO.to_owned(), Setting::Bool(false)));
        entries.push((RENDER_NAVIGATION_DEBUG.to_owned(), Setting::Bool(false)));
        entries.push((RENDER_NAVIGATION_NAVMESH.to_owned(), Setting::Bool(false)));
        entries.push((RENDER_CAMERA_DEBUG.to_owned(), Setting::Bool(false)));
        entries.push((RENDER_GRID.to_owned(), Setting::Bool(true)));
        entries.push((RENDER_LINE_OF_SIGHT_DEBUG.to_owned(), Setting::Bool(false)));
        proof {
            reveal_with_fuel(collected, 7);
        }
        GuiSettings::new(entries)
    }
}

/// Reading a key right after storing a value there gives that value back,
/// and storing under one key leaves every other key as it was.
pub proof fn lemma_read_after_write<T: SettingAccess>(
    m: Map<Seq<char>, Setting>,
    key: Seq<char>,
    value: T,
    other: Seq<char>,
)
    ensures
        m.insert(key, T::setting_for(value)).contains_key(key),
        T::value_in(m.insert(key, T::setting_for(value))[key]) == Some(value),
        other != key ==> m.insert(key, T::setting_for(value)).contains_key(other) == m.contains_key(other),
        other != key && m.contains_key(other) ==> m.insert(key, T::setting_for(value))[other] == m[other],
{
    T::lemma_round_trip(value);
}

/// Strings are ordered as in a dictionary: a proper prefix comes before
/// the longer string, and at the first place two strings differ the one
/// with the smaller character comes first.
pub proof fn lemma_text_lt_dictionary(p: Seq<char>, x: Seq<char>, c1: char, c2: char, r1: Seq<char>, r2: Seq<char>)
    ensures
        x.len() > 0 ==> text_lt(p, p + x),
        (c1 as int) < (c2 as int) ==> text_lt(p + seq![c1] + r1, p + seq![c2] + r2),
    decreases p.len(),
{
    if p.len() > 0 {
        lemma_text_lt_dictionary(p.drop_first(), x, c1, c2, r1, r2);
        assert((p + x).drop_first() =~= p.drop_first() + x);
        assert((p + seq![c1] + r1).drop_first() =~= p.drop_first() + seq![c1] + r1);
        assert((p + seq![c2] + r2).drop_first() =~= p.drop_first() + seq![c2] + r2);
        assert((p + x)[0] == p[0]);
        assert((p + seq![c1] + r1)[0] == p[0]);
        assert((p + seq![c2] + r2)[0] == p[0]);
    } else {
        assert(p + x =~= x);
        assert((p + seq![c1] + r1)[0] == c1);
        assert((p + seq![c2] + r2)[0] == c2);
    }
}

/// A search finds a key when the query is empty, or when it occurs in the
/// lowercased key or in its lowercased last part, and only then; the keys
/// kept are exactly the keys it finds.
pub proof fn lemma_search_finds(query: Seq<char>, key: Seq<char>, keys: Seq<Seq<char>>)
    ensures
        query.len() == 0 ==> search_matches(query, key),
        text_contains(lowercase_of(key), query) ==> search_matches(query, key),
        text_contains(lowercase_of(segments(key).last()), query) ==> search_matches(query, key),
        search_matches(query, key) ==> query.len() == 0 || text_contains(lowercase_of(key), query)
            || text_contains(lowercase_of(segments(key).last()), query),
        kept_keys(keys, query).contains(key) <==> keys.contains(key) && search_matches(query, key),
{
    let pred = |k: Seq<char>| search_matches(query, k);
    if kept_keys(keys, query).contains(key) {
        keys.lemma_filter_contains_rev(pred, key);
        let i = choose|i: int| 0 <= i < keys.filter(pred).len() && keys.filter(pred)[i] == key;
        keys.lemma_filter_pred(pred, i);
    }
    if keys.contains(key) && search_matches(query, key) {
        let i = choose|i: int| 0 <= i < keys.len() && keys[i] == key;
        keys.lemma_filter_contains(pred, i);
    }
}

} // verus!
