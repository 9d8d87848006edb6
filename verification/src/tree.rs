use vstd::prelude::*;

use crate::error::Error;

verus! {

/// A tree of the forest, as stored.
#[derive(Debug)]
pub struct Tree {
    pub id: i32,
    pub name: String,
}

/// A node reduced to its id and its text.
#[derive(Debug)]
pub struct TreeNodeQuery {
    pub id: i32,
    pub text: String,
}

/// A node with the link to its parent (`None` for the root of a tree).
#[derive(Debug)]
pub struct NodeChild {
    pub id: i32,
    pub text: String,
    pub parent: Option<i32>,
}

/// A node as it is answered: a node listed at the top carries the list of
/// its children (`Some`), a node listed as a child carries none (`None`).
#[derive(Debug)]
pub struct TreeNode {
    pub id: i32,
    pub text: String,
    pub children: Option<Vec<TreeNode>>,
}

/// A tree with its root nodes, each with its children.
#[derive(Debug)]
pub struct TreeDetail {
    pub id: i32,
    pub name: String,
    pub roots: Vec<TreeNode>,
}

/// A node with its children (each with its own children) and its parent.
#[derive(Debug)]
pub struct NodeResult {
    pub id: i32,
    pub text: String,
    pub children: Vec<TreeNode>,
    pub parent: Option<TreeNodeQuery>,
}

/// A request to add a node below `parent`.
#[derive(Debug)]
pub struct NodePostQuery {
    pub parent: i32,
    pub text: String,
}

/// The row that stores a new node.
#[derive(Debug)]
pub struct NewNode {
    pub parent: i32,
    pub tree: i32,
    pub text: String,
}

/// The ids of a list of nodes, in order.
pub open spec fn ids_of(rows: Seq<TreeNodeQuery>) -> Seq<i32> {
    rows.map_values(|q: TreeNodeQuery| q.id)
}

/// Position `i` holds the first id of `ids` that `parent` names.
pub open spec fn is_first_match(ids: Seq<i32>, parent: Option<i32>, i: int) -> bool {
    &&& 0 <= i < ids.len()
    &&& parent == Some(ids[i])
    &&& forall|j: int| 0 <= j < i ==> parent != Some(#[trigger] ids[j])
}

/// A child as it is listed below its parent.
pub open spec fn leaf_of(c: NodeChild) -> TreeNode {
    TreeNode { id: c.id, text: c.text, children: None }
}

/// The children among `kids`, in their order, that belong below the node at
/// position `i` of `ids`: those whose parent is named first at `i`.
pub open spec fn leaves_under(ids: Seq<i32>, kids: Seq<NodeChild>, i: int) -> Seq<TreeNode>
    decreases kids.len(),
{
    if kids.len() == 0 {
        Seq::empty()
    } else {
        let rest = leaves_under(ids, kids.drop_last(), i);
        if is_first_match(ids, kids.last().parent, i) {
            rest.push(leaf_of(kids.last()))
        } else {
            rest
        }
    }
}

/// `out` lists the nodes of `parents` in order, each carrying the children
/// of `kids` that belong below it.
pub open spec fn assembled(parents: Seq<TreeNodeQuery>, kids: Seq<NodeChild>, out: Seq<TreeNode>) -> bool {
    &&& out.len() == parents.len()
    &&& forall|i: int|
        0 <= i < out.len() ==> {
            &&& (#[trigger] out[i]).id == parents[i].id
            &&& out[i].text == parents[i].text
            &&& out[i].children matches Some(v) && v@ == leaves_under(ids_of(parents), kids, i)
        }
}

/// The ids of `rows`, in order: the parents whose children are to be fetched.
pub fn parent_ids(rows: &Vec<TreeNodeQuery>) -> (ids: Vec<i32>)
    ensures
        ids@ == ids_of(rows@),
{
    let mut ids: Vec<i32> = Vec::new();
    for i in 0..rows.len()
        invariant
            ids@ == ids_of(rows@.take(i as int)),
    {
        ids.push(rows[i].id);
        assert(ids_of(rows@.take(i + 1)) =~= ids_of(rows@.take(i as int)).push(rows@[i as int].id));
    }
    assert(rows@.take(rows.len() as int) =~= rows@);
    ids
}

/// The first position of `ids` that `parent` names, if any.
fn first_match(ids: &Vec<i32>, parent: Option<i32>) -> (r: Option<usize>)
    ensures
        match r {
            Some(k) => is_first_match(ids@, parent, k as int),
            None => forall|j: int| 0 <= j < ids.len() ==> parent != Some(#[trigger] ids@[j]),
        },
{
    match parent {
        None => None,
        Some(p) => {
            for i in 0..ids.len()
                invariant
                    parent == Some(p),
                    forall|j: int| 0 <= j < i ==> parent != Some(#[trigger] ids@[j]),
            {
                if ids[i] == p {
                    return Some(i);
                }
            }
            None
        },
    }
}


/// Two positions that are both the first to match the same parent coincide.
proof fn lemma_first_match_unique(ids: Seq<i32>, parent: Option<i32>, i: int, k: int)
    requires
        is_first_match(ids, parent, i),
        is_first_match(ids, parent, k),
    ensures
        i == k,
{
    if i < k {
        assert(parent != Some(ids[i]));
    } else if k < i {
        assert(parent != Some(ids[k]));
    }
}

/// Lists every node of `parents` with its children: each child of
/// `children`, in order, goes below the first node of `parents` whose id is
/// the child's parent; a child whose parent is not among `parents` is left
/// out. The children listed carry no children of their own.
pub fn attach_children(parents: Vec<TreeNodeQuery>, children: Vec<NodeChild>) -> (roots: Vec<TreeNode>)
    ensures
        assembled(parents@, children@, roots@),
{
    let ghost tops = parents@;
    let ghost kids = children@;
    let ids = parent_ids(&parents);
    let n = parents.len();

    let mut groups: Vec<Vec<TreeNode>> = Vec::new();
    for i in 0..n
        invariant
            n == ids@.len(),
            groups.len() == i,
            forall|j: int| 0 <= j < i ==> (#[trigger] groups@[j])@ == Seq::<TreeNode>::empty(),
    {
        groups.push(Vec::new());
    }
    assert forall|j: int| 0 <= j < n implies (#[trigger] groups@[j])@ == leaves_under(ids@, kids.take(0), j) by {
        assert(kids.take(0).len() == 0);
    }

    for child in it: children
        invariant
            ids@ == ids_of(tops),
            it.seq() == kids,
            n == ids@.len(),
            groups.len() == n,
            forall|j: int| 0 <= j < n ==> (#[trigger] groups@[j])@ == leaves_under(ids@, kids.take(it.index() as int), j),
    {
        let ghost c = it.index() as int;
        let ghost before = groups@;
        assert(kids.take(c + 1).drop_last() =~= kids.take(c));
        assert(kids.take(c + 1).last() == kids[c]);
        assert(child == kids[c]);
        match first_match(&ids, child.parent) {
            Some(k) => {
                let mut taken: Vec<TreeNode> = Vec::new();
                groups.set_and_swap(k, &mut taken);
                taken.push(TreeNode { id: child.id, text: child.text, children: None });
                groups.set_and_swap(k, &mut taken);
                assert forall|j: int| 0 <= j < n implies (#[trigger] groups@[j])@ == leaves_under(ids@, kids.take(c + 1), j) by {
                    if j != k {
                        if is_first_match(ids@, kids[c].parent, j) {
                            lemma_first_match_unique(ids@, kids[c].parent, j, k as int);
                        }
                        assert(groups@[j] == before[j]);
                    }
                }
            },
            None => {
                assert forall|j: int| 0 <= j < n implies (#[trigger] groups@[j])@ == leaves_under(ids@, kids.take(c + 1), j) by {
                    if is_first_match(ids@, kids[c].parent, j) {
                        assert(kids[c].parent != Some(ids@[j]));
                    }
                }
            },
        }
    }
    assert(kids.take(kids.len() as int) =~= kids);

    let mut roots: Vec<TreeNode> = Vec::new();
    for q in it: parents
        invariant
            it.seq() == tops,
            ids@ == ids_of(tops),
            n == tops.len(),
            groups.len() == n,
            roots.len() == it.index(),
            forall|j: int| it.index() <= j < n ==> (#[trigger] groups@[j])@ == leaves_under(ids@, kids, j),
            forall|j: int|
                0 <= j < roots.len() ==> {
                    &&& (#[trigger] roots@[j]).id == tops[j].id
                    &&& roots@[j].text == tops[j].text
                    &&& roots@[j].children matches Some(v) && v@ == leaves_under(ids@, kids, j)
                },
    {
        let i = roots.len();
        let mut taken: Vec<TreeNode> = Vec::new();
        groups.set_and_swap(i, &mut taken);
        roots.push(TreeNode { id: q.id, text: q.text, children: Some(taken) });
    }
    roots
}

/// Answers a request for tree `id` from what the store returned for it: the
/// trees with that id (`trees`), the nodes of the tree without a parent
/// (`roots`), and the nodes whose parent is one of those roots (`children`).
///
/// No tree is a missing object; more than one is a broken store; exactly
/// one is answered with its id and name and its roots, each with its
/// children as [`attach_children`] lists them.
pub fn trees_get(trees: Vec<Tree>, roots: Vec<TreeNodeQuery>, children: Vec<NodeChild>) -> (r: Result<TreeDetail, Error>)
    ensures
        trees.len() == 0 <==> r matches Err(Error::NotFound(_)),
        trees.len() > 1 <==> r matches Err(Error::Internal(_)),
        trees.len() == 1 <==> r is Ok,
        r matches Err(Error::NotFound(m)) ==> m@ == "No such tree"@,
        r matches Err(Error::Internal(m)) ==> m@ == "More than one tree returned for single ID"@,
        r matches Ok(d) ==> {
            &&& d.id == trees@[0].id
            &&& d.name == trees@[0].name
            &&& assembled(roots@, children@, d.roots@)
        },
{
    let mut trees = trees;
    let listed = attach_children(roots, children);
    if trees.len() < 1 {
        Err(Error::NotFound("No such tree".to_owned()))
    } else if trees.len() > 1 {
        Err(Error::Internal("More than one tree returned for single ID".to_owned()))
    } else {
        let tree = trees.pop().unwrap();
        Ok(TreeDetail { id: tree.id, name: tree.name, roots: listed })
    }
}

/// Answers a request for a node from what the store returned for it: the
/// node itself, its children, the children of those children, and the text
/// of its parent, which is fetched only when the node has a parent.
///
/// The node is answered with its id and text, its children each with their
/// own children as [`attach_children`] lists them, and its parent as id
/// and text when that text was fetched.
pub fn nodes_get(
    node: NodeChild,
    children: Vec<TreeNodeQuery>,
    grandchildren: Vec<NodeChild>,
    parent_text: Option<String>,
) -> (r: NodeResult)
    requires
        parent_text is Some ==> node.parent is Some,
    ensures
        r.id == node.id,
        r.text == node.text,
        assembled(children@, grandchildren@, r.children@),
        r.parent == match parent_text {
            Some(t) => Some(TreeNodeQuery { id: node.parent->Some_0, text: t }),
            None => None::<TreeNodeQuery>,
        },
{
    let listed = attach_children(children, grandchildren);
    let parent = match parent_text {
        Some(t) => Some(TreeNodeQuery { id: node.parent.unwrap(), text: t }),
        None => None,
    };
    NodeResult { parent, id: node.id, text: node.text, children: listed }
}

/// The row that stores the node a request adds: below the requested parent,
/// in tree `tree`, with the requested text.
pub fn nodes_post(query: NodePostQuery, tree: i32) -> (row: NewNode)
    ensures
        row.parent == query.parent,
        row.tree == tree,
        row.text == query.text,
{
    NewNode { parent: query.parent, tree, text: query.text }
}

/// `parent` names one of the nodes `ids`.
pub open spec fn is_claimed(ids: Seq<i32>, parent: Option<i32>) -> bool {
    parent matches Some(p) && ids.contains(p)
}

/// How many of `kids` name one of the nodes `ids` as parent.
pub open spec fn claimed_count(ids: Seq<i32>, kids: Seq<NodeChild>) -> nat
    decreases kids.len(),
{
    if kids.len() == 0 {
        0
    } else {
        claimed_count(ids, kids.drop_last()) + if is_claimed(ids, kids.last().parent) {
            1nat
        } else {
            0nat
        }
    }
}

/// How many children the first `n` of the listed nodes `out` carry.
pub open spec fn listed_count(out: Seq<TreeNode>, n: int) -> nat
    decreases n,
{
    if n <= 0 {
        0
    } else {
        listed_count(out, n - 1) + match out[n - 1].children {
            Some(v) => v@.len(),
            None => 0,
        }
    }
}

/// How many children the first `n` positions of `ids` receive from `kids`.
spec fn received_count(ids: Seq<i32>, kids: Seq<NodeChild>, n: int) -> nat
    decreases n,
{
    if n <= 0 {
        0
    } else {
        received_count(ids, kids, n - 1) + leaves_under(ids, kids, n - 1).len()
    }
}

/// How many of the first `n` positions of `ids` are the first to match `parent`.
spec fn match_count(ids: Seq<i32>, parent: Option<i32>, n: int) -> nat
    decreases n,
{
    if n <= 0 {
        0
    } else {
        match_count(ids, parent, n - 1) + if is_first_match(ids, parent, n - 1) {
            1nat
        } else {
            0nat
        }
    }
}

proof fn lemma_first_match_exists(ids: Seq<i32>, p: i32, j: int)
    requires
        0 <= j < ids.len(),
        ids[j] == p,
    ensures
        exists|i: int| is_first_match(ids, Some(p), i),
    decreases j,
{
    if exists|k: int| 0 <= k < j && ids[k] == p {
        let k = choose|k: int| 0 <= k < j && ids[k] == p;
        lemma_first_match_exists(ids, p, k);
    } else {
        assert(is_first_match(ids, Some(p), j));
    }
}

proof fn lemma_match_count(ids: Seq<i32>, parent: Option<i32>, n: int)
    requires
        0 <= n <= ids.len(),
    ensures
        match_count(ids, parent, n) == if exists|i: int| 0 <= i < n && is_first_match(ids, parent, i) {
            1nat
        } else {
            0nat
        },
    decreases n,
{
    if n > 0 {
        lemma_match_count(ids, parent, n - 1);
        if is_first_match(ids, parent, n - 1) {
            if exists|i: int| 0 <= i < n - 1 && is_first_match(ids, parent, i) {
                let i = choose|i: int| 0 <= i < n - 1 && is_first_match(ids, parent, i);
                lemma_first_match_unique(ids, parent, i, n - 1);
            }
        } else {
            if exists|i: int| 0 <= i < n && is_first_match(ids, parent, i) {
                let i = choose|i: int| 0 <= i < n && is_first_match(ids, parent, i);
                assert(0 <= i < n - 1);
            }
        }
    }
}

proof fn lemma_received_step(ids: Seq<i32>, kids: Seq<NodeChild>, n: int)
    requires
        kids.len() > 0,
        0 <= n,
    ensures
        received_count(ids, kids, n) == received_count(ids, kids.drop_last(), n) + match_count(
            ids,
            kids.last().parent,
            n,
        ),
    decreases n,
{
    if n > 0 {
        lemma_received_step(ids, kids, n - 1);
    }
}

proof fn lemma_received_none(ids: Seq<i32>, kids: Seq<NodeChild>, n: int)
    requires
        kids.len() == 0,
    ensures
        received_count(ids, kids, n) == 0,
    decreases n,
{
    if n > 0 {
        lemma_received_none(ids, kids, n - 1);
    }
}

proof fn lemma_received_total(ids: Seq<i32>, kids: Seq<NodeChild>)
    ensures
        received_count(ids, kids, ids.len() as int) == claimed_count(ids, kids),
    decreases kids.len(),
{
    if kids.len() > 0 {
        let parent = kids.last().parent;
        lemma_received_total(ids, kids.drop_last());
        lemma_received_step(ids, kids, ids.len() as int);
        lemma_match_count(ids, parent, ids.len() as int);
        if is_claimed(ids, parent) {
            let p = parent->Some_0;
            let j = choose|j: int| 0 <= j < ids.len() && ids[j] == p;
            lemma_first_match_exists(ids, p, j);
        } else {
            if exists|i: int| 0 <= i < ids.len() && is_first_match(ids, parent, i) {
                let i = choose|i: int| 0 <= i < ids.len() && is_first_match(ids, parent, i);
                assert(ids.contains(ids[i]));
            }
        }
    } else {
        lemma_received_none(ids, kids, ids.len() as int);
    }
}

proof fn lemma_listed_is_received(parents: Seq<TreeNodeQuery>, kids: Seq<NodeChild>, out: Seq<TreeNode>, n: int)
    requires
        assembled(parents, kids, out),
        0 <= n <= out.len(),
    ensures
        listed_count(out, n) == received_count(ids_of(parents), kids, n),
    decreases n,
{
    if n > 0 {
        lemma_listed_is_received(parents, kids, out, n - 1);
        assert(out[n - 1].id == parents[n - 1].id);
    }
}

/// No child is lost or listed twice: the nodes listed by [`attach_children`]
/// carry, all together, exactly as many children as there are children
/// whose parent is one of the listed nodes.
pub proof fn lemma_children_listed_once(parents: Seq<TreeNodeQuery>, kids: Seq<NodeChild>, out: Seq<TreeNode>)
    requires
        assembled(parents, kids, out),
    ensures
        listed_count(out, out.len() as int) == claimed_count(ids_of(parents), kids),
{
    lemma_listed_is_received(parents, kids, out, out.len() as int);
    lemma_received_total(ids_of(parents), kids);
}

proof fn lemma_leaves_have_parent(ids: Seq<i32>, kids: Seq<NodeChild>, i: int, j: int)
    requires
        0 <= j < leaves_under(ids, kids, i).len(),
    ensures
        exists|k: int|
            0 <= k < kids.len() && #[trigger] leaf_of(kids[k]) == leaves_under(ids, kids, i)[j] && kids[k].parent
                == Some(ids[i]) && 0 <= i < ids.len(),
    decreases kids.len(),
{
    let rest = kids.drop_last();
    let before = leaves_under(ids, rest, i);
    if j < before.len() {
        lemma_leaves_have_parent(ids, rest, i, j);
        let k = choose|k: int|
            0 <= k < rest.len() && #[trigger] leaf_of(rest[k]) == before[j] && rest[k].parent == Some(ids[i]) && 0
                <= i < ids.len();
        assert(kids[k] == rest[k]);
    } else {
        assert(leaf_of(kids[kids.len() - 1]) == leaves_under(ids, kids, i)[j]);
    }
}

/// Every child listed below a node names that node as its parent, and is
/// one of the children that were given.
pub proof fn lemma_listed_child_belongs(
    parents: Seq<TreeNodeQuery>,
    kids: Seq<NodeChild>,
    out: Seq<TreeNode>,
    i: int,
    j: int,
)
    requires
        assembled(parents, kids, out),
        0 <= i < out.len(),
        out[i].children matches Some(v) && 0 <= j < v@.len(),
    ensures
        exists|k: int|
            0 <= k < kids.len() && #[trigger] leaf_of(kids[k]) == out[i].children->Some_0@[j] && kids[k].parent
                == Some(out[i].id),
{
    lemma_leaves_have_parent(ids_of(parents), kids, i, j);
}

/// The children among `kids`, in their order, that name `id` as parent, as
/// they are listed.
pub open spec fn children_naming(kids: Seq<NodeChild>, id: i32) -> Seq<TreeNode>
    decreases kids.len(),
{
    if kids.len() == 0 {
        Seq::empty()
    } else {
        let rest = children_naming(kids.drop_last(), id);
        if kids.last().parent == Some(id) {
            rest.push(leaf_of(kids.last()))
        } else {
            rest
        }
    }
}

proof fn lemma_leaves_are_naming(ids: Seq<i32>, kids: Seq<NodeChild>, i: int)
    requires
        0 <= i < ids.len(),
        forall|j: int| 0 <= j < i ==> ids[j] != ids[i],
    ensures
        leaves_under(ids, kids, i) == children_naming(kids, ids[i]),
    decreases kids.len(),
{
    if kids.len() > 0 {
        lemma_leaves_are_naming(ids, kids.drop_last(), i);
        if kids.last().parent == Some(ids[i]) {
            assert(is_first_match(ids, kids.last().parent, i));
        }
    }
}

/// A node listed once carries all of its children: the node at position
/// `i`, whose id no earlier node has, lists exactly the children that name
/// it as parent, in their order. So when the children of a tree's roots are
/// the nodes whose parent is one of those roots, each root lists the same
/// children that asking for that root alone lists.
pub proof fn lemma_listed_node_has_all_its_children(
    parents: Seq<TreeNodeQuery>,
    kids: Seq<NodeChild>,
    out: Seq<TreeNode>,
    i: int,
)
    requires
        assembled(parents, kids, out),
        0 <= i < out.len(),
        forall|j: int| 0 <= j < i ==> parents[j].id != parents[i].id,
    ensures
        out[i].children == Some(out[i].children->Some_0),
        out[i].children->Some_0@ == children_naming(kids, out[i].id),
{
    let ids = ids_of(parents);
    assert forall|j: int| 0 <= j < i implies ids[j] != ids[i] by {
        assert(parents[j].id != parents[i].id);
    }
    lemma_leaves_are_naming(ids, kids, i);
}

} // verus!
