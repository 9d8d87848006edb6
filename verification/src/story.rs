use vstd::prelude::*;

use crate::error::Error;

verus! {

/// A node of a story: its id and its text.
#[derive(Debug)]
pub struct StoryNode {
    pub id: i32,
    pub text: String,
}

/// The story that leads to a node: the nodes from the root of its tree down
/// to the node itself, and the tree they belong to.
#[derive(Debug)]
pub struct Story {
    pub tree: i32,
    pub nodes: Vec<StoryNode>,
}

/// What the store holds of one node on the way up: its text, its parent
/// (`None` at the root of a tree) and its tree.
#[derive(Debug)]
pub struct StoryNodeRes {
    pub text: String,
    pub parent: Option<i32>,
    pub tree: i32,
}

/// A story being collected: the walk climbs from the requested node to the
/// root of its tree, one fetched node at a time.
#[derive(Debug)]
pub struct StoryWalk {
    target: i32,
    current: i32,
    nodes: Vec<StoryNode>,
}

/// What a walk does after a node has been fetched.
#[derive(Debug)]
pub enum StoryStep {
    /// Fetch the node that the walk names next.
    Fetch(StoryWalk),
    /// The root has been reached: answer with this story.
    Done(Story),
    /// Fetching failed: answer with this error.
    Failed(Error),
}

/// The state of a walk: the node asked for, the node to fetch next, and the
/// nodes visited so far, from the requested node upwards.
pub struct WalkModel {
    pub target: i32,
    pub current: i32,
    pub visited: Seq<StoryNode>,
}

/// The outcome of a step of a walk.
pub enum StepModel {
    Fetch(WalkModel),
    Done(i32, Seq<StoryNode>),
    Failed(Error),
}

impl View for StoryWalk {
    type V = WalkModel;

    closed spec fn view(&self) -> WalkModel {
        WalkModel { target: self.target, current: self.current, visited: self.nodes@ }
    }
}

impl View for StoryStep {
    type V = StepModel;

    open spec fn view(&self) -> StepModel {
        match self {
            StoryStep::Fetch(w) => StepModel::Fetch(w@),
            StoryStep::Done(s) => StepModel::Done(s.tree, s.nodes@),
            StoryStep::Failed(e) => StepModel::Failed(*e),
        }
    }
}

/// A walk that has not fetched anything yet.
pub open spec fn start_walk(id: i32) -> WalkModel {
    WalkModel { target: id, current: id, visited: Seq::empty() }
}

/// A walk visits the requested node first, and fetches it first.
pub open spec fn walk_wf(w: WalkModel) -> bool {
    &&& w.visited.len() == 0 ==> w.current == w.target
    &&& w.visited.len() > 0 ==> w.visited[0].id == w.target
}

/// One step: a failed fetch ends the walk with its error; a fetched node is
/// recorded under the id it was fetched by, and the walk then climbs to its
/// parent, or, at a root, ends with the visited nodes from the root down.
pub open spec fn step_model(w: WalkModel, fetched: Result<StoryNodeRes, Error>) -> StepModel {
    match fetched {
        Err(e) => StepModel::Failed(e),
        Ok(row) => {
            let visited = w.visited.push(StoryNode { id: w.current, text: row.text });
            match row.parent {
                Some(p) => StepModel::Fetch(WalkModel { target: w.target, current: p, visited }),
                None => StepModel::Done(row.tree, visited.reverse()),
            }
        },
    }
}

/// Starts answering a request for the story of node `id`: a walk that
/// fetches `id` first.
pub fn nodes_story_get(id: i32) -> (w: StoryWalk)
    ensures
        w@ == start_walk(id),
{
    StoryWalk { target: id, current: id, nodes: Vec::new() }
}

/// The nodes of `v` in the opposite order.
fn reversed(v: Vec<StoryNode>) -> (r: Vec<StoryNode>)
    ensures
        r@ == v@.reverse(),
{
    let ghost orig = v@;
    let n = v.len();
    let mut v = v;
    let mut r: Vec<StoryNode> = Vec::new();
    while v.len() > 0
        invariant
            n == orig.len(),
            v@ == orig.subrange(0, v.len() as int),
            r.len() + v.len() == n,
            forall|i: int| 0 <= i < r.len() ==> #[trigger] r@[i] == orig[n - 1 - i],
        decreases v.len(),
    {
        let x = v.pop().unwrap();
        r.push(x);
    }
    assert(r@ =~= orig.reverse());
    r
}

impl StoryWalk {
    /// The id of the node the walk fetches next.
    pub fn next_id(&self) -> (id: i32)
        ensures
            id == self@.current,
    {
        self.current
    }

    /// Takes in what fetching [`StoryWalk::next_id`] gave and says what to
    /// do next, as [`step_model`] describes.
    pub fn step(self, fetched: Result<StoryNodeRes, Error>) -> (next: StoryStep)
        ensures
            next@ == step_model(self@, fetched),
            fetched matches Err(e) ==> (next matches StoryStep::Failed(f) && f == e),
    {
        match fetched {
            Err(e) => StoryStep::Failed(e),
            Ok(row) => {
                let mut nodes = self.nodes;
                nodes.push(StoryNode { id: self.current, text: row.text });
                match row.parent {
                    Some(p) => StoryStep::Fetch(StoryWalk { target: self.target, current: p, nodes }),
                    None => StoryStep::Done(Story { tree: row.tree, nodes: reversed(nodes) }),
                }
            },
        }
    }
}

/// Feeds fetched nodes to a walk, in order, until it ends or they run out.
pub open spec fn run_walk(w: WalkModel, rows: Seq<StoryNodeRes>) -> StepModel
    decreases rows.len(),
{
    if rows.len() == 0 {
        StepModel::Fetch(w)
    } else {
        match step_model(w, Ok(rows[0])) {
            StepModel::Fetch(next) => run_walk(next, rows.drop_first()),
            other => other,
        }
    }
}

/// `rows` climbs a tree: every node but the last names a parent, the last
/// is a root.
pub open spec fn is_chain(rows: Seq<StoryNodeRes>) -> bool {
    &&& rows.len() >= 1
    &&& forall|k: int| 0 <= k < rows.len() - 1 ==> (#[trigger] rows[k]).parent is Some
    &&& rows.last().parent is None
}

/// The nodes of a climb that starts at node `start`: the k-th fetched node
/// is `start` for k = 0, and otherwise the parent that the node before it
/// named.
pub open spec fn chain_nodes(start: i32, rows: Seq<StoryNodeRes>) -> Seq<StoryNode> {
    Seq::new(
        rows.len(),
        |k: int|
            StoryNode {
                id: if k == 0 { start } else { rows[k - 1].parent->Some_0 },
                text: rows[k].text,
            },
    )
}

/// Every step keeps a walk well formed, and a walk that ends ends with the
/// node that was asked for.
pub proof fn lemma_step_keeps_walk(w: WalkModel, fetched: Result<StoryNodeRes, Error>)
    requires
        walk_wf(w),
    ensures
        step_model(w, fetched) matches StepModel::Fetch(next) ==> walk_wf(next) && next.target == w.target,
        step_model(w, fetched) matches StepModel::Done(_, nodes) ==> {
            &&& nodes.len() == w.visited.len() + 1
            &&& nodes.last().id == w.target
        },
{
}

proof fn lemma_run_chain(w: WalkModel, rows: Seq<StoryNodeRes>)
    requires
        is_chain(rows),
    ensures
        run_walk(w, rows) == StepModel::Done(rows.last().tree, (w.visited + chain_nodes(w.current, rows)).reverse()),
    decreases rows.len(),
{
    let row = rows[0];
    let visited = w.visited.push(StoryNode { id: w.current, text: row.text });
    if rows.len() == 1 {
        assert(w.visited + chain_nodes(w.current, rows) =~= visited);
    } else {
        assert(rows[0].parent is Some);
        let p = row.parent->Some_0;
        let next = WalkModel { target: w.target, current: p, visited };
        let rest = rows.drop_first();
        assert forall|k: int| 0 <= k < rest.len() - 1 implies (#[trigger] rest[k]).parent is Some by {
            assert(rest[k] == rows[k + 1]);
        }
        lemma_run_chain(next, rest);
        assert(visited + chain_nodes(p, rest) =~= w.visited + chain_nodes(w.current, rows));
    }
}

/// The story of a node is the climb from it to the root of its tree, read
/// from the root down: fed the nodes of a climb that starts at `id`, the
/// walk begun by [`nodes_story_get`] ends with the tree of the root and one
/// story node per fetched node, the requested node last, each node the
/// parent of the one after it, and each text the text fetched for it.
pub proof fn lemma_story_is_climb(id: i32, rows: Seq<StoryNodeRes>)
    requires
        is_chain(rows),
    ensures
        ({
            let story = chain_nodes(id, rows).reverse();
            let n = rows.len();
            &&& run_walk(start_walk(id), rows) == StepModel::Done(rows.last().tree, story)
            &&& story.len() == n
            &&& story.last().id == id
            &&& forall|i: int| 0 <= i < n ==> (#[trigger] story[i]).text == rows[n - 1 - i].text
            &&& forall|i: int| 0 <= i < n - 1 ==> rows[n - 2 - i].parent == Some((#[trigger] story[i]).id)
        }),
{
    lemma_run_chain(start_walk(id), rows);
    assert(Seq::<StoryNode>::empty() + chain_nodes(id, rows) =~= chain_nodes(id, rows));
    let story = chain_nodes(id, rows).reverse();
    let n = rows.len();
    assert forall|i: int| 0 <= i < n - 1 implies rows[n - 2 - i].parent == Some((#[trigger] story[i]).id) by {
        assert(rows[n - 2 - i].parent is Some);
    }
}

/// A failed fetch fails the request with the error it gave, whatever the
/// walk has visited: no story is ever answered, and nothing more is fetched,
/// after a fetch fails.
pub proof fn lemma_failed_fetch_fails(w: WalkModel, e: Error)
    ensures
        step_model(w, Err(e)) == StepModel::Failed(e),
        !(step_model(w, Err(e)) is Done),
        !(step_model(w, Err(e)) is Fetch),
{
}

/// A fetched node never fails the walk: the walk either goes on to fetch
/// the parent that the node names, having recorded the node under the id it
/// was fetched by, or, at a root, answers a story that ends with the node
/// that was asked for and begins with this root.
pub proof fn lemma_fetched_node_is_recorded(w: WalkModel, row: StoryNodeRes)
    requires
        walk_wf(w),
    ensures
        !(step_model(w, Ok(row)) is Failed),
        row.parent matches Some(p) ==> (step_model(w, Ok(row)) matches StepModel::Fetch(next) && {
            &&& next.current == p
            &&& next.target == w.target
            &&& next.visited.len() == w.visited.len() + 1
            &&& next.visited.last().id == w.current
            &&& next.visited.last().text == row.text
            &&& next.visited.drop_last() == w.visited
        }),
        row.parent is None ==> (step_model(w, Ok(row)) matches StepModel::Done(tree, nodes) && {
            &&& tree == row.tree
            &&& nodes.len() == w.visited.len() + 1
            &&& nodes[0].id == w.current
            &&& nodes[0].text == row.text
            &&& nodes.last().id == w.target
        }),
{
    if row.parent is Some {
        let visited = w.visited.push(StoryNode { id: w.current, text: row.text });
        assert(visited.drop_last() =~= w.visited);
    }
}

} // verus!
