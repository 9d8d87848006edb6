//! A tree request answered with the roots of the tree alone, without the
//! children of each root.

use vstd::prelude::*;

use crate::error::Error;
use crate::tree::Tree;

verus! {

/// A node without a parent, with its id and text.
#[derive(Debug)]
pub struct RootNode {
    pub id: i32,
    pub text: String,
}

/// A tree with the list of its roots.
#[derive(Debug)]
pub struct TreeDetail {
    pub id: i32,
    pub name: String,
    pub roots: Vec<RootNode>,
}

/// Answers a request for a tree from the trees the store returned for its
/// id and the roots of that tree: no tree is a missing object, more than
/// one is a broken store, exactly one is answered with its id, its name
/// and the roots as they came.
pub fn trees_get(trees: Vec<Tree>, roots: Vec<RootNode>) -> (r: Result<TreeDetail, Error>)
    ensures
        trees.len() == 0 <==> r matches Err(Error::NotFound(_)),
        trees.len() > 1 <==> r matches Err(Error::Internal(_)),
        trees.len() == 1 <==> r is Ok,
        r matches Err(Error::NotFound(m)) ==> m@ == "No such tree"@,
        r matches Err(Error::Internal(m)) ==> m@ == "More than one tree returned for single ID"@,
        r matches Ok(d) ==> {
            &&& d.id == trees@[0].id
            &&& d.name == trees@[0].name
            &&& d.roots@ == roots@
        },
{
    let mut trees = trees;
    if trees.len() < 1 {
        Err(Error::NotFound("No such tree".to_owned()))
    } else if trees.len() > 1 {
        Err(Error::Internal("More than one tree returned for single ID".to_owned()))
    } else {
        let tree = trees.pop().unwrap();
        Ok(TreeDetail { id: tree.id, name: tree.name, roots })
    }
}

} // verus!
