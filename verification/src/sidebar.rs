//! The sidebar folder tree: finding the node whose children are loading.
use vstd::prelude::*;

use crate::paths::{same_path, same_path_spec};

verus! {

/// A folder in the sidebar tree.
#[derive(Debug)]
pub struct FolderNode {
    pub id: u64,
    pub path: String,
    pub loading: bool,
    pub children: Vec<FolderNode>,
}

/// The first node, in pre-order, for `path` (the same path, by components)
/// whose children are loading.
pub open spec fn find_loading(nodes: Seq<FolderNode>, path: Seq<char>) -> Option<u64>
    decreases nodes,
{
    if nodes.len() == 0 {
        None
    } else {
        let node = nodes[0];
        if same_path_spec(node.path@, path) && node.loading {
            Some(node.id)
        } else {
            match find_loading(node.children@, path) {
                Some(id) => Some(id),
                None => find_loading(nodes.subrange(1, nodes.len() as int), path),
            }
        }
    }
}

proof fn lemma_find_step(nodes: Seq<FolderNode>, path: Seq<char>, i: int)
    requires
        0 <= i < nodes.len(),
    ensures
        find_loading(nodes.subrange(i, nodes.len() as int), path) == (if same_path_spec(
            nodes[i].path@,
            path,
        ) && nodes[i].loading {
            Some(nodes[i].id)
        } else {
            match find_loading(nodes[i].children@, path) {
                Some(id) => Some(id),
                None => find_loading(nodes.subrange(i + 1, nodes.len() as int), path),
            }
        }),
{
    let s = nodes.subrange(i, nodes.len() as int);
    assert(s[0] == nodes[i]);
    assert(s.subrange(1, s.len() as int) =~= nodes.subrange(i + 1, nodes.len() as int));
}

pub fn find_loading_node_id(nodes: &[FolderNode], path: &str) -> (r: Option<u64>)
    ensures
        r == find_loading(nodes@, path@),
    decreases nodes@,
{
    let mut i: usize = 0;
    assert(nodes@.subrange(0, nodes@.len() as int) =~= nodes@);
    while i < nodes.len()
        invariant
            i <= nodes@.len(),
            find_loading(nodes@, path@) == find_loading(
                nodes@.subrange(i as int, nodes@.len() as int),
                path@,
            ),
        decreases nodes@.len() - i,
    {
        proof {
            lemma_find_step(nodes@, path@, i as int);
        }
        let node = &nodes[i];
        if same_path(node.path.as_str(), path) && node.loading {
            return Some(node.id);
        }
        proof {
            assert(decreases_to!(nodes@ => nodes@[i as int]));
        }
        match find_loading_node_id(node.children.as_slice(), path) {
            Some(id) => {
                return Some(id);
            },
            None => {},
        }
        i = i + 1;
    }
    None
}

} // verus!
