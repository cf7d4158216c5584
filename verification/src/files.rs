//! The files under the catalog directory, as a tree of plain values.

use vstd::prelude::*;

verus! {

/// A file: the path it is opened by, and its name within its directory.
#[derive(Debug, PartialEq, Eq)]
pub struct SourceFile {
    pub path: String,
    pub name: String,
}

/// An entry of a directory: a file, or a directory with its own entries.
#[derive(Debug, PartialEq, Eq)]
pub enum Node {
    File(SourceFile),
    Dir(Vec<Node>),
}

/// The files among `nodes`, depth first: each file where it stands, each
/// directory replaced by the files under it.
pub open spec fn files_among(nodes: Seq<Node>) -> Seq<SourceFile>
    decreases nodes,
{
    if nodes.len() == 0 {
        Seq::empty()
    } else {
        files_among(nodes.drop_last()) + match nodes.last() {
            Node::File(file) => seq![file],
            Node::Dir(entries) => files_among(entries@),
        }
    }
}

/// Collects the files among `nodes`, depth first.
pub fn collect_files(nodes: &Vec<Node>) -> (files: Vec<SourceFile>)
    ensures
        files@ == files_among(nodes@),
    decreases nodes,
{
    let mut files: Vec<SourceFile> = Vec::new();
    let mut i: usize = 0;
    assert(nodes@.take(0) =~= Seq::<Node>::empty());
    while i < nodes.len()
        invariant
            i <= nodes@.len(),
            files@ == files_among(nodes@.take(i as int)),
        decreases nodes@.len() - i,
    {
        let ghost upto = nodes@.take(i + 1);
        assert(upto.drop_last() =~= nodes@.take(i as int));
        assert(upto.last() == nodes@[i as int]);
        match &nodes[i] {
            Node::File(file) => {
                files.push(SourceFile { path: file.path.clone(), name: file.name.clone() });
                assert(files@ =~= files_among(upto));
            },
            Node::Dir(entries) => {
                let mut inner = collect_files(entries);
                files.append(&mut inner);
            },
        }
        i += 1;
    }
    assert(nodes@.take(i as int) =~= nodes@);
    files
}

} // verus!
