//! An in-memory picture of a directory tree.
//!
//! [`FsNode`] is the executable tree: a regular file with its byte
//! contents, or a directory with a list of named entries in the order
//! the file system reported them.  Its ghost counterpart is
//! [`NodeModel`], built from `Seq` so that specifications can take the
//! tree apart and rebuild it.  [`lookup`] resolves a relative path --
//! a sequence of entry names -- against a model tree, and is the
//! vocabulary in which the copier's guarantees are stated.

use vstd::prelude::*;

verus! {

/// One named entry of a directory.
#[derive(Debug, PartialEq, Eq)]
pub struct Entry {
    /// The entry's file name, as raw bytes.
    pub name: Vec<u8>,
    /// What the entry is: a file or a subdirectory.
    pub node: FsNode,
}

/// A file-system subtree: either a regular file with its contents, or
/// a directory with its immediate entries.
#[derive(Debug, PartialEq, Eq)]
pub enum FsNode {
    File { contents: Vec<u8> },
    Dir { entries: Vec<Entry> },
}

/// Ghost counterpart of [`Entry`].
#[verifier::ext_equal]
pub ghost struct EntryModel {
    pub name: Seq<u8>,
    pub node: NodeModel,
}

/// Ghost counterpart of [`FsNode`].
#[verifier::ext_equal]
pub ghost enum NodeModel {
    File { contents: Seq<u8> },
    Dir { entries: Seq<EntryModel> },
}

/// The model of an executable tree.
pub open spec fn node_model(n: FsNode) -> NodeModel
    decreases n, 0int,
{
    match n {
        FsNode::File { contents } => NodeModel::File { contents: contents@ },
        FsNode::Dir { entries } => NodeModel::Dir { entries: entry_models(entries@, 0) },
    }
}

/// The models of the entries `es[i..]`, in order.
pub open spec fn entry_models(es: Seq<Entry>, i: int) -> Seq<EntryModel>
    decreases es, es.len() - i,
{
    if i < 0 || i >= es.len() {
        Seq::empty()
    } else {
        seq![EntryModel { name: es[i].name@, node: node_model(es[i].node) }]
            + entry_models(es, i + 1)
    }
}

/// The models of all entries of `es`, in order.
pub open spec fn models_of(es: Seq<Entry>) -> Seq<EntryModel> {
    entry_models(es, 0)
}

impl View for Entry {
    type V = EntryModel;

    open spec fn view(&self) -> EntryModel {
        EntryModel { name: self.name@, node: node_model(self.node) }
    }
}

impl View for FsNode {
    type V = NodeModel;

    open spec fn view(&self) -> NodeModel {
        node_model(*self)
    }
}

/// `entry_models(es, i)` holds exactly the models of `es[i..]`.
pub proof fn lemma_entry_models(es: Seq<Entry>, i: int)
    requires
        0 <= i <= es.len(),
    ensures
        entry_models(es, i).len() == es.len() - i,
        forall|k: int| 0 <= k < es.len() - i ==> entry_models(es, i)[k] == es[i + k]@,
    decreases es.len() - i,
{
    if i < es.len() {
        lemma_entry_models(es, i + 1);
        assert forall|k: int| 0 <= k < es.len() - i implies entry_models(es, i)[k] == es[i + k]@ by {
            if k > 0 {
                assert(entry_models(es, i)[k] == entry_models(es, i + 1)[k - 1]);
            }
        }
    }
}

/// Pointwise description of [`models_of`]: element `k` is the model of
/// the `k`-th entry.
pub broadcast proof fn lemma_models_of(es: Seq<Entry>)
    ensures
        (#[trigger] models_of(es)).len() == es.len(),
        forall|k: int| 0 <= k < es.len() ==> models_of(es)[k] == es[k]@,
{
    lemma_entry_models(es, 0);
}

/// A directory's entries are well formed when their names are pairwise
/// distinct -- as on a real file system -- and each child is well
/// formed in turn.
pub open spec fn wf_entries(ms: Seq<EntryModel>) -> bool
    decreases ms, 0int,
{
    &&& forall|i: int, j: int|
        0 <= i < j < ms.len() ==> (#[trigger] ms[i].name) != (#[trigger] ms[j].name)
    &&& forall|i: int| 0 <= i < ms.len() ==> wf(#[trigger] ms[i].node)
}

/// A tree is well formed when every directory in it has well-formed
/// entries.
pub open spec fn wf(m: NodeModel) -> bool
    decreases m, 1int,
{
    match m {
        NodeModel::File { .. } => true,
        NodeModel::Dir { entries } => wf_entries(entries),
    }
}

/// The first index at or after `i` whose entry is named `name`, if any.
pub open spec fn find_name(ms: Seq<EntryModel>, name: Seq<u8>, i: int) -> Option<int>
    decreases ms.len() - i,
{
    if i < 0 || i >= ms.len() {
        None
    } else if ms[i].name == name {
        Some(i)
    } else {
        find_name(ms, name, i + 1)
    }
}

/// What a [`find_name`] result means: a hit names the first matching
/// entry at or after `i`; a miss means no entry from `i` on matches.
pub proof fn lemma_find_name(ms: Seq<EntryModel>, name: Seq<u8>, i: int)
    requires
        0 <= i <= ms.len(),
    ensures
        match find_name(ms, name, i) {
            Some(j) => {
                &&& i <= j < ms.len()
                &&& ms[j].name == name
                &&& forall|k: int| i <= k < j ==> (#[trigger] ms[k].name) != name
            },
            None => forall|k: int| i <= k < ms.len() ==> (#[trigger] ms[k].name) != name,
        },
    decreases ms.len() - i,
{
    if i < ms.len() && ms[i].name != name {
        lemma_find_name(ms, name, i + 1);
    }
}

/// A relative path: the entry names leading from a tree's root to a
/// node, outermost first.
pub open spec fn lookup(m: NodeModel, path: Seq<Seq<u8>>) -> Option<NodeModel>
    decreases path.len(),
{
    if path.len() == 0 {
        Some(m)
    } else {
        match m {
            NodeModel::File { .. } => None,
            NodeModel::Dir { entries } => match find_name(entries, path[0], 0) {
                Some(j) => lookup(entries[j].node, path.skip(1)),
                None => None,
            },
        }
    }
}

/// Whether `path` names a directory of `m`.
pub open spec fn dir_at(m: NodeModel, path: Seq<Seq<u8>>) -> bool {
    lookup(m, path) matches Some(d) && d is Dir
}

/// Whether `path` names a regular file of `m`.
pub open spec fn file_at(m: NodeModel, path: Seq<Seq<u8>>) -> bool {
    lookup(m, path) matches Some(f) && f is File
}

/// The contents of the file that `path` names.
pub open spec fn contents_at(m: NodeModel, path: Seq<Seq<u8>>) -> Seq<u8>
    recommends
        file_at(m, path),
{
    lookup(m, path)->0->contents
}

/// An empty directory, as a model.
pub open spec fn empty_dir_model() -> NodeModel {
    NodeModel::Dir { entries: Seq::empty() }
}

/// Byte-for-byte equality of two names or file contents.
pub fn bytes_equal(a: &Vec<u8>, b: &Vec<u8>) -> (r: bool)
    ensures
        r == (a@ == b@),
{
    if a.len() != b.len() {
        return false;
    }
    let mut i: usize = 0;
    while i < a.len()
        invariant
            a@.len() == b@.len(),
            0 <= i <= a@.len(),
            forall|k: int| 0 <= k < i ==> a@[k] == b@[k],
        decreases a@.len() - i,
    {
        if a[i] != b[i] {
            return false;
        }
        i += 1;
    }
    proof {
        assert(a@ =~= b@);
    }
    true
}

/// A fresh copy of a byte vector.
pub fn copy_bytes(src: &Vec<u8>) -> (r: Vec<u8>)
    ensures
        r@ == src@,
{
    let mut out: Vec<u8> = Vec::new();
    let mut i: usize = 0;
    while i < src.len()
        invariant
            0 <= i <= src@.len(),
            out@ == src@.subrange(0, i as int),
        decreases src@.len() - i,
    {
        out.push(src[i]);
        proof {
            assert(out@ =~= src@.subrange(0, i + 1 as int));
        }
        i += 1;
    }
    proof {
        assert(out@ =~= src@);
    }
    out
}

/// A deep copy of a tree: the same layout, the same names, the same
/// bytes.
pub fn duplicate(n: &FsNode) -> (r: FsNode)
    ensures
        r@ == n@,
    decreases *n,
{
    match n {
        FsNode::File { contents } => FsNode::File { contents: copy_bytes(contents) },
        FsNode::Dir { entries } => {
            let out = duplicate_entries(entries);
            proof {
                lemma_models_of(out@);
                lemma_models_of(entries@);
                assert(models_of(out@) =~= models_of(entries@));
            }
            FsNode::Dir { entries: out }
        },
    }
}

/// A deep copy of a directory's entries, in order.
fn duplicate_entries(es: &Vec<Entry>) -> (r: Vec<Entry>)
    ensures
        r@.len() == es@.len(),
        forall|k: int| 0 <= k < es@.len() ==> r@[k]@ == es@[k]@,
    decreases es@,
{
    let mut out: Vec<Entry> = Vec::new();
    let mut i: usize = 0;
    while i < es.len()
        invariant
            0 <= i <= es@.len(),
            out@.len() == i,
            forall|k: int| 0 <= k < i ==> out@[k]@ == es@[k]@,
        decreases es@.len() - i,
    {
        let e = &es[i];
        out.push(Entry { name: copy_bytes(&e.name), node: duplicate(&e.node) });
        i += 1;
    }
    out
}

/// Resolves a relative path -- a list of entry names -- against a
/// tree, returning the node it names, if any.
pub fn lookup_path<'a>(n: &'a FsNode, path: &Vec<Vec<u8>>) -> (r: Option<&'a FsNode>)
    ensures
        match r {
            Some(m) => lookup(n@, path.deep_view()) == Some(m@),
            None => lookup(n@, path.deep_view()) is None,
        },
{
    let ghost full = path.deep_view();
    proof {
        assert(full.skip(0) =~= full);
    }
    let mut cur: &FsNode = n;
    let mut i: usize = 0;
    while i < path.len()
        invariant
            0 <= i <= path@.len(),
            full == path.deep_view(),
            full.len() == path@.len(),
            forall|k: int| 0 <= k < path@.len() ==> full[k] == path@[k]@,
            lookup(n@, full) == lookup(cur@, full.skip(i as int)),
        decreases path@.len() - i,
    {
        match cur {
            FsNode::File { .. } => {
                proof {
                    assert(full.skip(i as int).len() > 0);
                }
                return None;
            },
            FsNode::Dir { entries } => {
                match find_entry(entries, &path[i]) {
                    Some(j) => {
                        proof {
                            lemma_models_of(entries@);
                            assert(full.skip(i as int)[0] == full[i as int]);
                            assert(full.skip(i as int).skip(1) =~= full.skip(i + 1));
                            assert(lookup(cur@, full.skip(i as int)) == lookup(
                                models_of(entries@)[j as int].node,
                                full.skip(i as int).skip(1),
                            ));
                        }
                        cur = &entries[j].node;
                    },
                    None => {
                        proof {
                            assert(full.skip(i as int)[0] == full[i as int]);
                        }
                        return None;
                    },
                }
            },
        }
        i += 1;
    }
    proof {
        assert(full.skip(i as int).len() == 0);
        assert(lookup(cur@, full.skip(i as int)) == Some(cur@));
    }
    Some(cur)
}

/// The index of the entry of `es` named `name`, if there is one.
pub fn find_entry(es: &Vec<Entry>, name: &Vec<u8>) -> (r: Option<usize>)
    ensures
        match r {
            Some(j) => j < es@.len() && find_name(models_of(es@), name@, 0) == Some(j as int),
            None => find_name(models_of(es@), name@, 0) is None,
        },
{
    proof {
        lemma_models_of(es@);
    }
    let ghost ms = models_of(es@);
    let mut i: usize = 0;
    while i < es.len()
        invariant
            0 <= i <= es@.len(),
            ms == models_of(es@),
            ms.len() == es@.len(),
            forall|k: int| 0 <= k < es@.len() ==> ms[k] == es@[k]@,
            find_name(ms, name@, i as int) == find_name(ms, name@, 0),
        decreases es@.len() - i,
    {
        if bytes_equal(&es[i].name, name) {
            return Some(i);
        }
        i += 1;
    }
    None
}

} // verus!
