//! The recursive directory copier.
//!
//! [`visit_dirs`] mirrors a source tree into a destination tree,
//! depth first, in entry order.  At every recursion level it first
//! checks three preconditions -- the source is not a file, the
//! destination is not a file, the source directory is not empty --
//! and then walks the source entries: subdirectories are created at
//! the destination when absent and recursed into, files are handed to
//! the copy step of [`copier`].  The first error anywhere aborts the
//! walk; whatever was copied before it stays in place.
//!
//! The whole behaviour, including the partial state left behind by an
//! error, is pinned down by the ghost interpreter [`copy_node_spec`],
//! which the executable functions are proved to follow exactly.

use vstd::prelude::*;
use vstd::string::StringExecFns;

use crate::errors::{CupeyError, ErrorKind};
use crate::tree::{
    copy_bytes, empty_dir_model, find_entry, find_name, lemma_find_name, lemma_models_of,
    models_of, Entry, EntryModel, FsNode, NodeModel,
};

verus! {

broadcast use lemma_models_of;

/// What copying one regular file into a destination directory does to
/// the directory's entries: a missing entry is created, an existing
/// file entry is skipped or overwritten according to `overwrite`, and
/// overwriting a directory entry fails like the underlying open would.
pub open spec fn copy_file_step(
    name: Seq<u8>,
    contents: Seq<u8>,
    des: Seq<EntryModel>,
    overwrite: bool,
) -> (Seq<EntryModel>, Option<ErrorKind>) {
    match find_name(des, name, 0) {
        None => (
            des.push(EntryModel { name, node: NodeModel::File { contents } }),
            None,
        ),
        Some(j) => {
            if !overwrite {
                (des, None)
            } else if des[j].node is File {
                (
                    des.update(j, EntryModel { name, node: NodeModel::File { contents } }),
                    None,
                )
            } else {
                (des, Some(ErrorKind::IoFailure))
            }
        },
    }
}

/// What one level of the copy walk does: the three precondition
/// checks, then the entry walk of [`copy_entries_spec`].
pub open spec fn copy_node_spec(
    src: NodeModel,
    dst: NodeModel,
    overwrite: bool,
) -> (NodeModel, Option<ErrorKind>)
    decreases src, 0int,
{
    if src is File {
        (dst, Some(ErrorKind::SourceIsFile))
    } else if dst is File {
        (dst, Some(ErrorKind::DestinationIsFile))
    } else if src->entries.len() == 0 {
        (dst, Some(ErrorKind::EmptySource))
    } else {
        let r = copy_entries_spec(src->entries, 0, dst->entries, overwrite);
        (NodeModel::Dir { entries: r.0 }, r.1)
    }
}

/// What walking the source entries `es[i..]` does to the destination
/// entries `des`.  A subdirectory entry is copied into the equally
/// named destination child, created empty when absent; a file entry
/// goes through [`copy_file_step`].  The walk stops at the first
/// error, keeping every change made up to that point.
pub open spec fn copy_entries_spec(
    es: Seq<EntryModel>,
    i: int,
    des: Seq<EntryModel>,
    overwrite: bool,
) -> (Seq<EntryModel>, Option<ErrorKind>)
    decreases es, es.len() - i,
{
    if i < 0 || i >= es.len() {
        (des, None)
    } else {
        let e = es[i];
        if e.node is Dir {
            // The destination slot this entry is copied into: its
            // index, its contents before the copy, and the entry list
            // after a missing child directory is created.
            let slot = match find_name(des, e.name, 0) {
                Some(j) => (j, des[j].node, des),
                None => (
                    des.len() as int,
                    empty_dir_model(),
                    des.push(EntryModel { name: e.name, node: empty_dir_model() }),
                ),
            };
            let c = copy_node_spec(e.node, slot.1, overwrite);
            let des1 = slot.2.update(slot.0, EntryModel { name: e.name, node: c.0 });
            if c.1 is Some {
                (des1, c.1)
            } else {
                copy_entries_spec(es, i + 1, des1, overwrite)
            }
        } else {
            let fr = copy_file_step(e.name, e.node->contents, des, overwrite);
            if fr.1 is Some {
                fr
            } else {
                copy_entries_spec(es, i + 1, fr.0, overwrite)
            }
        }
    }
}

/// Whether `dir` is a directory with no entries at all.
pub fn empty_dir(dir: &FsNode) -> (r: bool)
    ensures
        r == (dir@ is Dir && dir@->entries.len() == 0),
{
    match dir {
        FsNode::Dir { entries } => entries.len() == 0,
        FsNode::File { .. } => false,
    }
}

/// Copies one file -- its `name` and its `contents` -- into the
/// destination entries `des`, following [`copy_file_step`].
fn copy_file_into(
    name: &Vec<u8>,
    contents: &Vec<u8>,
    des: &mut Vec<Entry>,
    overwrite: bool,
) -> (r: Result<(), CupeyError>)
    ensures
        ({
            let sr = copy_file_step(name@, contents@, models_of(old(des)@), overwrite);
            &&& models_of(final(des)@) == sr.0
            &&& match r {
                Ok(()) => sr.1 is None,
                Err(e) => sr.1 == Some(e.kind()),
            }
        }),
{
    let found = find_entry(des, name);
    match found {
        None => {
            des.push(
                Entry { name: copy_bytes(name), node: FsNode::File { contents: copy_bytes(contents) } },
            );
            proof {
                assert(models_of(des@) =~= models_of(old(des)@).push(
                    EntryModel { name: name@, node: NodeModel::File { contents: contents@ } },
                ));
            }
            Ok(())
        },
        Some(j) => {
            if !overwrite {
                return Ok(());
            }
            let is_file = match &des[j].node {
                FsNode::File { .. } => true,
                FsNode::Dir { .. } => false,
            };
            if is_file {
                des.set(
                    j,
                    Entry { name: copy_bytes(name), node: FsNode::File { contents: copy_bytes(contents) } },
                );
                proof {
                    assert(models_of(des@) =~= models_of(old(des)@).update(
                        j as int,
                        EntryModel { name: name@, node: NodeModel::File { contents: contents@ } },
                    ));
                }
                Ok(())
            } else {
                Err(
                    CupeyError::new(
                        String::from_str("cannot overwrite a directory entry with a file"),
                        ErrorKind::IoFailure,
                    ),
                )
            }
        },
    }
}

/// Walks the source entries `src`, mirroring each into the
/// destination entries `des`, following [`copy_entries_spec`].
fn copy_entries_into(
    src: &Vec<Entry>,
    des: &mut Vec<Entry>,
    overwrite: bool,
) -> (r: Result<(), CupeyError>)
    ensures
        ({
            let sr = copy_entries_spec(models_of(src@), 0, models_of(old(des)@), overwrite);
            &&& models_of(final(des)@) == sr.0
            &&& match r {
                Ok(()) => sr.1 is None,
                Err(e) => sr.1 == Some(e.kind()),
            }
        }),
    decreases src@,
{
    let ghost es = models_of(src@);
    let ghost des0 = models_of(old(des)@);
    let mut i: usize = 0;
    while i < src.len()
        invariant
            0 <= i <= src@.len(),
            es == models_of(src@),
            des0 == models_of(old(des)@),
            copy_entries_spec(es, i as int, models_of(des@), overwrite) == copy_entries_spec(
                es,
                0,
                des0,
                overwrite,
            ),
        decreases src@.len() - i,
    {
        let ghost des_head = models_of(des@);
        let e = &src[i];
        proof {
            assert(es[i as int] == src@[i as int]@);
        }
        match &e.node {
            FsNode::Dir { .. } => {
                let found = find_entry(des, &e.name);
                let j: usize = match found {
                    Some(jj) => jj,
                    None => {
                        let jj = des.len();
                        des.push(
                            Entry {
                                name: copy_bytes(&e.name),
                                node: FsNode::Dir { entries: Vec::new() },
                            },
                        );
                        proof {
                            assert(models_of(des@) =~= des_head.push(
                                EntryModel { name: e.name@, node: empty_dir_model() },
                            ));
                        }
                        jj
                    },
                };
                let ghost des_mid = models_of(des@);
                let ghost child0 = des_mid[j as int].node;
                let mut entry = des.remove(j);
                proof {
                    assert(entry@ == des_mid[j as int]);
                }
                let res = visit_dirs(&e.node, &mut entry.node, overwrite);
                des.insert(j, entry);
                proof {
                    let c = copy_node_spec(es[i as int].node, child0, overwrite);
                    assert(models_of(des@) =~= des_mid.update(
                        j as int,
                        EntryModel { name: e.name@, node: c.0 },
                    )) by {
                        if found is Some {
                            lemma_find_name(des_head, e.name@, 0);
                        }
                    }
                }
                if let Err(err) = res {
                    return Err(err);
                }
            },
            FsNode::File { contents } => {
                let res = copy_file_into(&e.name, contents, des, overwrite);
                if let Err(err) = res {
                    return Err(err);
                }
            },
        }
        i += 1;
    }
    Ok(())
}

/// Recursively mirrors the source directory `dir` into the
/// destination directory `to_dir`.
///
/// The walk is depth first, in entry order.  Destination
/// subdirectories are created as needed; files are created, skipped
/// or overwritten according to `overwrite`.  The first error aborts
/// the walk, and everything copied before it stays: the final
/// destination and the outcome are exactly what [`copy_node_spec`]
/// says for the given trees.
pub fn visit_dirs(dir: &FsNode, to_dir: &mut FsNode, overwrite: bool) -> (r: Result<
    (),
    CupeyError,
>)
    ensures
        ({
            let sr = copy_node_spec(dir@, old(to_dir)@, overwrite);
            &&& final(to_dir)@ == sr.0
            &&& match r {
                Ok(()) => sr.1 is None,
                Err(e) => sr.1 == Some(e.kind()),
            }
        }),
    decreases *dir,
{
    match dir {
        FsNode::File { .. } => Err(
            CupeyError::new(
                String::from_str("the source path is a file, not a directory"),
                ErrorKind::SourceIsFile,
            ),
        ),
        FsNode::Dir { entries: src_entries } => match to_dir {
            FsNode::File { .. } => Err(
                CupeyError::new(
                    String::from_str("the destination path is a file, not a directory"),
                    ErrorKind::DestinationIsFile,
                ),
            ),
            FsNode::Dir { entries: dest_entries } => {
                if src_entries.len() == 0 {
                    return Err(
                        CupeyError::new(
                            String::from_str("the source directory has no entries"),
                            ErrorKind::EmptySource,
                        ),
                    );
                }
                copy_entries_into(src_entries, dest_entries, overwrite)
            },
        },
    }
}

/// Copies one regular file into an existing destination directory.
///
/// The decision -- create, skip, overwrite, or fail on a directory
/// entry of the same name -- is exactly [`copy_file_step`].
pub fn copier(
    orig_name: &Vec<u8>,
    orig_contents: &Vec<u8>,
    destination_dir: &mut FsNode,
    overwrite: bool,
) -> (r: Result<(), CupeyError>)
    requires
        old(destination_dir)@ is Dir,
    ensures
        final(destination_dir)@ is Dir,
        ({
            let sr = copy_file_step(
                orig_name@,
                orig_contents@,
                old(destination_dir)@->entries,
                overwrite,
            );
            &&& final(destination_dir)@->entries == sr.0
            &&& match r {
                Ok(()) => sr.1 is None,
                Err(e) => sr.1 == Some(e.kind()),
            }
        }),
{
    match destination_dir {
        FsNode::Dir { entries } => copy_file_into(orig_name, orig_contents, entries, overwrite),
        FsNode::File { .. } => vstd::pervasive::unreached(),
    }
}

} // verus!

