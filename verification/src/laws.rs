//! The guarantees of the copier, stated and proved once and for all
//! over the ghost interpreter [`copy_node_spec`].
//!
//! The public proof functions of this module are the library's laws:
//! what a successful copy leaves at every path of the destination,
//! that a second identical copy changes nothing, that existing files
//! survive a copy without overwrite, and exactly which inputs are
//! rejected with which error kind.

use vstd::prelude::*;

use crate::copying::{copy_entries_spec, copy_file_step, copy_node_spec};
use crate::errors::ErrorKind;
use crate::tree::{
    contents_at, dir_at, empty_dir_model, file_at, find_name, lemma_find_name, wf, wf_entries,
    EntryModel, NodeModel,
};

verus! {

/// Whether every directory of `m` -- the root included, if `m` is a
/// directory -- has at least one entry.
pub open spec fn all_dirs_nonempty(m: NodeModel) -> bool
    decreases m, 1int,
{
    match m {
        NodeModel::File { .. } => true,
        NodeModel::Dir { entries } => entries.len() > 0 && all_entries_nonempty(entries),
    }
}

/// [`all_dirs_nonempty`], over a directory's entries.
pub open spec fn all_entries_nonempty(ms: Seq<EntryModel>) -> bool
    decreases ms, 0int,
{
    forall|k: int| 0 <= k < ms.len() ==> all_dirs_nonempty(#[trigger] ms[k].node)
}

/// Whether `d` already holds a full image of `s`: for a file, the
/// same contents; for a directory, an equally named destination entry
/// holding an image of each source entry.  This is exactly what a
/// successful copy with overwrite establishes.
pub open spec fn covers(s: NodeModel, d: NodeModel) -> bool
    decreases s, 1int,
{
    match s {
        NodeModel::File { .. } => d == s,
        NodeModel::Dir { entries } => {
            &&& d is Dir
            &&& entries.len() > 0
            &&& covers_entries(entries, d->entries)
        },
    }
}

/// [`covers`], entry by entry: each source entry has an equally named
/// destination entry covering it.
pub open spec fn covers_entries(ms: Seq<EntryModel>, des: Seq<EntryModel>) -> bool
    decreases ms, 0int,
{
    forall|l: int| 0 <= l < ms.len() ==> entry_covered(#[trigger] ms[l], des)
}

/// One source entry's part of [`covers_entries`]: the first `des`
/// entry of the same name covers the source entry's node.
pub open spec fn entry_covered(e: EntryModel, des: Seq<EntryModel>) -> bool
    decreases e, 0int,
{
    &&& find_name(des, e.name, 0) is Some
    &&& covers(e.node, des[find_name(des, e.name, 0)->0].node)
}

/// Exactly when a copy of `s` into `d` runs to completion: `s` is a
/// directory, no directory anywhere under it is empty, and every
/// entry can be copied into its destination slot -- see [`entry_ok`].
pub open spec fn copy_succeeds(s: NodeModel, d: NodeModel, overwrite: bool) -> bool
    decreases s, 1int,
{
    match s {
        NodeModel::File { .. } => false,
        NodeModel::Dir { entries } => {
            &&& d is Dir
            &&& entries.len() > 0
            &&& entries_ok(entries, d->entries, overwrite)
        },
    }
}

/// [`copy_succeeds`], over a directory's entries.
pub open spec fn entries_ok(ms: Seq<EntryModel>, des: Seq<EntryModel>, overwrite: bool) -> bool
    decreases ms, 0int,
{
    forall|l: int| 0 <= l < ms.len() ==> entry_ok(#[trigger] ms[l], des, overwrite)
}

/// Whether one source entry can be copied into the destination
/// entries: a subdirectory must copy successfully into the equally
/// named destination child -- an empty one, when absent -- and a file
/// must not, when overwriting, run into a destination directory of
/// its name.
pub open spec fn entry_ok(e: EntryModel, des: Seq<EntryModel>, overwrite: bool) -> bool
    decreases e, 0int,
{
    if e.node is Dir {
        match find_name(des, e.name, 0) {
            Some(j) => copy_succeeds(e.node, des[j].node, overwrite),
            None => copy_succeeds(e.node, empty_dir_model(), overwrite),
        }
    } else {
        match find_name(des, e.name, 0) {
            Some(j) => !overwrite || des[j].node is File,
            None => true,
        }
    }
}

/// One walk step only touches the destination entry named `nm`:
/// whether another entry can still be copied is unchanged.
proof fn lemma_entry_ok_transfer(
    x: EntryModel,
    des: Seq<EntryModel>,
    des1: Seq<EntryModel>,
    nm: Seq<u8>,
    overwrite: bool,
)
    requires
        x.name != nm,
        des.len() <= des1.len() <= des.len() + 1,
        forall|k: int| 0 <= k < des.len() ==> (#[trigger] des1[k]).name == des[k].name,
        forall|k: int| 0 <= k < des.len() && (#[trigger] des[k]).name != nm ==> des1[k] == des[k],
        forall|k: int| des.len() <= k < des1.len() ==> (#[trigger] des1[k]).name == nm,
    ensures
        entry_ok(x, des1, overwrite) == entry_ok(x, des, overwrite),
{
    lemma_find_name(des, x.name, 0);
    lemma_find_name(des1, x.name, 0);
    match find_name(des, x.name, 0) {
        Some(j) => {
            lemma_find_name_stable(des, des1, x.name, 0);
        },
        None => {
            match find_name(des1, x.name, 0) {
                Some(j1) => {
                    assert(des1[j1].name == x.name);
                    assert(false);
                },
                None => {},
            }
        },
    }
}

/// The entry walk from `i` runs to completion exactly when every
/// remaining source entry can be copied into its slot of the
/// original destination entries.
proof fn lemma_entries_success_iff(
    es: Seq<EntryModel>,
    i: int,
    des: Seq<EntryModel>,
    overwrite: bool,
)
    requires
        0 <= i <= es.len(),
        wf_entries(es),
    ensures
        (copy_entries_spec(es, i, des, overwrite).1 is None) <==> (forall|l: int|
            i <= l < es.len() ==> entry_ok(#[trigger] es[l], des, overwrite)),
    decreases es, es.len() - i,
{
    if 0 <= i < es.len() {
        let e = es[i];
        lemma_find_name(des, e.name, 0);
        if e.node is Dir {
            let slot = match find_name(des, e.name, 0) {
                Some(j) => (j, des[j].node, des),
                None => (
                    des.len() as int,
                    empty_dir_model(),
                    des.push(EntryModel { name: e.name, node: empty_dir_model() }),
                ),
            };
            let c = copy_node_spec(e.node, slot.1, overwrite);
            let des1 = slot.2.update(slot.0, EntryModel { name: e.name, node: c.0 });
            lemma_node_success_iff(e.node, slot.1, overwrite);
            if c.1 is None {
                lemma_entries_success_iff(es, i + 1, des1, overwrite);
                assert forall|l: int| i + 1 <= l < es.len() implies entry_ok(
                    es[l],
                    des1,
                    overwrite,
                ) == entry_ok(es[l], des, overwrite) by {
                    lemma_entry_ok_transfer(es[l], des, des1, e.name, overwrite);
                }
            }
        } else {
            let fr = copy_file_step(e.name, e.node->contents, des, overwrite);
            if fr.1 is None {
                lemma_entries_success_iff(es, i + 1, fr.0, overwrite);
                assert forall|l: int| i + 1 <= l < es.len() implies entry_ok(
                    es[l],
                    fr.0,
                    overwrite,
                ) == entry_ok(es[l], des, overwrite) by {
                    lemma_entry_ok_transfer(es[l], des, fr.0, e.name, overwrite);
                }
            }
        }
    }
}

/// One level of the copy runs to completion exactly when
/// [`copy_succeeds`] says so.
proof fn lemma_node_success_iff(src: NodeModel, dst: NodeModel, overwrite: bool)
    requires
        wf(src),
    ensures
        (copy_node_spec(src, dst, overwrite).1 is None) <==> copy_succeeds(src, dst, overwrite),
    decreases src, 0int,
{
    if src is Dir && !(dst is File) && src->entries.len() != 0 {
        lemma_entries_success_iff(src->entries, 0, dst->entries, overwrite);
    }
}

/// When success is owed: for a well-formed source tree, the copy
/// succeeds exactly when [`copy_succeeds`] holds of the two trees --
/// and otherwise it returns one of the four error kinds, as the other
/// laws pin down.
pub proof fn lemma_success_iff(src: NodeModel, dst: NodeModel, overwrite: bool)
    requires
        wf(src),
    ensures
        (copy_node_spec(src, dst, overwrite).1 is None) <==> copy_succeeds(src, dst, overwrite),
{
    lemma_node_success_iff(src, dst, overwrite);
}

/// The entry walk never disturbs the layout of what was already
/// there: existing destination entries keep their position and their
/// name, and the list only grows.
proof fn lemma_entries_shape(es: Seq<EntryModel>, i: int, des: Seq<EntryModel>, overwrite: bool)
    requires
        0 <= i <= es.len(),
    ensures
        ({
            let d1 = copy_entries_spec(es, i, des, overwrite).0;
            &&& des.len() <= d1.len()
            &&& forall|k: int| 0 <= k < des.len() ==> (#[trigger] d1[k]).name == des[k].name
        }),
    decreases es.len() - i,
{
    if 0 <= i < es.len() {
        let e = es[i];
        if e.node is Dir {
            let slot = match find_name(des, e.name, 0) {
                Some(j) => (j, des[j].node, des),
                None => (
                    des.len() as int,
                    empty_dir_model(),
                    des.push(EntryModel { name: e.name, node: empty_dir_model() }),
                ),
            };
            let c = copy_node_spec(e.node, slot.1, overwrite);
            let des1 = slot.2.update(slot.0, EntryModel { name: e.name, node: c.0 });
            lemma_find_name(des, e.name, 0);
            if c.1 is None {
                lemma_entries_shape(es, i + 1, des1, overwrite);
            }
        } else {
            let fr = copy_file_step(e.name, e.node->contents, des, overwrite);
            lemma_find_name(des, e.name, 0);
            if fr.1 is None {
                lemma_entries_shape(es, i + 1, fr.0, overwrite);
            }
        }
    }
}

/// A first-match search is unaffected by changes beyond the match:
/// if another entry list keeps the names of every entry up to and
/// including the hit, the search lands on the same index.
proof fn lemma_find_name_stable(ms1: Seq<EntryModel>, ms2: Seq<EntryModel>, nm: Seq<u8>, i: int)
    requires
        0 <= i,
        find_name(ms1, nm, i) matches Some(j),
        forall|k: int|
            i <= k <= find_name(ms1, nm, i)->0 ==> k < ms2.len() && (#[trigger] ms2[k]).name
                == ms1[k].name,
    ensures
        find_name(ms2, nm, i) == find_name(ms1, nm, i),
    decreases ms1.len() - i,
{
    lemma_find_name(ms1, nm, i);
    if ms1[i].name != nm {
        lemma_find_name_stable(ms1, ms2, nm, i + 1);
    }
}

/// The entry walk keeps the destination entries well formed: names
/// stay pairwise distinct -- a new name is only ever appended after
/// the search for it failed -- and every child left behind is well
/// formed in turn.
proof fn lemma_entries_wf(es: Seq<EntryModel>, i: int, des: Seq<EntryModel>, overwrite: bool)
    requires
        0 <= i <= es.len(),
        wf_entries(des),
    ensures
        wf_entries(copy_entries_spec(es, i, des, overwrite).0),
    decreases es, es.len() - i,
{
    if 0 <= i < es.len() {
        let e = es[i];
        lemma_find_name(des, e.name, 0);
        if e.node is Dir {
            let slot = match find_name(des, e.name, 0) {
                Some(j) => (j, des[j].node, des),
                None => (
                    des.len() as int,
                    empty_dir_model(),
                    des.push(EntryModel { name: e.name, node: empty_dir_model() }),
                ),
            };
            let c = copy_node_spec(e.node, slot.1, overwrite);
            let des1 = slot.2.update(slot.0, EntryModel { name: e.name, node: c.0 });
            lemma_node_wf(e.node, slot.1, overwrite);
            assert(wf_entries(des1));
            if c.1 is None {
                lemma_entries_wf(es, i + 1, des1, overwrite);
            }
        } else {
            let fr = copy_file_step(e.name, e.node->contents, des, overwrite);
            assert(wf_entries(fr.0));
            if fr.1 is None {
                lemma_entries_wf(es, i + 1, fr.0, overwrite);
            }
        }
    }
}

/// Node-level well-formedness preservation; see
/// [`lemma_copy_preserves_wf`].
proof fn lemma_node_wf(src: NodeModel, dst: NodeModel, overwrite: bool)
    requires
        wf(dst),
    ensures
        wf(copy_node_spec(src, dst, overwrite).0),
    decreases src, 0int,
{
    if !(src is File) && !(dst is File) && src->entries.len() != 0 {
        lemma_entries_wf(src->entries, 0, dst->entries, overwrite);
    }
}

/// A copy never corrupts the destination's shape: a well-formed
/// destination tree -- pairwise distinct entry names in every
/// directory -- is still well formed afterwards, whether the copy
/// succeeded or stopped at an error.
pub proof fn lemma_copy_preserves_wf(src: NodeModel, dst: NodeModel, overwrite: bool)
    requires
        wf(dst),
    ensures
        wf(copy_node_spec(src, dst, overwrite).0),
{
    lemma_node_wf(src, dst, overwrite);
}

/// If an entry matches `nm` and no earlier entry from `i` on does,
/// the first-match search from `i` lands on it.
proof fn lemma_find_hit(ms: Seq<EntryModel>, nm: Seq<u8>, i: int, j: int)
    requires
        0 <= i <= j < ms.len(),
        ms[j].name == nm,
        forall|k: int| i <= k < j ==> (#[trigger] ms[k]).name != nm,
    ensures
        find_name(ms, nm, i) == Some(j),
    decreases j - i,
{
    if i < j {
        lemma_find_hit(ms, nm, i + 1, j);
    }
}

/// A destination entry whose name no remaining source entry bears is
/// left exactly as it is by the rest of the walk.
proof fn lemma_entries_frame(
    es: Seq<EntryModel>,
    i: int,
    des: Seq<EntryModel>,
    overwrite: bool,
    k: int,
)
    requires
        0 <= i <= es.len(),
        0 <= k < des.len(),
        forall|l: int| i <= l < es.len() ==> (#[trigger] es[l]).name != des[k].name,
    ensures
        copy_entries_spec(es, i, des, overwrite).0[k] == des[k],
    decreases es.len() - i,
{
    if 0 <= i < es.len() {
        let e = es[i];
        lemma_find_name(des, e.name, 0);
        if e.node is Dir {
            let slot = match find_name(des, e.name, 0) {
                Some(j) => (j, des[j].node, des),
                None => (
                    des.len() as int,
                    empty_dir_model(),
                    des.push(EntryModel { name: e.name, node: empty_dir_model() }),
                ),
            };
            let c = copy_node_spec(e.node, slot.1, overwrite);
            let des1 = slot.2.update(slot.0, EntryModel { name: e.name, node: c.0 });
            if c.1 is None {
                lemma_entries_frame(es, i + 1, des1, overwrite, k);
            }
        } else {
            let fr = copy_file_step(e.name, e.node->contents, des, overwrite);
            if fr.1 is None {
                lemma_entries_frame(es, i + 1, fr.0, overwrite, k);
            }
        }
    }
}

/// After a successful walk with overwrite on, every source entry from
/// `i` on is covered by the resulting destination entries.
proof fn lemma_entries_covers(es: Seq<EntryModel>, i: int, des: Seq<EntryModel>)
    requires
        0 <= i <= es.len(),
        wf_entries(es),
        copy_entries_spec(es, i, des, true).1 is None,
    ensures
        forall|l: int|
            i <= l < es.len() ==> entry_covered(
                #[trigger] es[l],
                copy_entries_spec(es, i, des, true).0,
            ),
    decreases es, es.len() - i,
{
    if 0 <= i < es.len() {
        let e = es[i];
        lemma_find_name(des, e.name, 0);
        let found = find_name(des, e.name, 0);
        if e.node is Dir {
            let slot = match found {
                Some(j) => (j, des[j].node, des),
                None => (
                    des.len() as int,
                    empty_dir_model(),
                    des.push(EntryModel { name: e.name, node: empty_dir_model() }),
                ),
            };
            let c = copy_node_spec(e.node, slot.1, true);
            let des1 = slot.2.update(slot.0, EntryModel { name: e.name, node: c.0 });
            let d1 = copy_entries_spec(es, i + 1, des1, true).0;
            lemma_node_covers(e.node, slot.1);
            match found {
                Some(j) => {
                    lemma_find_name_stable(des, des1, e.name, 0);
                },
                None => {
                    lemma_find_hit(des1, e.name, 0, des.len() as int);
                },
            }
            lemma_entries_covers(es, i + 1, des1);
            lemma_entries_frame(es, i + 1, des1, true, slot.0);
            lemma_entries_shape(es, i + 1, des1, true);
            lemma_find_name_stable(des1, d1, e.name, 0);
        } else {
            let fr = copy_file_step(e.name, e.node->contents, des, true);
            let d1 = copy_entries_spec(es, i + 1, fr.0, true).0;
            match found {
                Some(j) => {
                    lemma_find_name_stable(des, fr.0, e.name, 0);
                },
                None => {
                    lemma_find_hit(fr.0, e.name, 0, des.len() as int);
                },
            }
            let j1 = find_name(fr.0, e.name, 0)->0;
            lemma_entries_covers(es, i + 1, fr.0);
            lemma_entries_frame(es, i + 1, fr.0, true, j1);
            lemma_entries_shape(es, i + 1, fr.0, true);
            lemma_find_name_stable(fr.0, d1, e.name, 0);
            assert(e.node == (NodeModel::File { contents: e.node->contents }));
        }
    }
}

/// A successful copy with overwrite leaves the destination covering
/// the source.
proof fn lemma_node_covers(src: NodeModel, dst: NodeModel)
    requires
        wf(src),
        copy_node_spec(src, dst, true).1 is None,
    ensures
        covers(src, copy_node_spec(src, dst, true).0),
    decreases src, 0int,
{
    lemma_entries_covers(src->entries, 0, dst->entries);
}

/// A destination that covers the source mirrors it at every path:
/// source directories are directories there, source files are files
/// with the very same bytes.
proof fn lemma_covers_paths(s: NodeModel, d: NodeModel, p: Seq<Seq<u8>>)
    requires
        covers(s, d),
    ensures
        dir_at(s, p) ==> dir_at(d, p),
        file_at(s, p) ==> file_at(d, p) && contents_at(d, p) == contents_at(s, p),
    decreases p.len(),
{
    if p.len() > 0 && s is Dir {
        match find_name(s->entries, p[0], 0) {
            Some(l) => {
                lemma_find_name(s->entries, p[0], 0);
                let j = find_name(d->entries, p[0], 0)->0;
                lemma_covers_paths(s->entries[l].node, d->entries[j].node, p.skip(1));
            },
            None => {},
        }
    }
}

/// Mirror completeness: after a successful copy with overwrite, the
/// destination holds the whole source tree -- at every relative path
/// where the source has a directory the destination has one, and at
/// every relative path where the source has a file the destination
/// has a file with exactly the source's bytes.
pub proof fn lemma_mirror_completeness(src: NodeModel, dst: NodeModel, p: Seq<Seq<u8>>)
    requires
        wf(src),
        copy_node_spec(src, dst, true).1 is None,
    ensures
        dir_at(src, p) ==> dir_at(copy_node_spec(src, dst, true).0, p),
        file_at(src, p) ==> file_at(copy_node_spec(src, dst, true).0, p) && contents_at(
            copy_node_spec(src, dst, true).0,
            p,
        ) == contents_at(src, p),
{
    lemma_node_covers(src, dst);
    lemma_covers_paths(src, copy_node_spec(src, dst, true).0, p);
}

/// Overwrite semantics: after a successful copy with overwrite, the
/// destination file at any source file path holds exactly the source
/// bytes -- whatever was there before, and whatever its size was.
pub proof fn lemma_overwrite_replaces(src: NodeModel, dst: NodeModel, p: Seq<Seq<u8>>)
    requires
        wf(src),
        copy_node_spec(src, dst, true).1 is None,
        file_at(src, p),
    ensures
        file_at(copy_node_spec(src, dst, true).0, p),
        contents_at(copy_node_spec(src, dst, true).0, p) == contents_at(src, p),
{
    lemma_mirror_completeness(src, dst, p);
}

/// Walking source entries into a destination that already covers
/// them changes nothing and succeeds.
proof fn lemma_entries_stable(es: Seq<EntryModel>, i: int, des: Seq<EntryModel>)
    requires
        0 <= i <= es.len(),
        forall|l: int| i <= l < es.len() ==> entry_covered(#[trigger] es[l], des),
    ensures
        copy_entries_spec(es, i, des, true) == (des, None::<ErrorKind>),
    decreases es, es.len() - i,
{
    if 0 <= i < es.len() {
        let e = es[i];
        let j = find_name(des, e.name, 0)->0;
        lemma_find_name(des, e.name, 0);
        if e.node is Dir {
            lemma_node_stable(e.node, des[j].node);
            assert(des.update(j, EntryModel { name: e.name, node: des[j].node }) =~= des);
        } else {
            assert(des.update(
                j,
                EntryModel { name: e.name, node: NodeModel::File { contents: e.node->contents } },
            ) =~= des);
        }
        lemma_entries_stable(es, i + 1, des);
    }
}

/// Copying a source directory onto a destination that already covers
/// it succeeds and changes nothing.
proof fn lemma_node_stable(src: NodeModel, dst: NodeModel)
    requires
        src is Dir,
        covers(src, dst),
    ensures
        copy_node_spec(src, dst, true) == (dst, None::<ErrorKind>),
    decreases src, 0int,
{
    lemma_entries_stable(src->entries, 0, dst->entries);
}

/// Idempotence: copying with overwrite a second time onto the result
/// of a successful copy succeeds and yields the very same final
/// state.
pub proof fn lemma_copy_idempotent(src: NodeModel, dst: NodeModel)
    requires
        wf(src),
        copy_node_spec(src, dst, true).1 is None,
    ensures
        copy_node_spec(src, copy_node_spec(src, dst, true).0, true) == (
            copy_node_spec(src, dst, true).0,
            None::<ErrorKind>,
        ),
{
    lemma_node_covers(src, dst);
    lemma_node_stable(src, copy_node_spec(src, dst, true).0);
}

/// Walking well-formed, nowhere-empty source entries into the
/// destination entries that mirror the part already walked rebuilds
/// the source entries exactly.
proof fn lemma_entries_build_exact(
    es: Seq<EntryModel>,
    i: int,
    des: Seq<EntryModel>,
    overwrite: bool,
)
    requires
        0 <= i <= es.len(),
        wf_entries(es),
        all_entries_nonempty(es),
        des == es.subrange(0, i),
    ensures
        copy_entries_spec(es, i, des, overwrite) == (es, None::<ErrorKind>),
    decreases es, es.len() - i,
{
    if i == es.len() {
        assert(des =~= es);
    } else {
        let e = es[i];
        lemma_find_name(des, e.name, 0);
        if e.node is Dir {
            let des0 = des.push(EntryModel { name: e.name, node: empty_dir_model() });
            lemma_node_build_exact(e.node, overwrite);
            let des1 = des0.update(i, EntryModel { name: e.name, node: e.node });
            assert(des1 =~= es.subrange(0, i + 1));
            lemma_entries_build_exact(es, i + 1, des1, overwrite);
        } else {
            let des1 = des.push(
                EntryModel { name: e.name, node: NodeModel::File { contents: e.node->contents } },
            );
            assert(e.node == (NodeModel::File { contents: e.node->contents }));
            assert(des1 =~= es.subrange(0, i + 1));
            lemma_entries_build_exact(es, i + 1, des1, overwrite);
        }
    }
}

/// Copying a well-formed source directory none of whose directories
/// is empty onto an empty destination succeeds and rebuilds the
/// source tree exactly.
proof fn lemma_node_build_exact(src: NodeModel, overwrite: bool)
    requires
        src is Dir,
        wf(src),
        all_dirs_nonempty(src),
    ensures
        copy_node_spec(src, empty_dir_model(), overwrite) == (src, None::<ErrorKind>),
    decreases src, 0int,
{
    assert(Seq::<EntryModel>::empty() =~= src->entries.subrange(0, 0));
    lemma_entries_build_exact(src->entries, 0, Seq::empty(), overwrite);
}

/// Mirroring into an empty destination: a copy from a well-formed
/// source directory none of whose directories is empty succeeds --
/// with or without overwrite -- and the destination afterwards is the
/// source tree itself: the same relative paths, the same directories,
/// the same file bytes.
pub proof fn lemma_empty_destination_mirror(src: NodeModel, overwrite: bool)
    requires
        src is Dir,
        wf(src),
        all_dirs_nonempty(src),
    ensures
        copy_node_spec(src, empty_dir_model(), overwrite) == (src, None::<ErrorKind>),
{
    lemma_node_build_exact(src, overwrite);
}

/// Entry-level skip semantics: with overwrite off, a destination
/// entry that holds a file at relative path `q` still holds it, with
/// the same contents, after the walk -- whether or not the walk ends
/// in an error.
proof fn lemma_entries_keep_file(
    es: Seq<EntryModel>,
    i: int,
    des: Seq<EntryModel>,
    k: int,
    q: Seq<Seq<u8>>,
)
    requires
        0 <= i <= es.len(),
        0 <= k < des.len(),
        file_at(des[k].node, q),
    ensures
        ({
            let d1 = copy_entries_spec(es, i, des, false).0;
            &&& file_at(d1[k].node, q)
            &&& contents_at(d1[k].node, q) == contents_at(des[k].node, q)
        }),
    decreases es, es.len() - i,
{
    if 0 <= i < es.len() {
        let e = es[i];
        lemma_find_name(des, e.name, 0);
        if e.node is Dir {
            let slot = match find_name(des, e.name, 0) {
                Some(j) => (j, des[j].node, des),
                None => (
                    des.len() as int,
                    empty_dir_model(),
                    des.push(EntryModel { name: e.name, node: empty_dir_model() }),
                ),
            };
            let c = copy_node_spec(e.node, slot.1, false);
            let des1 = slot.2.update(slot.0, EntryModel { name: e.name, node: c.0 });
            if slot.0 == k {
                lemma_node_keep_file(e.node, des[k].node, q);
            }
            if c.1 is None {
                lemma_entries_keep_file(es, i + 1, des1, k, q);
            }
        } else {
            let fr = copy_file_step(e.name, e.node->contents, des, false);
            if fr.1 is None {
                lemma_entries_keep_file(es, i + 1, fr.0, k, q);
            }
        }
    }
}

/// Node-level skip semantics; see [`lemma_skip_preserves_existing`].
proof fn lemma_node_keep_file(src: NodeModel, dst: NodeModel, q: Seq<Seq<u8>>)
    requires
        file_at(dst, q),
    ensures
        ({
            let d1 = copy_node_spec(src, dst, false).0;
            &&& file_at(d1, q)
            &&& contents_at(d1, q) == contents_at(dst, q)
        }),
    decreases src, 0int,
{
    if !(src is File) && !(dst is File) && src->entries.len() != 0 {
        let es = src->entries;
        let des = dst->entries;
        let wr = copy_entries_spec(es, 0, des, false);
        lemma_find_name(des, q[0], 0);
        let j = find_name(des, q[0], 0)->0;
        lemma_entries_keep_file(es, 0, des, j, q.skip(1));
        lemma_entries_shape(es, 0, des, false);
        lemma_find_name_stable(des, wr.0, q[0], 0);
    }
}

/// Skip semantics: a copy without overwrite leaves every file that
/// already exists in the destination untouched -- same path, same
/// contents -- whatever the source holds at that path, and however
/// the copy ends.
pub proof fn lemma_skip_preserves_existing(src: NodeModel, dst: NodeModel, p: Seq<Seq<u8>>)
    requires
        file_at(dst, p),
    ensures
        file_at(copy_node_spec(src, dst, false).0, p),
        contents_at(copy_node_spec(src, dst, false).0, p) == contents_at(dst, p),
{
    lemma_node_keep_file(src, dst, p);
}

/// A source that is a regular file is rejected as `SourceIsFile`, and
/// nothing else is: the copy fails this way exactly when the source
/// is a file, and the destination is then left untouched.
pub proof fn lemma_rejects_file_source(src: NodeModel, dst: NodeModel, overwrite: bool)
    ensures
        copy_node_spec(src, dst, overwrite).1 == Some(ErrorKind::SourceIsFile) <==> src is File,
        src is File ==> copy_node_spec(src, dst, overwrite) == (dst, Some(ErrorKind::SourceIsFile)),
{
    if !(src is File) && copy_node_spec(src, dst, overwrite).1 == Some(ErrorKind::SourceIsFile) {
        if !(dst is File) && src->entries.len() != 0 {
            lemma_entries_no_file_source(src->entries, 0, dst->entries, overwrite);
        }
    }
}

/// The entry walk never raises `SourceIsFile`: the walk only recurses
/// into source entries that are directories.
proof fn lemma_entries_no_file_source(
    es: Seq<EntryModel>,
    i: int,
    des: Seq<EntryModel>,
    overwrite: bool,
)
    ensures
        copy_entries_spec(es, i, des, overwrite).1 != Some(ErrorKind::SourceIsFile),
    decreases es, es.len() - i,
{
    if 0 <= i < es.len() {
        let e = es[i];
        if e.node is Dir {
            let slot = match find_name(des, e.name, 0) {
                Some(j) => (j, des[j].node, des),
                None => (
                    des.len() as int,
                    empty_dir_model(),
                    des.push(EntryModel { name: e.name, node: empty_dir_model() }),
                ),
            };
            let c = copy_node_spec(e.node, slot.1, overwrite);
            let des1 = slot.2.update(slot.0, EntryModel { name: e.name, node: c.0 });
            if c.1 is Some {
                lemma_node_no_file_source_from_dir(e.node, slot.1, overwrite);
            } else {
                lemma_entries_no_file_source(es, i + 1, des1, overwrite);
            }
        } else {
            let fr = copy_file_step(e.name, e.node->contents, des, overwrite);
            if fr.1 is None {
                lemma_entries_no_file_source(es, i + 1, fr.0, overwrite);
            }
        }
    }
}

/// A copy whose source is a directory never fails with
/// `SourceIsFile`.
proof fn lemma_node_no_file_source_from_dir(src: NodeModel, dst: NodeModel, overwrite: bool)
    requires
        src is Dir,
    ensures
        copy_node_spec(src, dst, overwrite).1 != Some(ErrorKind::SourceIsFile),
    decreases src, 0int,
{
    if !(dst is File) && src->entries.len() != 0 {
        lemma_entries_no_file_source(src->entries, 0, dst->entries, overwrite);
    }
}

/// A destination that is a regular file is rejected as
/// `DestinationIsFile`, before anything is copied.
pub proof fn lemma_rejects_file_destination(src: NodeModel, dst: NodeModel, overwrite: bool)
    ensures
        src is Dir && dst is File ==> copy_node_spec(src, dst, overwrite) == (
            dst,
            Some(ErrorKind::DestinationIsFile),
        ),
{
}

/// A source directory with no entries at all is rejected as
/// `EmptySource`, before anything is copied.  The same check runs at
/// every level of the walk, so an empty subdirectory aborts the copy
/// of its level in the same way.
pub proof fn lemma_rejects_empty_source(src: NodeModel, dst: NodeModel, overwrite: bool)
    ensures
        src is Dir && dst is Dir && src->entries.len() == 0 ==> copy_node_spec(
            src,
            dst,
            overwrite,
        ) == (dst, Some(ErrorKind::EmptySource)),
{
}

/// A copy can only succeed when no directory anywhere in the source
/// tree -- the root included -- is empty: every source directory is
/// entered by the walk, and the empty-source check runs at each.
pub proof fn lemma_success_means_no_empty_dirs(src: NodeModel, dst: NodeModel, overwrite: bool)
    requires
        copy_node_spec(src, dst, overwrite).1 is None,
    ensures
        src is Dir,
        all_dirs_nonempty(src),
    decreases src, 0int,
{
    lemma_entries_success_no_empty(src->entries, 0, dst->entries, overwrite);
}

/// When the entry walk succeeds, every source subdirectory it visited
/// was successfully copied, so none of them -- nor anything below
/// them -- was empty.
proof fn lemma_entries_success_no_empty(
    es: Seq<EntryModel>,
    i: int,
    des: Seq<EntryModel>,
    overwrite: bool,
)
    requires
        0 <= i <= es.len(),
        copy_entries_spec(es, i, des, overwrite).1 is None,
    ensures
        forall|l: int| i <= l < es.len() ==> all_dirs_nonempty(#[trigger] es[l].node),
    decreases es, es.len() - i,
{
    if 0 <= i < es.len() {
        let e = es[i];
        if e.node is Dir {
            let slot = match find_name(des, e.name, 0) {
                Some(j) => (j, des[j].node, des),
                None => (
                    des.len() as int,
                    empty_dir_model(),
                    des.push(EntryModel { name: e.name, node: empty_dir_model() }),
                ),
            };
            let c = copy_node_spec(e.node, slot.1, overwrite);
            let des1 = slot.2.update(slot.0, EntryModel { name: e.name, node: c.0 });
            lemma_success_means_no_empty_dirs(e.node, slot.1, overwrite);
            lemma_entries_success_no_empty(es, i + 1, des1, overwrite);
        } else {
            let fr = copy_file_step(e.name, e.node->contents, des, overwrite);
            lemma_entries_success_no_empty(es, i + 1, fr.0, overwrite);
        }
    }
}

} // verus!
