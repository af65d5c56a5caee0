use vstd::prelude::*;

use crate::paths::{
    is_normal_seg, is_separator_free, joined_path, lemma_place_stays_under_root, normalize_path,
    normalize_spec, views_of, NormalizedPath, NormalizedPathView,
};

verus! {

/// The type tag of one archive entry.
#[derive(Clone, Copy, Debug, PartialEq, Eq, Structural)]
pub enum EntryKind {
    /// A regular file: its content is written in place immediately.
    RegularFile,
    /// A directory: its parent chain is ensured immediately, but its own
    /// metadata application is deferred to the end of the pass; the directory
    /// itself appears when an ancestor of a later entry is created, or at the
    /// deferred application.
    Directory,
    /// Anything else (symlink, device, ...): written in whatever native
    /// representation the destination supports, immediately, like a file.
    Other,
}

/// What the coordinator decides for one entry (ghost form).
pub enum ActionView {
    Skip,
    WriteNow(Seq<Seq<u8>>),
    PrepareDirectory(Seq<Seq<u8>>),
}

/// What the coordinator decides for one entry: ignore it entirely; or ensure the
/// parent chain under the destination root and write it at the relative path now;
/// or ensure the parent chain now and defer the directory's own metadata to the
/// end of the pass.
#[derive(Debug, PartialEq, Eq)]
pub enum Action {
    Skip,
    WriteNow(Vec<Vec<u8>>),
    PrepareDirectory(Vec<Vec<u8>>),
}

impl View for Action {
    type V = ActionView;

    open spec fn view(&self) -> ActionView {
        match self {
            Action::Skip => ActionView::Skip,
            Action::WriteNow(rel) => ActionView::WriteNow(views_of(rel@)),
            Action::PrepareDirectory(rel) => ActionView::PrepareDirectory(views_of(rel@)),
        }
    }
}

/// The views of a sequence of relative paths.
pub open spec fn path_views_of(s: Seq<Vec<Vec<u8>>>) -> Seq<Seq<Seq<u8>>> {
    s.map_values(|p: Vec<Vec<u8>>| views_of(p@))
}

/// The views of a sequence of actions.
pub open spec fn action_views_of(s: Seq<Action>) -> Seq<ActionView> {
    s.map_values(|a: Action| a@)
}

/// The decision for a single entry: a skipped path is ignored; a placed path is
/// written now, unless the entry is a directory, whose metadata is deferred.
pub open spec fn action_of(raw: Seq<u8>, kind: EntryKind, strip: int) -> ActionView {
    match normalize_spec(raw, strip) {
        NormalizedPathView::Skip => ActionView::Skip,
        NormalizedPathView::Place(rel) => if kind is Directory {
            ActionView::PrepareDirectory(rel)
        } else {
            ActionView::WriteNow(rel)
        },
    }
}

/// The decisions for a whole entry stream, in stream order.
pub open spec fn actions_of(entries: Seq<(Seq<u8>, EntryKind)>, strip: int) -> Seq<ActionView> {
    Seq::new(entries.len(), |i: int| action_of(entries[i].0, entries[i].1, strip))
}

/// The deferred directories of a whole entry stream, in first-encounter order.
pub open spec fn deferred_of(entries: Seq<(Seq<u8>, EntryKind)>, strip: int) -> Seq<Seq<Seq<u8>>>
    decreases entries.len(),
{
    if entries.len() == 0 {
        Seq::<Seq<Seq<u8>>>::empty()
    } else {
        let prefix = deferred_of(entries.drop_last(), strip);
        match action_of(entries.last().0, entries.last().1, strip) {
            ActionView::PrepareDirectory(rel) => prefix.push(rel),
            _ => prefix,
        }
    }
}

/// Copies a relative path.
fn copy_path(p: &Vec<Vec<u8>>) -> (r: Vec<Vec<u8>>)
    ensures
        views_of(r@) == views_of(p@),
{
    let mut r: Vec<Vec<u8>> = Vec::new();
    let mut i: usize = 0;
    proof {
        assert(views_of(r@) =~= views_of(p@).take(0));
    }
    while i < p.len()
        invariant
            i <= p.len(),
            views_of(r@) == views_of(p@).take(i as int),
        decreases p.len() - i,
    {
        let ghost pre = r@;
        r.push(crate::paths::copy_bytes(&p[i]));
        proof {
            assert(views_of(r@) =~= views_of(pre).push(p@[i as int]@));
            assert(views_of(p@).take(i + 1) =~= views_of(p@).take(i as int).push(p@[i as int]@));
        }
        i += 1;
    }
    proof {
        assert(views_of(p@).take(p@.len() as int) =~= views_of(p@));
    }
    r
}

/// Drives one extraction pass over the entry stream, strictly in stream order. It
/// owns the set of deferred directories: created empty, grown as directory entries
/// are decided, and drained once — after every other entry is placed — by `finish`.
pub struct Coordinator {
    strip: usize,
    deferred: Vec<Vec<Vec<u8>>>,
}

impl Coordinator {
    /// The strip count this pass was started with.
    pub closed spec fn strip_spec(&self) -> int {
        self.strip as int
    }

    /// The deferred directories recorded so far, in first-encounter order.
    pub closed spec fn deferred_view(&self) -> Seq<Seq<Seq<u8>>> {
        path_views_of(self.deferred@)
    }

    /// Starts a pass with no deferred directories.
    pub fn new(strip: usize) -> (c: Coordinator)
        ensures
            c.strip_spec() == strip,
            c.deferred_view() == Seq::<Seq<Seq<u8>>>::empty(),
    {
        let c = Coordinator { strip, deferred: Vec::new() };
        proof {
            assert(path_views_of(c.deferred@) =~= Seq::<Seq<Seq<u8>>>::empty());
        }
        c
    }

    /// Decides one entry. A `Skip` leaves the pass untouched; a directory's
    /// relative path is recorded for deferred metadata; everything else is to be
    /// written immediately by the caller.
    pub fn step(&mut self, raw_path: &Vec<u8>, kind: EntryKind) -> (a: Action)
        ensures
            final(self).strip_spec() == old(self).strip_spec(),
            a@ == action_of(raw_path@, kind, old(self).strip_spec()),
            final(self).deferred_view() == (match a@ {
                ActionView::PrepareDirectory(rel) => old(self).deferred_view().push(rel),
                _ => old(self).deferred_view(),
            }),
    {
        match normalize_path(raw_path, self.strip) {
            NormalizedPath::Skip => Action::Skip,
            NormalizedPath::Place(rel) => {
                if kind == EntryKind::Directory {
                    let ghost pre = self.deferred@;
                    let dir = copy_path(&rel);
                    self.deferred.push(dir);
                    proof {
                        assert(path_views_of(self.deferred@) =~= path_views_of(pre).push(
                            views_of(rel@),
                        ));
                    }
                    Action::PrepareDirectory(rel)
                } else {
                    Action::WriteNow(rel)
                }
            },
        }
    }

    /// Ends the pass: hands back the deferred directories, in the order they were
    /// first encountered, so their metadata is applied only now — after every
    /// other entry of the pass is already placed.
    pub fn finish(self) -> (dirs: Vec<Vec<Vec<u8>>>)
        ensures
            path_views_of(dirs@) == self.deferred_view(),
    {
        self.deferred
    }
}

/// One scheduled operation of a pass (ghost form): placing a non-directory entry,
/// preparing a directory, or applying a deferred directory's metadata.
pub enum PlannedOpView {
    PlaceEntry(Seq<Seq<u8>>),
    PrepareDirectory(Seq<Seq<u8>>),
    ApplyDirectoryMetadata(Seq<Seq<u8>>),
}

/// The placement phase of a pass, in stream order: one operation per surviving
/// entry, none for skipped entries.
pub open spec fn placement_ops_of(entries: Seq<(Seq<u8>, EntryKind)>, strip: int) -> Seq<
    PlannedOpView,
>
    decreases entries.len(),
{
    if entries.len() == 0 {
        Seq::<PlannedOpView>::empty()
    } else {
        let prefix = placement_ops_of(entries.drop_last(), strip);
        match action_of(entries.last().0, entries.last().1, strip) {
            ActionView::Skip => prefix,
            ActionView::WriteNow(rel) => prefix.push(PlannedOpView::PlaceEntry(rel)),
            ActionView::PrepareDirectory(rel) => prefix.push(PlannedOpView::PrepareDirectory(rel)),
        }
    }
}

/// The full schedule of a pass: the whole placement phase, then every deferred
/// directory's metadata application, in first-encounter order.
pub open spec fn schedule_of(entries: Seq<(Seq<u8>, EntryKind)>, strip: int) -> Seq<PlannedOpView> {
    placement_ops_of(entries, strip) + deferred_of(entries, strip).map_values(
        |d: Seq<Seq<u8>>| PlannedOpView::ApplyDirectoryMetadata(d),
    )
}

proof fn lemma_placements_are_not_metadata(entries: Seq<(Seq<u8>, EntryKind)>, strip: int)
    ensures
        forall|k: int|
            0 <= k < placement_ops_of(entries, strip).len() ==> !(#[trigger] placement_ops_of(
                entries,
                strip,
            )[k] is ApplyDirectoryMetadata),
    decreases entries.len(),
{
    if entries.len() > 0 {
        lemma_placements_are_not_metadata(entries.drop_last(), strip);
        let prefix = placement_ops_of(entries.drop_last(), strip);
        assert forall|k: int|
            0 <= k < placement_ops_of(entries, strip).len() implies !(#[trigger] placement_ops_of(
            entries,
            strip,
        )[k] is ApplyDirectoryMetadata) by {
            if k < prefix.len() {
                assert(placement_ops_of(entries, strip)[k] == prefix[k]);
            }
        }
    }
}

/// A skipped entry is inert: its decision is `Skip`, and removing it from the
/// stream changes neither the placement phase nor the deferred directories — no
/// filesystem object is ever created for it.
pub proof fn lemma_skipped_entry_is_inert(entries: Seq<(Seq<u8>, EntryKind)>, strip: int, i: int)
    requires
        0 <= i < entries.len(),
        normalize_spec(entries[i].0, strip) is Skip,
    ensures
        actions_of(entries, strip)[i] is Skip,
        deferred_of(entries.remove(i), strip) == deferred_of(entries, strip),
        placement_ops_of(entries.remove(i), strip) == placement_ops_of(entries, strip),
    decreases entries.len(),
{
    if i == entries.len() - 1 {
        assert(entries.remove(i) =~= entries.drop_last());
    } else {
        lemma_skipped_entry_is_inert(entries.drop_last(), strip, i);
        assert(entries.remove(i).drop_last() =~= entries.drop_last().remove(i));
        assert(entries.remove(i).last() == entries.last());
    }
}

/// The relative path an action places, if any.
pub open spec fn placed_rel_of(a: ActionView) -> Option<Seq<Seq<u8>>> {
    match a {
        ActionView::Skip => Option::None,
        ActionView::WriteNow(rel) => Option::Some(rel),
        ActionView::PrepareDirectory(rel) => Option::Some(rel),
    }
}

/// Every path a pass places — a written entry or a prepared directory — is a
/// strict descendant of the destination root: the relative path is non-empty,
/// every segment is a sanitized ordinary segment holding no separator byte, and
/// joined under the root it yields a strictly longer path that still begins with
/// the root. This holds even for adversarially crafted entry paths.
pub proof fn lemma_planned_paths_stay_under_root(
    root: Seq<u8>,
    entries: Seq<(Seq<u8>, EntryKind)>,
    strip: int,
    i: int,
    rel: Seq<Seq<u8>>,
)
    requires
        0 <= strip,
        0 <= i < entries.len(),
        placed_rel_of(actions_of(entries, strip)[i]) == Option::Some(rel),
    ensures
        rel.len() > 0,
        forall|k: int| 0 <= k < rel.len() ==> is_normal_seg(#[trigger] rel[k]),
        forall|k: int| 0 <= k < rel.len() ==> is_separator_free(#[trigger] rel[k]),
        joined_path(root, rel).len() > root.len(),
        joined_path(root, rel).subrange(0, root.len() as int) == root,
{
    assert(normalize_spec(entries[i].0, strip) == NormalizedPathView::Place(rel));
    lemma_place_stays_under_root(root, entries[i].0, strip, rel);
}

/// Directory metadata comes last: in the schedule of any pass, every metadata
/// application stands strictly after every placement — in particular after all of
/// that directory's descendant entries are placed.
pub proof fn lemma_directory_metadata_applied_last(
    entries: Seq<(Seq<u8>, EntryKind)>,
    strip: int,
    i: int,
    j: int,
)
    requires
        0 <= i < schedule_of(entries, strip).len(),
        0 <= j < schedule_of(entries, strip).len(),
        !(schedule_of(entries, strip)[i] is ApplyDirectoryMetadata),
        schedule_of(entries, strip)[j] is ApplyDirectoryMetadata,
    ensures
        i < j,
{
    lemma_placements_are_not_metadata(entries, strip);
    let placements = placement_ops_of(entries, strip);
    let metadata = deferred_of(entries, strip).map_values(
        |d: Seq<Seq<u8>>| PlannedOpView::ApplyDirectoryMetadata(d),
    );
    if i >= placements.len() {
        assert(schedule_of(entries, strip)[i] == metadata[i - placements.len()]);
    }
    if j < placements.len() {
        assert(schedule_of(entries, strip)[j] == placements[j]);
    }
}

} // verus!
