use vstd::prelude::*;

use crate::codec::{
    decode_body, gunzip_of, gunzip_ok_of, is_gzip_content_type, is_plain_content_type,
};
use crate::errors::FetchError;
use crate::extract::{
    action_views_of, actions_of, deferred_of, path_views_of, Action, ActionView, Coordinator,
    EntryKind,
};

verus! {

/// One archive entry as the entry reader hands it over: its declared path
/// (untrusted bytes, in the archive's own `/`-separated syntax) and its type tag.
pub struct RawEntry {
    pub path: Vec<u8>,
    pub kind: EntryKind,
}

impl View for RawEntry {
    type V = (Seq<u8>, EntryKind);

    open spec fn view(&self) -> (Seq<u8>, EntryKind) {
        (self.path@, self.kind)
    }
}

/// The views of a sequence of raw entries.
pub open spec fn entry_views_of(entries: Seq<RawEntry>) -> Seq<(Seq<u8>, EntryKind)> {
    entries.map_values(|e: RawEntry| e@)
}

/// What the tar entry reader lists for a given archive: each entry's path bytes
/// and type tag, in stream order — a function of the archive bytes alone.
pub uninterp spec fn tar_listing_of(bytes: Seq<u8>) -> Seq<(Seq<u8>, EntryKind)>;

/// Whether the tar entry reader accepts a given archive: listing an in-memory
/// slice succeeds or fails as a function of the archive bytes alone.
pub uninterp spec fn tar_listing_ok_of(bytes: Seq<u8>) -> bool;

/// Relies on `tar::Archive::entries` (with `Entry::path_bytes` and
/// `Header::entry_type`): parsing in-memory archive bytes yields the ordered entry
/// listing, a function of the bytes alone, and whether parsing succeeds depends on
/// the bytes alone; a malformed archive reports an error instead.
#[verifier::external_body]
fn list_tar_entries(bytes: &Vec<u8>) -> (r: Result<Vec<RawEntry>, String>)
    ensures
        r is Ok == tar_listing_ok_of(bytes@),
        r matches Ok(entries) ==> entry_views_of(entries@) == tar_listing_of(bytes@),
{
    let mut archive = tar::Archive::new(bytes.as_slice());
    let entries = archive.entries().map_err(|e| format!("cannot read archive: {}", e))?;
    let mut out: Vec<RawEntry> = Vec::new();
    for next in entries {
        let entry = next.map_err(|e| format!("cannot read archive entry: {}", e))?;
        let kind = match entry.header().entry_type() {
            tar::EntryType::Directory => EntryKind::Directory,
            tar::EntryType::Regular => EntryKind::RegularFile,
            _ => EntryKind::Other,
        };
        out.push(RawEntry { path: entry.path_bytes().into_owned(), kind });
    }
    Ok(out)
}

/// The plan of one extraction pass over a whole archive: one decision per entry,
/// in stream order, and the deferred directories in first-encounter order. The
/// decisions are executed in order, then the deferred metadata is applied in
/// order.
#[derive(Debug, PartialEq, Eq)]
pub struct ArchivePlan {
    pub actions: Vec<Action>,
    pub deferred: Vec<Vec<Vec<u8>>>,
}

/// Plans an extraction pass over an already-listed entry stream: every entry is
/// decided by the coordinator against the strip count, in stream order. This is
/// total — it holds for every listing, whatever the entry reader produced.
pub fn plan_entries(entries: &Vec<RawEntry>, strip: usize) -> (plan: ArchivePlan)
    ensures
        action_views_of(plan.actions@) == actions_of(entry_views_of(entries@), strip as int),
        path_views_of(plan.deferred@) == deferred_of(entry_views_of(entries@), strip as int),
{
    let ghost evs = entry_views_of(entries@);
    let mut coordinator = Coordinator::new(strip);
    let mut actions: Vec<Action> = Vec::new();
    let mut i: usize = 0;
    proof {
        assert(action_views_of(actions@) =~= actions_of(evs.take(0), strip as int));
        assert(evs.take(0) =~= Seq::<(Seq<u8>, EntryKind)>::empty());
    }
    while i < entries.len()
        invariant
            i <= entries.len(),
            evs == entry_views_of(entries@),
            coordinator.strip_spec() == strip as int,
            action_views_of(actions@) == actions_of(evs.take(i as int), strip as int),
            coordinator.deferred_view() == deferred_of(evs.take(i as int), strip as int),
        decreases entries.len() - i,
    {
        let ghost pre_actions = actions@;
        let a = coordinator.step(&entries[i].path, entries[i].kind);
        actions.push(a);
        proof {
            assert(evs.take(i + 1).drop_last() =~= evs.take(i as int));
            assert(evs.take(i + 1).last() == evs[i as int]);
            assert(evs[i as int] == entries@[i as int]@);
            assert(action_views_of(actions@) =~= action_views_of(pre_actions).push(
                actions@.last()@,
            ));
            assert(actions_of(evs.take(i + 1), strip as int) =~= actions_of(
                evs.take(i as int),
                strip as int,
            ).push(crate::extract::action_of(evs[i as int].0, evs[i as int].1, strip as int)));
        }
        i += 1;
    }
    proof {
        assert(evs.take(entries@.len() as int) =~= evs);
    }
    let deferred = coordinator.finish();
    ArchivePlan { actions, deferred }
}

/// Plans an extraction pass over tar archive bytes: the archive is listed by the
/// entry reader and every entry is decided against the strip count, in stream
/// order. Planning succeeds exactly when the entry reader accepts the bytes; an
/// unreadable archive is a fatal `ExtractionFailed`.
pub fn plan_archive(bytes: &Vec<u8>, strip: usize) -> (r: Result<ArchivePlan, FetchError>)
    ensures
        r is Ok == tar_listing_ok_of(bytes@),
        r matches Ok(plan) ==> action_views_of(plan.actions@) == actions_of(
            tar_listing_of(bytes@),
            strip as int,
        ) && path_views_of(plan.deferred@) == deferred_of(tar_listing_of(bytes@), strip as int),
        r matches Err(e) ==> e is ExtractionFailed,
{
    match list_tar_entries(bytes) {
        Ok(entries) => Ok(plan_entries(&entries, strip)),
        Err(m) => Err(FetchError::ExtractionFailed(m)),
    }
}

/// Runs the in-memory core of the unpack path: selects the codec for the declared
/// content type, decompresses if the declaration says so, and plans the extraction
/// pass over the resulting archive bytes. For a recognized declaration it succeeds
/// exactly when the codec and the entry reader accept the body, and any failure
/// there is a fatal `ExtractionFailed`.
pub fn plan_unpack(content_type: &str, body: Vec<u8>, strip: usize) -> (r: Result<
    ArchivePlan,
    FetchError,
>)
    ensures
        is_gzip_content_type(content_type@) ==> (r is Ok == (gunzip_ok_of(body@)
            && tar_listing_ok_of(gunzip_of(body@))) && (r matches Ok(plan) ==> action_views_of(
            plan.actions@,
        ) == actions_of(tar_listing_of(gunzip_of(body@)), strip as int) && path_views_of(
            plan.deferred@,
        ) == deferred_of(tar_listing_of(gunzip_of(body@)), strip as int)) && (r matches Err(e)
            ==> e is ExtractionFailed)),
        is_plain_content_type(content_type@) ==> (r is Ok == tar_listing_ok_of(body@) && (
        r matches Ok(plan) ==> action_views_of(plan.actions@) == actions_of(
            tar_listing_of(body@),
            strip as int,
        ) && path_views_of(plan.deferred@) == deferred_of(tar_listing_of(body@), strip as int))
            && (r matches Err(e) ==> e is ExtractionFailed)),
        !is_gzip_content_type(content_type@) && !is_plain_content_type(content_type@) ==> (
        r matches Err(e) && e matches FetchError::UnsupportedFormat(s) && s@ == content_type@),
        r matches Err(e) ==> (e is UnsupportedFormat || e is ExtractionFailed),
{
    let decoded = match decode_body(content_type, body) {
        Ok(decoded) => decoded,
        Err(e) => {
            return Err(e);
        },
    };
    plan_archive(&decoded, strip)
}

/// The outcome of a pass is a function of the archive bytes and the strip count
/// alone: two passes over the same archive succeed or fail together, and on
/// success decide the same actions and defer the same directories in the same
/// order — so a re-run against a pre-cleared destination succeeds again and
/// places an identical tree.
pub proof fn lemma_unpack_deterministic(
    bytes: Seq<u8>,
    strip: int,
    first_ok: bool,
    first_actions: Seq<ActionView>,
    first_deferred: Seq<Seq<Seq<u8>>>,
    second_ok: bool,
    second_actions: Seq<ActionView>,
    second_deferred: Seq<Seq<Seq<u8>>>,
)
    requires
        first_ok == tar_listing_ok_of(bytes),
        first_actions == actions_of(tar_listing_of(bytes), strip),
        first_deferred == deferred_of(tar_listing_of(bytes), strip),
        second_ok == tar_listing_ok_of(bytes),
        second_actions == actions_of(tar_listing_of(bytes), strip),
        second_deferred == deferred_of(tar_listing_of(bytes), strip),
    ensures
        first_ok == second_ok,
        first_actions == second_actions,
        first_deferred == second_deferred,
{
}

/// A gzip-delivered archive behaves exactly like its plain-delivered equivalent:
/// when a gzip body decodes to the plain tar bytes, the gzip-declared unpack and
/// the plain-declared unpack succeed or fail together, and on success decide the
/// same actions and defer the same directories — the outcome depends only on the
/// decompressed tar bytes, not on the transport compression.
pub proof fn lemma_gzip_delivery_equivalent(compressed: Seq<u8>, plain: Seq<u8>, strip: int)
    requires
        gunzip_ok_of(compressed),
        gunzip_of(compressed) == plain,
    ensures
        (gunzip_ok_of(compressed) && tar_listing_ok_of(gunzip_of(compressed)))
            == tar_listing_ok_of(plain),
        actions_of(tar_listing_of(gunzip_of(compressed)), strip) == actions_of(
            tar_listing_of(plain),
            strip,
        ),
        deferred_of(tar_listing_of(gunzip_of(compressed)), strip) == deferred_of(
            tar_listing_of(plain),
            strip,
        ),
{
}

} // verus!
