use vstd::prelude::*;

verus! {

/// The path separator byte `/` of the archive's entry-path syntax.
pub const SEPARATOR: u8 = 47;

/// The byte `.`, which forms the current-directory and parent-directory markers.
pub const DOT: u8 = 46;

/// The views of a sequence of byte vectors.
pub open spec fn views_of(s: Seq<Vec<u8>>) -> Seq<Seq<u8>> {
    s.map_values(|v: Vec<u8>| v@)
}

/// Splits a raw entry path into its `/`-separated segments. Separators only bound
/// segments, so a leading, trailing or doubled separator contributes an empty
/// segment; an empty path is one empty segment.
pub open spec fn split_segments(s: Seq<u8>) -> Seq<Seq<u8>>
    decreases s.len(),
{
    if s.len() == 0 {
        seq![Seq::<u8>::empty()]
    } else {
        let prefix = split_segments(s.drop_last());
        if s.last() == SEPARATOR {
            prefix.push(Seq::<u8>::empty())
        } else {
            prefix.update(prefix.len() - 1, prefix.last().push(s.last()))
        }
    }
}

pub proof fn lemma_split_segments_nonempty(s: Seq<u8>)
    ensures
        split_segments(s).len() >= 1,
    decreases s.len(),
{
    if s.len() > 0 {
        lemma_split_segments_nonempty(s.drop_last());
    }
}

/// A segment that is discarded outright: empty (a root marker, a trailing or a
/// doubled separator) or the current-directory marker `.`.
pub open spec fn is_dropped_seg(s: Seq<u8>) -> bool {
    s.len() == 0 || (s.len() == 1 && s[0] == DOT)
}

/// The parent-directory marker `..`, which poisons the whole entry wherever it
/// stands in the path.
pub open spec fn is_parent_seg(s: Seq<u8>) -> bool {
    s.len() == 2 && s[0] == DOT && s[1] == DOT
}

/// A segment that survives normalization.
pub open spec fn is_normal_seg(s: Seq<u8>) -> bool {
    !is_dropped_seg(s) && !is_parent_seg(s)
}

/// A segment that holds no separator byte — it is atomic: joining it under a root
/// can never smuggle in additional path components.
pub open spec fn is_separator_free(s: Seq<u8>) -> bool {
    forall|b: int| 0 <= b < s.len() ==> s[b] != SEPARATOR
}

/// Whether any segment of the path is the parent-directory marker.
pub open spec fn has_parent_seg(segs: Seq<Seq<u8>>) -> bool {
    exists|i: int| 0 <= i < segs.len() && is_parent_seg(segs[i])
}

/// The segments that survive normalization, in order.
pub open spec fn kept_segs(segs: Seq<Seq<u8>>) -> Seq<Seq<u8>>
    decreases segs.len(),
{
    if segs.len() == 0 {
        Seq::<Seq<u8>>::empty()
    } else {
        let prefix = kept_segs(segs.drop_last());
        if is_normal_seg(segs.last()) {
            prefix.push(segs.last())
        } else {
            prefix
        }
    }
}

/// The outcome of normalizing one raw entry path (ghost form): either the entry is
/// ignored, or it is placed at a relative path of sanitized segments.
pub enum NormalizedPathView {
    Skip,
    Place(Seq<Seq<u8>>),
}

/// The outcome of normalizing one raw entry path: either the entry is ignored, or
/// it is placed at a relative path of sanitized segments under the destination root.
#[derive(Debug, PartialEq, Eq)]
pub enum NormalizedPath {
    Skip,
    Place(Vec<Vec<u8>>),
}

impl View for NormalizedPath {
    type V = NormalizedPathView;

    open spec fn view(&self) -> NormalizedPathView {
        match self {
            NormalizedPath::Skip => NormalizedPathView::Skip,
            NormalizedPath::Place(rel) => NormalizedPathView::Place(views_of(rel@)),
        }
    }
}

/// Normalization of one raw path against a strip count: a path with a
/// parent-directory marker anywhere is skipped; otherwise the discardable segments
/// go, the first `strip` surviving segments go, and what is left — if anything is
/// left — is the placement.
pub open spec fn normalize_spec(raw: Seq<u8>, strip: int) -> NormalizedPathView {
    let segs = split_segments(raw);
    if has_parent_seg(segs) {
        NormalizedPathView::Skip
    } else {
        let kept = kept_segs(segs);
        if kept.len() <= strip {
            NormalizedPathView::Skip
        } else {
            NormalizedPathView::Place(kept.skip(strip))
        }
    }
}

/// Copies a byte vector.
pub fn copy_bytes(v: &Vec<u8>) -> (r: Vec<u8>)
    ensures
        r@ == v@,
{
    let mut r: Vec<u8> = Vec::new();
    let mut i: usize = 0;
    while i < v.len()
        invariant
            i <= v.len(),
            r@ == v@.take(i as int),
        decreases v.len() - i,
    {
        r.push(v[i]);
        proof {
            assert(v@.take(i + 1) =~= v@.take(i as int).push(v@[i as int]));
        }
        i += 1;
    }
    proof {
        assert(v@.take(v@.len() as int) =~= v@);
    }
    r
}

fn seg_is_dropped(seg: &Vec<u8>) -> (r: bool)
    ensures
        r == is_dropped_seg(seg@),
{
    seg.len() == 0 || (seg.len() == 1 && seg[0] == DOT)
}

fn seg_is_parent(seg: &Vec<u8>) -> (r: bool)
    ensures
        r == is_parent_seg(seg@),
{
    seg.len() == 2 && seg[0] == DOT && seg[1] == DOT
}

/// Splits a raw entry path into its segments.
pub fn split_path(raw: &Vec<u8>) -> (segs: Vec<Vec<u8>>)
    ensures
        views_of(segs@) == split_segments(raw@),
{
    let mut segs: Vec<Vec<u8>> = Vec::new();
    let mut cur: Vec<u8> = Vec::new();
    let mut i: usize = 0;
    proof {
        assert(raw@.take(0) =~= Seq::<u8>::empty());
        assert(views_of(segs@).push(cur@) =~= seq![Seq::<u8>::empty()]);
    }
    while i < raw.len()
        invariant
            i <= raw.len(),
            views_of(segs@).push(cur@) == split_segments(raw@.take(i as int)),
        decreases raw.len() - i,
    {
        let ghost prefix = split_segments(raw@.take(i as int));
        proof {
            assert(raw@.take(i + 1).drop_last() =~= raw@.take(i as int));
            assert(raw@.take(i + 1).last() == raw@[i as int]);
        }
        let b = raw[i];
        if b == SEPARATOR {
            segs.push(cur);
            cur = Vec::new();
            proof {
                assert(views_of(segs@).push(cur@) =~= prefix.push(Seq::<u8>::empty()));
            }
        } else {
            let ghost pre_cur = cur@;
            cur.push(b);
            proof {
                assert(views_of(segs@).push(cur@) =~= prefix.update(
                    prefix.len() - 1,
                    prefix.last().push(b),
                ));
            }
        }
        i += 1;
    }
    proof {
        assert(raw@.take(raw@.len() as int) =~= raw@);
    }
    let ghost pre_segs = segs@;
    segs.push(cur);
    proof {
        assert(views_of(segs@) =~= views_of(pre_segs).push(cur@));
    }
    segs
}

/// Normalizes one raw entry path against a strip count, exactly as
/// `normalize_spec` states.
pub fn normalize_path(raw: &Vec<u8>, strip: usize) -> (r: NormalizedPath)
    ensures
        r@ == normalize_spec(raw@, strip as int),
{
    let segs = split_path(raw);
    let ghost sv = views_of(segs@);
    let mut kept: Vec<Vec<u8>> = Vec::new();
    let mut j: usize = 0;
    proof {
        assert(sv.take(0) =~= Seq::<Seq<u8>>::empty());
    }
    while j < segs.len()
        invariant
            j <= segs.len(),
            views_of(segs@) == sv,
            sv == split_segments(raw@),
            forall|k: int| 0 <= k < j ==> !is_parent_seg(sv[k]),
            views_of(kept@) == kept_segs(sv.take(j as int)),
        decreases segs.len() - j,
    {
        proof {
            assert(sv.take(j + 1).drop_last() =~= sv.take(j as int));
            assert(sv.take(j + 1).last() == sv[j as int]);
            assert(sv[j as int] == segs@[j as int]@);
        }
        if seg_is_parent(&segs[j]) {
            proof {
                assert(has_parent_seg(sv));
            }
            return NormalizedPath::Skip;
        }
        if !seg_is_dropped(&segs[j]) {
            let ghost pre_kept = kept@;
            kept.push(copy_bytes(&segs[j]));
            proof {
                assert(views_of(kept@) =~= views_of(pre_kept).push(sv[j as int]));
            }
        }
        j += 1;
    }
    proof {
        assert(sv.take(segs@.len() as int) =~= sv);
        assert(!has_parent_seg(sv));
    }
    if kept.len() <= strip {
        NormalizedPath::Skip
    } else {
        let mut rel: Vec<Vec<u8>> = Vec::new();
        let mut t: usize = strip;
        proof {
            assert(views_of(rel@) =~= kept_segs(sv).subrange(strip as int, strip as int));
        }
        while t < kept.len()
            invariant
                strip <= t <= kept.len(),
                views_of(kept@) == kept_segs(sv),
                sv == split_segments(raw@),
                !has_parent_seg(sv),
                strip < kept@.len(),
                views_of(rel@) == kept_segs(sv).subrange(strip as int, t as int),
            decreases kept.len() - t,
        {
            let ghost pre_rel = rel@;
            rel.push(copy_bytes(&kept[t]));
            proof {
                assert(views_of(rel@) =~= views_of(pre_rel).push(kept@[t as int]@));
                assert(kept_segs(sv).subrange(strip as int, t + 1) =~= kept_segs(sv).subrange(
                    strip as int,
                    t as int,
                ).push(kept_segs(sv)[t as int]));
            }
            t += 1;
        }
        proof {
            assert(kept_segs(sv).subrange(strip as int, kept@.len() as int) =~= kept_segs(
                sv,
            ).skip(strip as int));
        }
        NormalizedPath::Place(rel)
    }
}

/// A raw path with a parent-directory marker anywhere among its segments always
/// normalizes to `Skip`, whatever the strip count: such an entry is never placed.
pub proof fn lemma_parent_marker_skips(raw: Seq<u8>, strip: int)
    requires
        has_parent_seg(split_segments(raw)),
    ensures
        normalize_spec(raw, strip) is Skip,
{
}

proof fn lemma_split_segments_separator_free(s: Seq<u8>)
    ensures
        forall|k: int|
            0 <= k < split_segments(s).len() ==> is_separator_free(
                #[trigger] split_segments(s)[k],
            ),
    decreases s.len(),
{
    if s.len() > 0 {
        lemma_split_segments_separator_free(s.drop_last());
        lemma_split_segments_nonempty(s.drop_last());
        let prefix = split_segments(s.drop_last());
        assert forall|k: int|
            0 <= k < split_segments(s).len() implies is_separator_free(
            #[trigger] split_segments(s)[k],
        ) by {
            if s.last() == SEPARATOR {
                if k < prefix.len() {
                    assert(split_segments(s)[k] == prefix[k]);
                }
            } else {
                if k != prefix.len() - 1 {
                    assert(split_segments(s)[k] == prefix[k]);
                } else {
                    assert(is_separator_free(prefix[k]));
                    let extended = prefix.last().push(s.last());
                    assert forall|b: int| 0 <= b < extended.len() implies extended[b]
                        != SEPARATOR by {
                        if b < prefix.last().len() {
                            assert(extended[b] == prefix.last()[b]);
                        }
                    }
                }
            }
        }
    }
}

proof fn lemma_kept_segs_separator_free(segs: Seq<Seq<u8>>)
    requires
        forall|k: int| 0 <= k < segs.len() ==> is_separator_free(#[trigger] segs[k]),
    ensures
        forall|k: int|
            0 <= k < kept_segs(segs).len() ==> is_separator_free(#[trigger] kept_segs(segs)[k]),
    decreases segs.len(),
{
    if segs.len() > 0 {
        lemma_kept_segs_separator_free(segs.drop_last());
        let prefix = kept_segs(segs.drop_last());
        assert forall|k: int|
            0 <= k < kept_segs(segs).len() implies is_separator_free(
            #[trigger] kept_segs(segs)[k],
        ) by {
            if k < prefix.len() {
                assert(kept_segs(segs)[k] == prefix[k]);
            }
        }
    }
}

proof fn lemma_kept_segs_normal(segs: Seq<Seq<u8>>)
    ensures
        forall|k: int|
            0 <= k < kept_segs(segs).len() ==> is_normal_seg(#[trigger] kept_segs(segs)[k]),
    decreases segs.len(),
{
    if segs.len() > 0 {
        lemma_kept_segs_normal(segs.drop_last());
        let prefix = kept_segs(segs.drop_last());
        assert forall|k: int|
            0 <= k < kept_segs(segs).len() implies is_normal_seg(
            #[trigger] kept_segs(segs)[k],
        ) by {
            if k < prefix.len() {
                assert(kept_segs(segs)[k] == prefix[k]);
            }
        }
    }
}

/// The destination path of a relative path joined under a root: the root, then one
/// separator-prefixed segment per component.
pub open spec fn joined_path(root: Seq<u8>, rel: Seq<Seq<u8>>) -> Seq<u8>
    decreases rel.len(),
{
    if rel.len() == 0 {
        root
    } else {
        joined_path(root, rel.drop_last()) + seq![SEPARATOR] + rel.last()
    }
}

proof fn lemma_joined_path_prefix(root: Seq<u8>, rel: Seq<Seq<u8>>)
    ensures
        rel.len() > 0 ==> joined_path(root, rel).len() > root.len(),
        joined_path(root, rel).subrange(0, root.len() as int) == root,
    decreases rel.len(),
{
    if rel.len() == 0 {
        assert(joined_path(root, rel).subrange(0, root.len() as int) =~= root);
    } else {
        lemma_joined_path_prefix(root, rel.drop_last());
        let shorter = joined_path(root, rel.drop_last());
        assert(joined_path(root, rel).subrange(0, root.len() as int) =~= shorter.subrange(
            0,
            root.len() as int,
        ));
    }
}

/// Every placed path is a strict descendant of the destination root: the placement
/// is non-empty, each of its segments is a sanitized ordinary segment (never empty,
/// never `.`, never `..`) holding no separator byte — so the segments are atomic —
/// and joining it under any root yields a strictly longer path that still begins
/// with the root.
pub proof fn lemma_place_stays_under_root(root: Seq<u8>, raw: Seq<u8>, strip: int, rel: Seq<Seq<u8>>)
    requires
        0 <= strip,
        normalize_spec(raw, strip) == NormalizedPathView::Place(rel),
    ensures
        rel.len() > 0,
        forall|k: int| 0 <= k < rel.len() ==> is_normal_seg(#[trigger] rel[k]),
        forall|k: int| 0 <= k < rel.len() ==> is_separator_free(#[trigger] rel[k]),
        joined_path(root, rel).len() > root.len(),
        joined_path(root, rel).subrange(0, root.len() as int) == root,
{
    let kept = kept_segs(split_segments(raw));
    lemma_kept_segs_normal(split_segments(raw));
    lemma_split_segments_separator_free(raw);
    lemma_kept_segs_separator_free(split_segments(raw));
    assert forall|k: int| 0 <= k < rel.len() implies is_normal_seg(#[trigger] rel[k])
        && is_separator_free(#[trigger] rel[k]) by {
        assert(rel[k] == kept[k + strip]);
    }
    lemma_joined_path_prefix(root, rel);
}

} // verus!
