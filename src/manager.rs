//! The cache manager: which thumbnails are orphans, which are still to be
//! made, and where each one is stored.
use vstd::prelude::*;
use crate::naming::{path_join, starts_with, thumb_prefix, thumbnail_name, join_path, thumbnail_file_name};
use crate::scan::{ScanEntry, selected_paths, strings_view, select_files};
use crate::thumbnail::{
    decode_image, decoded_size, encode_png, makes_thumbnail, resize_rgba, target_dimensions, ResizeFilter,
    ResizedImage, Thumbnail, ThumbnailError,
};

verus! {

/// Bound of a preview thumbnail's width.
pub const PREVIEW_WIDTH: u32 = 320;

/// Bound of a preview thumbnail's height.
pub const PREVIEW_HEIGHT: u32 = 180;

/// How deep below the source directory images are looked for: the source
/// directory is flat, so only its own files count.
pub const SOURCE_SCAN_DEPTH: usize = 0;

/// The extensions of the source images, compared without regard to case.
pub open spec fn image_extensions() -> Seq<Seq<char>> {
    seq![seq!['p', 'n', 'g'], seq!['j', 'p', 'g'], seq!['j', 'p', 'e', 'g']]
}

/// The source images of a walk of the source directory.
pub open spec fn source_images_of(walk: Seq<ScanEntry>) -> Seq<Seq<char>> {
    selected_paths(walk, Some(SOURCE_SCAN_DEPTH), Some(image_extensions()))
}

/// The cache names of a sequence of source paths.
pub open spec fn expected_names(sources: Seq<Seq<char>>) -> Seq<Seq<char>> {
    sources.map_values(|p: Seq<char>| thumbnail_name(p))
}

/// A cache entry is an orphan when it carries the managed prefix and no
/// source has it as its cache name.
pub open spec fn is_orphan(expected: Seq<Seq<char>>, entry: Seq<char>) -> bool {
    starts_with(entry, thumb_prefix()) && !expected.contains(entry)
}

/// The orphans among `entries`, in their order.
pub open spec fn orphans(expected: Seq<Seq<char>>, entries: Seq<Seq<char>>) -> Seq<Seq<char>>
    decreases entries.len(),
{
    if entries.len() == 0 {
        Seq::empty()
    } else {
        let rest = orphans(expected, entries.drop_last());
        if is_orphan(expected, entries.last()) {
            rest.push(entries.last())
        } else {
            rest
        }
    }
}

/// The sources whose cache name is not among `cache`, in their order.
pub open spec fn pending(sources: Seq<Seq<char>>, cache: Seq<Seq<char>>) -> Seq<Seq<char>>
    decreases sources.len(),
{
    if sources.len() == 0 {
        Seq::empty()
    } else {
        let rest = pending(sources.drop_last(), cache);
        if cache.contains(thumbnail_name(sources.last())) {
            rest
        } else {
            rest.push(sources.last())
        }
    }
}

proof fn lemma_orphans_members(expected: Seq<Seq<char>>, entries: Seq<Seq<char>>, e: Seq<char>)
    ensures
        orphans(expected, entries).contains(e) <==> entries.contains(e) && is_orphan(expected, e),
    decreases entries.len(),
{
    if entries.len() > 0 {
        let init = entries.drop_last();
        lemma_orphans_members(expected, init, e);
        assert(entries == init.push(entries.last()));
        if entries.contains(e) && e != entries.last() {
            let k = choose|k: int| 0 <= k < entries.len() && entries[k] == e;
            assert(init[k] == e);
        }
        if init.contains(e) {
            let k = choose|k: int| 0 <= k < init.len() && init[k] == e;
            assert(entries[k] == e);
        }
        if is_orphan(expected, entries.last()) {
            let rest = orphans(expected, init);
            if rest.push(entries.last()).contains(e) && e != entries.last() {
                let k = choose|k: int| 0 <= k < rest.len() + 1 && rest.push(entries.last())[k] == e;
                assert(rest[k] == e);
            }
            if rest.contains(e) {
                let k = choose|k: int| 0 <= k < rest.len() && rest[k] == e;
                assert(rest.push(entries.last())[k] == e);
            }
            assert(rest.push(entries.last())[rest.len() as int] == entries.last());
        }
        assert(entries[entries.len() - 1] == entries.last());
    }
}

proof fn lemma_pending_members(sources: Seq<Seq<char>>, cache: Seq<Seq<char>>, s: Seq<char>)
    ensures
        pending(sources, cache).contains(s) <==> sources.contains(s) && !cache.contains(
            thumbnail_name(s),
        ),
    decreases sources.len(),
{
    if sources.len() > 0 {
        let init = sources.drop_last();
        lemma_pending_members(init, cache, s);
        assert(sources == init.push(sources.last()));
        if sources.contains(s) && s != sources.last() {
            let k = choose|k: int| 0 <= k < sources.len() && sources[k] == s;
            assert(init[k] == s);
        }
        if init.contains(s) {
            let k = choose|k: int| 0 <= k < init.len() && init[k] == s;
            assert(sources[k] == s);
        }
        if !cache.contains(thumbnail_name(sources.last())) {
            let rest = pending(init, cache);
            if rest.push(sources.last()).contains(s) && s != sources.last() {
                let k = choose|k: int| 0 <= k < rest.len() + 1 && rest.push(sources.last())[k] == s;
                assert(rest[k] == s);
            }
            if rest.contains(s) {
                let k = choose|k: int| 0 <= k < rest.len() && rest[k] == s;
                assert(rest.push(sources.last())[k] == s);
            }
            assert(rest.push(sources.last())[rest.len() as int] == sources.last());
        }
        assert(sources[sources.len() - 1] == sources.last());
    }
}

proof fn lemma_nothing_pending(sources: Seq<Seq<char>>, cache: Seq<Seq<char>>)
    requires
        forall|s: Seq<char>| sources.contains(s) ==> cache.contains(#[trigger] thumbnail_name(s)),
    ensures
        pending(sources, cache) == Seq::<Seq<char>>::empty(),
    decreases sources.len(),
{
    if sources.len() > 0 {
        let init = sources.drop_last();
        assert forall|s: Seq<char>| init.contains(s) implies cache.contains(
            #[trigger] thumbnail_name(s),
        ) by {
            let k = choose|k: int| 0 <= k < init.len() && init[k] == s;
            assert(sources[k] == s);
        }
        lemma_nothing_pending(init, cache);
        assert(sources[sources.len() - 1] == sources.last());
        assert(sources.contains(sources.last()));
    }
}

/// Population is idempotent: once the cache names of every pending source
/// have been written, no source is pending any more, so a second run on an
/// unchanged source set makes no thumbnail.
pub proof fn lemma_population_idempotent(sources: Seq<Seq<char>>, cache: Seq<Seq<char>>)
    ensures
        pending(sources, cache + expected_names(pending(sources, cache))) == Seq::<
            Seq<char>,
        >::empty(),
{
    let p = pending(sources, cache);
    let after = cache + expected_names(p);
    assert forall|s: Seq<char>| sources.contains(s) implies after.contains(
        #[trigger] thumbnail_name(s),
    ) by {
        lemma_pending_members(sources, cache, s);
        if cache.contains(thumbnail_name(s)) {
            let k = choose|k: int| 0 <= k < cache.len() && cache[k] == thumbnail_name(s);
            assert(after[k] == thumbnail_name(s));
        } else {
            let k = choose|k: int| 0 <= k < p.len() && p[k] == s;
            assert(expected_names(p)[k] == thumbnail_name(s));
            assert(after[cache.len() + k] == thumbnail_name(s));
        }
    }
    lemma_nothing_pending(sources, after);
}

/// Idempotence whatever fails: when whether a source gets its thumbnail
/// depends on that source alone (`ok`), a population run right after
/// another on the same sources writes nothing, so the cache stays as the
/// first run left it.
pub proof fn lemma_second_population_writes_nothing(
    sources: Seq<Seq<char>>,
    cache: Seq<Seq<char>>,
    ok: spec_fn(Seq<char>) -> bool,
)
    ensures
        ({
            let after = cache + expected_names(pending(sources, cache).filter(ok));
            &&& pending(sources, after).filter(ok) == Seq::<Seq<char>>::empty()
            &&& after + expected_names(pending(sources, after).filter(ok)) == after
        }),
{
    let p1 = pending(sources, cache);
    let w1 = p1.filter(ok);
    let after = cache + expected_names(w1);
    let p2 = pending(sources, after);
    let w2 = p2.filter(ok);
    if w2.len() > 0 {
        let s = w2[0];
        p2.lemma_filter_pred(ok, 0);
        assert(w2.contains(s));
        p2.lemma_filter_contains_rev(ok, s);
        lemma_pending_members(sources, after, s);
        lemma_pending_members(sources, cache, s);
        if cache.contains(thumbnail_name(s)) {
            let k = choose|k: int| 0 <= k < cache.len() && cache[k] == thumbnail_name(s);
            assert(after[k] == thumbnail_name(s));
        }
        let i = choose|i: int| 0 <= i < p1.len() && p1[i] == s;
        p1.lemma_filter_contains(ok, i);
        let j = choose|j: int| 0 <= j < w1.len() && w1[j] == s;
        assert(after[cache.len() + j] == thumbnail_name(s));
        assert(false);
    }
    assert(w2 =~= Seq::<Seq<char>>::empty());
    assert(after + expected_names(w2) =~= after);
}

/// Reclamation leaves the cache consistent with the sources: an entry is
/// removed exactly when it is managed and no source maps to it, so every
/// managed entry that remains belongs to a present source, and every other
/// entry stays.
pub proof fn lemma_reclamation_consistent(sources: Seq<Seq<char>>, entries: Seq<Seq<char>>)
    ensures
        forall|e: Seq<char>|
            #![trigger orphans(expected_names(sources), entries).contains(e)]
            entries.contains(e) && !orphans(expected_names(sources), entries).contains(e)
                && starts_with(e, thumb_prefix()) ==> exists|k: int|
                0 <= k < sources.len() && thumbnail_name(sources[k]) == e,
        forall|e: Seq<char>|
            #![trigger orphans(expected_names(sources), entries).contains(e)]
            orphans(expected_names(sources), entries).contains(e) ==> entries.contains(e)
                && starts_with(e, thumb_prefix()) && forall|k: int|
                0 <= k < sources.len() ==> thumbnail_name(sources[k]) != e,
{
    let expected = expected_names(sources);
    assert forall|e: Seq<char>|
        #![trigger orphans(expected_names(sources), entries).contains(e)]
        entries.contains(e) && !orphans(expected_names(sources), entries).contains(e)
            && starts_with(e, thumb_prefix()) implies exists|k: int|
        0 <= k < sources.len() && thumbnail_name(sources[k]) == e by {
        lemma_orphans_members(expected, entries, e);
        let k = choose|k: int| 0 <= k < expected.len() && expected[k] == e;
        assert(thumbnail_name(sources[k]) == e);
    }
    assert forall|e: Seq<char>|
        #![trigger orphans(expected_names(sources), entries).contains(e)]
        orphans(expected_names(sources), entries).contains(e) implies entries.contains(e)
            && starts_with(e, thumb_prefix()) && forall|k: int|
            0 <= k < sources.len() ==> thumbnail_name(sources[k]) != e by {
        lemma_orphans_members(expected, entries, e);
        assert forall|k: int| 0 <= k < sources.len() implies thumbnail_name(sources[k]) != e by {
            if thumbnail_name(sources[k]) == e {
                assert(expected[k] == e);
            }
        }
    }
}

/// The cache names present after population wrote the thumbnails of
/// `written` into a cache that held `cache`.
pub open spec fn populated(cache: Seq<Seq<char>>, written: Seq<Seq<char>>) -> Set<Seq<char>> {
    (cache + expected_names(written)).to_set()
}

proof fn lemma_populated_members(cache: Seq<Seq<char>>, written: Seq<Seq<char>>, x: Seq<char>)
    ensures
        populated(cache, written).contains(x) <==> cache.contains(x) || exists|s: Seq<char>|
            written.contains(s) && #[trigger] thumbnail_name(s) == x,
{
    let all = cache + expected_names(written);
    if all.contains(x) {
        let k = choose|k: int| 0 <= k < all.len() && all[k] == x;
        if k >= cache.len() {
            let j = k - cache.len();
            assert(written.contains(written[j]));
            assert(thumbnail_name(written[j]) == x);
        } else {
            assert(cache[k] == x);
        }
    }
    if cache.contains(x) {
        let k = choose|k: int| 0 <= k < cache.len() && cache[k] == x;
        assert(all[k] == x);
    }
    if exists|s: Seq<char>| written.contains(s) && #[trigger] thumbnail_name(s) == x {
        let s = choose|s: Seq<char>| written.contains(s) && #[trigger] thumbnail_name(s) == x;
        let j = choose|j: int| 0 <= j < written.len() && written[j] == s;
        assert(all[cache.len() + j] == x);
    }
}

/// Population does not depend on the order of its work: writing the
/// thumbnails of the same set of sources, in whatever order and however
/// interleaved, leaves the same set of cache names.
pub proof fn lemma_population_order_independent(
    cache: Seq<Seq<char>>,
    a: Seq<Seq<char>>,
    b: Seq<Seq<char>>,
)
    requires
        a.to_set() == b.to_set(),
    ensures
        populated(cache, a) == populated(cache, b),
{
    assert forall|x: Seq<char>| populated(cache, a).contains(x) == populated(cache, b).contains(x) by {
        lemma_populated_members(cache, a, x);
        lemma_populated_members(cache, b, x);
        if exists|s: Seq<char>| a.contains(s) && #[trigger] thumbnail_name(s) == x {
            let s = choose|s: Seq<char>| a.contains(s) && #[trigger] thumbnail_name(s) == x;
            assert(a.to_set().contains(s));
            assert(b.contains(s));
        }
        if exists|s: Seq<char>| b.contains(s) && #[trigger] thumbnail_name(s) == x {
            let s = choose|s: Seq<char>| b.contains(s) && #[trigger] thumbnail_name(s) == x;
            assert(b.to_set().contains(s));
            assert(a.contains(s));
        }
    }
    assert(populated(cache, a) =~= populated(cache, b));
}

/// The sources of `outcomes` whose outcome is `ok`, in their order.
pub open spec fn with_outcome(outcomes: Seq<(Seq<char>, bool)>, ok: bool) -> Seq<Seq<char>>
    decreases outcomes.len(),
{
    if outcomes.len() == 0 {
        Seq::empty()
    } else {
        let rest = with_outcome(outcomes.drop_last(), ok);
        if outcomes.last().1 == ok {
            rest.push(outcomes.last().0)
        } else {
            rest
        }
    }
}

pub open spec fn outcomes_view(v: Seq<(String, bool)>) -> Seq<(Seq<char>, bool)> {
    v.map_values(|o: (String, bool)| (o.0@, o.1))
}

proof fn lemma_with_outcome_members(outcomes: Seq<(Seq<char>, bool)>, ok: bool, i: int)
    requires
        0 <= i < outcomes.len(),
        outcomes[i].1 == ok,
    ensures
        with_outcome(outcomes, ok).contains(outcomes[i].0),
    decreases outcomes.len(),
{
    let rest = with_outcome(outcomes.drop_last(), ok);
    if i == outcomes.len() - 1 {
        assert(rest.push(outcomes.last().0)[rest.len() as int] == outcomes[i].0);
    } else {
        assert(outcomes.drop_last()[i] == outcomes[i]);
        lemma_with_outcome_members(outcomes.drop_last(), ok, i);
        if outcomes.last().1 == ok {
            let k = choose|k: int| 0 <= k < rest.len() && rest[k] == outcomes[i].0;
            assert(rest.push(outcomes.last().0)[k] == outcomes[i].0);
        }
    }
}

proof fn lemma_with_outcome_lengths(outcomes: Seq<(Seq<char>, bool)>)
    ensures
        with_outcome(outcomes, true).len() + with_outcome(outcomes, false).len() == outcomes.len(),
    decreases outcomes.len(),
{
    if outcomes.len() > 0 {
        lemma_with_outcome_lengths(outcomes.drop_last());
    }
}

/// Failures stay with their own item: every source whose generation
/// succeeded gets its cache name after population, whatever became of the
/// others, and each item counts once, as created or as failed.
pub proof fn lemma_failures_isolated(cache: Seq<Seq<char>>, outcomes: Seq<(Seq<char>, bool)>)
    ensures
        forall|i: int|
            0 <= i < outcomes.len() && #[trigger] outcomes[i].1 ==> populated(
                cache,
                with_outcome(outcomes, true),
            ).contains(thumbnail_name(outcomes[i].0)),
        forall|i: int|
            0 <= i < outcomes.len() && !#[trigger] outcomes[i].1 ==> with_outcome(
                outcomes,
                false,
            ).contains(outcomes[i].0),
        with_outcome(outcomes, true).len() + with_outcome(outcomes, false).len() == outcomes.len(),
{
    assert forall|i: int| 0 <= i < outcomes.len() && #[trigger] outcomes[i].1 implies populated(
        cache,
        with_outcome(outcomes, true),
    ).contains(thumbnail_name(outcomes[i].0)) by {
        lemma_with_outcome_members(outcomes, true, i);
        lemma_populated_members(cache, with_outcome(outcomes, true), thumbnail_name(outcomes[i].0));
    }
    assert forall|i: int| 0 <= i < outcomes.len() && !#[trigger] outcomes[i].1 implies with_outcome(
        outcomes,
        false,
    ).contains(outcomes[i].0) by {
        lemma_with_outcome_members(outcomes, false, i);
    }
    lemma_with_outcome_lengths(outcomes);
}

/// What a population run did: the sources that got a thumbnail and those
/// that failed.
pub struct PopulationReport {
    pub created: Vec<String>,
    pub failed: Vec<String>,
}

/// Sorts the per-source outcomes of a population run (source path, and
/// whether its thumbnail was written) into a report.
pub fn record_outcomes(outcomes: &Vec<(String, bool)>) -> (r: PopulationReport)
    ensures
        strings_view(r.created@) == with_outcome(outcomes_view(outcomes@), true),
        strings_view(r.failed@) == with_outcome(outcomes_view(outcomes@), false),
{
    let ghost ov = outcomes_view(outcomes@);
    let mut created: Vec<String> = Vec::new();
    let mut failed: Vec<String> = Vec::new();
    let mut i: usize = 0;
    while i < outcomes.len()
        invariant
            i <= outcomes@.len(),
            ov == outcomes_view(outcomes@),
            strings_view(created@) == with_outcome(ov.subrange(0, i as int), true),
            strings_view(failed@) == with_outcome(ov.subrange(0, i as int), false),
        decreases outcomes.len() - i,
    {
        let ghost c0 = created@;
        let ghost f0 = failed@;
        let (path, ok) = (&outcomes[i].0, outcomes[i].1);
        if ok {
            created.push(path.clone());
            assert(strings_view(created@) =~= strings_view(c0).push(path@));
        } else {
            failed.push(path.clone());
            assert(strings_view(failed@) =~= strings_view(f0).push(path@));
        }
        assert(ov.subrange(0, i + 1).drop_last() =~= ov.subrange(0, i as int));
        assert(ov.subrange(0, i + 1).last() == ov[i as int]);
        i = i + 1;
    }
    assert(ov.subrange(0, ov.len() as int) =~= ov);
    PopulationReport { created, failed }
}

fn contains_string(v: &Vec<String>, s: &String) -> (r: bool)
    ensures
        r == strings_view(v@).contains(s@),
{
    let mut i: usize = 0;
    while i < v.len()
        invariant
            i <= v@.len(),
            forall|j: int| 0 <= j < i ==> strings_view(v@)[j] != s@,
        decreases v.len() - i,
    {
        if v[i] == *s {
            assert(strings_view(v@)[i as int] == s@);
            return true;
        }
        i = i + 1;
    }
    false
}

/// Keeps the thumbnails of the images of a source directory in a cache
/// directory.
pub struct ThumbnailManager {
    pub source_dir: String,
    pub cache_dir: String,
}

impl ThumbnailManager {
    pub fn new(source_dir: String, cache_dir: String) -> (r: Self)
        ensures
            r.source_dir@ == source_dir@,
            r.cache_dir@ == cache_dir@,
    {
        ThumbnailManager { source_dir, cache_dir }
    }

    /// Where the thumbnail of `original_path` is stored.
    pub fn get_thumbnail_path(&self, original_path: &str) -> (r: String)
        ensures
            r@ == path_join(self.cache_dir@, thumbnail_name(original_path@)),
    {
        let name = thumbnail_file_name(original_path);
        join_path(self.cache_dir.as_str(), name.as_str())
    }

    /// The source images among the entries of a walk of the source directory.
    pub fn source_images(&self, walk: &Vec<ScanEntry>) -> (r: Vec<String>)
        ensures
            strings_view(r@) == source_images_of(walk@),
    {
        let exts = vec![String::from_str("png"), String::from_str("jpg"), String::from_str("jpeg")];
        proof {
            reveal_strlit("png");
            reveal_strlit("jpg");
            reveal_strlit("jpeg");
            assert(exts@[0]@ =~= seq!['p', 'n', 'g']);
            assert(exts@[1]@ =~= seq!['j', 'p', 'g']);
            assert(exts@[2]@ =~= seq!['j', 'p', 'e', 'g']);
            assert(strings_view(exts@) =~= image_extensions());
        }
        select_files(walk, Some(SOURCE_SCAN_DEPTH), Some(&exts))
    }

    /// The names among `cache_names` (the files of the cache directory) that
    /// are orphans with respect to the sources found in `walk`.
    pub fn cleanup_orphaned_thumbnails(&self, walk: &Vec<ScanEntry>, cache_names: &Vec<String>) -> (r:
        Vec<String>)
        ensures
            strings_view(r@) == orphans(
                expected_names(source_images_of(walk@)),
                strings_view(cache_names@),
            ),
    {
        let sources = self.source_images(walk);
        let mut expected: Vec<String> = Vec::new();
        let mut i: usize = 0;
        while i < sources.len()
            invariant
                i <= sources@.len(),
                strings_view(expected@) =~= expected_names(strings_view(sources@)).subrange(
                    0,
                    i as int,
                ),
            decreases sources.len() - i,
        {
            let name = thumbnail_file_name(sources[i].as_str());
            let ghost before = expected@;
            expected.push(name);
            assert(strings_view(expected@) =~= strings_view(before).push(name@));
            i = i + 1;
        }
        let ghost exp = strings_view(expected@);
        assert(exp =~= expected_names(source_images_of(walk@)));
        let prefix = String::from_str("thumb_");
        proof {
            reveal_strlit("thumb_");
        }
        let mut r: Vec<String> = Vec::new();
        let mut j: usize = 0;
        while j < cache_names.len()
            invariant
                j <= cache_names@.len(),
                exp == strings_view(expected@),
                prefix@ == thumb_prefix(),
                strings_view(r@) == orphans(exp, strings_view(cache_names@).subrange(0, j as int)),
            decreases cache_names.len() - j,
        {
            let entry = &cache_names[j];
            let ghost before = r@;
            if has_prefix(entry, &prefix) && !contains_string(&expected, entry) {
                r.push(entry.clone());
                assert(strings_view(r@) =~= strings_view(before).push(entry@));
            }
            assert(strings_view(cache_names@).subrange(0, j + 1).drop_last()
                =~= strings_view(cache_names@).subrange(0, j as int));
            j = j + 1;
        }
        assert(strings_view(cache_names@).subrange(0, cache_names@.len() as int) =~= strings_view(
            cache_names@,
        ));
        r
    }

    /// The sources found in `walk` whose thumbnail is not among
    /// `cache_names`: the work that population still has to do.
    pub fn pending_thumbnails(&self, walk: &Vec<ScanEntry>, cache_names: &Vec<String>) -> (r: Vec<
        String,
    >)
        ensures
            strings_view(r@) == pending(source_images_of(walk@), strings_view(cache_names@)),
    {
        let sources = self.source_images(walk);
        let ghost src = strings_view(sources@);
        let mut r: Vec<String> = Vec::new();
        let mut i: usize = 0;
        while i < sources.len()
            invariant
                i <= sources@.len(),
                src == strings_view(sources@),
                strings_view(r@) == pending(src.subrange(0, i as int), strings_view(cache_names@)),
            decreases sources.len() - i,
        {
            let name = thumbnail_file_name(sources[i].as_str());
            let ghost before = r@;
            if !contains_string(cache_names, &name) {
                r.push(sources[i].clone());
                assert(strings_view(r@) =~= strings_view(before).push(src[i as int]));
            }
            assert(src.subrange(0, i + 1).drop_last() =~= src.subrange(0, i as int));
            i = i + 1;
        }
        assert(src.subrange(0, src.len() as int) =~= src);
        r
    }

    /// Decodes `source` and scales it down to the size that `fit_within`
    /// gives for its dimensions.
    pub fn resize_image(&self, source: &[u8], max_width: u32, max_height: u32, filter: ResizeFilter) -> (r:
        Result<ResizedImage, ThumbnailError>)
        ensures
            r is Ok <==> decoded_size(source@) is Some,
            r matches Ok(img) ==> decoded_size(source@) == Some((img.source_width, img.source_height))
                && img.fits(max_width, max_height) && img.pixels@.len() == 4 * (img.width as int) * (
            img.height as int),
            r matches Err(e) ==> e == ThumbnailError::Decode,
    {
        match decode_image(source) {
            Err(_) => Err(ThumbnailError::Decode),
            Ok((img, ow, oh)) => {
                let (w, h) = target_dimensions(ow, oh, max_width, max_height);
                let pixels = resize_rgba(&img, w, h, filter);
                Ok(ResizedImage { pixels, source_width: ow, source_height: oh, width: w, height: h })
            },
        }
    }

    /// Makes the thumbnail of the image `original_path`, whose bytes are
    /// `source`: scaled to fit within `max_width` x `max_height` and encoded
    /// as PNG. Says where it is to be stored.
    pub fn create_thumbnail(
        &self,
        original_path: &str,
        source: &[u8],
        max_width: u32,
        max_height: u32,
        filter: ResizeFilter,
    ) -> (r: Result<(String, Thumbnail), ThumbnailError>)
        ensures
            r matches Err(ThumbnailError::Decode) <==> decoded_size(source@) is None,
            r is Ok <==> makes_thumbnail(source@, max_width, max_height),
            r matches Ok((path, t)) ==> path@ == path_join(
                self.cache_dir@,
                thumbnail_name(original_path@),
            ) && t.fits(max_width, max_height) && decoded_size(source@) == Some(
                (t.source_width, t.source_height),
            ),
    {
        let resized = self.resize_image(source, max_width, max_height, filter)?;
        match encode_png(&resized.pixels, resized.width, resized.height) {
            Err(_) => Err(ThumbnailError::Encode),
            Ok(png) => {
                let thumb = Thumbnail {
                    source_width: resized.source_width,
                    source_height: resized.source_height,
                    width: resized.width,
                    height: resized.height,
                    png,
                };
                Ok((self.get_thumbnail_path(original_path), thumb))
            },
        }
    }

    /// A preview thumbnail: at most 320 x 180, sampled by nearest neighbour.
    pub fn create_preview_thumbnail(&self, original_path: &str, source: &[u8]) -> (r: Result<
        (String, Thumbnail),
        ThumbnailError,
    >)
        ensures
            r matches Err(ThumbnailError::Decode) <==> decoded_size(source@) is None,
            r is Ok <==> makes_thumbnail(source@, PREVIEW_WIDTH, PREVIEW_HEIGHT),
            r matches Ok((path, t)) ==> path@ == path_join(
                self.cache_dir@,
                thumbnail_name(original_path@),
            ) && t.fits(PREVIEW_WIDTH, PREVIEW_HEIGHT) && decoded_size(source@) == Some(
                (t.source_width, t.source_height),
            ),
    {
        self.create_thumbnail(original_path, source, PREVIEW_WIDTH, PREVIEW_HEIGHT, ResizeFilter::Nearest)
    }
}

fn has_prefix(s: &String, p: &String) -> (r: bool)
    ensures
        r == starts_with(s@, p@),
{
    let n = p.as_str().unicode_len();
    if s.as_str().unicode_len() < n {
        return false;
    }
    let mut i: usize = 0;
    while i < n
        invariant
            n == p@.len() <= s@.len(),
            i <= n,
            forall|j: int| 0 <= j < i ==> s@[j] == p@[j],
        decreases n - i,
    {
        if s.as_str().get_char(i) != p.as_str().get_char(i) {
            assert(s@.subrange(0, n as int)[i as int] != p@[i as int]);
            return false;
        }
        i = i + 1;
    }
    assert(s@.subrange(0, n as int) =~= p@);
    true
}

} // verus!
