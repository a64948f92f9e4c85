//! Rules of the directory that holds saved replay clips.
use crate::path_map;
use crate::paths;
use crate::replay_media::{ReplayAudioSnapshot, ReplayVideoStream};
use crate::replay_mp4;
use crate::replay_mp4::Mp4VideoError;
use crate::replay_preferences;
use crate::replay_preferences::ReplayOutputFormat;
use crate::replay_ring::{PacketView, ReplayRing};
use crate::text;
use vstd::multiset::Multiset;
use vstd::prelude::*;
use vstd::string::*;

verus! {

broadcast use vstd::string::group_string_axioms;

pub const STORE_MARKER: &'static str = ".redunar-replay-store-v1";

pub const STORE_MARKER_CONTENTS: &'static str = "redunar-replay-store-v1\n";

pub const CLIP_PREFIX: &'static str = "redunar-replay-";

pub const MATROSKA_SUFFIX: &'static str = ".mkv";

pub const MP4_SUFFIX: &'static str = ".mp4";

pub const MAX_DIRECTORY_ENTRIES: usize = 4096;

pub const MINIMUM_FILESYSTEM_RESERVE_BYTES: u64 = 536_870_912;

/// How many names are tried for a file.
pub const NAME_ATTEMPTS: u32 = 32;

/// A failed store operation with its explanation.
#[derive(Clone, Debug, PartialEq, Eq)]
pub struct ReplayStoreError {
    message: String,
}

impl View for ReplayStoreError {
    type V = Seq<char>;

    closed spec fn view(&self) -> Seq<char> {
        self.message@
    }
}

impl ReplayStoreError {
    pub fn new(message: &str) -> (result: Self)
        ensures
            result@ == message@,
    {
        ReplayStoreError { message: message.to_owned() }
    }

    fn joined(start: &str, end: &str) -> (result: Self)
        ensures
            result@ == start@ + end@,
    {
        let mut message = start.to_owned();
        message.append(end);
        ReplayStoreError { message }
    }

    /// The explanation.
    pub fn message(&self) -> (result: &str)
        ensures
            result@ == self@,
    {
        self.message.as_str()
    }
}

/// Whether a clip of some bytes leaves the reserve free.
pub open spec fn leaves_reserve(available: u64, expected_clip_bytes: u64) -> bool {
    available >= expected_clip_bytes + MINIMUM_FILESYSTEM_RESERVE_BYTES
}

/// Whether one clip can be written without touching the reserve.
pub fn has_required_free_space(available: u64, expected_clip_bytes: u64) -> (result: bool)
    ensures
        result == leaves_reserve(available, expected_clip_bytes),
        result == (available >= expected_clip_bytes + MINIMUM_FILESYSTEM_RESERVE_BYTES),
{
    match expected_clip_bytes.checked_add(MINIMUM_FILESYSTEM_RESERVE_BYTES) {
        Some(required) => available >= required,
        None => false,
    }
}

/// Free bytes from a block count and a block size, at most what fits.
pub fn available_bytes(blocks: u64, block_size: u64) -> (result: u64)
    ensures
        result == (if blocks * block_size <= u64::MAX {
            (blocks * block_size) as u64
        } else {
            u64::MAX
        }),
{
    match blocks.checked_mul(block_size) {
        Some(bytes) => bytes,
        None => u64::MAX,
    }
}

/// The directory of a store and its limits.
#[derive(Debug)]
pub struct ReplayClipStore {
    directory: Vec<u8>,
    maximum_clip_bytes: u64,
    storage_limit_bytes: u64,
}

/// What a [`ReplayClipStore`] holds.
#[verifier::ext_equal]
pub ghost struct StoreView {
    pub directory: Seq<u8>,
    pub maximum_clip_bytes: u64,
    pub storage_limit_bytes: u64,
}

impl View for ReplayClipStore {
    type V = StoreView;

    closed spec fn view(&self) -> StoreView {
        StoreView {
            directory: self.directory@,
            maximum_clip_bytes: self.maximum_clip_bytes,
            storage_limit_bytes: self.storage_limit_bytes,
        }
    }
}

impl StoreView {
    /// An absolute directory, and a clip budget within the store's limit.
    pub open spec fn valid(self) -> bool {
        &&& paths::absolute(self.directory)
        &&& 0 < self.maximum_clip_bytes <= self.storage_limit_bytes
    }
}

/// Why a store cannot be configured.
pub open spec fn configuration_fault(store: StoreView) -> Option<&'static str> {
    if !paths::absolute(store.directory) {
        Some("replay store directory must be absolute")
    } else if store.maximum_clip_bytes == 0 || store.storage_limit_bytes == 0
        || store.maximum_clip_bytes > store.storage_limit_bytes {
        Some("replay store budget is invalid")
    } else {
        None
    }
}

/// By how much some bytes go over a limit.
pub open spec fn bytes_over(used: nat, limit: u64) -> int {
    if used > limit {
        used - limit
    } else {
        0
    }
}

/// Whether a directory may be claimed: it is empty and has no marker yet.
pub open spec fn may_claim(marker: StorePath, has_entries: bool) -> bool {
    marker is Absent && !has_entries
}

/// Inventory of a store.
#[derive(Debug, PartialEq, Eq)]
pub struct ReplayStorageStatus {
    pub directory: Vec<u8>,
    pub initialized: bool,
    pub owned_clips: u32,
    pub used_bytes: u64,
    pub storage_limit_bytes: u64,
    pub bytes_over_limit: u64,
}

impl ReplayClipStore {
    #[verifier::type_invariant]
    spec fn configured(self) -> bool {
        self@.valid()
    }

    /// Configures a store in a directory.
    pub fn with_limits(
        directory: Vec<u8>,
        maximum_clip_bytes: u64,
        storage_limit_bytes: u64,
    ) -> (result: Result<Self, ReplayStoreError>)
        ensures
            ({
                let view = StoreView {
                    directory: directory@,
                    maximum_clip_bytes,
                    storage_limit_bytes,
                };
                match result {
                    Ok(store) => configuration_fault(view) is None && store@ == view,
                    Err(error) => configuration_fault(view) matches Some(fault) && error@ == fault@,
                }
            }),
    {
        if !paths::is_absolute(directory.as_slice()) {
            return Err(ReplayStoreError::new("replay store directory must be absolute"));
        }
        if maximum_clip_bytes == 0 || storage_limit_bytes == 0 || maximum_clip_bytes
            > storage_limit_bytes {
            return Err(ReplayStoreError::new("replay store budget is invalid"));
        }
        Ok(ReplayClipStore { directory, maximum_clip_bytes, storage_limit_bytes })
    }

    pub fn directory(&self) -> (result: &[u8])
        ensures
            result@ == self@.directory,
    {
        self.directory.as_slice()
    }

    pub fn maximum_clip_bytes(&self) -> (result: u64)
        ensures
            result == self@.maximum_clip_bytes,
    {
        self.maximum_clip_bytes
    }

    pub fn storage_limit_bytes(&self) -> (result: u64)
        ensures
            result == self@.storage_limit_bytes,
    {
        self.storage_limit_bytes
    }

    /// The most bytes that one clip may have.
    pub fn hard_limit(&self) -> (result: u64)
        ensures
            result <= self@.maximum_clip_bytes,
            result <= self@.storage_limit_bytes,
            result == self@.maximum_clip_bytes || result == self@.storage_limit_bytes,
    {
        if self.maximum_clip_bytes <= self.storage_limit_bytes {
            self.maximum_clip_bytes
        } else {
            self.storage_limit_bytes
        }
    }

    /// Accepts the size of a clip for which space is asked.
    pub fn check_clip_request(&self, expected_clip_bytes: u64) -> (result: Result<
        (),
        ReplayStoreError,
    >)
        ensures
            match result {
                Ok(()) => 0 < expected_clip_bytes <= self@.maximum_clip_bytes,
                Err(error) => !(0 < expected_clip_bytes <= self@.maximum_clip_bytes) && error@
                    == "replay free-space request exceeds the configured clip budget"@,
            },
    {
        if expected_clip_bytes == 0 || expected_clip_bytes > self.maximum_clip_bytes {
            return Err(
                ReplayStoreError::new(
                    "replay free-space request exceeds the configured clip budget",
                ),
            );
        }
        Ok(())
    }

    /// Accepts a clip for which there is room beside the reserve.
    pub fn ensure_free_space(&self, expected_clip_bytes: u64, blocks: u64, block_size: u64) -> (result:
        Result<(), ReplayStoreError>)
        ensures
            match result {
                Ok(()) => 0 < expected_clip_bytes <= self@.maximum_clip_bytes && blocks * block_size
                    >= expected_clip_bytes + MINIMUM_FILESYSTEM_RESERVE_BYTES,
                Err(error) => if !(0 < expected_clip_bytes <= self@.maximum_clip_bytes) {
                    error@ == "replay free-space request exceeds the configured clip budget"@
                } else {
                    (blocks * block_size < expected_clip_bytes + MINIMUM_FILESYSTEM_RESERVE_BYTES
                        || expected_clip_bytes + MINIMUM_FILESYSTEM_RESERVE_BYTES > u64::MAX)
                        && error@
                        == "not enough free space to save Replay while preserving the 512 MiB safety reserve"@
                },
            },
    {
        if let Err(error) = self.check_clip_request(expected_clip_bytes) {
            return Err(error);
        }
        if !has_required_free_space(available_bytes(blocks, block_size), expected_clip_bytes) {
            return Err(
                ReplayStoreError::new(
                    "not enough free space to save Replay while preserving the 512 MiB safety reserve",
                ),
            );
        }
        Ok(())
    }

    /// The inventory of a store that does not exist yet.
    pub fn missing_status(self) -> (result: ReplayStorageStatus)
        ensures
            result.directory@ == self@.directory,
            !result.initialized,
            result.owned_clips == 0,
            result.used_bytes == 0,
            result.storage_limit_bytes == self@.storage_limit_bytes,
            result.bytes_over_limit == 0,
    {
        ReplayStorageStatus {
            storage_limit_bytes: self.storage_limit_bytes,
            directory: self.directory,
            initialized: false,
            owned_clips: 0,
            used_bytes: 0,
            bytes_over_limit: 0,
        }
    }

    /// The inventory of a store with some clips.
    pub fn status(self, clips: &[OwnedClip]) -> (result: Result<
        ReplayStorageStatus,
        ReplayStoreError,
    >)
        ensures
            match result {
                Ok(status) => {
                    &&& clip_bytes(clip_views(clips@)) <= u64::MAX
                    &&& status.directory@ == self@.directory
                    &&& status.initialized
                    &&& status.owned_clips == (if clips@.len() <= u32::MAX {
                        clips@.len() as u32
                    } else {
                        u32::MAX
                    })
                    &&& status.used_bytes == clip_bytes(clip_views(clips@))
                    &&& status.bytes_over_limit == bytes_over(
                        clip_bytes(clip_views(clips@)),
                        self@.storage_limit_bytes,
                    )
                    &&& status.storage_limit_bytes == self@.storage_limit_bytes
                    &&& status.bytes_over_limit == (if status.used_bytes
                        > self@.storage_limit_bytes {
                        (status.used_bytes - self@.storage_limit_bytes) as u64
                    } else {
                        0
                    })
                },
                Err(error) => clip_bytes(clip_views(clips@)) > u64::MAX && error@
                    == "replay store size overflows"@,
            },
    {
        let used_bytes: u64 = match total_bytes(clips) {
            None => {
                return Err(ReplayStoreError::new("replay store size overflows"));
            },
            Some(bytes) => bytes,
        };
        let storage_limit_bytes: u64 = self.storage_limit_bytes;
        let count: usize = clips.len();
        Ok(
            ReplayStorageStatus {
                directory: self.directory,
                initialized: true,
                owned_clips: if count <= u32::MAX as usize {
                    count as u32
                } else {
                    u32::MAX
                },
                used_bytes,
                storage_limit_bytes,
                bytes_over_limit: used_bytes.saturating_sub(storage_limit_bytes),
            },
        )
    }
}

/// A regular file of the store with a generated name. The time of its last
/// change is in nanoseconds from the Unix epoch.
#[derive(Debug, PartialEq, Eq)]
pub struct OwnedClip {
    pub file_name: Vec<u8>,
    pub bytes: u64,
    pub modified_ns: i128,
}

/// What an [`OwnedClip`] holds.
#[verifier::ext_equal]
pub ghost struct ClipView {
    pub file_name: Seq<u8>,
    pub bytes: u64,
    pub modified_ns: i128,
}

impl View for OwnedClip {
    type V = ClipView;

    open spec fn view(&self) -> ClipView {
        ClipView {
            file_name: self.file_name@,
            bytes: self.bytes,
            modified_ns: self.modified_ns,
        }
    }
}

pub open spec fn clip_views(clips: Seq<OwnedClip>) -> Seq<ClipView> {
    clips.map_values(|clip: OwnedClip| clip@)
}

/// The bytes of all clips.
pub open spec fn clip_bytes(clips: Seq<ClipView>) -> nat
    decreases clips.len(),
{
    if clips.len() == 0 {
        0
    } else {
        clip_bytes(clips.drop_last()) + clips.last().bytes as nat
    }
}

proof fn lemma_clip_bytes_take(clips: Seq<ClipView>, count: int)
    requires
        0 <= count <= clips.len(),
    ensures
        clip_bytes(clips.take(count)) <= clip_bytes(clips),
        clip_bytes(clips) == clip_bytes(clips.take(count)) + clip_bytes(clips.skip(count)),
    decreases clips.len(),
{
    if count == clips.len() {
        assert(clips.take(count) =~= clips);
        assert(clips.skip(count) =~= Seq::<ClipView>::empty());
    } else {
        let shorter = clips.drop_last();
        lemma_clip_bytes_take(shorter, count);
        assert(shorter.take(count) =~= clips.take(count));
        assert(clips.skip(count).drop_last() =~= shorter.skip(count));
        assert(clips.skip(count).last() == clips.last());
    }
}

fn total_bytes(clips: &[OwnedClip]) -> (result: Option<u64>)
    ensures
        match result {
            Some(bytes) => bytes == clip_bytes(clip_views(clips@)),
            None => clip_bytes(clip_views(clips@)) > u64::MAX,
        },
{
    let ghost all = clip_views(clips@);
    let mut total: u64 = 0;
    let mut index: usize = 0;
    assert(all.take(0) =~= Seq::<ClipView>::empty());
    while index < clips.len()
        invariant
            index <= clips@.len(),
            all == clip_views(clips@),
            total == clip_bytes(all.take(index as int)),
        decreases clips@.len() - index,
    {
        assert(all.take(index + 1).drop_last() =~= all.take(index as int));
        assert(all.take(index + 1).last() == clips@[index as int]@);
        match total.checked_add(clips[index].bytes) {
            None => {
                proof {
                    lemma_clip_bytes_take(all, index + 1);
                }
                return None;
            },
            Some(sum) => {
                total = sum;
            },
        }
        index = index + 1;
    }
    assert(all.take(index as int) =~= all);
    Some(total)
}

/// Whether a clip is removed before another: a protected clip last, then the
/// older before the newer, then by name.
pub open spec fn removed_before(left: ClipView, right: ClipView, protected: Option<Seq<u8>>) -> bool {
    let left_protected = protected == Some(left.file_name);
    let right_protected = protected == Some(right.file_name);
    if left_protected != right_protected {
        right_protected
    } else if left.modified_ns != right.modified_ns {
        left.modified_ns < right.modified_ns
    } else {
        path_map::bytes_before(left.file_name, right.file_name)
    }
}

fn is_removed_before(left: &OwnedClip, right: &OwnedClip, protected: Option<&[u8]>) -> (result: bool)
    ensures
        result == removed_before(left@, right@, optional_name(protected)),
{
    let (left_protected, right_protected) = match protected {
        None => (false, false),
        Some(name) => (
            text::same_bytes(left.file_name.as_slice(), name),
            text::same_bytes(right.file_name.as_slice(), name),
        ),
    };
    if left_protected != right_protected {
        right_protected
    } else if left.modified_ns != right.modified_ns {
        left.modified_ns < right.modified_ns
    } else {
        path_map::is_bytes_before(left.file_name.as_slice(), right.file_name.as_slice())
    }
}

/// The bytes of an optional name.
pub open spec fn optional_name(name: Option<&[u8]>) -> Option<Seq<u8>> {
    match name {
        Some(name) => Some(name@),
        None => None,
    }
}

/// A clip put behind every clip that is not removed after it.
pub open spec fn placed(
    ordered: Seq<ClipView>,
    clip: ClipView,
    protected: Option<Seq<u8>>,
) -> Seq<ClipView>
    decreases ordered.len(),
{
    if ordered.len() == 0 || !removed_before(clip, ordered.last(), protected) {
        ordered.push(clip)
    } else {
        placed(ordered.drop_last(), clip, protected).push(ordered.last())
    }
}

/// Clips in the order of their removal.
pub open spec fn removal_order(clips: Seq<ClipView>, protected: Option<Seq<u8>>) -> Seq<ClipView>
    decreases clips.len(),
{
    if clips.len() == 0 {
        clips
    } else {
        placed(removal_order(clips.drop_last(), protected), clips.last(), protected)
    }
}

/// Whether no clip stands behind one that it is removed before.
pub open spec fn is_removal_order(clips: Seq<ClipView>, protected: Option<Seq<u8>>) -> bool {
    forall|i: int, j: int|
        0 <= i < j < clips.len() ==> !removed_before(
            #[trigger] clips[j],
            #[trigger] clips[i],
            protected,
        )
}

proof fn lemma_removed_transitive(
    a: ClipView,
    b: ClipView,
    c: ClipView,
    protected: Option<Seq<u8>>,
)
    requires
        removed_before(c, a, protected),
        !removed_before(b, a, protected),
    ensures
        removed_before(c, b, protected),
{
    path_map::lemma_bytes_total(a.file_name, b.file_name);
    path_map::lemma_bytes_total(b.file_name, c.file_name);
    path_map::lemma_bytes_total(a.file_name, c.file_name);
    if path_map::bytes_before(c.file_name, a.file_name) && path_map::bytes_before(
        a.file_name,
        b.file_name,
    ) {
        path_map::lemma_bytes_transitive(c.file_name, a.file_name, b.file_name);
    }
}

proof fn lemma_placed(ordered: Seq<ClipView>, clip: ClipView, protected: Option<Seq<u8>>)
    requires
        is_removal_order(ordered, protected),
    ensures
        is_removal_order(placed(ordered, clip, protected), protected),
        placed(ordered, clip, protected).len() == ordered.len() + 1,
        placed(ordered, clip, protected).to_multiset() == ordered.to_multiset().insert(clip),
        clip_bytes(placed(ordered, clip, protected)) == clip_bytes(ordered) + clip.bytes,
        forall|i: int|
            0 <= i <= ordered.len() ==> (#[trigger] placed(ordered, clip, protected)[i] == clip
                || ordered.contains(placed(ordered, clip, protected)[i])),
    decreases ordered.len(),
{
    broadcast use vstd::seq_lib::group_to_multiset_ensures;

    let result = placed(ordered, clip, protected);
    if ordered.len() == 0 || !removed_before(clip, ordered.last(), protected) {
        assert(result.drop_last() =~= ordered);
        assert forall|i: int| 0 <= i <= ordered.len() implies (#[trigger] result[i] == clip
            || ordered.contains(result[i])) by {
            if i < ordered.len() {
                assert(result[i] == ordered[i]);
            }
        }
        assert forall|i: int, j: int| 0 <= i < j < result.len() implies !removed_before(
            #[trigger] result[j],
            #[trigger] result[i],
            protected,
        ) by {
            assert(result[i] == ordered[i]);
            if j < ordered.len() {
                assert(result[j] == ordered[j]);
            } else if removed_before(clip, ordered[i], protected) && i < ordered.len() - 1 {
                lemma_removed_transitive(ordered[i], ordered.last(), clip, protected);
            }
        }
    } else {
        let shorter = ordered.drop_last();
        lemma_placed(shorter, clip, protected);
        let inner = placed(shorter, clip, protected);
        assert(result.drop_last() =~= inner);
        assert(ordered =~= shorter.push(ordered.last()));
        assert(result.to_multiset() =~= ordered.to_multiset().insert(clip));
        assert forall|i: int| 0 <= i <= ordered.len() implies (#[trigger] result[i] == clip
            || ordered.contains(result[i])) by {
            if i < ordered.len() {
                assert(result[i] == inner[i]);
                if inner[i] != clip {
                    let k = choose|k: int| 0 <= k < shorter.len() && shorter[k] == inner[i];
                    assert(ordered[k] == result[i]);
                }
            } else {
                assert(result[i] == ordered[ordered.len() - 1]);
            }
        }
        assert forall|i: int, j: int| 0 <= i < j < result.len() implies !removed_before(
            #[trigger] result[j],
            #[trigger] result[i],
            protected,
        ) by {
            assert(result[i] == inner[i]);
            if j < inner.len() {
                assert(result[j] == inner[j]);
            } else if inner[i] == clip {
                path_map::lemma_bytes_total(clip.file_name, ordered.last().file_name);
            } else {
                let k = choose|k: int| 0 <= k < shorter.len() && shorter[k] == inner[i];
                assert(ordered[k] == inner[i]);
            }
        }
    }
}

/// Sorting for removal orders the clips and neither loses nor invents one.
pub proof fn removal_order_sorts(clips: Seq<ClipView>, protected: Option<Seq<u8>>)
    ensures
        is_removal_order(removal_order(clips, protected), protected),
        removal_order(clips, protected).len() == clips.len(),
        removal_order(clips, protected).to_multiset() == clips.to_multiset(),
        clip_bytes(removal_order(clips, protected)) == clip_bytes(clips),
    decreases clips.len(),
{
    broadcast use vstd::seq_lib::group_to_multiset_ensures;

    if clips.len() > 0 {
        let shorter = clips.drop_last();
        removal_order_sorts(shorter, protected);
        lemma_placed(removal_order(shorter, protected), clips.last(), protected);
        assert(clips =~= shorter.push(clips.last()));
    }
}

/// Sorts clips for removal.
fn sort_for_removal(clips: Vec<OwnedClip>, protected: Option<&[u8]>) -> (result: Vec<OwnedClip>)
    ensures
        clip_views(result@) == removal_order(clip_views(clips@), optional_name(protected)),
{
    let ghost all = clip_views(clips@);
    let ghost name = optional_name(protected);
    let mut rest = clips;
    let mut reversed: Vec<OwnedClip> = Vec::new();
    let mut ordered: Vec<OwnedClip> = Vec::new();
    while rest.len() > 0
        invariant
            rest@.len() <= clips@.len(),
            rest@ == clips@.take(rest@.len() as int),
            reversed@.len() + rest@.len() == clips@.len(),
            forall|i: int|
                0 <= i < reversed@.len() ==> #[trigger] reversed@[i] == clips@[clips@.len() - 1
                    - i],
        decreases rest@.len(),
    {
        let clip = rest.pop().unwrap();
        assert(clip == clips@[rest@.len() as int]);
        assert(rest@ =~= clips@.take(rest@.len() as int));
        reversed.push(clip);
    }
    assert(all.take(0) =~= Seq::<ClipView>::empty());
    assert(clip_views(ordered@) =~= Seq::<ClipView>::empty());
    while reversed.len() > 0
        invariant
            all == clip_views(clips@),
            name == optional_name(protected),
            reversed@.len() + ordered@.len() == clips@.len(),
            forall|i: int|
                0 <= i < reversed@.len() ==> #[trigger] reversed@[i] == clips@[clips@.len() - 1
                    - i],
            clip_views(ordered@) == removal_order(all.take(ordered@.len() as int), name),
        decreases reversed@.len(),
    {
        let ghost done = ordered@.len() as int;
        let clip = reversed.pop().unwrap();
        assert(clip == clips@[done]);
        assert(all.take(done + 1).drop_last() =~= all.take(done));
        assert(all.take(done + 1).last() == clip@);
        let ghost before = clip_views(ordered@);
        let mut at: usize = ordered.len();
        assert(before.take(at as int) =~= before);
        assert(placed(before, clip@, name) =~= placed(before.take(at as int), clip@, name)
            + before.skip(at as int));
        while at > 0 && is_removed_before(&clip, &ordered[at - 1], protected)
            invariant
                at <= ordered@.len(),
                before == clip_views(ordered@),
                name == optional_name(protected),
                placed(before, clip@, name) == placed(before.take(at as int), clip@, name)
                    + before.skip(at as int),
            decreases at,
        {
            assert(before.take(at as int).last() == ordered@[at - 1]@);
            assert(before.take(at as int).drop_last() =~= before.take(at - 1));
            assert(placed(before.take(at - 1), clip@, name).push(before[at - 1]) + before.skip(
                at as int,
            ) =~= placed(before.take(at - 1), clip@, name) + before.skip(at - 1));
            at = at - 1;
        }
        proof {
            if at > 0 {
                assert(before.take(at as int).last() == ordered@[at - 1]@);
            }
            assert(placed(before, clip@, name) =~= before.take(at as int).push(clip@)
                + before.skip(at as int));
        }
        let ghost old_ordered = ordered@;
        ordered.insert(at, clip);
        assert(clip_views(ordered@) =~= before.take(at as int).push(clip@) + before.skip(
            at as int,
        ));
    }
    assert(all.take(ordered@.len() as int) =~= all);
    ordered
}

/// How many clips go, from the front, until the rest is within the limit.
pub open spec fn removals(ordered: Seq<ClipView>, limit: u64) -> nat
    decreases ordered.len(),
{
    if ordered.len() == 0 || clip_bytes(ordered) <= limit {
        0
    } else {
        1 + removals(ordered.skip(1), limit)
    }
}

/// Removing that many clips leaves the rest within the limit, and removing
/// one fewer would not.
pub proof fn removals_are_needed(ordered: Seq<ClipView>, limit: u64)
    ensures
        removals(ordered, limit) <= ordered.len(),
        clip_bytes(ordered.skip(removals(ordered, limit) as int)) <= limit,
        removals(ordered, limit) > 0 ==> clip_bytes(
            ordered.skip(removals(ordered, limit) - 1),
        ) > limit,
    decreases ordered.len(),
{
    assert(ordered.skip(0) =~= ordered);
    if ordered.len() > 0 && clip_bytes(ordered) > limit {
        let rest = ordered.skip(1);
        removals_are_needed(rest, limit);
        let count = removals(rest, limit);
        assert(rest.skip(count as int) =~= ordered.skip(count as int + 1));
        if count > 0 {
            assert(rest.skip(count - 1) =~= ordered.skip(count as int));
        }
    }
}

/// Which clips go, and their bytes.
#[derive(Debug)]
pub struct QuotaPlan {
    /// The clips to remove, in order.
    pub removed: Vec<OwnedClip>,
    pub removed_bytes: u64,
}

/// Plans which clips go so that the rest is within the limit. The protected
/// clip goes only after every other one.
pub fn enforce_quota(clips: Vec<OwnedClip>, storage_limit_bytes: u64, protected: Option<&[u8]>) -> (result:
    Result<QuotaPlan, ReplayStoreError>)
    ensures
        ({
            let ordered = removal_order(clip_views(clips@), optional_name(protected));
            let count = removals(ordered, storage_limit_bytes) as int;
            match result {
                Ok(plan) => {
                    &&& clip_bytes(clip_views(clips@)) <= u64::MAX
                    &&& clip_views(plan.removed@) == ordered.take(count)
                    &&& plan.removed_bytes == clip_bytes(ordered.take(count))
                },
                Err(error) => clip_bytes(clip_views(clips@)) > u64::MAX && error@
                    == "replay store size overflows"@,
            }
        }),
{
    proof {
        removal_order_sorts(clip_views(clips@), optional_name(protected));
    }
    let total: u64 = match total_bytes(clips.as_slice()) {
        None => {
            return Err(ReplayStoreError::new("replay store size overflows"));
        },
        Some(total) => total,
    };
    let mut ordered = sort_for_removal(clips, protected);
    let ghost all = clip_views(ordered@);
    let mut left: u64 = total;
    let mut removed_bytes: u64 = 0;
    let mut count: usize = 0;
    assert(all.skip(0) =~= all);
    assert(all.take(0) =~= Seq::<ClipView>::empty());
    while count < ordered.len() && left > storage_limit_bytes
        invariant
            count <= ordered@.len(),
            all == clip_views(ordered@),
            clip_bytes(all) == total,
            left == clip_bytes(all.skip(count as int)),
            removed_bytes == clip_bytes(all.take(count as int)),
            removals(all, storage_limit_bytes) == count + removals(
                all.skip(count as int),
                storage_limit_bytes,
            ),
        decreases ordered@.len() - count,
    {
        assert(all.skip(count as int)[0] == ordered@[count as int]@);
        assert(all.skip(count as int).skip(1) =~= all.skip(count + 1));
        assert(all.take(count + 1).drop_last() =~= all.take(count as int));
        assert(all.take(count + 1).last() == ordered@[count as int]@);
        proof {
            lemma_clip_bytes_take(all, count + 1);
            lemma_clip_bytes_take(all, count as int);
        }
        left = left - ordered[count].bytes;
        removed_bytes = removed_bytes + ordered[count].bytes;
        count = count + 1;
    }
    proof {
        if count == all.len() {
            assert(all.skip(count as int) =~= Seq::<ClipView>::empty());
        }
    }
    ordered.truncate(count);
    assert(clip_views(ordered@) =~= all.take(count as int));
    Ok(QuotaPlan { removed: ordered, removed_bytes })
}

/// The protected clip is never removed while another clip stays.
pub proof fn protected_clip_goes_last(clips: Seq<ClipView>, limit: u64, protected: Seq<u8>, at: int)
    requires
        0 <= at < removals(removal_order(clips, Some(protected)), limit),
        removal_order(clips, Some(protected))[at].file_name == protected,
    ensures
        forall|k: int|
            removals(removal_order(clips, Some(protected)), limit) <= k < clips.len() ==> (
            #[trigger] removal_order(clips, Some(protected))[k]).file_name == protected,
{
    let ordered = removal_order(clips, Some(protected));
    removal_order_sorts(clips, Some(protected));
    removals_are_needed(ordered, limit);
    assert forall|k: int| removals(ordered, limit) <= k < clips.len() implies (
    #[trigger] ordered[k]).file_name == protected by {
        assert(!removed_before(ordered[k], ordered[at], Some(protected)));
    }
}

/// Whether some clip has a name.
pub open spec fn has_name(clips: Seq<ClipView>, name: Seq<u8>) -> bool {
    exists|i: int| 0 <= i < clips.len() && (#[trigger] clips[i]).file_name == name
}

/// A new clip that fits the limit by itself stays when room is made for it: it
/// is last in the order of removal, and not every clip goes.
pub proof fn fitting_clip_stays(clips: Seq<ClipView>, new: ClipView, limit: u64)
    requires
        new.bytes <= limit,
        !has_name(clips, new.file_name),
    ensures
        ({
            let ordered = removal_order(clips.push(new), Some(new.file_name));
            &&& ordered.last() == new
            &&& removals(ordered, limit) < ordered.len()
            &&& ordered.skip(removals(ordered, limit) as int).contains(new)
        }),
{
    broadcast use vstd::seq_lib::group_to_multiset_ensures;

    let all = clips.push(new);
    let name = Some(new.file_name);
    let ordered = removal_order(all, name);
    removal_order_sorts(all, name);
    assert(all.last() == new);
    assert(all.contains(new));
    assert(all.to_multiset().contains(new));
    assert(ordered.to_multiset().contains(new));
    assert(ordered.contains(new));
    let at = choose|at: int| 0 <= at < ordered.len() && ordered[at] == new;
    let last = ordered.last();
    assert(ordered.contains(last));
    assert(ordered.to_multiset().contains(last));
    assert(all.to_multiset().contains(last));
    assert(all.contains(last));
    let from = choose|from: int| 0 <= from < all.len() && all[from] == last;
    if from < clips.len() {
        assert(clips[from] == last);
        assert(last.file_name != new.file_name);
        assert(at < ordered.len() - 1);
        assert(!removed_before(ordered[ordered.len() - 1], ordered[at], name));
    }
    assert(last == new);
    removals_are_needed(ordered, limit);
    let count = removals(ordered, limit) as int;
    if count == ordered.len() {
        let rest = ordered.skip(count - 1);
        assert(rest =~= seq![new]);
        assert(rest.drop_last() =~= Seq::<ClipView>::empty());
        assert(clip_bytes(rest.drop_last()) == 0);
        assert(clip_bytes(rest) == new.bytes);
    }
    let kept = ordered.skip(count);
    assert(kept[kept.len() - 1] == new);
}

/// Accepts a further clip beside all that are kept.
pub fn check_fits(clips: &[OwnedClip], bytes: u64, storage_limit_bytes: u64) -> (result: Result<
    (),
    ReplayStoreError,
>)
    ensures
        ({
            let used = clip_bytes(clip_views(clips@));
            match result {
                Ok(()) => used <= u64::MAX && used + bytes <= storage_limit_bytes,
                Err(error) => if used > u64::MAX {
                    error@ == "replay store size overflows"@
                } else {
                    used + bytes > storage_limit_bytes && error@
                        == "trimmed clip does not fit without removing an existing replay"@
                },
            }
        }),
{
    let used: u64 = match total_bytes(clips) {
        None => {
            return Err(ReplayStoreError::new("replay store size overflows"));
        },
        Some(used) => used,
    };
    let fits = match used.checked_add(bytes) {
        Some(total) => total <= storage_limit_bytes,
        None => false,
    };
    if !fits {
        return Err(
            ReplayStoreError::new("trimmed clip does not fit without removing an existing replay"),
        );
    }
    Ok(())
}

/// What a save comes to, once its clip is written.
pub ghost enum SaveOutcome {
    /// The clip is discarded, for a reason.
    Refused(&'static str),
    /// The clip is committed. Some clips go, and the others stay.
    Committed { removed: Seq<ClipView>, kept: Seq<ClipView> },
    /// The clip is committed beside clips whose sizes cannot be added up, so
    /// that none goes.
    Uncounted,
}

/// What a save does to the clips that there are. Where they are all to stay,
/// a clip that does not fit beside them is refused; otherwise it is committed,
/// and clips go until the rest is within the limit, the new one last.
pub open spec fn after_save(
    clips: Seq<ClipView>,
    new: ClipView,
    limit: u64,
    keep_existing: bool,
) -> SaveOutcome {
    let all = clips.push(new);
    if keep_existing {
        if clip_bytes(clips) > u64::MAX {
            SaveOutcome::Refused("replay store size overflows")
        } else if clip_bytes(clips) + new.bytes > limit {
            SaveOutcome::Refused("trimmed clip does not fit without removing an existing replay")
        } else {
            SaveOutcome::Committed { removed: Seq::empty(), kept: all }
        }
    } else if clip_bytes(all) > u64::MAX {
        SaveOutcome::Uncounted
    } else {
        let ordered = removal_order(all, Some(new.file_name));
        let count = removals(ordered, limit) as int;
        SaveOutcome::Committed { removed: ordered.take(count), kept: ordered.skip(count) }
    }
}

/// What to do with a clip that is written.
#[derive(Debug)]
pub enum SavePlan {
    /// Discard it and report why.
    Refuse(ReplayStoreError),
    /// Commit it, then remove some clips.
    Commit(QuotaPlan),
    /// Commit it, remove none, and report why.
    CommitUncounted(ReplayStoreError),
}

/// The clips of a store after a plan was carried out.
pub open spec fn carried_out(clips: Seq<ClipView>, new: ClipView, plan: SavePlan) -> Multiset<
    ClipView,
> {
    match plan {
        SavePlan::Refuse(_) => clips.to_multiset(),
        SavePlan::Commit(quota) => clips.push(new).to_multiset().sub(
            clip_views(quota.removed@).to_multiset(),
        ),
        SavePlan::CommitUncounted(_) => clips.push(new).to_multiset(),
    }
}

fn copy_clip(clip: &OwnedClip) -> (result: OwnedClip)
    ensures
        result@ == clip@,
{
    OwnedClip {
        file_name: vstd::slice::slice_to_vec(clip.file_name.as_slice()),
        bytes: clip.bytes,
        modified_ns: clip.modified_ns,
    }
}

fn with_clip(clips: &[OwnedClip], new: &OwnedClip) -> (result: Vec<OwnedClip>)
    ensures
        clip_views(result@) == clip_views(clips@).push(new@),
{
    let ghost wanted = clip_views(clips@);
    let mut all: Vec<OwnedClip> = Vec::new();
    let mut index: usize = 0;
    assert(clip_views(all@) =~= wanted.take(0));
    while index < clips.len()
        invariant
            index <= clips@.len(),
            wanted == clip_views(clips@),
            clip_views(all@) == wanted.take(index as int),
        decreases clips@.len() - index,
    {
        let ghost before = all@;
        all.push(copy_clip(&clips[index]));
        assert(clip_views(all@) =~= clip_views(before).push(wanted[index as int]));
        assert(clip_views(all@) =~= wanted.take(index + 1));
        index = index + 1;
    }
    let ghost before = all@;
    all.push(copy_clip(new));
    assert(clip_views(all@) =~= clip_views(before).push(new@));
    assert(wanted.take(index as int) =~= wanted);
    all
}

/// Plans what becomes of a clip that is written, beside the clips that there
/// are. A refusal leaves them as they were. A commit that keeps them removes
/// none. Any other commit leaves the store within its limit, and a clip that
/// fits the limit by itself stays.
pub fn plan_save(clips: &[OwnedClip], new: &OwnedClip, storage_limit_bytes: u64, keep_existing: bool) -> (plan:
    SavePlan)
    ensures
        ({
            let before = clip_views(clips@);
            let outcome = after_save(before, new@, storage_limit_bytes, keep_existing);
            match plan {
                SavePlan::Refuse(error) => {
                    &&& keep_existing
                    &&& outcome matches SaveOutcome::Refused(reason) && error@ == reason@
                    &&& carried_out(before, new@, plan) == before.to_multiset()
                },
                SavePlan::Commit(quota) => {
                    &&& outcome matches SaveOutcome::Committed { removed, kept } && {
                        &&& clip_views(quota.removed@) == removed
                        &&& quota.removed_bytes == clip_bytes(removed)
                        &&& carried_out(before, new@, plan) == kept.to_multiset()
                        &&& clip_bytes(kept) <= storage_limit_bytes
                        &&& keep_existing ==> removed.len() == 0 && kept == before.push(new@)
                        &&& new.bytes <= storage_limit_bytes && !has_name(before, new@.file_name)
                            ==> kept.contains(new@)
                    }
                },
                SavePlan::CommitUncounted(error) => {
                    &&& !keep_existing
                    &&& outcome is Uncounted
                    &&& error@ == "replay store size overflows"@
                    &&& carried_out(before, new@, plan) == before.push(new@).to_multiset()
                },
            }
        }),
{
    let ghost before = clip_views(clips@);
    let ghost all = before.push(new@);
    if keep_existing {
        if let Err(error) = check_fits(clips, new.bytes, storage_limit_bytes) {
            return SavePlan::Refuse(error);
        }
        let removed: Vec<OwnedClip> = Vec::new();
        proof {
            assert(clip_views(removed@) =~= Seq::<ClipView>::empty());
            assert(all.drop_last() =~= before);
            assert(all.last() == new@);
            let none = Seq::<ClipView>::empty();
            none.to_multiset_ensures();
            assert(all.to_multiset().sub(none.to_multiset()) =~= all.to_multiset());
            assert(all[all.len() - 1] == new@);
        }
        return SavePlan::Commit(QuotaPlan { removed, removed_bytes: 0 });
    }
    let every = with_clip(clips, new);
    match enforce_quota(every, storage_limit_bytes, Some(new.file_name.as_slice())) {
        Err(error) => SavePlan::CommitUncounted(error),
        Ok(quota) => {
            proof {
                let name = Some(new@.file_name);
                let ordered = removal_order(all, name);
                let count = removals(ordered, storage_limit_bytes) as int;
                removal_order_sorts(all, name);
                removals_are_needed(ordered, storage_limit_bytes);
                let removed = ordered.take(count);
                let kept = ordered.skip(count);
                assert(removed + kept =~= ordered);
                vstd::seq_lib::lemma_multiset_commutative(removed, kept);
                assert(all.to_multiset().sub(removed.to_multiset()) =~= kept.to_multiset());
                if new.bytes <= storage_limit_bytes && !has_name(before, new@.file_name) {
                    fitting_clip_stays(before, new@, storage_limit_bytes);
                }
            }
            SavePlan::Commit(quota)
        },
    }
}

/// Clips as they are shown, newest first.
pub fn inventory_order(clips: Vec<OwnedClip>) -> (result: Vec<OwnedClip>)
    ensures
        clip_views(result@) == removal_order(clip_views(clips@), None).reverse(),
{
    let ghost wanted = removal_order(clip_views(clips@), None);
    let mut ordered = sort_for_removal(clips, None);
    let ghost sorted = ordered@;
    let mut shown: Vec<OwnedClip> = Vec::new();
    while ordered.len() > 0
        invariant
            ordered@.len() + shown@.len() == sorted.len(),
            ordered@ == sorted.take(ordered@.len() as int),
            forall|i: int|
                0 <= i < shown@.len() ==> #[trigger] shown@[i] == sorted[sorted.len() - 1 - i],
        decreases ordered@.len(),
    {
        let clip = ordered.pop().unwrap();
        assert(clip == sorted[ordered@.len() as int]);
        assert(ordered@ =~= sorted.take(ordered@.len() as int));
        shown.push(clip);
    }
    assert(clip_views(shown@) =~= wanted.reverse());
    shown
}

/// A time of change as it is shown: none lies before the epoch.
pub fn shown_time(modified_ns: i128) -> (result: u128)
    ensures
        result == (if modified_ns >= 0 {
            modified_ns as int
        } else {
            0
        }),
{
    if modified_ns >= 0 {
        modified_ns as u128
    } else {
        0
    }
}

/// A clip after it was saved.
#[derive(Debug, PartialEq, Eq)]
pub struct StoredReplayClip {
    pub path: Vec<u8>,
    pub bytes: u64,
    pub clips_removed_for_quota: u32,
    pub bytes_removed_for_quota: u64,
}

/// Reports a saved clip and what was removed for it.
pub fn stored_clip(path: Vec<u8>, bytes: u64, plan: &QuotaPlan) -> (result: StoredReplayClip)
    ensures
        result.path@ == path@,
        result.bytes == bytes,
        result.clips_removed_for_quota == (if plan.removed@.len() <= u32::MAX {
            plan.removed@.len() as u32
        } else {
            u32::MAX
        }),
        result.bytes_removed_for_quota == plan.removed_bytes,
{
    let count: usize = plan.removed.len();
    StoredReplayClip {
        path,
        bytes,
        clips_removed_for_quota: if count <= u32::MAX as usize {
            count as u32
        } else {
            u32::MAX
        },
        bytes_removed_for_quota: plan.removed_bytes,
    }
}

/// A clip as it is shown. Its file name identifies it in its store; the store
/// itself does not know which game it shows.
#[derive(Debug, PartialEq, Eq)]
pub struct ReplayClipEntry {
    pub file_name: String,
    pub path: Vec<u8>,
    pub bytes: u64,
    pub modified_unix_ns: u128,
    pub game_name: Option<String>,
}

/// Shows a clip of a store's directory.
pub fn clip_entry(directory: &[u8], clip: &OwnedClip) -> (result: Result<
    ReplayClipEntry,
    ReplayStoreError,
>)
    ensures
        match result {
            Ok(entry) => {
                &&& vstd::utf8::valid_utf8(clip@.file_name)
                &&& entry.file_name@ == vstd::utf8::decode_utf8(clip@.file_name)
                &&& entry.path@ == paths::joined(directory@, clip@.file_name)
                &&& entry.bytes == clip.bytes
                &&& entry.modified_unix_ns == (if clip.modified_ns >= 0 {
                    clip.modified_ns as int
                } else {
                    0
                })
                &&& entry.game_name is None
            },
            Err(error) => !vstd::utf8::valid_utf8(clip@.file_name) && error@
                == "replay clip name is invalid"@,
        },
{
    match text::decode(clip.file_name.as_slice()) {
        None => Err(ReplayStoreError::new("replay clip name is invalid")),
        Some(file_name) => Ok(
            ReplayClipEntry {
                file_name,
                path: paths::join(directory, clip.file_name.as_slice()),
                bytes: clip.bytes,
                modified_unix_ns: shown_time(clip.modified_ns),
                game_name: None,
            },
        ),
    }
}

/// The part of a generated name between its prefix and its extension.
pub open spec fn clip_middle(name: Seq<char>) -> Option<Seq<char>> {
    match text::after_prefix(name, CLIP_PREFIX@) {
        None => None,
        Some(rest) => match text::before_suffix(rest, MATROSKA_SUFFIX@) {
            Some(middle) => Some(middle),
            None => text::before_suffix(rest, MP4_SUFFIX@),
        },
    }
}

/// Whether a text is exactly `count` runs of digits with a dash between each
/// two.
pub open spec fn is_digit_runs(text: Seq<char>, count: nat) -> bool
    decreases count,
{
    if count == 0 {
        false
    } else {
        match text::split_at_first(text, '-') {
            None => count == 1 && text::all_digits(text),
            Some((first, rest)) => text::all_digits(first) && is_digit_runs(
                rest,
                (count - 1) as nat,
            ),
        }
    }
}

/// Whether a name is that of a clip of this store: its prefix, three runs of
/// digits and an extension.
pub open spec fn is_clip_name(name: Seq<char>) -> bool {
    match clip_middle(name) {
        None => false,
        Some(middle) => is_digit_runs(middle, 3),
    }
}

fn has_only_digits(chars: &[char]) -> (result: bool)
    ensures
        result == text::all_digits(chars@),
{
    let mut index: usize = 0;
    while index < chars.len()
        invariant
            index <= chars@.len(),
            forall|i: int| 0 <= i < index ==> text::is_digit(#[trigger] chars@[i]),
        decreases chars@.len() - index,
    {
        if chars[index] < '0' || chars[index] > '9' {
            assert(!text::is_digit(chars@[index as int]));
            return false;
        }
        index = index + 1;
    }
    chars.len() > 0
}

fn has_digit_runs(chars: &[char], count: u32) -> (result: bool)
    ensures
        result == is_digit_runs(chars@, count as nat),
    decreases count,
{
    if count == 0 {
        return false;
    }
    match text::split_once(chars, '-') {
        None => count == 1 && has_only_digits(chars),
        Some((first, rest)) => has_only_digits(first.as_slice()) && has_digit_runs(
            rest.as_slice(),
            count - 1,
        ),
    }
}

pub fn is_owned_clip_name(name: &[u8]) -> (result: bool)
    ensures
        result == (vstd::utf8::valid_utf8(name@) && is_clip_name(vstd::utf8::decode_utf8(name@))),
{
    let decoded = match text::decode(name) {
        None => {
            return false;
        },
        Some(decoded) => decoded,
    };
    let chars = text::chars_of(decoded.as_str());
    let rest = match text::strip_prefix(chars.as_slice(), CLIP_PREFIX) {
        None => {
            return false;
        },
        Some(rest) => rest,
    };
    let middle = match text::strip_suffix(rest.as_slice(), MATROSKA_SUFFIX) {
        Some(middle) => middle,
        None => match text::strip_suffix(rest.as_slice(), MP4_SUFFIX) {
            Some(middle) => middle,
            None => {
                return false;
            },
        },
    };
    has_digit_runs(middle.as_slice(), 3)
}

/// Accepts the identifier of a clip.
pub fn check_clip_identifier(file_name: &str) -> (result: Result<(), ReplayStoreError>)
    ensures
        match result {
            Ok(()) => is_clip_name(file_name@),
            Err(error) => !is_clip_name(file_name@) && error@
                == "replay clip identifier is not a Redunar-generated name"@,
        },
{
    proof {
        vstd::utf8::encode_utf8_valid_utf8(file_name@);
        vstd::utf8::encode_utf8_decode_utf8(file_name@);
    }
    if !is_owned_clip_name(file_name.as_bytes()) {
        return Err(
            ReplayStoreError::new("replay clip identifier is not a Redunar-generated name"),
        );
    }
    Ok(())
}

/// Zeros.
pub open spec fn zeros(count: nat) -> Seq<char> {
    Seq::new(count, |i: int| '0')
}

/// A number with zeros in front, up to a width.
pub open spec fn padded(value: nat, width: nat) -> Seq<char> {
    let digits = text::decimal(value);
    if digits.len() >= width {
        digits
    } else {
        zeros((width - digits.len()) as nat) + digits
    }
}

fn padded_text(value: u64, width: usize) -> (result: String)
    ensures
        result@ == padded(value as nat, width as nat),
{
    let digits = text::decimal_chars(value);
    let mut padded = String::new();
    let mut count: usize = digits.len();
    let ghost start = digits@.len();
    assert(padded@ =~= zeros(0));
    while count < width
        invariant
            start <= count,
            count <= width || count == start,
            padded@ == zeros((count - start) as nat),
        decreases width - count,
    {
        padded.push('0');
        count = count + 1;
        assert(padded@ =~= zeros((count - start) as nat));
    }
    let owned = text::string_of(digits.as_slice());
    padded.append(owned.as_str());
    assert(zeros(0) + digits@ =~= digits@);
    padded
}

/// The name of a new clip, from the time and a running number.
pub open spec fn clip_name(seconds: u64, nanoseconds: u32, id: u64, format: ReplayOutputFormat) -> Seq<
    char,
> {
    CLIP_PREFIX@ + text::decimal(seconds as nat) + "-"@ + padded(nanoseconds as nat, 9) + "-"@
        + text::decimal(id as nat) + "."@ + replay_preferences::format_token(format)
}

/// Names a new clip.
pub fn new_clip_name(seconds: u64, nanoseconds: u32, id: u64, format: ReplayOutputFormat) -> (result:
    String)
    ensures
        result@ == clip_name(seconds, nanoseconds, id, format),
{
    let mut name = CLIP_PREFIX.to_owned();
    let whole = text::string_of(text::decimal_chars(seconds).as_slice());
    name.append(whole.as_str());
    name.append("-");
    let fraction = padded_text(nanoseconds as u64, 9);
    name.append(fraction.as_str());
    name.append("-");
    let number = text::string_of(text::decimal_chars(id).as_slice());
    name.append(number.as_str());
    name.append(".");
    name.append(format.extension());
    name
}

/// Names a new temporary file, from the process and a running number.
pub fn new_temporary_name(process_id: u32, id: u64) -> (result: String)
    ensures
        result@ == "."@ + CLIP_PREFIX@ + text::decimal(process_id as nat) + "-"@ + text::decimal(
            id as nat,
        ) + ".tmp"@,
{
    let mut name = ".".to_owned();
    name.append(CLIP_PREFIX);
    let process = text::string_of(text::decimal_chars(process_id as u64).as_slice());
    name.append(process.as_str());
    name.append("-");
    let number = text::string_of(text::decimal_chars(id).as_slice());
    name.append(number.as_str());
    name.append(".tmp");
    name
}

proof fn lemma_digit_run(first: Seq<char>, rest: Seq<char>, count: nat)
    requires
        text::all_digits(first),
        is_digit_runs(rest, count),
    ensures
        is_digit_runs(first + "-"@ + rest, count + 1),
{
    reveal_strlit("-");
    assert forall|i: int| 0 <= i < first.len() implies #[trigger] first[i] != '-' by {
        assert(text::is_digit(first[i]));
    }
    text::lemma_field_splits(first, '-', rest);
    assert(first + "-"@ + rest =~= first + seq!['-'] + rest);
    assert((count + 1 - 1) as nat == count);
}

/// Every name that is given to a clip is recognised as a clip's, and no name
/// of a temporary file is.
pub proof fn generated_names_are_owned(
    seconds: u64,
    nanoseconds: u32,
    id: u64,
    format: ReplayOutputFormat,
    process_id: u32,
)
    ensures
        is_clip_name(clip_name(seconds, nanoseconds, id, format)),
        !is_clip_name(
            "."@ + CLIP_PREFIX@ + text::decimal(process_id as nat) + "-"@ + text::decimal(
                id as nat,
            ) + ".tmp"@,
        ),
{
    reveal_strlit("redunar-replay-");
    reveal_strlit(".mkv");
    reveal_strlit(".mp4");
    reveal_strlit("mkv");
    reveal_strlit("mp4");
    reveal_strlit(".");
    reveal_strlit(".tmp");
    let first = text::decimal(seconds as nat);
    let second = padded(nanoseconds as nat, 9);
    let third = text::decimal(id as nat);
    text::decimal_round_trip(seconds as nat);
    text::decimal_round_trip(nanoseconds as nat);
    text::decimal_round_trip(id as nat);
    assert(text::all_digits(second));
    let name = clip_name(seconds, nanoseconds, id, format);
    let middle = first + "-"@ + (second + "-"@ + third);
    let suffix = "."@ + replay_preferences::format_token(format);
    let rest = middle + suffix;
    assert(name =~= CLIP_PREFIX@ + rest);
    assert(name.take(CLIP_PREFIX@.len() as int) =~= CLIP_PREFIX@);
    assert(name.skip(CLIP_PREFIX@.len() as int) =~= rest);
    match format {
        ReplayOutputFormat::Matroska => {
            assert(suffix =~= MATROSKA_SUFFIX@);
        },
        ReplayOutputFormat::Mp4 => {
            assert(suffix =~= MP4_SUFFIX@);
            assert(rest.last() == '4');
            assert(MATROSKA_SUFFIX@.last() == 'v');
            assert(rest.skip(rest.len() - 4).last() == '4');
        },
    }
    assert(rest.skip(rest.len() - 4) =~= suffix);
    assert(rest.take(rest.len() - 4) =~= middle);
    assert(!third.contains('-')) by {
        if third.contains('-') {
            let at = choose|at: int| 0 <= at < third.len() && third[at] == '-';
            assert(text::is_digit(third[at]));
        }
    }
    text::lemma_first_index(third, '-');
    assert(is_digit_runs(third, 1));
    lemma_digit_run(second, third, 1);
    lemma_digit_run(first, second + "-"@ + third, 2);
    let temporary = "."@ + CLIP_PREFIX@ + text::decimal(process_id as nat) + "-"@ + text::decimal(
        id as nat,
    ) + ".tmp"@;
    assert(temporary[0] == '.');
    assert(temporary.take(CLIP_PREFIX@.len() as int)[0] == '.');
}

/// What stands at a path.
#[derive(Clone, Copy, Debug, PartialEq, Eq, Structural)]
pub enum StorePath {
    Absent,
    Directory,
    File,
    Other,
}

/// Accepts the directory of an existing store.
pub fn check_store_directory(kind: StorePath) -> (result: Result<(), ReplayStoreError>)
    ensures
        match result {
            Ok(()) => kind is Directory,
            Err(error) => kind !is Directory && error@
                == "replay store path is not a regular directory"@,
        },
{
    match kind {
        StorePath::Directory => Ok(()),
        _ => Err(ReplayStoreError::new("replay store path is not a regular directory")),
    }
}

/// Accepts the file that marks a directory as a store: a regular file with
/// exactly the expected contents.
pub fn check_marker(kind: StorePath, length: u64, contents: &[u8]) -> (result: Result<
    (),
    ReplayStoreError,
>)
    ensures
        match result {
            Ok(()) => kind is File && length == STORE_MARKER_CONTENTS.spec_bytes().len()
                && contents@ == STORE_MARKER_CONTENTS.spec_bytes(),
            Err(error) => !(kind is File && length == STORE_MARKER_CONTENTS.spec_bytes().len()
                && contents@ == STORE_MARKER_CONTENTS.spec_bytes()) && error@
                == "replay ownership marker is invalid"@,
        },
{
    let expected = STORE_MARKER_CONTENTS.as_bytes();
    let is_file = match kind {
        StorePath::File => true,
        _ => false,
    };
    if !is_file || length != expected.len() as u64 || !text::same_bytes(contents, expected) {
        return Err(ReplayStoreError::new("replay ownership marker is invalid"));
    }
    Ok(())
}

/// How a directory becomes a store.
#[derive(Clone, Copy, Debug, PartialEq, Eq, Structural)]
pub enum ClaimStep {
    /// The marker is there and has to be checked.
    Validate,
    /// The directory is empty and gets a marker.
    WriteMarker,
}

/// Decides whether a directory may become a store. Only an empty directory
/// is claimed.
pub fn claim_step(marker: StorePath, has_entries: bool) -> (result: Result<
    ClaimStep,
    ReplayStoreError,
>)
    ensures
        result matches Ok(ClaimStep::WriteMarker) <==> may_claim(marker, has_entries),
        match result {
            Ok(ClaimStep::Validate) => marker !is Absent,
            Ok(ClaimStep::WriteMarker) => marker is Absent && !has_entries,
            Err(error) => marker is Absent && has_entries && error@
                == "refusing to claim a non-empty replay directory without Redunar's ownership marker"@,
        },
{
    match marker {
        StorePath::Absent => if has_entries {
            Err(
                ReplayStoreError::new(
                    "refusing to claim a non-empty replay directory without Redunar's ownership marker",
                ),
            )
        } else {
            Ok(ClaimStep::WriteMarker)
        },
        _ => Ok(ClaimStep::Validate),
    }
}

/// Decides whether the entry at a position of the directory is looked at.
pub fn scan_step(index: usize, name: &[u8]) -> (result: Result<bool, ReplayStoreError>)
    ensures
        match result {
            Ok(owned) => index < MAX_DIRECTORY_ENTRIES && owned == (vstd::utf8::valid_utf8(name@)
                && is_clip_name(vstd::utf8::decode_utf8(name@))),
            Err(error) => index >= MAX_DIRECTORY_ENTRIES && error@
                == "replay store contains too many directory entries"@,
        },
{
    if index >= MAX_DIRECTORY_ENTRIES {
        return Err(ReplayStoreError::new("replay store contains too many directory entries"));
    }
    Ok(is_owned_clip_name(name))
}

/// Accepts a clip for deletion.
pub fn check_deletion(kind: StorePath) -> (result: Result<(), ReplayStoreError>)
    ensures
        match result {
            Ok(()) => kind is File,
            Err(error) => kind !is File && error@
                == "replay clip deletion target is not a regular file"@,
        },
{
    match kind {
        StorePath::File => Ok(()),
        _ => Err(ReplayStoreError::new("replay clip deletion target is not a regular file")),
    }
}

/// What an archive needs before a clip moves into it.
#[derive(Clone, Copy, Debug, PartialEq, Eq, Structural)]
pub enum ArchiveStep {
    Ready,
    Secure,
    Create,
}

/// How the archive is prepared for a clip, or why it cannot be.
pub open spec fn archive_plan(source: StorePath, archive: StorePath, archive_mode: u32) -> Result<
    ArchiveStep,
    &'static str,
> {
    if source !is File {
        Err("replay archive source is not a regular file")
    } else {
        match archive {
            StorePath::Directory => Ok(
                if archive_mode & 0o777 == 0o700 {
                    ArchiveStep::Ready
                } else {
                    ArchiveStep::Secure
                },
            ),
            StorePath::Absent => Ok(ArchiveStep::Create),
            _ => Err("replay original archive is not a regular directory"),
        }
    }
}

/// Decides how the archive is prepared for a clip, given what stands at the
/// clip's path and at the archive's, and the archive's mode.
pub fn archive_step(source: StorePath, archive: StorePath, archive_mode: u32) -> (result: Result<
    ArchiveStep,
    ReplayStoreError,
>)
    ensures
        match result {
            Ok(step) => archive_plan(source, archive, archive_mode) == Ok::<
                ArchiveStep,
                &'static str,
            >(step),
            Err(error) => archive_plan(source, archive, archive_mode) matches Err(fault) && error@
                == fault@,
        },
{
    match source {
        StorePath::File => {},
        _ => {
            return Err(ReplayStoreError::new("replay archive source is not a regular file"));
        },
    }
    match archive {
        StorePath::Directory => if archive_mode & 0o777 == 0o700 {
            Ok(ArchiveStep::Ready)
        } else {
            Ok(ArchiveStep::Secure)
        },
        StorePath::Absent => Ok(ArchiveStep::Create),
        _ => Err(ReplayStoreError::new("replay original archive is not a regular directory")),
    }
}

/// Accepts a place in the archive that is free.
pub fn check_archive_destination(kind: StorePath) -> (result: Result<(), ReplayStoreError>)
    ensures
        match result {
            Ok(()) => kind is Absent,
            Err(error) => kind !is Absent && error@
                == "an archived original with that name already exists"@,
        },
{
    match kind {
        StorePath::Absent => Ok(()),
        _ => Err(ReplayStoreError::new("an archived original with that name already exists")),
    }
}

/// Whether the first bytes of a container are Matroska's.
pub open spec fn is_matroska(header: Seq<u8>) -> bool {
    header == seq![0x1au8, 0x45u8, 0xdfu8, 0xa3u8]
}

/// Accepts the first four bytes of a Matroska container.
pub fn check_matroska_header(header: &[u8]) -> (result: Result<(), ReplayStoreError>)
    ensures
        match result {
            Ok(()) => is_matroska(header@),
            Err(error) => !is_matroska(header@) && error@ == "replay container is not Matroska"@,
        },
{
    if header.len() == 4 && header[0] == 0x1a && header[1] == 0x45 && header[2] == 0xdf && header[3]
        == 0xa3 {
        assert(header@ =~= seq![0x1au8, 0x45u8, 0xdfu8, 0xa3u8]);
        Ok(())
    } else {
        proof {
            if is_matroska(header@) {
                assert(header@[0] == 0x1a && header@[1] == 0x45 && header@[2] == 0xdf && header@[3]
                    == 0xa3);
            }
        }
        Err(ReplayStoreError::new("replay container is not Matroska"))
    }
}

/// Whether the first bytes of a container are an MP4's: its first box names
/// the file type.
pub open spec fn is_mp4(header: Seq<u8>) -> bool {
    header.len() == 8 && header.skip(4) == seq![0x66u8, 0x74u8, 0x79u8, 0x70u8]
}

/// Accepts the first eight bytes of an MP4 container.
pub fn check_mp4_header(header: &[u8]) -> (result: Result<(), ReplayStoreError>)
    ensures
        match result {
            Ok(()) => is_mp4(header@),
            Err(error) => !is_mp4(header@) && error@ == "replay container is not MP4"@,
        },
{
    if header.len() == 8 && header[4] == 0x66 && header[5] == 0x74 && header[6] == 0x79 && header[7]
        == 0x70 {
        assert(header@.skip(4) =~= seq![0x66u8, 0x74u8, 0x79u8, 0x70u8]);
        Ok(())
    } else {
        proof {
            if is_mp4(header@) {
                assert(header@.skip(4)[0] == 0x66 && header@.skip(4)[1] == 0x74 && header@.skip(
                    4,
                )[2] == 0x79 && header@.skip(4)[3] == 0x70);
            }
        }
        Err(ReplayStoreError::new("replay container is not MP4"))
    }
}

/// How many bytes of a container were copied, within a limit.
#[derive(Clone, Copy, Debug, PartialEq, Eq, Structural)]
pub struct CopyBudget {
    pub limit: u64,
    pub total: u64,
}

impl CopyBudget {
    /// A budget after a header was copied.
    pub fn new(header_bytes: u64, limit: u64) -> (result: Self)
        ensures
            result == (CopyBudget { limit, total: header_bytes }),
    {
        CopyBudget { limit, total: header_bytes }
    }

    /// Counts further bytes before they are written.
    pub fn accept(&mut self, bytes: u64) -> (result: Result<(), ReplayStoreError>)
        ensures
            final(self).limit == old(self).limit,
            match result {
                Ok(()) => old(self).total + bytes <= old(self).limit && final(self).total == old(
                    self,
                ).total + bytes,
                Err(error) => {
                    &&& *final(self) == *old(self)
                    &&& old(self).total + bytes > old(self).limit
                    &&& error@ == (if old(self).total + bytes > u64::MAX {
                        "replay container size overflows"@
                    } else {
                        "replay container exceeds its configured byte budget"@
                    })
                },
            },
    {
        match self.total.checked_add(bytes) {
            None => Err(ReplayStoreError::new("replay container size overflows")),
            Some(total) => {
                if total > self.limit {
                    return Err(
                        ReplayStoreError::new(
                            "replay container exceeds its configured byte budget",
                        ),
                    );
                }
                self.total = total;
                Ok(())
            },
        }
    }
}

/// The explanation of a container that outgrew its budget while it was
/// written.
pub open spec fn budget_fault() -> Seq<char> {
    "could not write replay container: replay container exceeds its configured byte budget"@
}

/// What a finished container is reported as when it fails.
pub open spec fn container_fault(error: Mp4VideoError) -> Seq<char> {
    match error {
        Mp4VideoError::EmptyRing => "replay ring contains no encoded video"@,
        Mp4VideoError::MissingInitialKeyframe => "replay clip does not start at a keyframe"@,
        Mp4VideoError::UnsupportedCodec => "MP4 Replay currently requires H.264"@,
        Mp4VideoError::InvalidPacket => "replay packet cannot be muxed"@,
        Mp4VideoError::TimestampOverflow => "replay clip timestamp overflows"@,
        Mp4VideoError::ContainerTooLarge => "replay container exceeds MP4 limits"@,
    }
}

/// Which container a clip is written as.
#[derive(Clone, Copy, Debug, PartialEq, Eq, Structural)]
pub enum ClipWriter {
    VideoOnlyMatroska,
    AudioVideoMatroska,
    VideoOnlyMp4,
    AudioVideoMp4,
}

/// The container of a format. A clip without audio gets no audio track.
pub open spec fn writer_for(format: ReplayOutputFormat, has_audio: bool) -> ClipWriter {
    match format {
        ReplayOutputFormat::Matroska => if has_audio {
            ClipWriter::AudioVideoMatroska
        } else {
            ClipWriter::VideoOnlyMatroska
        },
        ReplayOutputFormat::Mp4 => if has_audio {
            ClipWriter::AudioVideoMp4
        } else {
            ClipWriter::VideoOnlyMp4
        },
    }
}

/// Picks the container of a clip.
pub fn clip_writer(format: ReplayOutputFormat, has_audio: bool) -> (result: ClipWriter)
    ensures
        result == writer_for(format, has_audio),
{
    match format {
        ReplayOutputFormat::Matroska => if has_audio {
            ClipWriter::AudioVideoMatroska
        } else {
            ClipWriter::VideoOnlyMatroska
        },
        ReplayOutputFormat::Mp4 => if has_audio {
            ClipWriter::AudioVideoMp4
        } else {
            ClipWriter::VideoOnlyMp4
        },
    }
}

/// How the explanation of a failed container starts.
pub open spec fn failure_start(writer: ClipWriter) -> &'static str {
    match writer {
        ClipWriter::VideoOnlyMatroska => "could not finalize video-only Matroska replay: ",
        ClipWriter::AudioVideoMatroska => "could not finalize audio/video Matroska replay: ",
        ClipWriter::VideoOnlyMp4 => "could not finalize video-only MP4 replay: ",
        ClipWriter::AudioVideoMp4 => "could not finalize audio/video MP4 replay: ",
    }
}

impl ClipWriter {
    /// The failure of a container with its explanation.
    pub fn failure(self, explanation: &str) -> (result: ReplayStoreError)
        ensures
            result@ == failure_start(self)@ + explanation@,
    {
        let start = match self {
            ClipWriter::VideoOnlyMatroska => "could not finalize video-only Matroska replay: ",
            ClipWriter::AudioVideoMatroska => "could not finalize audio/video Matroska replay: ",
            ClipWriter::VideoOnlyMp4 => "could not finalize video-only MP4 replay: ",
            ClipWriter::AudioVideoMp4 => "could not finalize audio/video MP4 replay: ",
        };
        ReplayStoreError::joined(start, explanation)
    }
}

/// A clip within a limit, or how its failure is explained. What was written
/// is held to the limit first, whether or not it is a whole container.
pub open spec fn bounded_clip(
    writer: ClipWriter,
    written: Seq<u8>,
    container: Result<(Seq<u8>, u32), Mp4VideoError>,
    limit: u64,
) -> Result<Seq<u8>, Seq<char>> {
    if written.len() > limit {
        Err(failure_start(writer)@ + budget_fault())
    } else {
        match container {
            Ok((clip, _)) => Ok(clip),
            Err(fault) => Err(failure_start(writer)@ + container_fault(fault)),
        }
    }
}

/// The MP4 of a history within a limit.
pub open spec fn video_outcome(stream: ReplayVideoStream, packets: Seq<PacketView>, limit: u64) -> Result<
    Seq<u8>,
    Seq<char>,
> {
    bounded_clip(
        ClipWriter::VideoOnlyMp4,
        replay_mp4::video_written(stream, packets),
        replay_mp4::video_container(stream, packets),
        limit,
    )
}

/// The MP4 of a history with its audio within a limit. Without audio packets
/// it is the MP4 of the history alone.
pub open spec fn audio_video_outcome(
    stream: ReplayVideoStream,
    packets: Seq<PacketView>,
    audio: ReplayAudioSnapshot,
    limit: u64,
) -> Result<Seq<u8>, Seq<char>> {
    if audio.packets@.len() == 0 {
        video_outcome(stream, packets, limit)
    } else {
        bounded_clip(
            ClipWriter::AudioVideoMp4,
            replay_mp4::audio_video_written(stream, packets, audio),
            replay_mp4::audio_video_container(stream, packets, audio),
            limit,
        )
    }
}

/// Makes the MP4 of a history within a limit. A history that is refused is
/// reported as such, whatever the limit: nothing is written of it.
pub fn video_only_clip(stream: &ReplayVideoStream, ring: &ReplayRing, limit: u64) -> (result: Result<
    Vec<u8>,
    ReplayStoreError,
>)
    requires
        ring.wf(),
    ensures
        match result {
            Ok(clip) => video_outcome(*stream, ring.history(), limit) == Ok::<Seq<u8>, Seq<char>>(
                clip@,
            ),
            Err(error) => video_outcome(*stream, ring.history(), limit) == Err::<
                Seq<u8>,
                Seq<char>,
            >(error@),
        },
        replay_mp4::history_fault(*stream, ring.history()) matches Some(fault) ==> (
        result matches Err(error) && error@ == failure_start(ClipWriter::VideoOnlyMp4)@
            + container_fault(fault)),
{
    let mut clip: Vec<u8> = Vec::new();
    let written = replay_mp4::write_video_only_mp4(&mut clip, stream, ring);
    proof {
        let none = Seq::<u8>::empty();
        let all = replay_mp4::video_written(*stream, ring.history());
        assert(none + all =~= all);
        if let Ok((container, _)) = replay_mp4::video_container(*stream, ring.history()) {
            assert(none + container =~= container);
        }
    }
    if clip.len() as u64 > limit {
        return Err(
            ClipWriter::VideoOnlyMp4.failure(
                "could not write replay container: replay container exceeds its configured byte budget",
            ),
        );
    }
    match written {
        Ok(_) => Ok(clip),
        Err(error) => Err(ClipWriter::VideoOnlyMp4.failure(error.message())),
    }
}

/// Makes the MP4 of a history with its audio, within a limit. Without audio
/// packets it is the MP4 of the history alone. A history or an audio packet
/// that is refused is reported as such, whatever the limit.
pub fn audio_video_clip(
    stream: &ReplayVideoStream,
    ring: &ReplayRing,
    audio: &ReplayAudioSnapshot,
    limit: u64,
) -> (result: Result<Vec<u8>, ReplayStoreError>)
    requires
        ring.wf(),
    ensures
        match result {
            Ok(clip) => audio_video_outcome(*stream, ring.history(), *audio, limit) == Ok::<
                Seq<u8>,
                Seq<char>,
            >(clip@),
            Err(error) => audio_video_outcome(*stream, ring.history(), *audio, limit) == Err::<
                Seq<u8>,
                Seq<char>,
            >(error@),
        },
        audio.packets@.len() == 0 ==> (replay_mp4::history_fault(
            *stream,
            ring.history(),
        ) matches Some(fault) ==> (result matches Err(error) && error@ == failure_start(
            ClipWriter::VideoOnlyMp4,
        )@ + container_fault(fault))),
        audio.packets@.len() > 0 ==> (replay_mp4::audio_history_fault(
            *stream,
            ring.history(),
            *audio,
        ) matches Some(fault) ==> (result matches Err(error) && error@ == failure_start(
            ClipWriter::AudioVideoMp4,
        )@ + container_fault(fault))),
{
    if audio.packets.len() == 0 {
        return video_only_clip(stream, ring, limit);
    }
    let mut clip: Vec<u8> = Vec::new();
    let written = replay_mp4::write_audio_video_mp4(&mut clip, stream, ring, audio);
    proof {
        let none = Seq::<u8>::empty();
        let all = replay_mp4::audio_video_written(*stream, ring.history(), *audio);
        assert(none + all =~= all);
        if let Ok((container, _)) = replay_mp4::audio_video_container(
            *stream,
            ring.history(),
            *audio,
        ) {
            assert(none + container =~= container);
        }
    }
    if clip.len() as u64 > limit {
        return Err(
            ClipWriter::AudioVideoMp4.failure(
                "could not write replay container: replay container exceeds its configured byte budget",
            ),
        );
    }
    match written {
        Ok(_) => Ok(clip),
        Err(error) => Err(ClipWriter::AudioVideoMp4.failure(error.message())),
    }
}

proof fn lemma_digit_runs_are_plain(text: Seq<char>, count: nat)
    requires
        is_digit_runs(text, count),
    ensures
        forall|i: int| 0 <= i < text.len() ==> text::is_digit(#[trigger] text[i]) || text[i] == '-',
    decreases count,
{
    let position = text::first_index(text, '-');
    text::lemma_first_index(text, '-');
    if position < text.len() {
        let rest = text.skip(position + 1);
        lemma_digit_runs_are_plain(rest, (count - 1) as nat);
        assert forall|i: int| 0 <= i < text.len() implies text::is_digit(#[trigger] text[i])
            || text[i] == '-' by {
            if i < position {
                assert(text::is_digit(text.take(position)[i]));
            } else if i > position {
                assert(text[i] == rest[i - position - 1]);
            }
        }
    }
}

/// A clip's name is that of an entry of the store's own directory: it holds no
/// path separator, and it is not hidden.
pub proof fn clip_names_stay_in_the_store(name: Seq<char>)
    requires
        is_clip_name(name),
    ensures
        !name.contains('/'),
        name[0] != '.',
{
    reveal_strlit("redunar-replay-");
    reveal_strlit(".mkv");
    reveal_strlit(".mp4");
    let start = CLIP_PREFIX@.len() as int;
    let rest = name.skip(start);
    let middle = clip_middle(name)->0;
    lemma_digit_runs_are_plain(middle, 3);
    assert(name.take(start)[0] == name[0]);
    assert(middle =~= rest.take(middle.len() as int));
    let end = rest.skip(middle.len() as int);
    assert(end =~= MATROSKA_SUFFIX@ || end =~= MP4_SUFFIX@);
    assert forall|i: int| 0 <= i < name.len() implies #[trigger] name[i] != '/' by {
        if i < start {
            assert(name[i] == name.take(start)[i]);
            assert(name[i] == CLIP_PREFIX@[i]);
        } else if i < start + middle.len() {
            assert(name[i] == middle[i - start]);
            assert(text::is_digit(middle[i - start]) || middle[i - start] == '-');
        } else {
            assert(name[i] == end[i - start - middle.len()]);
        }
    }
}

/// A clip may be written where 512 mebibytes are still free afterwards.
pub proof fn half_a_gibibyte_stays_free(available: u64, clip: u64)
    ensures
        leaves_reserve(available, clip) <==> available - clip >= 512 * 1_024 * 1_024,
        MINIMUM_FILESYSTEM_RESERVE_BYTES == 512 * 1_024 * 1_024,
{
}

/// Where clips have to go for a new one, older ones go before newer ones: none
/// that stays is older than one that goes, but for the new clip itself.
pub proof fn oldest_clips_go_first(
    clips: Seq<ClipView>,
    new: ClipView,
    limit: u64,
    gone: ClipView,
    left: ClipView,
)
    requires
        after_save(clips, new, limit, false) matches SaveOutcome::Committed { removed, kept }
            && removed.contains(gone) && kept.contains(left),
        gone.file_name != new.file_name,
        left.file_name != new.file_name,
    ensures
        gone.modified_ns <= left.modified_ns,
        gone.modified_ns == left.modified_ns ==> !path_map::bytes_before(
            left.file_name,
            gone.file_name,
        ),
{
    let all = clips.push(new);
    let ordered = removal_order(all, Some(new.file_name));
    let count = removals(ordered, limit) as int;
    removal_order_sorts(all, Some(new.file_name));
    removals_are_needed(ordered, limit);
    let i = choose|i: int| 0 <= i < ordered.take(count).len() && ordered.take(count)[i] == gone;
    let j = choose|j: int| 0 <= j < ordered.skip(count).len() && ordered.skip(count)[j] == left;
    assert(ordered[i] == gone);
    assert(ordered[count + j] == left);
    assert(!removed_before(ordered[count + j], ordered[i], Some(new.file_name)));
}

/// The inventory shows newer clips before older ones.
pub proof fn newest_clips_are_shown_first(clips: Seq<ClipView>, i: int, j: int)
    requires
        0 <= i < j < clips.len(),
    ensures
        ({
            let shown = removal_order(clips, None).reverse();
            shown[i].modified_ns >= shown[j].modified_ns
        }),
{
    let ordered = removal_order(clips, None);
    removal_order_sorts(clips, None);
    let first = ordered.len() - 1 - i;
    let second = ordered.len() - 1 - j;
    assert(!removed_before(ordered[first], ordered[second], None));
}

/// A clip is named after the second and the nanosecond at which it was saved
/// and a running number, and ends as its container does.
pub proof fn clips_are_named_after_their_time(
    seconds: u64,
    nanoseconds: u32,
    id: u64,
    format: ReplayOutputFormat,
)
    requires
        nanoseconds < 1_000_000_000,
    ensures
        ({
            let fraction = padded(nanoseconds as nat, 9);
            &&& fraction.len() == 9
            &&& text::parsed_decimal(fraction, 999_999_999) == Some(nanoseconds as nat)
            &&& clip_name(seconds, nanoseconds, id, format) == "redunar-replay-"@ + text::decimal(
                seconds as nat,
            ) + "-"@ + fraction + "-"@ + text::decimal(id as nat) + (match format {
                ReplayOutputFormat::Matroska => ".mkv"@,
                ReplayOutputFormat::Mp4 => ".mp4"@,
            })
        }),
{
    reveal_strlit(".");
    reveal_strlit("mkv");
    reveal_strlit("mp4");
    reveal_strlit(".mkv");
    reveal_strlit(".mp4");
    let digits = text::decimal(nanoseconds as nat);
    lemma_short_number(nanoseconds as nat, 9);
    text::decimal_round_trip(nanoseconds as nat);
    let fraction = padded(nanoseconds as nat, 9);
    let front = zeros((9 - digits.len()) as nat);
    assert(fraction =~= front + digits);
    lemma_leading_zeros((9 - digits.len()) as nat, digits);
    assert forall|i: int| 0 <= i < fraction.len() implies text::is_digit(#[trigger] fraction[i]) by {
        if i >= front.len() {
            assert(text::is_digit(digits[i - front.len()]));
        }
    }
    assert("."@ + "mkv"@ =~= ".mkv"@);
    assert("."@ + "mp4"@ =~= ".mp4"@);
    assert(clip_name(seconds, nanoseconds, id, format) =~= "redunar-replay-"@ + text::decimal(
        seconds as nat,
    ) + "-"@ + fraction + "-"@ + text::decimal(id as nat) + ("."@
        + replay_preferences::format_token(format)));
}

proof fn lemma_short_number(value: nat, width: nat)
    requires
        0 < width <= 9,
        value < 1_000_000_000,
        width == 8 ==> value < 100_000_000,
        width == 7 ==> value < 10_000_000,
        width == 6 ==> value < 1_000_000,
        width == 5 ==> value < 100_000,
        width == 4 ==> value < 10_000,
        width == 3 ==> value < 1_000,
        width == 2 ==> value < 100,
        width == 1 ==> value < 10,
    ensures
        0 < text::decimal(value).len() <= width,
    decreases width,
{
    if value >= 10 {
        lemma_short_number(value / 10, (width - 1) as nat);
    }
}

proof fn lemma_leading_zeros(count: nat, digits: Seq<char>)
    requires
        digits.len() > 0,
    ensures
        text::digits_value(zeros(count) + digits) == text::digits_value(digits),
    decreases digits.len(),
{
    let all = zeros(count) + digits;
    assert(all.drop_last() =~= zeros(count) + digits.drop_last());
    assert(all.last() == digits.last());
    if digits.len() > 1 {
        lemma_leading_zeros(count, digits.drop_last());
    } else {
        assert(all.drop_last() =~= zeros(count));
        lemma_zeros_are_nothing(count);
        assert(digits.drop_last() =~= Seq::<char>::empty());
        assert(text::digits_value(digits.drop_last()) == 0);
    }
}

proof fn lemma_zeros_are_nothing(count: nat)
    ensures
        text::digits_value(zeros(count)) == 0,
    decreases count,
{
    if count > 0 {
        lemma_zeros_are_nothing((count - 1) as nat);
        assert(zeros(count).drop_last() =~= zeros((count - 1) as nat));
    }
}

/// The store is marked, up to 4096 entries of it are looked at, and 32 names are
/// tried for a file.
pub proof fn the_store_is_marked()
    ensures
        STORE_MARKER@ == ".redunar-replay-store-v1"@,
        STORE_MARKER_CONTENTS@ == "redunar-replay-store-v1\n"@,
        MAX_DIRECTORY_ENTRIES == 4 * 1_024,
        NAME_ATTEMPTS == 32,
{
}

/// The archive of originals is for the user alone: a directory that others may
/// enter or read is secured first.
pub proof fn archives_are_private(mode: u32)
    ensures
        archive_plan(StorePath::File, StorePath::Directory, mode) == Ok::<
            ArchiveStep,
            &'static str,
        >(
            if mode % 512 == 7 * 64 {
                ArchiveStep::Ready
            } else {
                ArchiveStep::Secure
            },
        ),
        archive_plan(StorePath::File, StorePath::Absent, mode) == Ok::<ArchiveStep, &'static str>(
            ArchiveStep::Create,
        ),
        archive_plan(StorePath::File, StorePath::File, mode) is Err,
        archive_plan(StorePath::Directory, StorePath::Directory, mode) is Err,
{
    assert(mode & 0o777 == mode % 512) by (bit_vector);
}

/// A clip is written in the container that the user chose, with sound where
/// there is some.
pub proof fn clips_are_written_as_chosen(has_audio: bool)
    ensures
        writer_for(ReplayOutputFormat::Mp4, has_audio) == if has_audio {
            ClipWriter::AudioVideoMp4
        } else {
            ClipWriter::VideoOnlyMp4
        },
        writer_for(ReplayOutputFormat::Matroska, has_audio) == if has_audio {
            ClipWriter::AudioVideoMatroska
        } else {
            ClipWriter::VideoOnlyMatroska
        },
{
}

/// A clip is saved where it fits the limit, whole and as it was written, and no
/// clip is saved that does not.
pub proof fn saved_clips_fit_the_limit(
    stream: ReplayVideoStream,
    packets: Seq<PacketView>,
    audio: ReplayAudioSnapshot,
    limit: u64,
)
    ensures
        video_outcome(stream, packets, limit) matches Ok(clip) ==> clip.len() <= limit
            && replay_mp4::video_container(stream, packets) is Ok && clip
            == replay_mp4::video_container(stream, packets)->Ok_0.0,
        replay_mp4::video_container(stream, packets) matches Ok((clip, _)) ==> (clip.len() <= limit
            <==> video_outcome(stream, packets, limit) is Ok),
        audio_video_outcome(stream, packets, audio, limit) matches Ok(clip) ==> clip.len() <= limit,
        audio.packets@.len() == 0 ==> audio_video_outcome(stream, packets, audio, limit)
            == video_outcome(stream, packets, limit),
{
    replay_mp4::containers_are_written_whole(stream, packets, audio);
}

/// A file is taken for Matroska by its first four bytes, and for MP4 by the kind
/// of its first box.
pub proof fn containers_are_told_by_their_start(size: Seq<u8>, kind: Seq<u8>)
    requires
        size.len() == 4,
        kind.len() == 4,
    ensures
        is_mp4(size + kind) <==> kind == seq!['f' as u8, 't' as u8, 'y' as u8, 'p' as u8],
        is_matroska(kind) <==> kind[0] == 0x1a && kind[1] == 0x45 && kind[2] == 0xdf && kind[3]
            == 0xa3,
{
    assert((size + kind).skip(4) =~= kind);
    if kind[0] == 0x1a && kind[1] == 0x45 && kind[2] == 0xdf && kind[3] == 0xa3 {
        assert(kind =~= seq![0x1au8, 0x45u8, 0xdfu8, 0xa3u8]);
    }
}

/// Saving keeps every clip where the user asks for that: a clip that does not
/// fit beside the others is refused, and one that fits removes none.
pub proof fn trimmed_clips_remove_none(clips: Seq<ClipView>, new: ClipView, limit: u64)
    requires
        clip_bytes(clips) <= u64::MAX,
    ensures
        clip_bytes(clips) + new.bytes <= limit ==> after_save(clips, new, limit, true)
            == (SaveOutcome::Committed { removed: Seq::empty(), kept: clips.push(new) }),
        clip_bytes(clips) + new.bytes > limit ==> after_save(clips, new, limit, true) is Refused,
{
}

/// What goes over the limit would have to go for the rest to fit.
pub proof fn the_excess_would_have_to_go(used: nat, limit: u64)
    ensures
        used - bytes_over(used, limit) <= limit,
        bytes_over(used, limit) > 0 ==> used - bytes_over(used, limit) == limit,
        used <= limit ==> bytes_over(used, limit) == 0,
{
}

/// A directory with anything in it is never claimed.
pub proof fn only_empty_directories_are_claimed(marker: StorePath)
    ensures
        !may_claim(marker, true),
        may_claim(StorePath::Absent, false),
        marker !is Absent ==> !may_claim(marker, false),
{
}

/// A store lies under an absolute path, and has room for a clip of the largest
/// size that it may have.
pub proof fn stores_have_room_for_a_clip(store: StoreView)
    ensures
        configuration_fault(store) is None <==> store.directory.len() > 0 && store.directory[0]
            == '/' as u8 && 0 < store.maximum_clip_bytes <= store.storage_limit_bytes,
{
}

} // verus!
