//! Contest storage: which block device holds the contest image, chosen from
//! the `sudoos.contest.dev=` boot argument or by scanning for an ext4 disk,
//! and the record of the mounted choice.
use vstd::prelude::*;
use vstd::string::StrSliceExecFns;
use vstd::string::StringExecFns;

use crate::block::{read_at, read_at_count, BlockDevice, BlockError};
use crate::bootargs::{equals_at, equals_ignore_ascii_case, equals_ignore_case_at, has_prefix_at, next_word,
    starts_with_at, words, words_from};
use crate::partition::{is_ext4_image, le16, read_le16, EXT4_SUPER_MAGIC, EXT4_SUPER_MAGIC_OFFSET, EXT4_SUPER_OFFSET};

verus! {

#[derive(Clone, Copy, Debug, PartialEq, Eq, Structural)]
pub enum StorageError {
    /// The device holds no ext4 superblock magic.
    NotExt4,
    /// The block device failed.
    Block(BlockError),
    /// Metadata allocation failed.
    OutOfMemory,
}

/// The contest storage choice taken from the boot arguments.
pub struct ContestStorageConfig {
    /// The device named by `sudoos.contest.dev=<name>`; `None` scans.
    pub device_name: Option<String>,
    /// `sudoos.contest.required=1`: missing contest storage is an error.
    pub required: bool,
}

impl ContestStorageConfig {
    pub open spec fn name_view(&self) -> Option<Seq<char>> {
        match self.device_name {
            Some(name) => Some(name@),
            None => None,
        }
    }

    /// No device named, storage not required.
    pub fn new() -> (config: ContestStorageConfig)
        ensures
            config.name_view() is None,
            !config.required,
    {
        ContestStorageConfig { device_name: None, required: false }
    }
}

/// The (device name, required) pair after the words `ws`: a later
/// `sudoos.contest.dev=` with a value replaces the name (an empty value is
/// ignored); a later `sudoos.contest.required=` decides the flag, which is
/// set by `1` or by `true` in any ASCII case.
pub open spec fn config_fold(s: Seq<char>, ws: Seq<(int, int)>) -> (Option<Seq<char>>, bool)
    decreases ws.len(),
{
    if ws.len() == 0 {
        (None, false)
    } else {
        let (name, required) = config_fold(s, ws.drop_last());
        let (start, end) = ws.last();
        let dev = "sudoos.contest.dev="@;
        let req = "sudoos.contest.required="@;
        if has_prefix_at(s, start, end, dev) {
            if end - start > dev.len() {
                (Some(s.subrange(start + dev.len(), end)), required)
            } else {
                (name, required)
            }
        } else if has_prefix_at(s, start, end, req) {
            let value = s.subrange(start + req.len(), end);
            (name, value == "1"@ || equals_ignore_ascii_case(value, "true"@))
        } else {
            (name, required)
        }
    }
}

/// Parses `sudoos.contest.dev=<name>` and `sudoos.contest.required=<flag>`;
/// other words are ignored.
pub fn config_from_bootargs(args: Option<&str>) -> (config: ContestStorageConfig)
    ensures
        args is None ==> config.name_view() is None && !config.required,
        args matches Some(text) ==> (config.name_view(), config.required) == config_fold(text@, words(text@)),
{
    let text = match args {
        Some(text) => text,
        None => {
            return ContestStorageConfig::new();
        },
    };
    let length = text.unicode_len();
    let ghost s = text@;
    let ghost mut done: Seq<(int, int)> = Seq::empty();
    let mut device_name: Option<String> = None;
    let mut required = false;
    let mut position: usize = 0;
    let mut finished = false;
    while position < length && !finished
        invariant
            position <= length,
            length == s.len(),
            s == text@,
            args == Some(text),
            words(s) == done + words_from(s, position as int),
            finished ==> words_from(s, position as int) == Seq::<(int, int)>::empty(),
            config_fold(s, done) == (match device_name {
                Some(name) => Some(name@),
                None => None::<Seq<char>>,
            }, required),
        decreases length - position, if finished { 0int } else { 1int },
    {
        match next_word(text, length, position) {
            None => {
                finished = true;
            },
            Some((start, end)) => {
                let ghost word = (start as int, end as int);
                proof {
                    assert(done + words_from(s, position as int) =~= done.push(word) + words_from(s, end as int));
                    assert(done.push(word).drop_last() =~= done);
                }
                if starts_with_at(text, start, end, "sudoos.contest.dev=") {
                    let skip = "sudoos.contest.dev=".unicode_len();
                    if end - start > skip {
                        let value = text.substring_char(start + skip, end);
                        device_name = Some(String::from_str(value));
                    }
                } else if starts_with_at(text, start, end, "sudoos.contest.required=") {
                    let skip = "sudoos.contest.required=".unicode_len();
                    required = equals_at(text, start + skip, end, "1") || equals_ignore_case_at(text, start + skip, end, "true");
                }
                proof {
                    done = done.push(word);
                }
                position = end;
            },
        }
    }
    proof {
        if !finished {
            assert(words_from(s, position as int) =~= Seq::<(int, int)>::empty());
        }
        assert(done + Seq::<(int, int)>::empty() =~= done);
    }
    ContestStorageConfig { device_name, required }
}

/// Whether the device holds the ext4 superblock magic (at byte 1080).
pub fn device_is_ext4<D: BlockDevice>(device: &mut D) -> (result: Result<bool, StorageError>)
    requires
        old(device).spec_wf(),
    ensures
        final(device).spec_wf(),
        final(device).spec_block_size() == old(device).spec_block_size(),
        final(device).spec_block_count() == old(device).spec_block_count(),
        final(device).spec_read_only() == old(device).spec_read_only(),
        final(device).spec_tracks_contents() == old(device).spec_tracks_contents(),
        final(device).spec_contents() == old(device).spec_contents(),
        result matches Err(error) ==> error is Block,
        old(device).spec_tracks_contents() ==> result == Ok::<bool, StorageError>(is_ext4_image(old(device).spec_contents())),
{
    proof {
        device.lemma_contents_len();
    }
    let mut magic: [u8; 2] = [0, 0];
    let read = match read_at(device, EXT4_SUPER_OFFSET + EXT4_SUPER_MAGIC_OFFSET, &mut magic) {
        Ok(count) => count,
        Err(error) => {
            return Err(StorageError::Block(error));
        },
    };
    if read != 2 {
        return Ok(false);
    }
    Ok(read_le16(&magic, 0) == EXT4_SUPER_MAGIC)
}

/// The contest storage device that was chosen, with its registry name.
pub struct SelectedStorage<D: BlockDevice> {
    name: String,
    device: D,
}

impl<D: BlockDevice> SelectedStorage<D> {
    pub closed spec fn spec_name(&self) -> Seq<char> {
        self.name@
    }

    pub closed spec fn spec_device(&self) -> D {
        self.device
    }

    pub fn new(name: String, device: D) -> (selected: Self)
        ensures
            selected.spec_name() == name@,
            selected.spec_device() == device,
    {
        SelectedStorage { name, device }
    }

    /// The registry name (`vda`, `mmcblk1`, `ram0`; no `/dev/`).
    pub fn name(&self) -> (name: &str)
        ensures
            name@ == self.spec_name(),
    {
        self.name.as_str()
    }

    pub fn device(&self) -> (device: &D)
        ensures
            *device == self.spec_device(),
    {
        &self.device
    }
}

/// Index of the first candidate named `name`.
pub open spec fn first_named<D>(candidates: Seq<(String, D)>, name: Seq<char>, index: int) -> bool {
    &&& 0 <= index < candidates.len()
    &&& candidates[index].0@ == name
    &&& forall|k: int| 0 <= k < index ==> (#[trigger] candidates[k]).0@ != name
}

pub open spec fn candidate_is_ext4<D: BlockDevice>(candidate: (String, D)) -> bool {
    is_ext4_image(candidate.1.spec_contents())
}

pub open spec fn candidates_wf<D: BlockDevice>(candidates: Seq<(String, D)>) -> bool {
    forall|k: int| 0 <= k < candidates.len() ==> (#[trigger] candidates[k]).1.spec_wf()
}

pub open spec fn candidates_tracked<D: BlockDevice>(candidates: Seq<(String, D)>) -> bool {
    forall|k: int| 0 <= k < candidates.len() ==> (#[trigger] candidates[k]).1.spec_tracks_contents()
}

pub open spec fn chose<D: BlockDevice>(result: Result<Option<SelectedStorage<D>>, StorageError>, name: Seq<char>,
    contents: Seq<u8>) -> bool {
    match result {
        Ok(Some(selected)) => selected.spec_name() == name && selected.spec_device().spec_contents() == contents,
        _ => false,
    }
}

pub open spec fn chose_nothing<D: BlockDevice>(result: Result<Option<SelectedStorage<D>>, StorageError>) -> bool {
    match result {
        Ok(None) => true,
        _ => false,
    }
}

/// The choice among `candidates`, in their order: a named device must exist
/// (else no choice) and hold ext4 (else `NotExt4`); without a name the
/// first ext4 device is chosen, if any.
pub fn select_from_candidates<D: BlockDevice>(config: &ContestStorageConfig, candidates: Vec<(String, D)>)
    -> (result: Result<Option<SelectedStorage<D>>, StorageError>)
    requires
        candidates_wf(candidates@),
    ensures
        result matches Err(error) ==> error is NotExt4 || error is Block,
        candidates_tracked(candidates@) ==> match config.name_view() {
            Some(name) => {
                &&& (forall|k: int| 0 <= k < candidates@.len() ==> (#[trigger] candidates@[k]).0@ != name)
                    ==> chose_nothing(result)
                &&& forall|index: int| #[trigger] first_named(candidates@, name, index) ==> if candidate_is_ext4(candidates@[index]) {
                    chose(result, name, candidates@[index].1.spec_contents())
                } else {
                    result == Err::<Option<SelectedStorage<D>>, StorageError>(StorageError::NotExt4)
                }
            },
            None => {
                &&& (forall|k: int| 0 <= k < candidates@.len() ==> !candidate_is_ext4(#[trigger] candidates@[k]))
                    ==> chose_nothing(result)
                &&& forall|index: int| 0 <= index < candidates@.len() && candidate_is_ext4(#[trigger] candidates@[index])
                    && (forall|k: int| 0 <= k < index ==> !candidate_is_ext4(#[trigger] candidates@[k]))
                    ==> chose(result, candidates@[index].0@, candidates@[index].1.spec_contents())
            },
        },
{
    let mut pool = candidates;
    let ghost entry_view = pool@;
    let mut index: usize = 0;
    while index < pool.len()
        invariant
            index <= pool@.len(),
            entry_view == candidates@,
            pool@.len() == entry_view.len(),
            candidates_wf(pool@),
            candidates_wf(entry_view),
            forall|k: int| 0 <= k < entry_view.len() ==> (#[trigger] pool@[k]).0 == entry_view[k].0
                && pool@[k].1.spec_contents() == entry_view[k].1.spec_contents()
                && pool@[k].1.spec_tracks_contents() == entry_view[k].1.spec_tracks_contents(),
            match config.name_view() {
                Some(name) => forall|k: int| 0 <= k < index ==> (#[trigger] entry_view[k]).0@ != name,
                None => candidates_tracked(entry_view) ==> forall|k: int| 0 <= k < index ==> !candidate_is_ext4(#[trigger] entry_view[k]),
            },
        decreases pool@.len() - index,
    {
        let wanted = match &config.device_name {
            Some(name) => pool[index].0 == *name,
            None => true,
        };
        if wanted {
            let ghost entry = entry_view[index as int];
            proof {
                assert(pool@[index as int].1.spec_tracks_contents() == entry.1.spec_tracks_contents());
                assert(pool@[index as int].1.spec_contents() == entry.1.spec_contents());
                assert(pool@[index as int].1.spec_wf());
                if candidates_tracked(entry_view) {
                    assert(entry.1.spec_tracks_contents());
                }
            }
            let is_ext4 = device_is_ext4(&mut pool[index].1)?;
            if is_ext4 {
                let (name, device) = pool.remove(index);
                proof {
                    if candidates_tracked(entry_view) {
                        assert(candidate_is_ext4(entry));
                        match config.name_view() {
                            Some(wanted) => {
                                assert forall|i: int| #[trigger] first_named(entry_view, wanted, i) implies i == index by {
                                    if i < index {
                                        assert(entry_view[i].0@ != wanted);
                                    } else if i > index {
                                        assert(entry_view[index as int].0@ != wanted);
                                    }
                                }
                            },
                            None => {
                                assert forall|i: int| 0 <= i < entry_view.len() && candidate_is_ext4(#[trigger] entry_view[i])
                                    && (forall|k: int| 0 <= k < i ==> !candidate_is_ext4(#[trigger] entry_view[k])) implies i == index by {
                                    if i > index {
                                        assert(!candidate_is_ext4(entry_view[index as int]));
                                    }
                                }
                            },
                        }
                    }
                }
                return Ok(Some(SelectedStorage { name, device }));
            }
            if config.device_name.is_some() {
                return Err(StorageError::NotExt4);
            }
        }
        index = index + 1;
    }
    Ok(None)
}

/// The mounted contest storage, if any.
pub struct ContestStorage<D: BlockDevice> {
    selected: Option<SelectedStorage<D>>,
}

impl<D: BlockDevice> ContestStorage<D> {
    pub closed spec fn spec_selected(&self) -> Option<SelectedStorage<D>> {
        self.selected
    }

    pub fn new() -> (state: Self)
        ensures
            state.spec_selected() is None,
    {
        ContestStorage { selected: None }
    }
}

/// Records `selected` as mounted at `/mnt/sdcard`: only a device with the
/// ext4 magic that the ext4 driver could open (`ext4_opens`) is mounted.
pub fn mount_selected<D: BlockDevice>(state: &mut ContestStorage<D>, selected: SelectedStorage<D>, ext4_opens: bool)
    -> (result: Result<(), StorageError>)
    requires
        selected.spec_device().spec_wf(),
    ensures
        result is Ok ==> final(state).spec_selected() is Some
            && final(state).spec_selected().unwrap().spec_name() == selected.spec_name()
            && final(state).spec_selected().unwrap().spec_device().spec_contents() == selected.spec_device().spec_contents(),
        result is Err ==> *final(state) == *old(state),
        result matches Err(error) ==> error is NotExt4 || error is Block,
        selected.spec_device().spec_tracks_contents() ==> (result is Ok <==> (is_ext4_image(selected.spec_device().spec_contents())
            && ext4_opens)),
{
    let mut selected = selected;
    if !device_is_ext4(&mut selected.device)? {
        return Err(StorageError::NotExt4);
    }
    if !ext4_opens {
        return Err(StorageError::NotExt4);
    }
    state.selected = Some(selected);
    Ok(())
}

pub fn contest_storage_mounted<D: BlockDevice>(state: &ContestStorage<D>) -> (mounted: bool)
    ensures
        mounted == state.spec_selected() is Some,
{
    state.selected.is_some()
}

pub fn contest_storage_device<D: BlockDevice>(state: &ContestStorage<D>) -> (device: Option<&D>)
    ensures
        device is None <==> state.spec_selected() is None,
        device matches Some(d) ==> *d == state.spec_selected().unwrap().spec_device(),
{
    match &state.selected {
        Some(selected) => Some(selected.device()),
        None => None,
    }
}

pub fn contest_storage_name<D: BlockDevice>(state: &ContestStorage<D>) -> (name: Option<String>)
    ensures
        name is None <==> state.spec_selected() is None,
        name matches Some(n) ==> n@ == state.spec_selected().unwrap().spec_name(),
{
    match &state.selected {
        Some(selected) => Some(selected.name.clone()),
        None => None,
    }
}

/// `/dev/<name>` of the mounted storage, the source path for mounting it.
pub fn contest_source_path<D: BlockDevice>(state: &ContestStorage<D>) -> (path: Option<String>)
    ensures
        path is None <==> state.spec_selected() is None,
        path matches Some(p) ==> p@ == "/dev/"@ + state.spec_selected().unwrap().spec_name(),
{
    match contest_storage_name(state) {
        Some(name) => {
            let mut path = String::from_str("/dev/");
            path.append(name.as_str());
            Some(path)
        },
        None => None,
    }
}

} // verus!
