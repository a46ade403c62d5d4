//! The play list: an ordered list of tracks without repeated paths, a cursor
//! on the current track and the loop mode.
use vstd::prelude::*;

verus! {

/// What happens when the current track ends.
#[derive(Debug, Clone, Copy, PartialEq, Eq, Structural)]
pub enum LoopMode {
    /// Stop after the current track.
    Off,
    /// Repeat the current track.
    Single,
    /// Go on with the next track, and from the last one back to the first.
    List,
}

/// One track of the list: the file and its duration (0 when unknown).
#[derive(Debug, Clone)]
pub struct PlaylistEntry {
    pub path: String,
    pub duration_ms: u64,
}

impl PlaylistEntry {
    /// A copy of this entry.
    pub fn duplicate(&self) -> (copy: PlaylistEntry)
        ensures
            copy == *self,
    {
        PlaylistEntry { path: self.path.clone(), duration_ms: self.duration_ms }
    }
}

/// A snapshot of the list as handed to the user interface.
#[derive(Debug, Clone)]
pub struct PlaylistState {
    pub entries: Vec<PlaylistEntry>,
    pub current_index: Option<usize>,
    pub loop_mode: LoopMode,
}

/// The list itself.
pub struct Playlist {
    pub entries: Vec<PlaylistEntry>,
    pub current_index: Option<usize>,
    pub loop_mode: LoopMode,
}

/// Entry `i` exists and holds `path`.
pub open spec fn path_at(entries: Seq<PlaylistEntry>, i: int, path: Seq<char>) -> bool {
    0 <= i < entries.len() && entries[i].path@ == path
}

/// Some entry holds `path`.
pub open spec fn has_path(entries: Seq<PlaylistEntry>, path: Seq<char>) -> bool {
    exists|i: int| path_at(entries, i, path)
}

/// `i` is the first entry that holds `path`.
pub open spec fn first_with_path(entries: Seq<PlaylistEntry>, i: int, path: Seq<char>) -> bool {
    &&& path_at(entries, i, path)
    &&& forall|j: int| 0 <= j < i ==> entries[j].path@ != path
}

/// No two entries hold the same path.
pub open spec fn unique_paths(entries: Seq<PlaylistEntry>) -> bool {
    forall|i: int, j: int|
        0 <= i < entries.len() && 0 <= j < entries.len() && i != j ==> entries[i].path@
            != entries[j].path@
}

/// The index of the first entry that holds `path` (meaningful when `has_path`).
pub open spec fn index_of_path(entries: Seq<PlaylistEntry>, path: Seq<char>) -> int {
    choose|i: int| first_with_path(entries, i, path)
}

/// The entries after adding `path`: unchanged when the path is already there,
/// else the new entry at the end.
pub open spec fn entries_after_add(entries: Seq<PlaylistEntry>, entry: PlaylistEntry) -> Seq<
    PlaylistEntry,
> {
    if has_path(entries, entry.path@) {
        entries
    } else {
        entries.push(entry)
    }
}

/// The index that adding `path` answers: where the path already stands, or the new last slot.
pub open spec fn index_after_add(entries: Seq<PlaylistEntry>, path: Seq<char>) -> int {
    if has_path(entries, path) {
        index_of_path(entries, path)
    } else {
        entries.len() as int
    }
}

/// The current index once entry `removed` has left the list.
pub open spec fn index_after_removal(current: Option<usize>, removed: usize) -> Option<usize> {
    match current {
        Some(cur) => if cur == removed {
            None
        } else if cur > removed {
            Some((cur - 1) as usize)
        } else {
            Some(cur)
        },
        None => None,
    }
}

/// The index that "next" moves to, if any.
pub open spec fn next_index(current: Option<usize>, len: nat) -> Option<usize> {
    match current {
        Some(i) => if i + 1 < len {
            Some((i + 1) as usize)
        } else {
            None
        },
        None => None,
    }
}

/// The index that "previous" moves to, if any.
pub open spec fn previous_index(current: Option<usize>) -> Option<usize> {
    match current {
        Some(i) => if i > 0 {
            Some((i - 1) as usize)
        } else {
            None
        },
        None => None,
    }
}

/// The entries once the first entry with `path` has taken the duration `duration_ms`.
pub open spec fn entries_after_duration(
    entries: Seq<PlaylistEntry>,
    path: Seq<char>,
    duration_ms: u64,
) -> Seq<PlaylistEntry> {
    if has_path(entries, path) {
        let i = index_of_path(entries, path);
        entries.update(i, PlaylistEntry { path: entries[i].path, duration_ms })
    } else {
        entries
    }
}

proof fn lemma_first_with_path_unique(entries: Seq<PlaylistEntry>, i: int, path: Seq<char>)
    requires
        first_with_path(entries, i, path),
    ensures
        has_path(entries, path),
        index_of_path(entries, path) == i,
{
    assert(path_at(entries, i, path));
    let k = index_of_path(entries, path);
    assert(first_with_path(entries, k, path));
    if k < i {
        assert(entries[k].path@ != path);
    } else if k > i {
        assert(entries[i].path@ != path);
    }
}

proof fn lemma_no_path(entries: Seq<PlaylistEntry>, path: Seq<char>)
    requires
        forall|j: int| 0 <= j < entries.len() ==> entries[j].path@ != path,
    ensures
        !has_path(entries, path),
{
    if has_path(entries, path) {
        let i = choose|i: int| path_at(entries, i, path);
        assert(entries[i].path@ != path);
    }
}

/// Adding a path that is already in the list changes nothing and answers the same
/// index as before, whatever duration comes with it.
pub proof fn law_add_is_idempotent(entries: Seq<PlaylistEntry>, entry: PlaylistEntry, again: PlaylistEntry)
    requires
        again.path@ == entry.path@,
    ensures
        entries_after_add(entries_after_add(entries, entry), again) == entries_after_add(entries, entry),
        index_after_add(entries_after_add(entries, entry), again.path@) == index_after_add(
            entries,
            entry.path@,
        ),
{
    let path = entry.path@;
    let once = entries_after_add(entries, entry);
    if has_path(entries, path) {
        let i = index_of_path(entries, path);
        let w = choose|k: int| path_at(entries, k, path);
        lemma_first_exists(entries, w, path);
    } else {
        let n = entries.len() as int;
        assert forall|j: int| 0 <= j < n implies once[j].path@ != path by {
            if once[j].path@ == path {
                assert(path_at(entries, j, path));
            }
        }
        assert(first_with_path(once, n, path));
        lemma_first_with_path_unique(once, n, path);
    }
}

/// After adding a track, the entry at the index that the call answers holds the track's path.
pub proof fn law_added_path_is_at_index(entries: Seq<PlaylistEntry>, entry: PlaylistEntry)
    ensures
        path_at(
            entries_after_add(entries, entry),
            index_after_add(entries, entry.path@),
            entry.path@,
        ),
{
    let path = entry.path@;
    if has_path(entries, path) {
        let w = choose|k: int| path_at(entries, k, path);
        lemma_first_exists(entries, w, path);
    }
}

/// Removing an entry other than the current one leaves the cursor on the same track.
pub proof fn law_removal_keeps_current_track(entries: Seq<PlaylistEntry>, current: usize, removed: usize)
    requires
        current < entries.len(),
        removed < entries.len(),
        current != removed,
    ensures
        index_after_removal(Some(current), removed) matches Some(k) && entries.remove(
            removed as int,
        )[k as int] == entries[current as int],
{
}

/// Removing the current entry clears the cursor.
pub proof fn law_removing_current_clears_cursor(current: usize)
    ensures
        index_after_removal(Some(current), current) is None,
{
}

/// Moving back after a successful move on returns to where the cursor was.
pub proof fn law_previous_undoes_next(current: Option<usize>, len: nat)
    requires
        len <= usize::MAX,
        next_index(current, len) is Some,
    ensures
        previous_index(next_index(current, len)) == current,
{
}

/// Moving on after a successful move back returns to where the cursor was.
pub proof fn law_next_undoes_previous(current: Option<usize>, len: nat)
    requires
        previous_index(current) is Some,
        current matches Some(i) && i < len,
    ensures
        next_index(previous_index(current), len) == current,
{
}

proof fn lemma_first_exists(entries: Seq<PlaylistEntry>, w: int, path: Seq<char>)
    requires
        path_at(entries, w, path),
    ensures
        first_with_path(entries, index_of_path(entries, path), path),
    decreases w,
{
    if exists|j: int| 0 <= j < w && entries[j].path@ == path {
        let j = choose|j: int| 0 <= j < w && entries[j].path@ == path;
        lemma_first_exists(entries, j, path);
    } else {
        assert(first_with_path(entries, w, path));
    }
}

/// Setting a duration changes only the track with that path: in a list without
/// repeated paths, after `update_duration(path, d)` the entry that holds `path` has
/// duration `d` and keeps its path, every other entry is unchanged, and the list keeps
/// its length and its paths; a list without `path` is unchanged.
pub proof fn law_update_duration_sets_only_that_track(
    entries: Seq<PlaylistEntry>,
    path: Seq<char>,
    d: u64,
)
    requires
        unique_paths(entries),
    ensures
        ({
            let after = entries_after_duration(entries, path, d);
            &&& after.len() == entries.len()
            &&& forall|i: int|
                0 <= i < entries.len() && entries[i].path@ == path ==> {
                    &&& (#[trigger] after[i]).duration_ms == d
                    &&& after[i].path == entries[i].path
                }
            &&& forall|i: int|
                0 <= i < entries.len() && entries[i].path@ != path ==> #[trigger] after[i]
                    == entries[i]
            &&& unique_paths(after)
        }),
        !has_path(entries, path) ==> entries_after_duration(entries, path, d) == entries,
{
    assert forall|i: int| 0 <= i < entries.len() && entries[i].path@ == path implies has_path(
        entries,
        path,
    ) by {
        assert(path_at(entries, i, path));
    }
    if has_path(entries, path) {
        let w = choose|i: int| path_at(entries, i, path);
        lemma_first_exists(entries, w, path);
        let k = index_of_path(entries, path);
        assert forall|i: int| 0 <= i < entries.len() && entries[i].path@ == path implies i == k by {
            if i != k {
                assert(entries[i].path@ != entries[k].path@);
            }
        }
        let after = entries_after_duration(entries, path, d);
        assert(after == entries.update(k, PlaylistEntry { path: entries[k].path, duration_ms: d }));
        assert forall|i: int| 0 <= i < after.len() implies (#[trigger] after[i]).path == entries[i].path by {
        }
        assert(unique_paths(after));
    }
}

impl Playlist {
    /// The list is well formed: no path twice, and the current index inside the list.
    pub open spec fn wf(&self) -> bool {
        &&& unique_paths(self.entries@)
        &&& (self.current_index matches Some(i) ==> i < self.entries@.len())
    }

    /// An empty list, no current track, no looping.
    pub fn new() -> (list: Playlist)
        ensures
            list.entries@ == Seq::<PlaylistEntry>::empty(),
            list.current_index == None::<usize>,
            list.loop_mode == LoopMode::Off,
            list.wf(),
    {
        Playlist { entries: Vec::new(), current_index: None, loop_mode: LoopMode::Off }
    }

    /// Finds the first entry that holds `path`.
    fn position_of(&self, path: &str) -> (found: Option<usize>)
        ensures
            match found {
                Some(i) => first_with_path(self.entries@, i as int, path@),
                None => !has_path(self.entries@, path@),
            },
    {
        let key: String = path.to_owned();
        let mut i: usize = 0;
        while i < self.entries.len()
            invariant
                i <= self.entries@.len(),
                key@ == path@,
                forall|j: int| 0 <= j < i ==> self.entries@[j].path@ != path@,
            decreases self.entries@.len() - i,
        {
            if self.entries[i].path == key {
                return Some(i);
            }
            i = i + 1;
        }
        proof {
            lemma_no_path(self.entries@, path@);
        }
        None
    }

    /// Adds a track at the end, unless an entry already holds its path; answers the
    /// index of the track's entry either way.
    pub fn add(&mut self, path: String, duration_ms: u64) -> (index: usize)
        ensures
            final(self).entries@ == entries_after_add(
                old(self).entries@,
                (PlaylistEntry { path, duration_ms }),
            ),
            index == index_after_add(old(self).entries@, path@),
            has_path(old(self).entries@, path@) ==> first_with_path(
                old(self).entries@,
                index as int,
                path@,
            ),
            final(self).current_index == old(self).current_index,
            final(self).loop_mode == old(self).loop_mode,
            old(self).wf() ==> final(self).wf(),
    {
        match self.position_of(path.as_str()) {
            Some(pos) => {
                proof {
                    lemma_first_with_path_unique(self.entries@, pos as int, path@);
                }
                pos
            },
            None => {
                let idx = self.entries.len();
                let ghost before = self.entries@;
                self.entries.push(PlaylistEntry { path, duration_ms });
                proof {
                    assert forall|j: int| 0 <= j < before.len() implies before[j].path@
                        != path@ by {
                        if before[j].path@ == path@ {
                            assert(path_at(before, j, path@));
                        }
                    }
                }
                idx
            },
        }
    }

    /// Sets the duration of the first entry that holds `path`; nothing happens when none does.
    pub fn update_duration(&mut self, path: &str, duration_ms: u64)
        ensures
            final(self).entries@ == entries_after_duration(old(self).entries@, path@, duration_ms),
            final(self).current_index == old(self).current_index,
            final(self).loop_mode == old(self).loop_mode,
            old(self).wf() ==> final(self).wf(),
    {
        match self.position_of(path) {
            Some(pos) => {
                proof {
                    lemma_first_with_path_unique(self.entries@, pos as int, path@);
                }
                let entry = PlaylistEntry {
                    path: self.entries[pos].path.clone(),
                    duration_ms,
                };
                self.entries.set(pos, entry);
            },
            None => {},
        }
    }

    /// Removes entry `index`, if it exists, and keeps the cursor on the same track:
    /// it is cleared when that track is the one removed.
    pub fn remove(&mut self, index: usize)
        ensures
            index < old(self).entries@.len() ==> {
                &&& final(self).entries@ == old(self).entries@.remove(index as int)
                &&& final(self).current_index == index_after_removal(
                    old(self).current_index,
                    index,
                )
            },
            index >= old(self).entries@.len() ==> {
                &&& final(self).entries@ == old(self).entries@
                &&& final(self).current_index == old(self).current_index
            },
            final(self).loop_mode == old(self).loop_mode,
            old(self).wf() ==> final(self).wf(),
    {
        if index < self.entries.len() {
            self.entries.remove(index);
            match self.current_index {
                Some(cur) => {
                    if cur == index {
                        self.current_index = None;
                    } else if cur > index {
                        self.current_index = Some(cur - 1);
                    }
                },
                None => {},
            }
        }
    }

    /// Sets the loop mode.
    pub fn set_loop_mode(&mut self, mode: LoopMode)
        ensures
            final(self).loop_mode == mode,
            final(self).entries@ == old(self).entries@,
            final(self).current_index == old(self).current_index,
            old(self).wf() ==> final(self).wf(),
    {
        self.loop_mode = mode;
    }

    /// Makes entry `index` the current one and hands it back; nothing changes and
    /// `None` comes back when there is no such entry.
    pub fn set_current(&mut self, index: usize) -> (entry: Option<&PlaylistEntry>)
        ensures
            index < old(self).entries@.len() ==> {
                &&& final(self).current_index == Some(index)
                &&& entry matches Some(e) && *e == old(self).entries@[index as int]
            },
            index >= old(self).entries@.len() ==> {
                &&& final(self).current_index == old(self).current_index
                &&& entry is None
            },
            final(self).entries@ == old(self).entries@,
            final(self).loop_mode == old(self).loop_mode,
            old(self).wf() ==> final(self).wf(),
    {
        if index < self.entries.len() {
            self.current_index = Some(index);
            Some(&self.entries[index])
        } else {
            None
        }
    }

    /// The current entry, if the cursor points into the list.
    pub fn current_entry(&self) -> (entry: Option<&PlaylistEntry>)
        ensures
            match self.current_index {
                Some(i) => if i < self.entries@.len() {
                    entry matches Some(e) && *e == self.entries@[i as int]
                } else {
                    entry is None
                },
                None => entry is None,
            },
    {
        match self.current_index {
            Some(i) => {
                if i < self.entries.len() {
                    Some(&self.entries[i])
                } else {
                    None
                }
            },
            None => None,
        }
    }

    /// Moves the cursor one entry on, when there is an entry after it; answers the new index.
    pub fn next(&mut self) -> (moved: Option<usize>)
        ensures
            moved == next_index(old(self).current_index, old(self).entries@.len()),
            moved is Some ==> final(self).current_index == moved,
            moved is None ==> final(self).current_index == old(self).current_index,
            final(self).entries@ == old(self).entries@,
            final(self).loop_mode == old(self).loop_mode,
            old(self).wf() ==> final(self).wf(),
    {
        match self.current_index {
            Some(i) => {
                let len = self.entries.len();
                if len > 0 && i < len - 1 {
                    self.current_index = Some(i + 1);
                    self.current_index
                } else {
                    None
                }
            },
            None => None,
        }
    }

    /// Moves the cursor one entry back, when it is not on the first; answers the new index.
    pub fn previous(&mut self) -> (moved: Option<usize>)
        ensures
            moved == previous_index(old(self).current_index),
            moved is Some ==> final(self).current_index == moved,
            moved is None ==> final(self).current_index == old(self).current_index,
            final(self).entries@ == old(self).entries@,
            final(self).loop_mode == old(self).loop_mode,
            old(self).wf() ==> final(self).wf(),
    {
        match self.current_index {
            Some(i) => {
                if i > 0 {
                    self.current_index = Some(i - 1);
                    self.current_index
                } else {
                    None
                }
            },
            None => None,
        }
    }

    /// A snapshot of the list.
    pub fn state(&self) -> (snapshot: PlaylistState)
        ensures
            snapshot.entries@ == self.entries@,
            snapshot.current_index == self.current_index,
            snapshot.loop_mode == self.loop_mode,
    {
        let mut entries: Vec<PlaylistEntry> = Vec::new();
        let mut i: usize = 0;
        while i < self.entries.len()
            invariant
                i <= self.entries@.len(),
                entries@ == self.entries@.subrange(0, i as int),
            decreases self.entries@.len() - i,
        {
            entries.push(self.entries[i].duplicate());
            i = i + 1;
        }
        PlaylistState { entries, current_index: self.current_index, loop_mode: self.loop_mode }
    }

    /// Empties the list and clears the cursor; the loop mode stays.
    pub fn clear(&mut self)
        ensures
            final(self).entries@ == Seq::<PlaylistEntry>::empty(),
            final(self).current_index == None::<usize>,
            final(self).loop_mode == old(self).loop_mode,
            final(self).wf(),
    {
        self.entries.clear();
        self.current_index = None;
    }
}

} // verus!
