//! What is remembered of interrupted receives, so that a later transfer of the
//! same file continues where the last one stopped.
//!
//! A file is recognised by its relative path, its declared size and its
//! digest. Images of the table are written in the order of their sequence
//! numbers: an older one never replaces a newer one.

use vstd::prelude::*;

use crate::keymap::{
    distinct_keys, has_key, kept, key_index, lemma_append, lemma_entry, lemma_take_out, map_of,
    KeyMap,
};

verus! {

/// What a file is recognised by.
#[derive(Debug, Clone, PartialEq, Eq)]
pub struct FileIdentity {
    pub rel: String,
    pub size: u64,
    pub sha256: Option<String>,
}

/// One half-written file.
#[derive(Debug, Clone, PartialEq)]
pub struct PartialRecord {
    pub rel: String,
    pub size: u64,
    pub sha256: Option<String>,
    /// Where the bytes are, relative to the download root.
    pub disk_rel: String,
    /// Where a resume continues.
    pub bytes_written: u64,
}

/// An identity as a mathematical value.
pub struct IdentityView {
    pub rel: Seq<char>,
    pub size: u64,
    pub sha256: Option<Seq<char>>,
}

/// A record as a mathematical value.
pub struct RecordView {
    pub id: IdentityView,
    pub disk_rel: Seq<char>,
    pub bytes_written: u64,
}

pub open spec fn text_view(o: Option<String>) -> Option<Seq<char>> {
    match o {
        Some(s) => Some(s@),
        None => None,
    }
}

impl View for FileIdentity {
    type V = IdentityView;

    open spec fn view(&self) -> IdentityView {
        IdentityView { rel: self.rel@, size: self.size, sha256: text_view(self.sha256) }
    }
}

impl View for PartialRecord {
    type V = RecordView;

    open spec fn view(&self) -> RecordView {
        RecordView {
            id: IdentityView { rel: self.rel@, size: self.size, sha256: text_view(self.sha256) },
            disk_rel: self.disk_rel@,
            bytes_written: self.bytes_written,
        }
    }
}

/// The records of a list.
pub open spec fn records(v: Seq<PartialRecord>) -> Seq<RecordView> {
    v.map_values(|r: PartialRecord| r@)
}

/// The identities of a list.
pub open spec fn identities(v: Seq<FileIdentity>) -> Seq<IdentityView> {
    v.map_values(|r: FileIdentity| r@)
}

fn same_option(a: &Option<String>, b: &Option<String>) -> (r: bool)
    ensures
        r == (text_view(*a) == text_view(*b)),
{
    match (a, b) {
        (Some(x), Some(y)) => *x == *y,
        (None, None) => true,
        _ => false,
    }
}

fn copy_option(o: &Option<String>) -> (r: Option<String>)
    ensures
        text_view(r) == text_view(*o),
{
    match o {
        Some(s) => Some(s.clone()),
        None => None,
    }
}

impl FileIdentity {
    pub fn matches(&self, r: &PartialRecord) -> (b: bool)
        ensures
            b == (self@ == r@.id),
    {
        r.rel == self.rel && r.size == self.size && same_option(&r.sha256, &self.sha256)
    }
}

impl PartialRecord {
    pub fn identity(&self) -> (id: FileIdentity)
        ensures
            id@ == self@.id,
    {
        FileIdentity {
            rel: self.rel.clone(),
            size: self.size,
            sha256: copy_option(&self.sha256),
        }
    }

    fn copy(&self) -> (r: PartialRecord)
        ensures
            r@ == self@,
    {
        PartialRecord {
            rel: self.rel.clone(),
            size: self.size,
            sha256: copy_option(&self.sha256),
            disk_rel: self.disk_rel.clone(),
            bytes_written: self.bytes_written,
        }
    }

    fn equals(&self, other: &PartialRecord) -> (b: bool)
        ensures
            b == (self@ == other@),
    {
        self.rel == other.rel && self.size == other.size && same_option(
            &self.sha256,
            &other.sha256,
        ) && self.disk_rel == other.disk_rel && self.bytes_written == other.bytes_written
    }
}

fn equal_lists(a: &Vec<PartialRecord>, b: &Vec<PartialRecord>) -> (r: bool)
    ensures
        r == (records(a@) == records(b@)),
{
    if a.len() != b.len() {
        proof {
            assert(records(a@).len() != records(b@).len());
        }
        return false;
    }
    for i in 0..a.len()
        invariant
            a@.len() == b@.len(),
            forall|k: int| 0 <= k < i ==> (#[trigger] a@[k])@ == b@[k]@,
    {
        if !a[i].equals(&b[i]) {
            proof {
                assert(records(a@)[i as int] != records(b@)[i as int]);
            }
            return false;
        }
    }
    proof {
        assert(records(a@) =~= records(b@));
    }
    true
}

fn append_copies(out: &mut Vec<PartialRecord>, from: &Vec<PartialRecord>)
    ensures
        records(final(out)@) == records(old(out)@) + records(from@),
{
    let ghost before = records(out@);
    for i in 0..from.len()
        invariant
            records(out@) == before + records(from@.subrange(0, i as int)),
    {
        let ghost so_far = records(out@);
        out.push(from[i].copy());
        proof {
            assert(records(out@) =~= so_far.push(from@[i as int]@));
            assert(records(from@.subrange(0, i + 1)) =~= records(
                from@.subrange(0, i as int),
            ).push(from@[i as int]@));
            assert(records(out@) =~= before + records(from@.subrange(0, i + 1)));
        }
    }
    proof {
        assert(from@.subrange(0, from@.len() as int) =~= from@);
    }
}

/// The table of half-written files, by device.
#[derive(Debug)]
pub struct PartialsStore {
    pub path: String,
    pub map: KeyMap<String, Vec<PartialRecord>>,
    /// Counts the changes.
    pub seq: u64,
}

/// The records of each device.
pub open spec fn tables(m: KeyMap<String, Vec<PartialRecord>>) -> Map<Seq<char>, Seq<RecordView>> {
    m@.map_values(|v: Vec<PartialRecord>| records(v@))
}

impl View for PartialsStore {
    type V = Map<Seq<char>, Seq<RecordView>>;

    open spec fn view(&self) -> Map<Seq<char>, Seq<RecordView>> {
        tables(self.map)
    }
}

/// What was found where the table is stored.
#[derive(Debug)]
pub enum StoredTable {
    /// No file: the first run.
    Missing,
    /// The file could not be read or parsed.
    Broken,
    /// The devices with their records, in the order of the file.
    Parsed(Vec<(String, Vec<PartialRecord>)>),
}

/// The table that a list of devices denotes: of two entries for a device the
/// later counts.
pub open spec fn table_of(entries: Seq<(String, Vec<PartialRecord>)>) -> Map<
    Seq<char>,
    Seq<RecordView>,
>
    decreases entries.len(),
{
    if entries.len() == 0 {
        Map::empty()
    } else {
        table_of(entries.drop_last()).insert(entries.last().0@, records(entries.last().1@))
    }
}

/// The first record of an identity in a list.
pub open spec fn find_record(list: Seq<RecordView>, id: IdentityView) -> Option<RecordView>
    decreases list.len(),
{
    if list.len() == 0 {
        None
    } else if list[0].id == id {
        Some(list[0])
    } else {
        find_record(list.drop_first(), id)
    }
}

/// The records of a device without those in `remove`, then `keep`.
pub open spec fn replaced(
    list: Seq<RecordView>,
    remove: Seq<IdentityView>,
    keep: Seq<RecordView>,
) -> Seq<RecordView> {
    list.filter(|r: RecordView| !remove.contains(r.id)) + keep
}

/// The records of a device, none if it is unknown.
pub open spec fn list_of(m: Map<Seq<char>, Seq<RecordView>>, device: Seq<char>) -> Seq<
    RecordView,
> {
    if m.contains_key(device) {
        m[device]
    } else {
        Seq::empty()
    }
}

/// The table after a manifest's records were replaced. A device without any
/// record has no entry.
pub open spec fn with_files(
    m: Map<Seq<char>, Seq<RecordView>>,
    device: Seq<char>,
    remove: Seq<IdentityView>,
    keep: Seq<RecordView>,
) -> Map<Seq<char>, Seq<RecordView>> {
    let list = replaced(list_of(m, device), remove, keep);
    if list.len() == 0 {
        m.remove(device)
    } else {
        m.insert(device, list)
    }
}

/// Whether no device has a record.
pub open spec fn no_files(m: Map<Seq<char>, Seq<RecordView>>) -> bool {
    forall|d: Seq<char>| #[trigger] m.contains_key(d) ==> m[d].len() == 0
}

/// The table that `set_files` leaves: without records to keep, an unknown
/// device stays unknown.
pub open spec fn files_set(
    m: Map<Seq<char>, Seq<RecordView>>,
    device: Seq<char>,
    remove: Seq<IdentityView>,
    keep: Seq<RecordView>,
) -> Map<Seq<char>, Seq<RecordView>> {
    if keep.len() == 0 && !m.contains_key(device) {
        m
    } else {
        with_files(m, device, remove, keep)
    }
}

/// Whether the entry of a device differs between two tables.
pub open spec fn entry_differs(
    a: Map<Seq<char>, Seq<RecordView>>,
    b: Map<Seq<char>, Seq<RecordView>>,
    device: Seq<char>,
) -> bool {
    a.contains_key(device) != b.contains_key(device) || list_of(a, device) != list_of(b, device)
}

/// How many records there are in the first entries.
pub open spec fn count_files(entries: Seq<(String, Vec<PartialRecord>)>) -> nat
    decreases entries.len(),
{
    if entries.len() == 0 {
        0
    } else {
        count_files(entries.drop_last()) + entries.last().1@.len()
    }
}

impl PartialsStore {
    pub open spec fn wf(&self) -> bool {
        self.map.wf()
    }

    /// A store over what was found at `path`; without a readable table it is
    /// empty.
    pub fn load(path: String, found: StoredTable) -> (s: PartialsStore)
        ensures
            s.wf(),
            s.path@ == path@,
            s.seq == 0,
            s@ == match found {
                StoredTable::Parsed(entries) => table_of(entries@),
                _ => Map::<Seq<char>, Seq<RecordView>>::empty(),
            },
    {
        let mut map: KeyMap<String, Vec<PartialRecord>> = KeyMap::new();
        proof {
            assert(tables(map) =~= Map::<Seq<char>, Seq<RecordView>>::empty());
        }
        match found {
            StoredTable::Parsed(entries) => {
                let n: usize = entries.len();
                for i in 0..n
                    invariant
                        n == entries@.len(),
                        map.wf(),
                        tables(map) == table_of(entries@.subrange(0, i as int)),
                {
                    let ghost before = tables(map);
                    let mut list: Vec<PartialRecord> = Vec::new();
                    append_copies(&mut list, &entries[i].1);
                    proof {
                        assert(records(list@) =~= records(entries@[i as int].1@));
                        assert(entries@.subrange(0, i + 1).drop_last() =~= entries@.subrange(
                            0,
                            i as int,
                        ));
                    }
                    let key = entries[i].0.clone();
                    let _old = map.insert(key, list);
                    proof {
                        assert(tables(map) =~= before.insert(
                            entries@[i as int].0@,
                            records(entries@[i as int].1@),
                        ));
                    }
                }
                proof {
                    assert(entries@.subrange(0, n as int) =~= entries@);
                }
            },
            StoredTable::Missing => {},
            StoredTable::Broken => {},
        }
        PartialsStore { path, map, seq: 0 }
    }

    /// The stored record of a file, if there is one.
    pub fn lookup(&self, device_id: &str, id: &FileIdentity) -> (r: Option<PartialRecord>)
        requires
            self.wf(),
        ensures
            match r {
                Some(x) => find_record(list_of(self@, device_id@), id@) == Some(x@),
                None => find_record(list_of(self@, device_id@), id@) is None,
            },
    {
        let key = device_id.to_owned();
        let list = match self.map.get(&key) {
            Some(v) => v,
            None => {
                return None;
            },
        };
        let ghost all = records(list@);
        let n: usize = list.len();
        proof {
            assert(all.subrange(0, all.len() as int) =~= all);
        }
        for i in 0..n
            invariant
                n == list@.len(),
                all == records(list@),
                all == list_of(self@, device_id@),
                find_record(all, id@) == find_record(
                    all.subrange(i as int, all.len() as int),
                    id@,
                ),
        {
            proof {
                let rest = all.subrange(i as int, all.len() as int);
                assert(rest[0] == list@[i as int]@);
                assert(rest.drop_first() =~= all.subrange(i + 1, all.len() as int));
            }
            if id.matches(&list[i]) {
                return Some(list[i].copy());
            }
        }
        None
    }

    /// Replaces the records of one manifest: those in `remove` go, then `keep`
    /// is added. Returns whether the table changed; only then is there
    /// something to write.
    pub fn set_files(
        &mut self,
        device_id: &str,
        remove: &[FileIdentity],
        keep: Vec<PartialRecord>,
    ) -> (changed: bool)
        requires
            old(self).wf(),
            old(self).seq < u64::MAX,
        ensures
            final(self).wf(),
            final(self).path == old(self).path,
            final(self)@ == files_set(
                old(self)@,
                device_id@,
                identities(remove@),
                records(keep@),
            ),
            changed == entry_differs(old(self)@, final(self)@, device_id@),
            final(self).seq == old(self).seq + if changed {
                1int
            } else {
                0
            },
    {
        let key = device_id.to_owned();
        let ghost m = self@;
        let ghost gone = identities(remove@);
        proof {
            assert(records(keep@).len() == keep@.len());
        }
        if keep.len() == 0 && !self.map.contains_key(&key) {
            return false;
        }
        let mut list: Vec<PartialRecord> = Vec::new();
        let known = self.map.contains_key(&key);
        let ghost p = |r: RecordView| !gone.contains(r.id);
        proof {
            reveal(Seq::filter);
            assert(records(list@) =~= list_of(m, device_id@).subrange(0, 0).filter(p));
        }
        let mut unchanged = false;
        match self.map.get(&key) {
            Some(before) => {
                let ghost all = records(before@);
                let n: usize = before.len();
                proof {
                    assert(all == list_of(m, device_id@));
                }
                for i in 0..n
                    invariant
                        n == before@.len(),
                        all == records(before@),
                        gone == identities(remove@),
                        p == (|r: RecordView| !gone.contains(r.id)),
                        records(list@) == all.subrange(0, i as int).filter(p),
                {
                    proof {
                        reveal(Seq::filter);
                        assert(all.subrange(0, i + 1).drop_last() =~= all.subrange(0, i as int));
                        assert(all.subrange(0, i + 1).last() == before@[i as int]@);
                    }
                    if !listed(remove, &before[i]) {
                        let ghost kept_so_far = records(list@);
                        list.push(before[i].copy());
                        proof {
                            assert(records(list@) =~= kept_so_far.push(before@[i as int]@));
                        }
                    }
                }
                proof {
                    assert(all.subrange(0, n as int) =~= all);
                }
                append_copies(&mut list, &keep);
                unchanged = list.len() > 0 && equal_lists(before, &list);
                proof {
                    assert(records(list@) == replaced(all, gone, records(keep@)));
                }
            },
            None => {
                append_copies(&mut list, &keep);
                proof {
                    assert(list_of(m, device_id@).filter(p) =~= Seq::<RecordView>::empty()) by {
                        reveal(Seq::filter);
                    }
                    assert(records(list@) =~= replaced(
                        list_of(m, device_id@),
                        gone,
                        records(keep@),
                    ));
                }
            },
        }
        let ghost new_list = records(list@);
        let emptied = list.len() == 0;
        proof {
            assert(new_list.len() == list@.len());
        }
        if emptied {
            let _gone = self.map.remove(&key);
            proof {
                assert(self@ =~= m.remove(device_id@));
            }
            if !known {
                return false;
            }
        } else {
            let _old = self.map.insert(key, list);
            proof {
                assert(self@ =~= m.insert(device_id@, new_list));
            }
            if unchanged {
                return false;
            }
        }
        self.seq = self.seq + 1;
        true
    }

    /// Forgets every record of a device and returns them.
    pub fn clear_device(&mut self, device_id: &str) -> (r: Vec<PartialRecord>)
        requires
            old(self).wf(),
            old(self).seq < u64::MAX,
        ensures
            final(self).wf(),
            final(self).path == old(self).path,
            final(self)@ == old(self)@.remove(device_id@),
            records(r@) == list_of(old(self)@, device_id@),
            count_files(final(self).map.entries@) + r@.len() == count_files(
                old(self).map.entries@,
            ),
            final(self).seq == old(self).seq + if old(self)@.contains_key(device_id@) {
                1int
            } else {
                0
            },
    {
        let key = device_id.to_owned();
        let ghost m = self@;
        let ghost before = self.map.entries@;
        match self.map.remove(&key) {
            Some(list) => {
                proof {
                    assert(self@ =~= m.remove(device_id@));
                }
                proof {
                    lemma_table_of(before);
                    lemma_table_of(self.map.entries@);
                    lemma_count_without(before, self.map.entries@, device_id@);
                    assert(records(list@).len() == list@.len());
                }
                self.seq = self.seq + 1;
                list
            },
            None => {
                proof {
                    assert(self@ =~= m.remove(device_id@));
                }
                let none: Vec<PartialRecord> = Vec::new();
                proof {
                    lemma_table_of(before);
                    lemma_table_of(self.map.entries@);
                    lemma_count_without(before, self.map.entries@, device_id@);
                    assert(records(none@) =~= Seq::<RecordView>::empty());
                }
                none
            },
        }
    }

    /// How many files are recorded in all, as far as that can be counted.
    pub fn len(&self) -> (n: usize)
        ensures
            n == if count_files(self.map.entries@) > usize::MAX {
                usize::MAX as nat
            } else {
                count_files(self.map.entries@)
            },
    {
        let mut n: usize = 0;
        for i in 0..self.map.entries.len()
            invariant
                n == if count_files(self.map.entries@.subrange(0, i as int)) > usize::MAX {
                    usize::MAX as nat
                } else {
                    count_files(self.map.entries@.subrange(0, i as int))
                },
        {
            proof {
                assert(self.map.entries@.subrange(0, i + 1).drop_last()
                    =~= self.map.entries@.subrange(0, i as int));
            }
            n = n.saturating_add(self.map.entries[i].1.len());
        }
        proof {
            assert(self.map.entries@.subrange(0, self.map.entries@.len() as int)
                =~= self.map.entries@);
        }
        n
    }

    /// Whether no file is recorded.
    pub fn is_empty(&self) -> (r: bool)
        requires
            self.wf(),
        ensures
            r == no_files(self@),
    {
        let entries = &self.map.entries;
        for i in 0..entries.len()
            invariant
                entries@ == self.map.entries@,
                self.wf(),
                forall|k: int| 0 <= k < i ==> (#[trigger] entries@[k]).1@.len() == 0,
        {
            if entries[i].1.len() != 0 {
                proof {
                    lemma_entry(entries@, i as int);
                    let d = entries@[i as int].0@;
                    assert(self@.contains_key(d));
                    assert(self@[d].len() == entries@[i as int].1@.len());
                }
                return false;
            }
        }
        proof {
            assert forall|d: Seq<char>| #[trigger] self@.contains_key(d) implies self@[d].len()
                == 0 by {
                let k = crate::keymap::key_index(entries@, d);
                lemma_entry(entries@, k);
                assert(entries@[k].1@.len() == 0);
            }
        }
        true
    }

    /// An image of the table to be written, unless it could not be serialized.
    pub fn snapshot(&self, json: Option<String>) -> (r: Option<PartialsSnapshot>)
        ensures
            match r {
                Some(snap) => {
                    &&& json matches Some(j) && snap.json@ == j@
                    &&& snap.seq == self.seq
                    &&& snap.path@ == self.path@
                },
                None => json is None,
            },
    {
        match json {
            Some(j) => Some(
                PartialsSnapshot { seq: self.seq, json: j, path: self.path.clone() },
            ),
            None => None,
        }
    }
}

fn listed(ids: &[FileIdentity], r: &PartialRecord) -> (b: bool)
    ensures
        b == identities(ids@).contains(r@.id),
{
    for i in 0..ids.len()
        invariant
            forall|k: int| 0 <= k < i ==> (#[trigger] ids@[k])@ != r@.id,
    {
        if ids[i].matches(r) {
            proof {
                assert(identities(ids@)[i as int] == r@.id);
            }
            return true;
        }
    }
    proof {
        if identities(ids@).contains(r@.id) {
            let k = choose|k: int|
                0 <= k < identities(ids@).len() && identities(ids@)[k] == r@.id;
            assert(ids@[k]@ == r@.id);
        }
    }
    false
}

/// An image of the table, written outside the store's lock.
#[derive(Debug)]
pub struct PartialsSnapshot {
    pub seq: u64,
    pub json: String,
    pub path: String,
}

/// The sequence number of the image that is on disk.
#[derive(Debug, Clone, Copy, PartialEq, Eq, Structural)]
pub struct WriteGate {
    pub last_written: u64,
}

/// The write marker after an attempt to write an image.
pub open spec fn gate_after(gate: WriteGate, seq: u64, written: bool) -> WriteGate {
    if seq >= gate.last_written && written {
        WriteGate { last_written: seq }
    } else {
        gate
    }
}

impl PartialsSnapshot {
    /// Whether this image may be written: no newer one is on disk.
    pub fn is_current(&self, gate: &WriteGate) -> (r: bool)
        ensures
            r == (self.seq >= gate.last_written),
    {
        self.seq >= gate.last_written
    }

    /// Records the outcome of writing this image.
    pub fn settle(&self, gate: &mut WriteGate, written: bool)
        ensures
            *final(gate) == gate_after(*old(gate), self.seq, written),
    {
        if self.is_current(gate) && written {
            gate.last_written = self.seq;
        }
    }
}

// ── laws ──────────────────────────────────────────────────────────────────

/// The image on disk never gets older, whatever images are tried in whatever
/// order and whether or not a write succeeds.
pub proof fn law_writes_never_roll_back(gate: WriteGate, seq: u64, written: bool)
    ensures
        gate_after(gate, seq, written).last_written >= gate.last_written,
        written && seq >= gate.last_written ==> gate_after(gate, seq, written).last_written == seq,
{
}

/// What is written of a table is read back as that table.
pub proof fn law_table_reads_back(store: PartialsStore)
    requires
        store.wf(),
    ensures
        table_of(store.map.entries@) == store@,
{
    lemma_table_of(store.map.entries@);
}

proof fn lemma_table_of(entries: Seq<(String, Vec<PartialRecord>)>)
    requires
        distinct_keys(entries),
    ensures
        table_of(entries) == map_of(entries).map_values(|v: Vec<PartialRecord>| records(v@)),
    decreases entries.len(),
{
    let f = |v: Vec<PartialRecord>| records(v@);
    if entries.len() == 0 {
        assert(table_of(entries) =~= map_of(entries).map_values(f));
    } else {
        let rest = entries.drop_last();
        let (k, v) = entries.last();
        assert(distinct_keys(rest)) by {
            assert forall|i: int, j: int| 0 <= i < j < rest.len() implies #[trigger] rest[i].0@
                != #[trigger] rest[j].0@ by {
                assert(entries[i].0@ != entries[j].0@);
            }
        }
        assert(!has_key(rest, k@)) by {
            assert forall|i: int| 0 <= i < rest.len() implies #[trigger] rest[i].0@ != k@ by {
                assert(entries[i].0@ != entries[entries.len() - 1].0@);
            }
        }
        lemma_table_of(rest);
        lemma_append(rest, k, v);
        assert(rest.push((k, v)) =~= entries);
        assert(map_of(entries).map_values(f) =~= map_of(rest).map_values(f).insert(
            k@,
            records(v@),
        ));
    }
}

/// Replacing the records of one device leaves every other device as it was.
pub proof fn law_devices_are_independent(
    m: Map<Seq<char>, Seq<RecordView>>,
    device: Seq<char>,
    other: Seq<char>,
    remove: Seq<IdentityView>,
    keep: Seq<RecordView>,
)
    requires
        device != other,
    ensures
        list_of(with_files(m, device, remove, keep), other) == list_of(m, other),
        with_files(m, device, remove, keep).contains_key(other) == m.contains_key(other),
{
}

/// A delivered manifest leaves no record of its files.
pub proof fn law_delivered_files_are_forgotten(
    m: Map<Seq<char>, Seq<RecordView>>,
    device: Seq<char>,
    remove: Seq<IdentityView>,
    id: IdentityView,
)
    requires
        remove.contains(id),
    ensures
        find_record(list_of(with_files(m, device, remove, Seq::empty()), device), id) is None,
{
    let p = |r: RecordView| !remove.contains(r.id);
    let list = list_of(m, device);
    let rest = replaced(list, remove, Seq::empty());
    assert(rest =~= list.filter(p));
    assert forall|i: int| 0 <= i < rest.len() implies (#[trigger] rest[i]).id != id by {
        list.lemma_filter_pred(p, i);
    }
    lemma_find_none(rest, id);
    if rest.len() == 0 {
        assert(list_of(with_files(m, device, remove, Seq::empty()), device).len() == 0);
    }
}

proof fn lemma_find_none(list: Seq<RecordView>, id: IdentityView)
    requires
        forall|i: int| 0 <= i < list.len() ==> (#[trigger] list[i]).id != id,
    ensures
        find_record(list, id) is None,
    decreases list.len(),
{
    if list.len() > 0 {
        assert forall|i: int| 0 <= i < list.drop_first().len() implies (
        #[trigger] list.drop_first()[i]).id != id by {
            assert(list.drop_first()[i] == list[i + 1]);
        }
        lemma_find_none(list.drop_first(), id);
    }
}

/// An interrupted file is found again under its full identity: after its
/// records were replaced by the one kept, that one is looked up.
pub proof fn law_kept_file_is_found(
    m: Map<Seq<char>, Seq<RecordView>>,
    device: Seq<char>,
    remove: Seq<IdentityView>,
    record: RecordView,
)
    requires
        remove.contains(record.id),
    ensures
        find_record(
            list_of(with_files(m, device, remove, seq![record]), device),
            record.id,
        ) == Some(record),
{
    let p = |r: RecordView| !remove.contains(r.id);
    let list = list_of(m, device);
    let head = list.filter(p);
    assert forall|i: int| 0 <= i < head.len() implies (#[trigger] head[i]).id != record.id by {
        list.lemma_filter_pred(p, i);
    }
    lemma_find_after(head, record);
}

proof fn lemma_find_after(head: Seq<RecordView>, record: RecordView)
    requires
        forall|i: int| 0 <= i < head.len() ==> (#[trigger] head[i]).id != record.id,
    ensures
        find_record(head + seq![record], record.id) == Some(record),
    decreases head.len(),
{
    if head.len() > 0 {
        assert forall|i: int| 0 <= i < head.drop_first().len() implies (
        #[trigger] head.drop_first()[i]).id != record.id by {
            assert(head.drop_first()[i] == head[i + 1]);
        }
        lemma_find_after(head.drop_first(), record);
        assert((head + seq![record]).drop_first() =~= head.drop_first() + seq![record]);
        assert((head + seq![record])[0] == head[0]);
    } else {
        assert(head + seq![record] =~= seq![record]);
    }
}

/// A call of `set_files` reports a change if and only if the table is another
/// one. The same call again reports none, if the records to keep are among
/// those that are replaced; and neither does a call that has nothing to keep for
/// an unknown device.
pub proof fn law_set_files_reports_changes(
    m: Map<Seq<char>, Seq<RecordView>>,
    device: Seq<char>,
    remove: Seq<IdentityView>,
    keep: Seq<RecordView>,
)
    ensures
        ({
            let once = files_set(m, device, remove, keep);
            let twice = files_set(once, device, remove, keep);
            &&& entry_differs(m, once, device) <==> once != m
            &&& (forall|i: int| 0 <= i < keep.len() ==> remove.contains((#[trigger] keep[i]).id))
                ==> twice == once && !entry_differs(once, twice, device)
            &&& !m.contains_key(device) && keep.len() == 0 ==> once == m && !entry_differs(
                m,
                once,
                device,
            )
        }),
{
    let once = files_set(m, device, remove, keep);
    if !entry_differs(m, once, device) {
        assert(once =~= m);
    }
    if forall|i: int| 0 <= i < keep.len() ==> remove.contains((#[trigger] keep[i]).id) {
        law_set_files_is_idempotent(m, device, remove, keep);
    }
}

/// Taking an entry out takes its records off the count.
proof fn lemma_count_take_out(entries: Seq<(String, Vec<PartialRecord>)>, i: int)
    requires
        0 <= i < entries.len(),
    ensures
        count_files(entries) == count_files(entries.remove(i)) + entries[i].1@.len(),
    decreases entries.len(),
{
    let rest = entries.drop_last();
    if i == entries.len() - 1 {
        assert(entries.remove(i) =~= rest);
    } else {
        lemma_count_take_out(rest, i);
        assert(entries.remove(i).drop_last() =~= rest.remove(i));
        assert(entries.remove(i).last() == entries.last());
    }
}

/// The count depends on the table alone: without a device it is less by the
/// records of that device.
proof fn lemma_count_without(
    a: Seq<(String, Vec<PartialRecord>)>,
    b: Seq<(String, Vec<PartialRecord>)>,
    device: Seq<char>,
)
    requires
        distinct_keys(a),
        distinct_keys(b),
        table_of(b) == table_of(a).remove(device),
    ensures
        count_files(a) == count_files(b) + list_of(table_of(a), device).len(),
    decreases a.len(),
{
    let ta = table_of(a);
    let tb = table_of(b);
    lemma_table_of(a);
    lemma_table_of(b);
    if a.len() == 0 {
        if b.len() > 0 {
            lemma_entry(b, 0);
            assert(tb.contains_key(b[0].0@));
        }
    } else {
        let rest = a.drop_last();
        let (k, v) = a.last();
        assert(distinct_keys(rest)) by {
            assert forall|i: int, j: int| 0 <= i < j < rest.len() implies #[trigger] rest[i].0@
                != #[trigger] rest[j].0@ by {
                assert(a[i].0@ != a[j].0@);
            }
        }
        lemma_table_of(rest);
        assert(!table_of(rest).contains_key(k@)) by {
            assert forall|i: int| 0 <= i < rest.len() implies #[trigger] rest[i].0@ != k@ by {
                assert(a[i].0@ != a[a.len() - 1].0@);
            }
        }
        assert(records(v@).len() == v@.len());
        if k@ == device {
            assert(tb =~= table_of(rest).remove(device));
            lemma_count_without(rest, b, device);
        } else {
            assert(ta[k@] == records(v@));
            assert(tb.contains_key(k@) && tb[k@] == records(v@));
            assert(has_key(b, k@));
            let j = key_index(b, k@);
            assert(b[j].0@ == k@);
            lemma_entry(b, j);
            assert(map_of(b)[k@] == b[j].1);
            assert(records(b[j].1@) == records(v@));
            assert(records(b[j].1@).len() == b[j].1@.len());
            lemma_take_out(b, j);
            lemma_count_take_out(b, j);
            lemma_table_of(b.remove(j));
            assert(table_of(b.remove(j)) =~= tb.remove(k@));
            assert(ta == table_of(rest).insert(k@, records(v@)));
            assert(tb.remove(k@) =~= table_of(rest).remove(device));
            lemma_count_without(rest, b.remove(j), device);
            assert(list_of(table_of(rest), device) == list_of(ta, device));
        }
    }
}

/// A device that was cleared has no records any more, the others have theirs,
/// and there are fewer records by those of the device. Clearing it again
/// changes nothing.
pub proof fn law_cleared_device_is_forgotten(
    before: PartialsStore,
    after: PartialsStore,
    device: Seq<char>,
    other: Seq<char>,
    id: IdentityView,
)
    requires
        before.wf(),
        after.wf(),
        after@ == before@.remove(device),
    ensures
        find_record(list_of(after@, device), id) is None,
        other != device ==> list_of(after@, other) == list_of(before@, other),
        count_files(after.map.entries@) + list_of(before@, device).len() == count_files(
            before.map.entries@,
        ),
        list_of(after@, device).len() == 0,
        after@.remove(device) == after@,
{
    law_table_reads_back(before);
    law_table_reads_back(after);
    lemma_count_without(before.map.entries@, after.map.entries@, device);
    assert(after@.remove(device) =~= after@);
}

/// Replacing the same records by the same ones twice changes nothing the
/// second time.
pub proof fn law_set_files_is_idempotent(
    m: Map<Seq<char>, Seq<RecordView>>,
    device: Seq<char>,
    remove: Seq<IdentityView>,
    keep: Seq<RecordView>,
)
    requires
        forall|i: int| 0 <= i < keep.len() ==> remove.contains((#[trigger] keep[i]).id),
    ensures
        with_files(with_files(m, device, remove, keep), device, remove, keep) == with_files(
            m,
            device,
            remove,
            keep,
        ),
{
    let p = |r: RecordView| !remove.contains(r.id);
    let list = list_of(m, device);
    let head = list.filter(p);
    let once = head + keep;
    Seq::filter_distributes_over_add(head, keep, p);
    lemma_filter_all(head, p, list);
    lemma_filter_none(keep, p);
    assert(once.filter(p) =~= head);
    let first = with_files(m, device, remove, keep);
    let second = with_files(first, device, remove, keep);
    if once.len() == 0 {
        assert(first =~= m.remove(device));
        assert(list_of(first, device) =~= Seq::<RecordView>::empty());
        lemma_filter_none(Seq::<RecordView>::empty(), p);
        assert(keep =~= Seq::<RecordView>::empty());
        assert(replaced(Seq::<RecordView>::empty(), remove, keep).len() == 0);
        assert(second =~= first);
    } else {
        assert(list_of(first, device) == once);
        assert(second =~= first);
    }
}

proof fn lemma_filter_all(
    s: Seq<RecordView>,
    p: spec_fn(RecordView) -> bool,
    from: Seq<RecordView>,
)
    requires
        s == from.filter(p),
    ensures
        s.filter(p) == s,
    decreases from.len(),
{
    reveal(Seq::filter);
    if from.len() > 0 {
        let rest = from.drop_last();
        lemma_filter_all(rest.filter(p), p, rest);
        if p(from.last()) {
            assert(s.drop_last() =~= rest.filter(p));
            assert(s.filter(p) =~= s);
        }
    }
}

proof fn lemma_filter_none(s: Seq<RecordView>, p: spec_fn(RecordView) -> bool)
    requires
        forall|i: int| 0 <= i < s.len() ==> !p(#[trigger] s[i]),
    ensures
        s.filter(p) == Seq::<RecordView>::empty(),
    decreases s.len(),
{
    reveal(Seq::filter);
    if s.len() > 0 {
        assert forall|i: int| 0 <= i < s.drop_last().len() implies !p(
            #[trigger] s.drop_last()[i],
        ) by {
            assert(s.drop_last()[i] == s[i]);
        }
        lemma_filter_none(s.drop_last(), p);
        assert(!p(s[s.len() - 1]));
    }
}

} // verus!
