//! What is remembered of unfinished files.

use vstd::prelude::*;

use crate::commands::{discard_partials, list_partials, PartialDto};
use crate::laws::pictures::{left_of, lemma_filter_is_left};
use crate::partials::{
    find_record, identities, records, FileIdentity, IdentityView, PartialRecord, PartialsSnapshot,
    PartialsStore, RecordView, StoredTable, WriteGate,
};
use crate::sanitize::texts;

verus! {

/// Two checksums are the same, or both are missing.
pub open spec fn same_text(a: Option<String>, b: Option<String>) -> bool {
    match (a, b) {
        (Some(x), Some(y)) => x@ == y@,
        (None, None) => true,
        _ => false,
    }
}

/// The same file: its name, its length and its checksum agree.
pub open spec fn same_file(id: FileIdentity, r: PartialRecord) -> bool {
    id.rel@ == r.rel@ && id.size == r.size && same_text(id.sha256, r.sha256)
}

/// A record is of a file by all three of name, length and checksum.
pub proof fn law_file_is_known_by_name_length_and_checksum(
    id: &FileIdentity,
    r: &PartialRecord,
    b: bool,
    own: FileIdentity,
)
    requires
        call_ensures(FileIdentity::matches, (id, r), b),
        call_ensures(PartialRecord::identity, (r,), own),
    ensures
        b == same_file(*id, *r),
        same_file(own, *r),
{
}

proof fn lemma_find(list: Seq<RecordView>, id: IdentityView)
    ensures
        match find_record(list, id) {
            Some(x) => exists|k: int|
                {
                    &&& 0 <= k < list.len() && #[trigger] list[k] == x && x.id == id
                    &&& forall|i: int| 0 <= i < k ==> (#[trigger] list[i]).id != id
                },
            None => forall|i: int| 0 <= i < list.len() ==> (#[trigger] list[i]).id != id,
        },
    decreases list.len(),
{
    if list.len() > 0 {
        if list[0].id == id {
            assert(list[0] == find_record(list, id)->0);
        } else {
            let rest = list.drop_first();
            lemma_find(rest, id);
            match find_record(rest, id) {
                Some(x) => {
                    let k = choose|k: int|
                        {
                            &&& 0 <= k < rest.len() && #[trigger] rest[k] == x && x.id == id
                            &&& forall|i: int| 0 <= i < k ==> (#[trigger] rest[i]).id != id
                        };
                    assert(list[k + 1] == x);
                    assert forall|i: int| 0 <= i < k + 1 implies (#[trigger] list[i]).id != id by {
                        if i > 0 {
                            assert(rest[i - 1] == list[i]);
                        }
                    }
                },
                None => {
                    assert forall|i: int| 0 <= i < list.len() implies (#[trigger] list[i]).id
                        != id by {
                        if i > 0 {
                            assert(rest[i - 1] == list[i]);
                        }
                    }
                },
            }
        }
    }
}

/// Looking a file up finds the first record of it among those of the device, and
/// nothing exactly when there is none.
pub proof fn law_lookup_finds_the_first_record(
    s: &PartialsStore,
    device: &str,
    id: &FileIdentity,
    r: Option<PartialRecord>,
)
    requires
        call_ensures(PartialsStore::lookup, (s, device, id), r),
    ensures
        r is None <==> forall|i: int|
            0 <= i < of_device(s@, device@).len() ==> (#[trigger] of_device(s@, device@)[i]).id != id@,
        r matches Some(x) ==> {
            &&& same_file(*id, x)
            &&& exists|k: int|
                {
                    &&& 0 <= k < of_device(s@, device@).len()
                    &&& #[trigger] of_device(s@, device@)[k] == x@
                    &&& forall|i: int|
                        0 <= i < k ==> (#[trigger] of_device(s@, device@)[i]).id != id@
                }
        },
{
    lemma_find(of_device(s@, device@), id@);
}

/// What is known of one device.
pub open spec fn of_device(m: Map<Seq<char>, Seq<RecordView>>, device: Seq<char>) -> Seq<RecordView> {
    if m.contains_key(device) {
        m[device]
    } else {
        Seq::empty()
    }
}

/// Every other device is what it was.
pub open spec fn others_keep(
    before: Map<Seq<char>, Seq<RecordView>>,
    after: Map<Seq<char>, Seq<RecordView>>,
    device: Seq<char>,
) -> bool {
    &&& forall|d: Seq<char>| d != device ==> (#[trigger] after.contains_key(d) == before.contains_key(d))
    &&& forall|d: Seq<char>| d != device && before.contains_key(d) ==> #[trigger] after[d] == before[d]
}

/// `now` is `was` without the records of the removed files, in order, and then
/// the kept records.
pub open spec fn updated(
    was: Seq<RecordView>,
    remove: Seq<IdentityView>,
    keep: Seq<RecordView>,
    now: Seq<RecordView>,
) -> bool {
    exists|part: Seq<RecordView>|
        #[trigger] still_there(was, remove, part) && now == part + keep
}

pub open spec fn still_there(
    was: Seq<RecordView>,
    remove: Seq<IdentityView>,
    part: Seq<RecordView>,
) -> bool {
    left_of(was, |r: RecordView| remove.contains(r.id), part)
}

/// Setting the files of a device drops its records of the removed files, adds
/// the kept ones behind the others, and touches no other device. A device
/// without records is not kept. The change is reported, and counted, exactly
/// when the device's records are not what they were.
pub proof fn law_set_files_replaces_the_records(
    s: &mut PartialsStore,
    device: &str,
    remove: &[FileIdentity],
    keep: Vec<PartialRecord>,
    changed: bool,
)
    requires
        call_ensures(PartialsStore::set_files, (s, device, remove, keep), changed),
    ensures
        others_keep(old(s)@, final(s)@, device@),
        keep@.len() > 0 || old(s)@.contains_key(device@) ==> updated(
            of_device(old(s)@, device@),
            identities(remove@),
            records(keep@),
            of_device(final(s)@, device@),
        ) && (final(s)@.contains_key(device@) <==> of_device(final(s)@, device@).len() > 0),
        keep@.len() == 0 && !old(s)@.contains_key(device@) ==> final(s)@ == old(s)@,
        changed <==> old(s)@.contains_key(device@) != final(s)@.contains_key(device@) || of_device(
            old(s)@,
            device@,
        ) != of_device(final(s)@, device@),
        changed ==> final(s).seq == old(s).seq + 1,
        !changed ==> final(s).seq == old(s).seq,
        final(s).path == old(s).path,
{
    let was = of_device(old(s)@, device@);
    let ids = identities(remove@);
    let p = |r: RecordView| !ids.contains(r.id);
    lemma_filter_is_left(was, p, |r: RecordView| ids.contains(r.id));
    let list = crate::partials::replaced(was, ids, records(keep@));
    assert(still_there(was, ids, was.filter(p)));
    assert(records(keep@).len() == keep@.len());
    if list.len() == 0 {
        assert(list =~= Seq::empty());
    }
}

/// Clearing a device hands out its records and forgets it; so does discarding,
/// which hands out the paths. What is left is the rest.
pub proof fn law_cleared_device_hands_out_its_records(
    s: &mut PartialsStore,
    device: &str,
    r: Vec<PartialRecord>,
    t: &mut PartialsStore,
    paths: Option<Vec<String>>,
)
    requires
        call_ensures(PartialsStore::clear_device, (s, device), r),
        call_ensures(discard_partials, (t, device), paths),
    ensures
        !final(s)@.contains_key(device@) && others_keep(old(s)@, final(s)@, device@),
        records(r@) == of_device(old(s)@, device@),
        final(s).seq == old(s).seq + if old(s)@.contains_key(device@) {
            1int
        } else {
            0
        },
        !final(t)@.contains_key(device@) && others_keep(old(t)@, final(t)@, device@),
        paths is None <==> of_device(old(t)@, device@).len() == 0,
        paths matches Some(v) ==> v@.len() == of_device(old(t)@, device@).len() && forall|i: int|
            0 <= i < v@.len() ==> (#[trigger] v@[i])@ == of_device(old(t)@, device@)[i].disk_rel,
{
    match paths {
        Some(v) => {
            let all = of_device(old(t)@, device@);
            assert(texts(v@).len() == v@.len());
            assert(crate::commands::disk_paths(all).len() == all.len());
            assert forall|i: int| 0 <= i < v@.len() implies (#[trigger] v@[i])@ == all[i].disk_rel by {
                assert(texts(v@)[i] == crate::commands::disk_paths(all)[i]);
            }
        },
        None => {},
    }
}

/// A store counts the records of all its devices: clearing one takes as many
/// away as it hands out.
pub proof fn law_store_counts_all_records(
    s: &mut PartialsStore,
    device: &str,
    r: Vec<PartialRecord>,
    before: &PartialsStore,
    after: &PartialsStore,
    n: usize,
    m: usize,
    none: bool,
)
    requires
        call_ensures(PartialsStore::clear_device, (s, device), r),
        *before == *old(s) && *after == *final(s),
        call_ensures(PartialsStore::len, (before,), n),
        call_ensures(PartialsStore::len, (after,), m),
        call_ensures(PartialsStore::is_empty, (before,), none),
    ensures
        n < usize::MAX ==> m + r@.len() == n,
        none <==> forall|d: Seq<char>| #[trigger]
            old(s)@.contains_key(d) ==> old(s)@[d].len() == 0,
{
}

/// A store without devices counts nothing, and one device with records counts
/// them.
pub proof fn law_count_of_one_device(s: &PartialsStore, n: usize)
    requires
        call_ensures(PartialsStore::len, (s,), n),
    ensures
        s.map.entries@.len() == 0 ==> n == 0,
        s.map.entries@.len() == 1 ==> n == s.map.entries@[0].1@.len(),
{
    reveal_with_fuel(crate::partials::count_files, 2);
    if s.map.entries@.len() == 1 {
        assert(s.map.entries@.drop_last().len() == 0);
        assert(s.map.entries@.last() == s.map.entries@[0]);
        assert(s.map.entries@[0].1@.len() == s.map.entries@[0].1.len());
    }
}

/// Of a stored table the last entry of a device counts, and the other devices
/// are those of the entries before; a missing or broken table is empty.
pub proof fn law_last_stored_entry_counts(
    path: String,
    v: Vec<(String, Vec<PartialRecord>)>,
    w: Vec<(String, Vec<PartialRecord>)>,
    device: String,
    list: Vec<PartialRecord>,
    a: PartialsStore,
    b: PartialsStore,
    c: PartialsStore,
    d: PartialsStore,
)
    requires
        w@ == v@.push((device, list)),
        call_ensures(PartialsStore::load, (path, StoredTable::Parsed(v)), a),
        call_ensures(PartialsStore::load, (path, StoredTable::Parsed(w)), b),
        call_ensures(PartialsStore::load, (path, StoredTable::Missing), c),
        call_ensures(PartialsStore::load, (path, StoredTable::Broken), d),
    ensures
        b@.contains_key(device@) && b@[device@] == records(list@),
        others_keep(a@, b@, device@),
        v@.len() == 0 ==> forall|k: Seq<char>| !(#[trigger] a@.contains_key(k)),
        forall|k: Seq<char>| !(#[trigger] c@.contains_key(k)) && !d@.contains_key(k),
        a.seq == 0 && a.path@ == path@,
{
    assert(w@.drop_last() =~= v@);
    assert(w@.last() == (device, list));
}

/// A state is written unless a later one was: once a state is on disk, no
/// earlier one is written over it; and a write that failed leaves the mark.
pub proof fn law_later_state_wins(
    s: &PartialsStore,
    json: Option<String>,
    snap: Option<PartialsSnapshot>,
    p: &PartialsSnapshot,
    gate: &mut WriteGate,
    written: bool,
    q: &PartialsSnapshot,
    g: &WriteGate,
    current: bool,
)
    requires
        call_ensures(PartialsStore::snapshot, (s, json), snap),
        call_ensures(PartialsSnapshot::settle, (p, gate, written), ()),
        *g == *final(gate),
        call_ensures(PartialsSnapshot::is_current, (q, g), current),
    ensures
        snap is Some <==> json is Some,
        snap matches Some(x) ==> x.json@ == json->0@ && x.seq == s.seq && x.path@ == s.path@,
        written && p.seq >= old(gate).last_written ==> final(gate).last_written == p.seq && (
        current <==> q.seq >= p.seq),
        !written || p.seq < old(gate).last_written ==> *final(gate) == *old(gate),
        current <==> q.seq >= final(gate).last_written,
{
}

/// The list of unfinished files names each by the last part of its path, with
/// how much of it is there, under its device.
pub proof fn law_unfinished_files_are_listed(
    s: &PartialsStore,
    r: Vec<PartialDto>,
    e: int,
    k: int,
)
    requires
        call_ensures(list_partials, (s,), r),
        0 <= e < s.map.entries@.len(),
        0 <= k < s.map.entries@[e].1@.len(),
    ensures
        ({
            let f = s.map.entries@[e].1@[k];
            exists|i: int|
                {
                    &&& 0 <= i < r@.len() && (#[trigger] r@[i]).device_id@ == s.map.entries@[e].0@
                    &&& r@[i].written == f.bytes_written && r@[i].size == f.size
                    &&& last_part(r@[i].name@, f.disk_rel@)
                }
        }),
{
    let all = crate::commands::all_records(s.map.entries@);
    lemma_all_records(s.map.entries@, e, k);
    let f = s.map.entries@[e].1@[k];
    let i = choose|i: int| 0 <= i < all.len() && #[trigger] all[i] == (s.map.entries@[e].0@, f);
    assert(crate::commands::shows_partial(r@[i], all[i].0, all[i].1));
    crate::laws::texts::lemma_last_index(f.disk_rel@, '/');
}

/// `name` is what follows the last `/` of `path`.
pub open spec fn last_part(name: Seq<char>, path: Seq<char>) -> bool {
    &&& name.len() <= path.len() && name == path.subrange(
        path.len() - name.len(),
        path.len() as int,
    )
    &&& forall|i: int| 0 <= i < name.len() ==> #[trigger] name[i] != '/'
    &&& name.len() < path.len() ==> path[path.len() - name.len() - 1] == '/'
}

proof fn lemma_all_records(entries: Seq<(String, Vec<PartialRecord>)>, e: int, k: int)
    requires
        0 <= e < entries.len(),
        0 <= k < entries[e].1@.len(),
    ensures
        exists|i: int|
            0 <= i < crate::commands::all_records(entries).len()
                && #[trigger] crate::commands::all_records(entries)[i] == (
            entries[e].0@,
            entries[e].1@[k],
        ),
    decreases entries.len(),
{
    let rest = entries.drop_last();
    let before = crate::commands::all_records(rest);
    let all = crate::commands::all_records(entries);
    if e < rest.len() {
        lemma_all_records(rest, e, k);
        let i = choose|i: int|
            0 <= i < before.len() && #[trigger] before[i] == (rest[e].0@, rest[e].1@[k]);
        assert(all[i] == before[i]);
    } else {
        assert(all[before.len() + k] == (entries[e].0@, entries[e].1@[k]));
    }
}

/// There are as many listed files as records.
pub proof fn law_every_record_is_listed_once(s: &PartialsStore, r: Vec<PartialDto>, n: usize)
    requires
        call_ensures(list_partials, (s,), r),
        call_ensures(PartialsStore::len, (s,), n),
        n < usize::MAX,
    ensures
        r@.len() == n,
{
    lemma_all_count(s.map.entries@);
}

proof fn lemma_all_count(entries: Seq<(String, Vec<PartialRecord>)>)
    ensures
        crate::commands::all_records(entries).len() == crate::partials::count_files(entries),
    decreases entries.len(),
{
    if entries.len() > 0 {
        lemma_all_count(entries.drop_last());
    }
}

/// The mathematical form of a record has all its fields, and that of a store has
/// the records of every device in order.
pub proof fn law_views_show_every_field(r: PartialRecord, id: FileIdentity, s: PartialsStore, e: int, k: int)
    requires
        s.wf(),
        0 <= e < s.map.entries@.len(),
        0 <= k < s.map.entries@[e].1@.len(),
    ensures
        r@.id.rel == r.rel@ && r@.id.size == r.size && r@.disk_rel == r.disk_rel@
            && r@.bytes_written == r.bytes_written,
        r.sha256 is Some <==> r@.id.sha256 is Some,
        r.sha256 is Some ==> r@.id.sha256->0 == r.sha256->0@,
        id@.rel == id.rel@ && id@.size == id.size,
        id.sha256 is Some <==> id@.sha256 is Some,
        id.sha256 is Some ==> id@.sha256->0 == id.sha256->0@,
        of_device(s@, s.map.entries@[e].0@).len() == s.map.entries@[e].1@.len(),
        of_device(s@, s.map.entries@[e].0@)[k] == s.map.entries@[e].1@[k]@,
{
    crate::keymap::lemma_entry(s.map.entries@, e);
}

} // verus!
