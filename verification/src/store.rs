//! The entry store: one partition of entries per calendar date.
//!
//! [`LogManager`] is the ledger the rest of the crate works against: a
//! sequence of partitions kept in most-recent-first order, each holding
//! the entries of one date in insertion order, never empty.  Its view is
//! the map from date to entry shapes; every operation's contract is
//! stated over that map.  Loading partitions from disk and writing them
//! back is the caller's side; [`crate::codec`] gives it the file format.

use crate::clock::{partition_date_of, rfc3339_ok};
use crate::date::{date_str, Date};
use crate::entry::{eseq, LogEntry, LogEntryV};
use crate::errors::AppError;
use crate::settings::Settings;
use vstd::prelude::*;

verus! {

/// The entries of one calendar date, in insertion order.
pub struct Partition {
    pub date: Date,
    pub entries: Vec<LogEntry>,
}

/// The per-day entry store.
pub struct LogManager {
    pub settings: Settings,
    pub partitions: Vec<Partition>,
}

impl LogManager {
    /// The dates of the partitions, most recent first.
    pub open spec fn dates(self) -> Seq<Date> {
        Seq::new(
            self.partitions@.len(),
            |k: int|
                if 0 <= k < self.partitions@.len() {
                    self.partitions@[k].date
                } else {
                    Date { year: 0, month: 0, day: 0 }
                },
        )
    }

    /// Whether a partition for `d` exists.
    pub open spec fn has_date(self, d: Date) -> bool {
        exists|k: int|
            0 <= k < self.partitions@.len() && (#[trigger] self.partitions@[k]).date == d
    }

    /// The index of the partition for `d`.
    pub open spec fn idx_of(self, d: Date) -> int {
        choose|k: int|
            0 <= k < self.partitions@.len() && (#[trigger] self.partitions@[k]).date == d
    }

    /// The store's meaning: a map from date to that date's entry shapes.
    pub open spec fn view(self) -> Map<Date, Seq<LogEntryV>> {
        Map::new(
            |d: Date| self.has_date(d),
            |d: Date| eseq(self.partitions@[self.idx_of(d)].entries@),
        )
    }

    /// Valid dates, strictly descending (hence unique), no partition
    /// empty.
    pub open spec fn wf(self) -> bool {
        &&& forall|k: int|
            0 <= k < self.partitions@.len() ==> (#[trigger] self.partitions@[k]).date.wf()
        &&& forall|k1: int, k2: int|
            0 <= k1 < k2 < self.partitions@.len()
                ==> (#[trigger] self.partitions@[k1]).date.day_number()
                > (#[trigger] self.partitions@[k2]).date.day_number()
        &&& forall|k: int|
            0 <= k < self.partitions@.len() ==> (#[trigger] self.partitions@[k]).entries@.len()
                > 0
    }

    /// In a well-formed store the partition of a date is unique, and
    /// `idx_of` finds it.
    pub proof fn lemma_idx_of(self, d: Date)
        requires
            self.wf(),
            self.has_date(d),
        ensures
            0 <= self.idx_of(d) < self.partitions@.len(),
            self.partitions@[self.idx_of(d)].date == d,
            forall|k: int|
                0 <= k < self.partitions@.len() && (#[trigger] self.partitions@[k]).date == d
                    ==> k == self.idx_of(d),
    {
        let i = self.idx_of(d);
        assert(0 <= i < self.partitions@.len() && self.partitions@[i].date == d);
        assert forall|k: int|
            0 <= k < self.partitions@.len() && (#[trigger] self.partitions@[k]).date == d
            implies k == i by {
            if k != i {
                crate::date::lemma_le_day_number(self.partitions@[k].date, self.partitions@[i].date);
            }
        }
    }

    /// A new, empty store over the given settings.
    pub fn new(settings: Settings) -> (r: LogManager)
        ensures
            r.wf(),
            r@ == Map::<Date, Seq<LogEntryV>>::empty(),
            r.settings == settings,
    {
        let r = LogManager { settings, partitions: Vec::new() };
        proof {
            assert(r@ =~= Map::<Date, Seq<LogEntryV>>::empty());
        }
        r
    }

    /// The settings the store was created with.
    pub fn settings(&self) -> (r: &Settings)
        ensures
            r == self.settings,
    {
        &self.settings
    }

    /// The entries recorded for a date, in insertion order; empty when
    /// the date has no partition.
    pub fn get_entries_for_date(&self, date: &Date) -> (r: Vec<LogEntry>)
        requires
            self.wf(),
        ensures
            self@.contains_key(*date) ==> eseq(r@) == self@[*date],
            !self@.contains_key(*date) ==> r@.len() == 0,
    {
        let n = self.partitions.len();
        let mut k: usize = 0;
        while k < n
            invariant
                self.wf(),
                n == self.partitions@.len(),
                k <= n,
                forall|x: int| 0 <= x < k ==> (#[trigger] self.partitions@[x]).date != *date,
            decreases n - k,
        {
            if self.partitions[k].date == *date {
                let part = &self.partitions[k];
                let mut out: Vec<LogEntry> = Vec::new();
                let mut i: usize = 0;
                while i < part.entries.len()
                    invariant
                        part == self.partitions@[k as int],
                        i <= part.entries@.len(),
                        out@.len() == i,
                        forall|x: int|
                            0 <= x < i ==> (#[trigger] out@[x])@ == part.entries@[x]@,
                    decreases part.entries@.len() - i,
                {
                    out.push(part.entries[i].duplicate());
                    i = i + 1;
                }
                proof {
                    assert(self.has_date(*date));
                    self.lemma_idx_of(*date);
                    assert(self.idx_of(*date) == k as int);
                    assert(eseq(out@) =~= eseq(part.entries@));
                }
                return out;
            }
            k = k + 1;
        }
        proof {
            assert(!self.has_date(*date));
        }
        Vec::new()
    }
}

/// What adding one entry does to a store's map: the entry is appended
/// to its date's sequence, which is created if absent.
pub open spec fn map_add(m: Map<Date, Seq<LogEntryV>>, d: Date, ev: LogEntryV) -> Map<
    Date,
    Seq<LogEntryV>,
> {
    m.insert(
        d,
        if m.contains_key(d) {
            m[d].push(ev)
        } else {
            seq![ev]
        },
    )
}

impl LogManager {
    /// The position a partition for `date` holds or would hold in the
    /// descending order.
    fn find_slot(&self, date: &Date) -> (r: usize)
        requires
            self.wf(),
            date.wf(),
        ensures
            r <= self.partitions@.len(),
            forall|k: int|
                0 <= k < r ==> (#[trigger] self.partitions@[k]).date.day_number()
                    > date.day_number(),
            r < self.partitions@.len() ==> self.partitions@[
                r as int
            ].date.day_number() <= date.day_number(),
    {
        let n = self.partitions.len();
        let mut k: usize = 0;
        while k < n
            invariant
                self.wf(),
                date.wf(),
                n == self.partitions@.len(),
                k <= n,
                forall|x: int|
                    0 <= x < k ==> (#[trigger] self.partitions@[x]).date.day_number()
                        > date.day_number(),
            decreases n - k,
        {
            if self.partitions[k].date.le(date) {
                proof {
                    crate::date::lemma_le_day_number(self.partitions@[k as int].date, *date);
                }
                return k;
            }
            proof {
                crate::date::lemma_le_day_number(self.partitions@[k as int].date, *date);
            }
            k = k + 1;
        }
        n
    }

    /// When `find_slot` does not land on `date` itself, no partition for
    /// `date` exists.
    proof fn lemma_slot_absent(self, date: Date, r: int)
        requires
            self.wf(),
            date.wf(),
            0 <= r <= self.partitions@.len(),
            forall|k: int|
                0 <= k < r ==> (#[trigger] self.partitions@[k]).date.day_number()
                    > date.day_number(),
            r < self.partitions@.len() ==> self.partitions@[r].date.day_number()
                < date.day_number(),
        ensures
            !self.has_date(date),
    {
        assert forall|k: int|
            0 <= k < self.partitions@.len() implies (#[trigger] self.partitions@[k]).date
            != date by {
            crate::date::lemma_le_day_number(self.partitions@[k].date, date);
        }
    }

    /// Appends an entry to the partition of the given date, creating the
    /// partition in its place in the order if it is new.
    pub fn add_entry_at(&mut self, date: Date, entry: LogEntry)
        requires
            old(self).wf(),
            date.wf(),
        ensures
            final(self).wf(),
            final(self)@ == map_add(old(self)@, date, entry@),
            final(self).settings == old(self).settings,
    {
        let ghost m0 = *old(self);
        let r = self.find_slot(&date);
        let hit = r < self.partitions.len() && self.partitions[r].date == date;
        if hit {
            let part = self.partitions.remove(r);
            let mut entries = part.entries;
            entries.push(entry);
            let ghost newent = entries@;
            self.partitions.insert(r, Partition { date: part.date, entries });
            proof {
                assert(self.partitions@ =~= m0.partitions@.update(
                    r as int,
                    Partition { date, entries: self.partitions@[r as int].entries },
                ));
                assert(forall|k: int|
                    0 <= k < self.partitions@.len() ==> (#[trigger] self.partitions@[k]).date
                        == m0.partitions@[k].date);
                assert(forall|k: int|
                    0 <= k < self.partitions@.len() && k != r ==> self.partitions@[k]
                        == m0.partitions@[k]);
                assert forall|d: Date| self.has_date(d) == m0.has_date(d) by {
                    if m0.has_date(d) {
                        let k = m0.idx_of(d);
                        assert(self.partitions@[k].date == d);
                    }
                    if self.has_date(d) {
                        let k = choose|k: int|
                            0 <= k < self.partitions@.len() && (#[trigger] self.partitions@[
                                k
                            ]).date == d;
                        assert(m0.partitions@[k].date == d);
                    }
                }
                assert(m0.has_date(date));
                m0.lemma_idx_of(date);
                assert(m0.idx_of(date) == r as int);
                assert(eseq(newent) =~= m0@[date].push(entry@));
                assert forall|d: Date| #[trigger] self@.contains_key(d) implies self@[d]
                    == map_add(m0@, date, entry@)[d] by {
                    self.lemma_idx_of(d);
                    m0.lemma_idx_of(d);
                    if d == date {
                        assert(self.idx_of(d) == r as int);
                    } else {
                        assert(m0.idx_of(d) != r as int);
                        assert(self.idx_of(d) == m0.idx_of(d));
                    }
                }
                assert(self@ =~= map_add(m0@, date, entry@));
            }
        } else {
            proof {
                if r < self.partitions@.len() {
                    crate::date::lemma_le_day_number(self.partitions@[r as int].date, date);
                }
                m0.lemma_slot_absent(date, r as int);
            }
            let mut entries: Vec<LogEntry> = Vec::new();
            entries.push(entry);
            self.partitions.insert(r, Partition { date, entries });
            proof {
                let ps = self.partitions@;
                let old_ps = m0.partitions@;
                assert(ps.len() == old_ps.len() + 1);
                assert(forall|k: int| 0 <= k < r ==> #[trigger] ps[k] == old_ps[k]);
                assert(ps[r as int].date == date);
                assert(forall|k: int|
                    r < k < ps.len() ==> #[trigger] ps[k] == old_ps[k - 1]);
                // order is kept around the inserted slot
                assert forall|k1: int, k2: int|
                    0 <= k1 < k2 < ps.len() implies (#[trigger] ps[k1]).date.day_number() > (
                #[trigger] ps[k2]).date.day_number() by {
                    if k2 < r as int {
                    } else if k1 < r as int && k2 == r as int {
                    } else if k1 == r as int {
                        assert(ps[k2] == old_ps[k2 - 1]);
                        if k2 - 1 > r as int {
                            assert(old_ps[k2 - 1].date.day_number() < old_ps[
                                r as int
                            ].date.day_number());
                        }
                    } else if k1 > r as int {
                    } else {
                        // k1 < r < k2
                        assert(ps[k1] == old_ps[k1]);
                        assert(ps[k2] == old_ps[k2 - 1]);
                        if k1 < k2 - 1 {
                        } else {
                            assert(k1 == k2 - 1);
                            assert(k1 < r as int && k2 - 1 >= r as int);
                            assert(false);
                        }
                    }
                }
                assert(self.wf());
                // the new date is present, everything else is untouched
                assert(self.has_date(date));
                self.lemma_idx_of(date);
                assert(self.idx_of(date) == r as int);
                assert(!m0.has_date(date));
                assert forall|d: Date| d != date implies self.has_date(d) == m0.has_date(d) by {
                    if m0.has_date(d) {
                        let k = m0.idx_of(d);
                        if k < r as int {
                            assert(ps[k].date == d);
                        } else {
                            assert(ps[k + 1].date == d);
                        }
                    }
                    if self.has_date(d) {
                        let k = choose|k: int|
                            0 <= k < ps.len() && (#[trigger] ps[k]).date == d;
                        if k < r as int {
                            assert(old_ps[k].date == d);
                        } else {
                            assert(k != r as int);
                            assert(old_ps[k - 1].date == d);
                        }
                    }
                }
                assert(eseq(self.partitions@[r as int].entries@) =~= seq![entry@]);
                assert forall|d: Date| #[trigger] self@.contains_key(d) implies self@[d]
                    == map_add(m0@, date, entry@)[d] by {
                    self.lemma_idx_of(d);
                    if d != date {
                        m0.lemma_idx_of(d);
                        let k0 = m0.idx_of(d);
                        if k0 < r as int {
                            assert(ps[k0].date == d);
                            assert(self.idx_of(d) == k0);
                        } else {
                            assert(ps[k0 + 1].date == d);
                            assert(self.idx_of(d) == k0 + 1);
                        }
                    }
                }
                assert(self@ =~= map_add(m0@, date, entry@));
            }
        }
    }

    /// Adds an entry under the date derived from its `created_at` text,
    /// as the data model requires.  Fails, leaving the store unchanged,
    /// exactly when that text is not a usable timestamp.
    pub fn add_entry(&mut self, entry: LogEntry) -> (r: Result<(), AppError>)
        requires
            old(self).wf(),
        ensures
            final(self).wf(),
            final(self).settings == old(self).settings,
            (match r {
                Ok(()) => rfc3339_ok(entry@.created_at) && exists|d: Date|
                    d.wf() && final(self)@ == map_add(old(self)@, d, entry@),
                Err(e) => final(self)@ == old(self)@ && e matches AppError::StorageError { .. },
            }),
            !rfc3339_ok(entry@.created_at) ==> r is Err,
    {
        match partition_date_of(entry.created_at.as_str()) {
            Some(d) => {
                self.add_entry_at(d, entry);
                Ok(())
            }
            None => Err(add_date_error()),
        }
    }
}

/// The position of the first entry carrying `id`, or -1 when none does.
pub open spec fn find_id(evs: Seq<LogEntryV>, id: Seq<char>) -> int
    decreases evs.len(),
{
    if evs.len() == 0 {
        -1
    } else if evs[0].id == id {
        0
    } else {
        let r = find_id(evs.drop_first(), id);
        if r == -1 {
            -1
        } else {
            r + 1
        }
    }
}

/// What `find_id` returns, characterised without recursion.
pub proof fn lemma_find_id_props(evs: Seq<LogEntryV>, id: Seq<char>)
    ensures
        find_id(evs, id) == -1 ==> forall|k: int| 0 <= k < evs.len() ==> (#[trigger] evs[k]).id
            != id,
        find_id(evs, id) != -1 ==> 0 <= find_id(evs, id) < evs.len() && evs[find_id(evs, id)].id
            == id && forall|k: int| 0 <= k < find_id(evs, id) ==> (#[trigger] evs[k]).id != id,
    decreases evs.len(),
{
    if evs.len() > 0 && evs[0].id != id {
        lemma_find_id_props(evs.drop_first(), id);
        let fd = find_id(evs.drop_first(), id);
        if fd == -1 {
            assert forall|k: int| 0 <= k < evs.len() implies (#[trigger] evs[k]).id != id by {
                if k > 0 {
                    assert(evs.drop_first()[k - 1] == evs[k]);
                }
            }
        } else {
            assert(evs.drop_first()[fd] == evs[fd + 1]);
            assert forall|k: int|
                0 <= k < find_id(evs, id) implies (#[trigger] evs[k]).id != id by {
                if k > 0 {
                    assert(evs.drop_first()[k - 1] == evs[k]);
                }
            }
        }
    }
}

/// `find_id` finds a match at `i` when the entries before `i` miss.
pub proof fn lemma_find_id_at(evs: Seq<LogEntryV>, id: Seq<char>, i: int)
    requires
        0 <= i < evs.len(),
        evs[i].id == id,
        forall|k: int| 0 <= k < i ==> (#[trigger] evs[k]).id != id,
    ensures
        find_id(evs, id) == i,
    decreases i,
{
    if i > 0 {
        assert(forall|k: int|
            0 <= k < evs.drop_first().len() ==> #[trigger] evs.drop_first()[k] == evs[k + 1]);
        lemma_find_id_at(evs.drop_first(), id, i - 1);
    }
}

/// `find_id` misses when every entry does.
pub proof fn lemma_find_id_none(evs: Seq<LogEntryV>, id: Seq<char>)
    requires
        forall|k: int| 0 <= k < evs.len() ==> (#[trigger] evs[k]).id != id,
    ensures
        find_id(evs, id) == -1,
    decreases evs.len(),
{
    if evs.len() > 0 {
        assert(forall|k: int|
            0 <= k < evs.drop_first().len() ==> #[trigger] evs.drop_first()[k] == evs[k + 1]);
        lemma_find_id_none(evs.drop_first(), id);
    }
}

/// What replacing one entry does to a store's map: the first entry with
/// the new entry's id is overwritten in place.
pub open spec fn map_update(m: Map<Date, Seq<LogEntryV>>, d: Date, ev: LogEntryV) -> Map<
    Date,
    Seq<LogEntryV>,
> {
    m.insert(d, m[d].update(find_id(m[d], ev.id), ev))
}

/// The test an entry must pass to survive deleting `id`.
pub open spec fn keep_pred(id: Seq<char>) -> spec_fn(LogEntryV) -> bool {
    |ev: LogEntryV| ev.id != id
}

/// The entries of a partition that survive deleting an id.
pub open spec fn surviving(evs: Seq<LogEntryV>, id: Seq<char>) -> Seq<LogEntryV> {
    evs.filter(keep_pred(id))
}

/// What deleting an id does to a store's map: every entry carrying it
/// leaves, and a partition left empty leaves whole.
pub open spec fn map_delete(m: Map<Date, Seq<LogEntryV>>, d: Date, id: Seq<char>) -> Map<
    Date,
    Seq<LogEntryV>,
> {
    if surviving(m[d], id).len() == 0 {
        m.remove(d)
    } else {
        m.insert(d, surviving(m[d], id))
    }
}

/// Finds the first entry carrying `id`.
fn find_entry_idx(entries: &Vec<LogEntry>, id: &str) -> (r: Option<usize>)
    ensures
        (match r {
            Some(i) => i < entries@.len() && find_id(eseq(entries@), id@) == i as int,
            None => find_id(eseq(entries@), id@) == -1,
        }),
{
    let n = entries.len();
    let mut i: usize = 0;
    while i < n
        invariant
            n == entries@.len(),
            i <= n,
            forall|k: int| 0 <= k < i ==> (#[trigger] eseq(entries@)[k]).id != id@,
        decreases n - i,
    {
        if crate::text::str_eq(entries[i].id.as_str(), id) {
            proof {
                lemma_find_id_at(eseq(entries@), id@, i as int);
            }
            return Some(i);
        }
        i = i + 1;
    }
    proof {
        lemma_find_id_none(eseq(entries@), id@);
    }
    None
}

impl LogManager {
    /// Replaces, in place, the first entry of `date`'s partition that
    /// carries the new entry's id.  Fails with a not-found error, leaving
    /// the store unchanged, exactly when the partition or the id is
    /// absent.
    pub fn update_entry_at(&mut self, date: Date, entry: LogEntry) -> (r: Result<(), AppError>)
        requires
            old(self).wf(),
            date.wf(),
        ensures
            final(self).wf(),
            final(self).settings == old(self).settings,
            (match r {
                Ok(()) => old(self)@.contains_key(date) && find_id(
                    old(self)@[date],
                    entry@.id,
                ) >= 0 && final(self)@ == map_update(old(self)@, date, entry@),
                Err(e) => final(self)@ == old(self)@ && (e matches AppError::NotFoundError {
                    ..
                }) && (!old(self)@.contains_key(date) || find_id(old(self)@[date], entry@.id)
                    == -1),
            }),
            old(self)@.contains_key(date) && find_id(old(self)@[date], entry@.id) >= 0
                ==> r is Ok,
    {
        let ghost m0 = *old(self);
        let r = self.find_slot(&date);
        let hit = r < self.partitions.len() && self.partitions[r].date == date;
        if !hit {
            proof {
                if r < self.partitions@.len() {
                    crate::date::lemma_le_day_number(self.partitions@[r as int].date, date);
                }
                m0.lemma_slot_absent(date, r as int);
            }
            return Err(not_found_error(&date, entry.id.as_str()));
        }
        proof {
            assert(m0.has_date(date));
            m0.lemma_idx_of(date);
            assert(m0.idx_of(date) == r as int);
        }
        let i = match find_entry_idx(&self.partitions[r].entries, entry.id.as_str()) {
            Some(i) => i,
            None => {
                return Err(not_found_error(&date, entry.id.as_str()));
            }
        };
        let ghost idv = entry@.id;
        let part = self.partitions.remove(r);
        let mut entries = part.entries;
        entries.remove(i);
        entries.insert(i, entry);
        let ghost newent = entries@;
        self.partitions.insert(r, Partition { date: part.date, entries });
        proof {
            assert(newent =~= m0.partitions@[r as int].entries@.update(i as int, entry));
            assert(eseq(newent) =~= m0@[date].update(i as int, entry@));
            assert(self.partitions@ =~= m0.partitions@.update(
                r as int,
                Partition { date, entries: self.partitions@[r as int].entries },
            ));
            assert(forall|k: int|
                0 <= k < self.partitions@.len() ==> (#[trigger] self.partitions@[k]).date
                    == m0.partitions@[k].date);
            assert(forall|k: int|
                0 <= k < self.partitions@.len() && k != r ==> self.partitions@[k]
                    == m0.partitions@[k]);
            assert forall|d: Date| self.has_date(d) == m0.has_date(d) by {
                if m0.has_date(d) {
                    let k = m0.idx_of(d);
                    assert(self.partitions@[k].date == d);
                }
                if self.has_date(d) {
                    let k = choose|k: int|
                        0 <= k < self.partitions@.len() && (#[trigger] self.partitions@[k]).date
                            == d;
                    assert(m0.partitions@[k].date == d);
                }
            }
            assert forall|d: Date| #[trigger] self@.contains_key(d) implies self@[d] == map_update(
                m0@,
                date,
                entry@,
            )[d] by {
                self.lemma_idx_of(d);
                m0.lemma_idx_of(d);
                if d == date {
                    assert(self.idx_of(d) == r as int);
                } else {
                    assert(m0.idx_of(d) != r as int);
                    assert(self.idx_of(d) == m0.idx_of(d));
                }
            }
            assert(self@ =~= map_update(m0@, date, entry@));
        }
        Ok(())
    }

    /// Replaces the entry under the date derived from its `created_at`
    /// text.  Fails with a not-found error when the partition or the id
    /// is absent, and with a storage error when the text is unusable; the
    /// store is unchanged on any failure.
    pub fn update_entry(&mut self, entry: LogEntry) -> (r: Result<(), AppError>)
        requires
            old(self).wf(),
        ensures
            final(self).wf(),
            final(self).settings == old(self).settings,
            (match r {
                Ok(()) => rfc3339_ok(entry@.created_at) && exists|d: Date|
                    d.wf() && old(self)@.contains_key(d) && find_id(old(self)@[d], entry@.id)
                        >= 0 && final(self)@ == map_update(old(self)@, d, entry@),
                Err(e) => final(self)@ == old(self)@ && ((e matches AppError::NotFoundError {
                    ..
                }) || (e matches AppError::StorageError { .. })),
            }),
            !rfc3339_ok(entry@.created_at) ==> r is Err,
    {
        match partition_date_of(entry.created_at.as_str()) {
            Some(d) => self.update_entry_at(d, entry),
            None => Err(add_date_error()),
        }
    }

    /// Removes every entry carrying `entry_id` from the partition of
    /// `date`; a partition left empty leaves whole, so the date no
    /// longer lists.  Fails with a not-found error, leaving the store
    /// unchanged, exactly when the partition or the id is absent.
    pub fn delete_entry(&mut self, entry_id: &str, date: &Date) -> (r: Result<(), AppError>)
        requires
            old(self).wf(),
            date.wf(),
        ensures
            final(self).wf(),
            final(self).settings == old(self).settings,
            (match r {
                Ok(()) => old(self)@.contains_key(*date) && find_id(
                    old(self)@[*date],
                    entry_id@,
                ) >= 0 && final(self)@ == map_delete(old(self)@, *date, entry_id@),
                Err(e) => final(self)@ == old(self)@ && (e matches AppError::NotFoundError {
                    ..
                }) && (!old(self)@.contains_key(*date) || find_id(old(self)@[*date], entry_id@)
                    == -1),
            }),
            old(self)@.contains_key(*date) && find_id(old(self)@[*date], entry_id@) >= 0
                ==> r is Ok,
    {
        let ghost m0 = *old(self);
        let r = self.find_slot(date);
        let hit = r < self.partitions.len() && self.partitions[r].date == *date;
        if !hit {
            proof {
                if r < self.partitions@.len() {
                    crate::date::lemma_le_day_number(self.partitions@[r as int].date, *date);
                }
                m0.lemma_slot_absent(*date, r as int);
            }
            return Err(not_found_error(date, entry_id));
        }
        proof {
            assert(m0.has_date(*date));
            m0.lemma_idx_of(*date);
            assert(m0.idx_of(*date) == r as int);
        }
        match find_entry_idx(&self.partitions[r].entries, entry_id) {
            Some(_) => {}
            None => {
                return Err(not_found_error(date, entry_id));
            }
        }
        let part = self.partitions.remove(r);
        let ghost oldent = eseq(part.entries@);
        let mut retained: Vec<LogEntry> = Vec::new();
        proof {
            reveal(Seq::filter);
            assert(eseq(retained@) =~= oldent.subrange(0, 0).filter(keep_pred(entry_id@)));
        }
        let mut i: usize = 0;
        while i < part.entries.len()
            invariant
                i <= part.entries@.len(),
                oldent == eseq(part.entries@),
                oldent.len() == part.entries@.len(),
                eseq(retained@) == oldent.subrange(0, i as int).filter(keep_pred(entry_id@)),
            decreases part.entries@.len() - i,
        {
            let ghost pred = keep_pred(entry_id@);
            let ghost pfx = oldent.subrange(0, i as int);
            let ghost pfx1 = oldent.subrange(0, i as int + 1);
            proof {
                reveal(Seq::filter);
                assert(pfx1.drop_last() =~= pfx);
                assert(pfx1.last() == oldent[i as int]);
                assert(pfx1.filter(pred) == (if pred(pfx1.last()) {
                    pfx1.drop_last().filter(pred).push(pfx1.last())
                } else {
                    pfx1.drop_last().filter(pred)
                }));
            }
            if !crate::text::str_eq(part.entries[i].id.as_str(), entry_id) {
                proof {
                    assert(pred(oldent[i as int]));
                }
                retained.push(part.entries[i].duplicate());
                proof {
                    assert(eseq(retained@) =~= pfx.filter(pred).push(oldent[i as int]));
                }
            } else {
                proof {
                    assert(!pred(oldent[i as int]));
                }
            }
            i = i + 1;
        }
        proof {
            assert(oldent.subrange(0, oldent.len() as int) =~= oldent);
            assert(eseq(retained@) == surviving(m0@[*date], entry_id@));
        }
        if retained.len() == 0 {
            proof {
                let ps = self.partitions@;
                let old_ps = m0.partitions@;
                assert(ps.len() == old_ps.len() - 1);
                assert(forall|k: int| 0 <= k < r ==> #[trigger] ps[k] == old_ps[k]);
                assert(forall|k: int|
                    r <= k < ps.len() ==> #[trigger] ps[k] == old_ps[k + 1]);
                assert forall|k1: int, k2: int|
                    0 <= k1 < k2 < ps.len() implies (#[trigger] ps[k1]).date.day_number() > (
                #[trigger] ps[k2]).date.day_number() by {}
                assert(self.wf());
                assert(!self.has_date(*date)) by {
                    if self.has_date(*date) {
                        let k = choose|k: int|
                            0 <= k < ps.len() && (#[trigger] ps[k]).date == *date;
                        if k < r as int {
                            assert(old_ps[k].date == *date);
                        } else {
                            assert(old_ps[k + 1].date == *date);
                        }
                    }
                }
                assert forall|d: Date| d != *date implies self.has_date(d) == m0.has_date(d) by {
                    if m0.has_date(d) {
                        let k = m0.idx_of(d);
                        m0.lemma_idx_of(d);
                        if k < r as int {
                            assert(ps[k].date == d);
                        } else {
                            assert(k > r as int);
                            assert(ps[k - 1].date == d);
                        }
                    }
                    if self.has_date(d) {
                        let k = choose|k: int|
                            0 <= k < ps.len() && (#[trigger] ps[k]).date == d;
                        if k < r as int {
                            assert(old_ps[k].date == d);
                        } else {
                            assert(old_ps[k + 1].date == d);
                        }
                    }
                }
                assert forall|d: Date| #[trigger] self@.contains_key(d) implies self@[d]
                    == map_delete(m0@, *date, entry_id@)[d] by {
                    self.lemma_idx_of(d);
                    m0.lemma_idx_of(d);
                    let k0 = m0.idx_of(d);
                    if k0 < r as int {
                        assert(ps[k0].date == d);
                        assert(self.idx_of(d) == k0);
                    } else {
                        assert(k0 > r as int);
                        assert(ps[k0 - 1].date == d);
                        assert(self.idx_of(d) == k0 - 1);
                    }
                }
                assert(self@ =~= map_delete(m0@, *date, entry_id@));
            }
        } else {
            let ghost newent = retained@;
            self.partitions.insert(r, Partition { date: part.date, entries: retained });
            proof {
                assert(self.partitions@ =~= m0.partitions@.update(
                    r as int,
                    Partition { date: *date, entries: self.partitions@[r as int].entries },
                ));
                assert(forall|k: int|
                    0 <= k < self.partitions@.len() ==> (#[trigger] self.partitions@[k]).date
                        == m0.partitions@[k].date);
                assert(forall|k: int|
                    0 <= k < self.partitions@.len() && k != r ==> self.partitions@[k]
                        == m0.partitions@[k]);
                assert forall|d: Date| self.has_date(d) == m0.has_date(d) by {
                    if m0.has_date(d) {
                        let k = m0.idx_of(d);
                        assert(self.partitions@[k].date == d);
                    }
                    if self.has_date(d) {
                        let k = choose|k: int|
                            0 <= k < self.partitions@.len() && (#[trigger] self.partitions@[
                                k
                            ]).date == d;
                        assert(m0.partitions@[k].date == d);
                    }
                }
                assert forall|d: Date| #[trigger] self@.contains_key(d) implies self@[d]
                    == map_delete(m0@, *date, entry_id@)[d] by {
                    self.lemma_idx_of(d);
                    m0.lemma_idx_of(d);
                    if d == *date {
                        assert(self.idx_of(d) == r as int);
                    } else {
                        assert(m0.idx_of(d) != r as int);
                        assert(self.idx_of(d) == m0.idx_of(d));
                    }
                }
                assert(self@ =~= map_delete(m0@, *date, entry_id@));
            }
        }
        Ok(())
    }
}

impl LogManager {
    /// The file name a date's partition is stored under.
    pub fn log_file_name(date: &Date) -> (r: String)
        requires
            date.wf(),
        ensures
            r@ == date_str(*date) + ".json"@,
    {
        date.format().concat(".json")
    }

    /// The stored file names, one per partition, in descending
    /// lexicographic order — which, under the fixed `YYYY-MM-DD` naming,
    /// is exactly descending date order.
    pub fn get_log_files(&self) -> (r: Vec<String>)
        requires
            self.wf(),
        ensures
            r@.len() == self.dates().len(),
            forall|k: int|
                0 <= k < r@.len() ==> (#[trigger] r@[k])@ == date_str(self.dates()[k])
                    + ".json"@,
            forall|k1: int, k2: int|
                0 <= k1 < k2 < r@.len() ==> self.dates()[k1].day_number()
                    > self.dates()[k2].day_number(),
            forall|k1: int, k2: int|
                0 <= k1 < k2 < r@.len() ==> crate::date::lex_lt(
                    (#[trigger] r@[k2])@,
                    (#[trigger] r@[k1])@,
                ),
    {
        let n = self.partitions.len();
        let mut r: Vec<String> = Vec::new();
        let mut k: usize = 0;
        while k < n
            invariant
                self.wf(),
                n == self.partitions@.len(),
                k <= n,
                r@.len() == k,
                forall|x: int|
                    0 <= x < k ==> (#[trigger] r@[x])@ == date_str(self.dates()[x]) + ".json"@,
            decreases n - k,
        {
            r.push(self.partitions[k].date.format().concat(".json"));
            k = k + 1;
        }
        proof {
            assert forall|k1: int, k2: int| 0 <= k1 < k2 < r@.len() implies crate::date::lex_lt(
                (#[trigger] r@[k2])@,
                (#[trigger] r@[k1])@,
            ) by {
                crate::date::lemma_date_str_lex(self.dates()[k2], self.dates()[k1]);
                crate::date::lemma_lex_append(
                    date_str(self.dates()[k2]),
                    date_str(self.dates()[k1]),
                    ".json"@,
                );
            }
        }
        r
    }

    /// A date's partition is listed exactly when the date is in the
    /// store's map.
    pub proof fn lemma_dates_domain(self, d: Date)
        requires
            self.wf(),
        ensures
            self@.contains_key(d) <==> self.dates().contains(d),
    {
        if self@.contains_key(d) {
            let k = self.idx_of(d);
            self.lemma_idx_of(d);
            assert(self.dates()[k] == d);
        }
        if self.dates().contains(d) {
            let k = choose|k: int|
                0 <= k < self.dates().len() && #[trigger] self.dates()[k] == d;
            assert(self.partitions@[k].date == d);
        }
    }

    /// What a successful range aggregation means: every listed date is a
    /// stored date of the range carrying exactly its stored entries, the
    /// dates ascend, and no stored date of the range is missing.
    pub open spec fn range_result_ok(
        self,
        start: Date,
        end: Date,
        m: Seq<(Date, Vec<LogEntry>)>,
    ) -> bool {
        &&& forall|k: int|
            0 <= k < m.len() ==> (#[trigger] m[k].0).wf() && start.le_spec(m[k].0)
                && m[k].0.le_spec(end) && self@.contains_key(m[k].0) && eseq(m[k].1@)
                == self@[m[k].0]
        &&& forall|k1: int, k2: int|
            0 <= k1 < k2 < m.len() ==> (#[trigger] m[k1].0).day_number() < (
            #[trigger] m[k2].0).day_number()
        &&& forall|d: Date|
            d.wf() && start.le_spec(d) && d.le_spec(end) && self@.contains_key(d)
                ==> exists|k: int| 0 <= k < m.len() && (#[trigger] m[k].0) == d
    }

    /// The entries of every date from `start` to `end` inclusive that has
    /// any, in ascending date order.  Fails exactly when the range is
    /// inverted, and is empty exactly when no date of the range is in the
    /// store.
    #[verifier::loop_isolation(false)]
    #[verifier::rlimit(100)]
    pub fn get_entries_in_date_range(&self, start: &Date, end: &Date) -> (r: Result<
        Vec<(Date, Vec<LogEntry>)>,
        AppError,
    >)
        requires
            self.wf(),
            start.wf(),
            end.wf(),
        ensures
            (match r {
                Ok(m) => start.le_spec(*end) && self.range_result_ok(*start, *end, m@),
                Err(e) => !start.le_spec(*end) && (e matches AppError::InvalidRangeError { .. }),
            }),
            !start.le_spec(*end) <==> r is Err,
    {
        if !start.le(end) {
            return Err(
                AppError::InvalidRangeError { start: start.format(), end: end.format() },
            );
        }
        proof {
            crate::date::lemma_le_day_number(*start, *end);
        }
        let mut out: Vec<(Date, Vec<LogEntry>)> = Vec::new();
        let mut cur: Date = *start;
        loop
            invariant
                self.wf(),
                start.wf(),
                end.wf(),
                cur.wf(),
                start.day_number() <= cur.day_number() <= end.day_number(),
                forall|k: int|
                    0 <= k < out@.len() ==> (#[trigger] out@[k].0).wf() && start.day_number()
                        <= out@[k].0.day_number() && out@[k].0.day_number() < cur.day_number()
                        && self@.contains_key(out@[k].0) && eseq(out@[k].1@) == self@[out@[k].0],
                forall|k1: int, k2: int|
                    0 <= k1 < k2 < out@.len() ==> (#[trigger] out@[k1].0).day_number() < (
                    #[trigger] out@[k2].0).day_number(),
                forall|d: Date|
                    d.wf() && start.day_number() <= d.day_number() && d.day_number()
                        < cur.day_number() && self@.contains_key(d) ==> exists|k: int|
                        0 <= k < out@.len() && (#[trigger] out@[k].0) == d,
            decreases end.day_number() - cur.day_number(),
        {
            let es = self.get_entries_for_date(&cur);
            let ghost out0 = out@;
            if es.len() > 0 {
                proof {
                    if !self@.contains_key(cur) {
                        assert(es@.len() == 0);
                    }
                }
                out.push((cur, es));
            } else {
                proof {
                    if self@.contains_key(cur) {
                        self.lemma_idx_of(cur);
                        assert(eseq(es@).len() == self@[cur].len());
                        assert(self.partitions@[self.idx_of(cur)].entries@.len() > 0);
                        assert(false);
                    }
                }
            }
            proof {
                assert forall|d: Date|
                    d.wf() && start.day_number() <= d.day_number() && d.day_number()
                        < cur.day_number() + 1 && self@.contains_key(d) implies exists|k: int|
                    0 <= k < out@.len() && (#[trigger] out@[k].0) == d by {
                    if d.day_number() < cur.day_number() {
                        assert(exists|k: int|
                            0 <= k < out0.len() && (#[trigger] out0[k].0) == d);
                        let k = choose|k: int|
                            0 <= k < out0.len() && (#[trigger] out0[k].0) == d;
                        assert(out@[k].0 == d);
                    } else {
                        crate::date::lemma_le_day_number(d, cur);
                        assert(d == cur);
                        assert(out@[out@.len() - 1].0 == d);
                    }
                }
            }
            if cur == *end {
                proof {
                    assert forall|k: int|
                        0 <= k < out@.len() implies start.le_spec(#[trigger] out@[k].0) && out@[
                        k
                    ].0.le_spec(*end) by {
                        crate::date::lemma_le_day_number(*start, out@[k].0);
                        crate::date::lemma_le_day_number(out@[k].0, *end);
                    }
                    assert forall|d: Date|
                        d.wf() && start.le_spec(d) && d.le_spec(*end) && self@.contains_key(d)
                        implies exists|k: int|
                        0 <= k < out@.len() && (#[trigger] out@[k].0) == d by {
                        crate::date::lemma_le_day_number(*start, d);
                        crate::date::lemma_le_day_number(d, *end);
                    }
                    assert(self.range_result_ok(*start, *end, out@));
                }
                return Ok(out);
            }
            proof {
                crate::date::lemma_le_day_number(cur, *end);
            }
            match cur.succ() {
                Some(n) => {
                    cur = n;
                }
                None => {
                    proof {
                        let mx = Date { year: 9999, month: 12, day: 31 };
                        assert(end.le_spec(mx));
                        crate::date::lemma_le_day_number(*end, mx);
                        assert(false);
                    }
                }
            }
        }
    }
}

impl LogManager {
    /// Over a range in which no day holds entries, the aggregation comes
    /// back empty.
    pub proof fn lemma_empty_range_aggregates_to_nothing(
        self,
        start: Date,
        end: Date,
        m: Seq<(Date, Vec<LogEntry>)>,
    )
        requires
            self.range_result_ok(start, end, m),
            forall|d: Date|
                d.wf() && start.le_spec(d) && #[trigger] d.le_spec(end) ==> !self@.contains_key(
                    d,
                ),
        ensures
            m.len() == 0,
    {
        if m.len() > 0 {
            let d0 = m[0].0;
            assert(d0.wf() && start.le_spec(d0) && d0.le_spec(end));
            assert(self@.contains_key(d0));
        }
    }
}

/// What adding a sequence of entries, in order, does to a store's map.
pub open spec fn map_add_all(m: Map<Date, Seq<LogEntryV>>, d: Date, evs: Seq<LogEntryV>) -> Map<
    Date,
    Seq<LogEntryV>,
>
    decreases evs.len(),
{
    if evs.len() == 0 {
        m
    } else {
        map_add(map_add_all(m, d, evs.drop_last()), d, evs.last())
    }
}

/// Entries added to an empty store read back, on their date, in exactly
/// the order they were added.
pub proof fn lemma_entries_in_insertion_order(d: Date, evs: Seq<LogEntryV>)
    requires
        evs.len() > 0,
    ensures
        map_add_all(Map::<Date, Seq<LogEntryV>>::empty(), d, evs).contains_key(d),
        map_add_all(Map::<Date, Seq<LogEntryV>>::empty(), d, evs)[d] == evs,
    decreases evs.len(),
{
    let m1 = map_add_all(Map::<Date, Seq<LogEntryV>>::empty(), d, evs.drop_last());
    let res = map_add_all(Map::<Date, Seq<LogEntryV>>::empty(), d, evs);
    assert(res == map_add(m1, d, evs.last()));
    if evs.len() == 1 {
        assert(evs.drop_last().len() == 0);
        assert(m1 == Map::<Date, Seq<LogEntryV>>::empty());
        assert(!m1.contains_key(d));
        assert(res == m1.insert(d, seq![evs.last()]));
        assert(res[d] == seq![evs.last()]);
        assert(seq![evs.last()] =~= evs);
    } else {
        lemma_entries_in_insertion_order(d, evs.drop_last());
        assert(m1.contains_key(d));
        assert(m1[d] == evs.drop_last());
        assert(res == m1.insert(d, evs.drop_last().push(evs.last())));
        assert(res[d] == evs.drop_last().push(evs.last()));
        assert(evs.drop_last().push(evs.last()) =~= evs);
    }
    assert(res.contains_key(d));
}

/// Deleting the only entry of a partition removes the partition whole:
/// the store's map no longer holds its date, so the dates listed
/// afterwards exclude it.
pub proof fn lemma_delete_only_entry_removes_partition(
    m: Map<Date, Seq<LogEntryV>>,
    d: Date,
    id: Seq<char>,
)
    requires
        m.contains_key(d),
        m[d].len() == 1,
        m[d][0].id == id,
    ensures
        !map_delete(m, d, id).contains_key(d),
{
    reveal(Seq::filter);
    let evs = m[d];
    assert(evs.drop_last() =~= Seq::<LogEntryV>::empty());
    assert(evs.last() == evs[0]);
    assert(!keep_pred(id)(evs.last()));
    assert(evs.filter(keep_pred(id)) == evs.drop_last().filter(keep_pred(id)));
    assert(Seq::<LogEntryV>::empty().filter(keep_pred(id)) =~= Seq::<LogEntryV>::empty());
    assert(surviving(evs, id).len() == 0);
}

/// The error reported when a partition or an entry id is absent.
fn not_found_error(date: &Date, id: &str) -> (e: AppError)
    requires
        date.wf(),
    ensures
        e matches AppError::NotFoundError { .. },
{
    AppError::NotFoundError { date: date.format(), id: String::from_str(id) }
}

/// The error reported when an entry's `created_at` cannot name a
/// partition date.
fn add_date_error() -> (e: AppError)
    ensures
        e matches AppError::StorageError { .. },
{
    AppError::StorageError {
        operation: String::from_str("add-entry"),
        detail: String::from_str("created_at is not a usable RFC 3339 timestamp"),
    }
}

} // verus!
