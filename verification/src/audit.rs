//! The compacted audit log: a bounded, queryable mirror of the audit trail.
//!
//! The log keeps every entry it is given for as long as it lives. What it
//! hands out to be persisted is bounded: once more entries are held than the
//! configured maximum, only the most recent ones are written.

use vstd::prelude::*;
use crate::history::{lemma_parsed_step, parsed};
use crate::model::{
    clone_text, first_present, text_of, Operation, OperationStatus, OperationType, OperationView,
};
use crate::select::{copy_newest, copy_where, lemma_filter_all, lemma_filter_sound, newest, views, Record};
use crate::text::text_is;
use crate::time::Timestamp;

verus! {

/// What the audit log keeps of an operation: everything but the count of
/// bytes processed and the time of the last update.
#[derive(Debug)]
pub struct AuditLogEntry {
    pub operation_id: String,
    pub operation_type: OperationType,
    pub source_id: String,
    pub source_path: String,
    pub destination_path: Option<String>,
    pub file_size: Option<u64>,
    pub status: OperationStatus,
    pub error: Option<String>,
    pub user_id: Option<String>,
    pub organization_id: Option<String>,
    pub created_at: Option<Timestamp>,
    pub completed_at: Option<Timestamp>,
}

/// An audit log entry as a mathematical value.
pub struct AuditLogEntryView {
    pub operation_id: Seq<char>,
    pub operation_type: OperationType,
    pub source_id: Seq<char>,
    pub source_path: Seq<char>,
    pub destination_path: Option<Seq<char>>,
    pub file_size: Option<u64>,
    pub status: OperationStatus,
    pub error: Option<Seq<char>>,
    pub user_id: Option<Seq<char>>,
    pub organization_id: Option<Seq<char>>,
    pub created_at: Option<Timestamp>,
    pub completed_at: Option<Timestamp>,
}

impl View for AuditLogEntry {
    type V = AuditLogEntryView;

    open spec fn view(&self) -> AuditLogEntryView {
        AuditLogEntryView {
            operation_id: self.operation_id@,
            operation_type: self.operation_type,
            source_id: self.source_id@,
            source_path: self.source_path@,
            destination_path: text_of(self.destination_path),
            file_size: self.file_size,
            status: self.status,
            error: text_of(self.error),
            user_id: text_of(self.user_id),
            organization_id: text_of(self.organization_id),
            created_at: self.created_at,
            completed_at: self.completed_at,
        }
    }
}

impl AuditLogEntryView {
    /// The instant by which entries are ranked when the log is bounded:
    /// creation, else completion.
    pub open spec fn log_time(self) -> Option<Timestamp> {
        first_present(self.created_at, self.completed_at)
    }
}

/// The audit log entry of an operation.
pub open spec fn projection(op: OperationView) -> AuditLogEntryView {
    AuditLogEntryView {
        operation_id: op.operation_id,
        operation_type: op.operation_type,
        source_id: op.source_id,
        source_path: op.source_path,
        destination_path: op.destination_path,
        file_size: op.file_size,
        status: op.status,
        error: op.error,
        user_id: op.user_id,
        organization_id: op.organization_id,
        created_at: op.created_at,
        completed_at: op.completed_at,
    }
}

/// The audit log entries of a sequence of operations.
pub open spec fn projected(ops: Seq<OperationView>) -> Seq<AuditLogEntryView> {
    Seq::new(ops.len(), |i: int| projection(ops[i]))
}

impl From<Operation> for AuditLogEntry {
    fn from(op: Operation) -> (entry: Self) {
        AuditLogEntry {
            operation_id: op.operation_id,
            operation_type: op.operation_type,
            source_id: op.source_id,
            source_path: op.source_path,
            destination_path: op.destination_path,
            file_size: op.file_size,
            status: op.status,
            error: op.error,
            user_id: op.user_id,
            organization_id: op.organization_id,
            created_at: op.created_at,
            completed_at: op.completed_at,
        }
    }
}

impl vstd::std_specs::convert::FromSpecImpl<Operation> for AuditLogEntry {
    open spec fn obeys_from_spec() -> bool {
        true
    }

    open spec fn from_spec(op: Operation) -> Self {
        AuditLogEntry {
            operation_id: op.operation_id,
            operation_type: op.operation_type,
            source_id: op.source_id,
            source_path: op.source_path,
            destination_path: op.destination_path,
            file_size: op.file_size,
            status: op.status,
            error: op.error,
            user_id: op.user_id,
            organization_id: op.organization_id,
            created_at: op.created_at,
            completed_at: op.completed_at,
        }
    }
}

/// The entry made from an operation is the projection of that operation.
pub proof fn lemma_from_is_projection(op: Operation)
    ensures
        <AuditLogEntry as vstd::std_specs::convert::FromSpec<Operation>>::from_spec(op)@
            == projection(op@),
{
}

impl Clone for AuditLogEntry {
    fn clone(&self) -> (res: Self)
        ensures
            res == *self,
    {
        AuditLogEntry {
            operation_id: self.operation_id.clone(),
            operation_type: self.operation_type,
            source_id: self.source_id.clone(),
            source_path: self.source_path.clone(),
            destination_path: clone_text(&self.destination_path),
            file_size: self.file_size,
            status: self.status,
            error: clone_text(&self.error),
            user_id: clone_text(&self.user_id),
            organization_id: clone_text(&self.organization_id),
            created_at: self.created_at,
            completed_at: self.completed_at,
        }
    }
}

impl Record for AuditLogEntry {
    fn duplicate(&self) -> (copy: Self) {
        self.clone()
    }
}

impl AuditLogEntry {
    /// The instant by which the entry is ranked when the log is bounded.
    pub fn log_time(&self) -> (t: Option<Timestamp>)
        ensures
            t == self@.log_time(),
    {
        if self.created_at.is_some() {
            self.created_at
        } else {
            self.completed_at
        }
    }
}

/// Every entry.
pub open spec fn every_entry() -> spec_fn(AuditLogEntryView) -> bool {
    |entry: AuditLogEntryView| true
}

/// The entries of the user `user_id`.
pub open spec fn entry_of_user(user_id: Seq<char>) -> spec_fn(AuditLogEntryView) -> bool {
    |entry: AuditLogEntryView| entry.user_id == Some(user_id)
}

/// The entries of the organization `organization_id`.
pub open spec fn entry_of_organization(organization_id: Seq<char>) -> spec_fn(
    AuditLogEntryView,
) -> bool {
    |entry: AuditLogEntryView| entry.organization_id == Some(organization_id)
}

/// The entries of one operation type.
pub open spec fn entry_of_type(operation_type: OperationType) -> spec_fn(
    AuditLogEntryView,
) -> bool {
    |entry: AuditLogEntryView| entry.operation_type == operation_type
}

/// The entries with one status.
pub open spec fn entry_of_status(status: OperationStatus) -> spec_fn(AuditLogEntryView) -> bool {
    |entry: AuditLogEntryView| entry.status == status
}

/// Ranking by creation, else completion.
pub open spec fn by_log_time() -> spec_fn(AuditLogEntryView) -> Option<Timestamp> {
    |entry: AuditLogEntryView| entry.log_time()
}

/// A choice among audit log entries.
pub enum EntryFilter<'a> {
    Everything,
    OfUser(&'a str),
    OfOrganization(&'a str),
    OfType(OperationType),
    OfStatus(OperationStatus),
}

impl<'a> EntryFilter<'a> {
    /// The entries that the filter lets through.
    pub open spec fn accepts(self) -> spec_fn(AuditLogEntryView) -> bool {
        match self {
            EntryFilter::Everything => every_entry(),
            EntryFilter::OfUser(user_id) => entry_of_user(user_id@),
            EntryFilter::OfOrganization(organization_id) => entry_of_organization(
                organization_id@,
            ),
            EntryFilter::OfType(t) => entry_of_type(t),
            EntryFilter::OfStatus(status) => entry_of_status(status),
        }
    }

    /// Whether the filter lets `entry` through.
    pub fn test(&self, entry: &AuditLogEntry) -> (r: bool)
        ensures
            r == (self.accepts())(entry@),
    {
        match self {
            EntryFilter::Everything => true,
            EntryFilter::OfUser(user_id) => text_is(&entry.user_id, user_id),
            EntryFilter::OfOrganization(organization_id) => text_is(
                &entry.organization_id,
                organization_id,
            ),
            EntryFilter::OfType(t) => entry.operation_type == *t,
            EntryFilter::OfStatus(status) => entry.status == *status,
        }
    }

    /// For each of `entries`, whether the filter lets it through.
    pub fn mark(&self, entries: &Vec<AuditLogEntry>) -> (mask: Vec<bool>)
        ensures
            mask.len() == entries.len(),
            forall|i: int|
                0 <= i < entries.len() ==> mask[i] == (self.accepts())(#[trigger] entries[i]@),
    {
        let mut mask: Vec<bool> = Vec::with_capacity(entries.len());
        let mut i: usize = 0;
        while i < entries.len()
            invariant
                i <= entries.len(),
                mask.len() == i,
                forall|k: int| 0 <= k < i ==> mask[k] == (self.accepts())(#[trigger] entries[k]@),
            decreases entries.len() - i,
        {
            mask.push(self.test(&entries[i]));
            i += 1;
        }
        mask
    }
}

/// The ranking instants of `entries`.
fn log_times(entries: &Vec<AuditLogEntry>) -> (times: Vec<Option<Timestamp>>)
    ensures
        times.len() == entries.len(),
        forall|i: int| 0 <= i < entries.len() ==> times[i] == (by_log_time())(#[trigger] entries[i]@),
{
    let mut times: Vec<Option<Timestamp>> = Vec::with_capacity(entries.len());
    let mut i: usize = 0;
    while i < entries.len()
        invariant
            i <= entries.len(),
            times.len() == i,
            forall|k: int| 0 <= k < i ==> times[k] == (by_log_time())(#[trigger] entries[k]@),
        decreases entries.len() - i,
    {
        times.push(entries[i].log_time());
        i += 1;
    }
    times
}

/// What is written when a log that holds `entries` is persisted with the
/// maximum `max`: everything as it stands while the maximum is zero or not
/// exceeded, else the `max` most recent entries, newest first.
pub open spec fn persisted(entries: Seq<AuditLogEntryView>, max: nat) -> Seq<AuditLogEntryView> {
    if max > 0 && entries.len() > max {
        newest(entries, by_log_time(), max as int)
    } else {
        entries
    }
}

/// What a log holds after loading: the snapshot if there is one; else the
/// entries of the legacy trail's records that parsed, in the order of their
/// lines; else what it held before.
pub open spec fn loaded(
    before: Seq<AuditLogEntryView>,
    snapshot: Option<Vec<AuditLogEntry>>,
    legacy: Option<Vec<Option<Operation>>>,
) -> Seq<AuditLogEntryView> {
    match snapshot {
        Some(entries) => views(entries@),
        None => match legacy {
            Some(records) => projected(parsed(records@)),
            None => before,
        },
    }
}

/// The entries of the records that parsed, in the order of their lines.
fn imported(records: Vec<Option<Operation>>) -> (entries: Vec<AuditLogEntry>)
    ensures
        views(entries@) == projected(parsed(records@)),
{
    let ghost all = records@;
    let n = records.len();
    let mut entries: Vec<AuditLogEntry> = Vec::new();
    let mut i: usize = 0;
    proof {
        assert(views(entries@) =~= projected(parsed(all.take(0))));
    }
    for record in it: records
        invariant
            i == it.index(),
            it.seq() == all,
            all.len() == n,
            views(entries@) == projected(parsed(all.take(i as int))),
    {
        proof {
            lemma_parsed_step(all, i as int);
        }
        if let Some(op) = record {
            let ghost before = entries@;
            let entry = AuditLogEntry::from(op);
            entries.push(entry);
            assert(views(entries@) =~= views(before).push(projection(op@)));
            assert(projected(parsed(all.take(i as int)).push(op@)) =~= projected(
                parsed(all.take(i as int)),
            ).push(projection(op@)));
        }
        i += 1;
    }
    proof {
        assert(all.take(i as int) =~= all);
    }
    entries
}

/// The audit log: its entries in the order in which they were logged, and
/// the maximum number of entries to persist (zero for no maximum).
pub struct AuditLog {
    entries: Vec<AuditLogEntry>,
    max_entries: usize,
}

impl View for AuditLog {
    type V = Seq<AuditLogEntryView>;

    closed spec fn view(&self) -> Seq<AuditLogEntryView> {
        views(self.entries@)
    }
}

impl AuditLog {
    /// The maximum number of entries to persist; zero for no maximum.
    pub closed spec fn entry_limit(&self) -> nat {
        self.max_entries as nat
    }

    /// An empty log that persists at most `max_entries` entries, or all of
    /// them if `max_entries` is zero.
    pub fn new(max_entries: usize) -> (log: Self)
        ensures
            log@ == Seq::<AuditLogEntryView>::empty(),
            log.entry_limit() == max_entries,
    {
        let log = AuditLog { entries: Vec::new(), max_entries };
        assert(log@ =~= Seq::<AuditLogEntryView>::empty());
        log
    }

    /// The maximum number of entries to persist; zero for no maximum.
    pub fn max_entries(&self) -> (n: usize)
        ensures
            n == self.entry_limit(),
    {
        self.max_entries
    }

    /// Loads the log from what was found on disk: `snapshot` is the parsed
    /// snapshot if there was one that parsed, `legacy` the outcome of
    /// parsing each line of the legacy trail if there was such a file. The
    /// snapshot is preferred; with neither, the log stays as it is.
    pub fn load(
        &mut self,
        snapshot: Option<Vec<AuditLogEntry>>,
        legacy: Option<Vec<Option<Operation>>>,
    )
        ensures
            final(self)@ == loaded(old(self)@, snapshot, legacy),
            final(self).entry_limit() == old(self).entry_limit(),
    {
        match snapshot {
            Some(entries) => {
                self.entries = entries;
            },
            None => match legacy {
                Some(records) => {
                    self.entries = imported(records);
                },
                None => {},
            },
        }
    }

    /// The entries to write when the log is persisted.
    pub fn entries_to_save(&self) -> (saved: Vec<AuditLogEntry>)
        ensures
            views(saved@) == persisted(self@, self.entry_limit()),
    {
        let mask = EntryFilter::Everything.mark(&self.entries);
        proof {
            lemma_filter_all(self@, every_entry());
        }
        if self.max_entries > 0 && self.entries.len() > self.max_entries {
            let times = log_times(&self.entries);
            copy_newest(
                &self.entries,
                &mask,
                &times,
                self.max_entries,
                Ghost(every_entry()),
                Ghost(by_log_time()),
            )
        } else {
            copy_where(&self.entries, &mask, Ghost(every_entry()))
        }
    }

    /// Adds the entry of `operation` at the end of the log. Returns the
    /// entries to persist.
    pub fn log_operation(&mut self, operation: Operation) -> (saved: Vec<AuditLogEntry>)
        ensures
            final(self)@ == old(self)@.push(projection(operation@)),
            final(self).entry_limit() == old(self).entry_limit(),
            views(saved@) == persisted(final(self)@, final(self).entry_limit()),
    {
        let entry = AuditLogEntry::from(operation);
        self.entries.push(entry);
        assert(self@ =~= old(self)@.push(projection(operation@)));
        self.entries_to_save()
    }

    /// Copies of all entries, in the order in which they were logged.
    pub fn get_all_entries(&self) -> (found: Vec<AuditLogEntry>)
        ensures
            views(found@) == self@,
    {
        let mask = EntryFilter::Everything.mark(&self.entries);
        proof {
            lemma_filter_all(self@, every_entry());
        }
        copy_where(&self.entries, &mask, Ghost(every_entry()))
    }

    /// Copies of the entries of one user, in the order in which they were
    /// logged: each is an entry of the log, unchanged, and the user's.
    pub fn get_entries_by_user(&self, user_id: &str) -> (found: Vec<AuditLogEntry>)
        ensures
            views(found@) == self@.filter(entry_of_user(user_id@)),
            forall|k: int|
                0 <= k < found.len() ==> (#[trigger] found[k])@.user_id == Some(user_id@)
                    && self@.contains(found[k]@),
    {
        let mask = EntryFilter::OfUser(user_id).mark(&self.entries);
        let found = copy_where(&self.entries, &mask, Ghost(entry_of_user(user_id@)));
        proof {
            lemma_filter_sound(self@, entry_of_user(user_id@));
            assert forall|k: int| 0 <= k < found.len() implies (#[trigger] found[k])@.user_id
                == Some(user_id@) && self@.contains(found[k]@) by {
                assert(views(found@)[k] == found[k]@);
            }
        }
        found
    }

    /// Copies of the entries of one organization, in the order in which
    /// they were logged.
    pub fn get_entries_by_organization(&self, organization_id: &str) -> (found: Vec<AuditLogEntry>)
        ensures
            views(found@) == self@.filter(entry_of_organization(organization_id@)),
    {
        let mask = EntryFilter::OfOrganization(organization_id).mark(&self.entries);
        copy_where(&self.entries, &mask, Ghost(entry_of_organization(organization_id@)))
    }

    /// Copies of the entries of one operation type, in the order in which
    /// they were logged.
    pub fn get_entries_by_type(&self, operation_type: &OperationType) -> (found: Vec<AuditLogEntry>)
        ensures
            views(found@) == self@.filter(entry_of_type(*operation_type)),
    {
        let mask = EntryFilter::OfType(*operation_type).mark(&self.entries);
        copy_where(&self.entries, &mask, Ghost(entry_of_type(*operation_type)))
    }

    /// Copies of the entries with one status, in the order in which they
    /// were logged.
    pub fn get_entries_by_status(&self, status: &OperationStatus) -> (found: Vec<AuditLogEntry>)
        ensures
            views(found@) == self@.filter(entry_of_status(*status)),
    {
        let mask = EntryFilter::OfStatus(*status).mark(&self.entries);
        copy_where(&self.entries, &mask, Ghost(entry_of_status(*status)))
    }

    /// Empties the log. Returns the entries to persist: none.
    pub fn clear(&mut self) -> (saved: Vec<AuditLogEntry>)
        ensures
            final(self)@ == Seq::<AuditLogEntryView>::empty(),
            final(self).entry_limit() == old(self).entry_limit(),
            saved@ == Seq::<AuditLogEntry>::empty(),
    {
        self.entries.clear();
        assert(self@ =~= Seq::<AuditLogEntryView>::empty());
        Vec::new()
    }
}

} // verus!
