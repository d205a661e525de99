//! Append-only business journal.
//!
//! The journal holds sequence-numbered entries (admissions and outcomes) in
//! commit order, an index from idempotency keys to the sequence of their
//! admission, and two numbers: its epoch and the last committed sequence.
//!
//! [`BusinessJournal`] is the journal as it was last committed. A durable store
//! writes what [`BusinessJournal::stage_batch`] allocates in one transaction,
//! and hands it to [`BusinessJournal::apply`] once that transaction has
//! committed; [`BusinessJournal::restore`] builds the journal from what the
//! store holds.
//!
//! A sequence number is allocated together with the record that it belongs to,
//! so that a committed number is never issued again. Order IDs derived from
//! `(epoch, seq)` are therefore stable across restarts and never reused.

use vstd::hash_map::StringHashMap;
use vstd::prelude::*;

use crate::text::{join2, join3, lemma_split_at, numeral, same, u64_text};

verus! {

// ---------------------------------------------------------------------------
// Records
// ---------------------------------------------------------------------------

/// Errors raised by the business journal.
#[derive(Debug)]
pub enum JournalError {
    /// An underlying storage error.
    Storage(String),
    /// A record could not be encoded or decoded.
    Encoding(String),
}

impl JournalError {
    /// What the error says.
    pub open spec fn text(&self) -> Seq<char> {
        match *self {
            JournalError::Storage(err) => "journal storage error: "@ + err@,
            JournalError::Encoding(err) => "journal encoding error: "@ + err@,
        }
    }

    /// The error as text.
    pub fn message(&self) -> (r: String)
        ensures
            r@ == self.text(),
    {
        match self {
            JournalError::Storage(err) => join2("journal storage error: ", err.as_str()),
            JournalError::Encoding(err) => join2("journal encoding error: ", err.as_str()),
        }
    }
}

impl Clone for JournalError {
    fn clone(&self) -> (r: Self)
        ensures
            r == *self,
    {
        match self {
            JournalError::Storage(err) => JournalError::Storage(err.clone()),
            JournalError::Encoding(err) => JournalError::Encoding(err.clone()),
        }
    }
}

/// A durably admitted order request.
///
/// Monetary and quantity fields are decimal strings.
#[derive(Debug)]
pub struct AdmissionRecord {
    /// Journal epoch at admission time.
    pub journal_epoch: u64,
    /// Committed sequence number assigned by the journal.
    pub seq: u64,
    /// Server-side submitter identity.
    pub submitter_id: String,
    /// Client-generated unique request ID, stable across retries.
    pub request_id: String,
    /// RPC method of the request (idempotency namespace).
    pub request_kind: String,
    /// Canonical digest of the normalized business fields.
    pub request_fingerprint: String,
    /// Owning strategy for attribution, limits, and PnL.
    pub strategy_id: String,
    pub instrument_id: String,
    pub order_side: String,
    pub quantity: String,
    pub price: String,
    pub time_in_force: String,
    pub post_only: bool,
    pub reduce_only: bool,
    /// Business deadline for first dispatch (ns since epoch), if any.
    pub submit_before_ns: Option<u64>,
    /// Gateway receive time (ns since epoch).
    pub ts_init_ns: u64,
}

impl Clone for AdmissionRecord {
    fn clone(&self) -> (r: Self)
        ensures
            r == *self,
    {
        AdmissionRecord {
            journal_epoch: self.journal_epoch,
            seq: self.seq,
            submitter_id: self.submitter_id.clone(),
            request_id: self.request_id.clone(),
            request_kind: self.request_kind.clone(),
            request_fingerprint: self.request_fingerprint.clone(),
            strategy_id: self.strategy_id.clone(),
            instrument_id: self.instrument_id.clone(),
            order_side: self.order_side.clone(),
            quantity: self.quantity.clone(),
            price: self.price.clone(),
            time_in_force: self.time_in_force.clone(),
            post_only: self.post_only,
            reduce_only: self.reduce_only,
            submit_before_ns: self.submit_before_ns,
            ts_init_ns: self.ts_init_ns,
        }
    }
}

impl AdmissionRecord {
    /// The record under the epoch and sequence that the journal assigned.
    pub open spec fn numbered(self, journal_epoch: u64, seq: u64) -> AdmissionRecord {
        AdmissionRecord { journal_epoch, seq, ..self }
    }

    /// The idempotency key of the request.
    pub open spec fn key(self) -> Seq<char> {
        request_key(self.submitter_id@, self.request_kind@, self.request_id@)
    }
}

/// The durable result of an admitted request or a later lifecycle fact.
#[derive(Debug)]
pub enum JournalOutcome {
    /// The request was durably admitted and an order was created.
    Admitted {
        /// Order ID derived deterministically from `(journal_epoch, seq)`.
        client_order_id: String,
    },
    /// A definitive business rejection (risk rules, instrument, deadline).
    Denied {
        /// Stable reason string from the denying component.
        reason: String,
    },
    /// The order crossed the dispatch boundary (conservative uncertainty edge).
    DispatchStarted { client_order_id: String },
    /// A fill (or partial fill) was observed from the execution chain.
    Filled { client_order_id: String, filled_qty: String },
    /// The order reached a cancelled terminal state.
    Canceled { client_order_id: String },
}

impl Clone for JournalOutcome {
    fn clone(&self) -> (r: Self)
        ensures
            r == *self,
    {
        match self {
            JournalOutcome::Admitted { client_order_id } => JournalOutcome::Admitted {
                client_order_id: client_order_id.clone(),
            },
            JournalOutcome::Denied { reason } => JournalOutcome::Denied { reason: reason.clone() },
            JournalOutcome::DispatchStarted { client_order_id } => JournalOutcome::DispatchStarted {
                client_order_id: client_order_id.clone(),
            },
            JournalOutcome::Filled { client_order_id, filled_qty } => JournalOutcome::Filled {
                client_order_id: client_order_id.clone(),
                filled_qty: filled_qty.clone(),
            },
            JournalOutcome::Canceled { client_order_id } => JournalOutcome::Canceled {
                client_order_id: client_order_id.clone(),
            },
        }
    }
}

/// One journal entry in commit order.
#[derive(Debug)]
pub enum JournalEntry {
    /// An admitted request (idempotency anchor).
    Admission(Box<AdmissionRecord>),
    /// A later outcome appended for a previously admitted request.
    Outcome {
        /// The admission `seq` this outcome applies to.
        origin_seq: u64,
        outcome: JournalOutcome,
    },
}

impl Clone for JournalEntry {
    fn clone(&self) -> (r: Self)
        ensures
            r == *self,
    {
        match self {
            JournalEntry::Admission(record) => JournalEntry::Admission(
                Box::new((&**record).clone()),
            ),
            JournalEntry::Outcome { origin_seq, outcome } => JournalEntry::Outcome {
                origin_seq: *origin_seq,
                outcome: outcome.clone(),
            },
        }
    }
}

/// The result of an idempotency lookup.
#[derive(Debug)]
pub struct RequestRecord {
    /// The original admission.
    pub admission: AdmissionRecord,
    /// The most recent committed outcome for this request, if any.
    pub outcome: Option<JournalOutcome>,
}

/// A pending durable write for group commit.
#[derive(Debug)]
pub enum PendingEntry {
    /// An admission to append and index.
    Admission(Box<AdmissionRecord>),
    /// An outcome to append for an existing admission.
    Outcome { origin_seq: u64, outcome: JournalOutcome },
}

impl Clone for PendingEntry {
    fn clone(&self) -> (r: Self)
        ensures
            r == *self,
    {
        match self {
            PendingEntry::Admission(record) => PendingEntry::Admission(
                Box::new((&**record).clone()),
            ),
            PendingEntry::Outcome { origin_seq, outcome } => PendingEntry::Outcome {
                origin_seq: *origin_seq,
                outcome: outcome.clone(),
            },
        }
    }
}

/// The committed result of one pending entry.
#[derive(Debug)]
pub enum CommittedEntry {
    /// The admission with its journal-assigned sequence.
    Admission(Box<AdmissionRecord>),
    /// An outcome record with its own sequence and its origin.
    Outcome { seq: u64, origin_seq: u64 },
}

/// What the store holds under a sequence number.
#[derive(Debug)]
pub enum StoredRow {
    /// An entry.
    Entry(JournalEntry),
    /// Bytes that are no entry, with the reason.
    Unreadable(String),
}

/// A sequence number and what the store holds under it.
#[derive(Debug)]
pub struct Row {
    pub seq: u64,
    pub stored: StoredRow,
}

// ---------------------------------------------------------------------------
// Model
// ---------------------------------------------------------------------------

/// The key of `(submitter, method, request_id)`.
pub open spec fn request_key(
    submitter_id: Seq<char>,
    method: Seq<char>,
    request_id: Seq<char>,
) -> Seq<char> {
    submitter_id.push('|') + (method.push('|') + request_id)
}

/// The state of a journal.
#[verifier::ext_equal]
pub struct JournalView {
    /// The journal epoch.
    pub epoch: u64,
    /// The last committed sequence number.
    pub last_seq: u64,
    /// The rows, in the order of their sequence numbers.
    pub rows: Seq<Row>,
    /// The sequence number of the admission of each idempotency key.
    pub index: Map<Seq<char>, u64>,
}

/// The rows with one more at its place; it replaces a row of the same number.
pub open spec fn placed(rows: Seq<Row>, row: Row) -> Seq<Row>
    decreases rows.len(),
{
    if rows.len() == 0 {
        seq![row]
    } else if rows.last().seq < row.seq {
        rows.push(row)
    } else if rows.last().seq == row.seq {
        rows.drop_last().push(row)
    } else {
        placed(rows.drop_last(), row).push(rows.last())
    }
}

/// The entry that a pending write becomes under the sequence number `seq`.
pub open spec fn entry_of(item: PendingEntry, epoch: u64, seq: u64) -> JournalEntry {
    match item {
        PendingEntry::Admission(record) => JournalEntry::Admission(
            Box::new(record.numbered(epoch, seq)),
        ),
        PendingEntry::Outcome { origin_seq, outcome } => JournalEntry::Outcome {
            origin_seq,
            outcome,
        },
    }
}

/// What the writer of a pending write gets back.
pub open spec fn result_of(item: PendingEntry, epoch: u64, seq: u64) -> CommittedEntry {
    match item {
        PendingEntry::Admission(record) => CommittedEntry::Admission(
            Box::new(record.numbered(epoch, seq)),
        ),
        PendingEntry::Outcome { origin_seq, outcome } => CommittedEntry::Outcome {
            seq,
            origin_seq,
        },
    }
}

/// The entries behind `after`, in order; the reason of the first unreadable one
/// if there is any.
pub open spec fn scanned(rows: Seq<Row>, after: u64) -> Result<
    Seq<(u64, JournalEntry)>,
    Seq<char>,
>
    decreases rows.len(),
{
    if rows.len() == 0 {
        Ok(Seq::empty())
    } else {
        let before = scanned(rows.drop_last(), after);
        let row = rows.last();
        if before is Err || row.seq <= after {
            before
        } else {
            match row.stored {
                StoredRow::Entry(entry) => Ok(before->Ok_0.push((row.seq, entry))),
                StoredRow::Unreadable(reason) => Err(reason@),
            }
        }
    }
}

/// The last outcome in a list of entries that refers to `origin_seq`.
pub open spec fn latest_outcome(entries: Seq<(u64, JournalEntry)>, origin_seq: u64) -> Option<
    JournalOutcome,
>
    decreases entries.len(),
{
    if entries.len() == 0 {
        None
    } else {
        match entries.last().1 {
            JournalEntry::Outcome { origin_seq: origin, outcome } if origin == origin_seq => Some(
                outcome,
            ),
            _ => latest_outcome(entries.drop_last(), origin_seq),
        }
    }
}

/// What is stored under a sequence number, if anything.
pub open spec fn row_at(rows: Seq<Row>, seq: u64) -> Option<StoredRow>
    decreases rows.len(),
{
    if rows.len() == 0 {
        None
    } else if rows.last().seq == seq {
        Some(rows.last().stored)
    } else {
        row_at(rows.drop_last(), seq)
    }
}

/// Why an index entry does not lead to an admission: there is an outcome.
pub open spec fn outcome_reason(seq: u64) -> Seq<char> {
    "request index points at an outcome entry at seq "@ + numeral(seq as nat)
}

/// Why an index entry does not lead to an admission: there is nothing.
pub open spec fn missing_reason(seq: u64) -> Seq<char> {
    "request index points at missing seq "@ + numeral(seq as nat)
}

/// The index with a key; a key that is there already stays with its first
/// admission.
pub open spec fn indexed(index: Map<Seq<char>, u64>, key: Seq<char>, seq: u64) -> Map<
    Seq<char>,
    u64,
> {
    if index.contains_key(key) {
        index
    } else {
        index.insert(key, seq)
    }
}

impl JournalView {
    /// The journal after one pending write has committed.
    pub open spec fn with_entry(self, item: PendingEntry) -> JournalView {
        let seq = (self.last_seq + 1) as u64;
        JournalView {
            epoch: self.epoch,
            last_seq: seq,
            rows: placed(
                self.rows,
                Row { seq, stored: StoredRow::Entry(entry_of(item, self.epoch, seq)) },
            ),
            index: match item {
                PendingEntry::Admission(record) => indexed(self.index, record.key(), seq),
                PendingEntry::Outcome { origin_seq, outcome } => self.index,
            },
        }
    }

    /// The journal after a batch of pending writes has committed, one after the
    /// other.
    pub open spec fn with_batch(self, items: Seq<PendingEntry>) -> JournalView
        decreases items.len(),
    {
        if items.len() == 0 {
            self
        } else {
            self.with_batch(items.drop_last()).with_entry(items.last())
        }
    }

    /// What the writers of a batch get back: contiguous sequence numbers, in the
    /// order of arrival.
    pub open spec fn results(self, items: Seq<PendingEntry>) -> Seq<CommittedEntry> {
        Seq::new(
            items.len(),
            |i: int| result_of(items[i], self.epoch, (self.last_seq + 1 + i) as u64),
        )
    }

    /// Whether the sequence numbers suffice for a batch.
    pub open spec fn has_room(self, items: Seq<PendingEntry>) -> bool {
        self.last_seq + items.len() <= u64::MAX
    }

    /// The journal is as its own appends leave it: the sequence numbers run from
    /// 1 to the last one without a gap, all rows are readable, each admission
    /// carries its own number, and the index leads each key to its first
    /// admission.
    pub open spec fn intact(self) -> bool {
        &&& self.rows.len() == self.last_seq
        &&& forall|i: int|
            0 <= i < self.rows.len() ==> (#[trigger] self.rows[i]).seq == i + 1
                && self.rows[i].stored is Entry
        &&& forall|i: int|
            0 <= i < self.rows.len() ==> ((#[trigger] self.rows[i]).stored matches StoredRow::Entry(
                JournalEntry::Admission(record),
            ) ==> record.seq == i + 1 && self.index.contains_key(record.key())
                && self.index[record.key()] <= i + 1)
        &&& forall|key: Seq<char>| #[trigger]
            self.index.contains_key(key) ==> {
                &&& 1 <= self.index[key] <= self.last_seq
                &&& self.rows[self.index[key] - 1].stored matches StoredRow::Entry(
                    JournalEntry::Admission(record),
                ) && record.key() == key
            }
    }

    /// What an idempotency lookup finds: the admission and its latest outcome,
    /// or the reason why the journal cannot be read.
    pub open spec fn found(self, key: Seq<char>) -> Result<Option<RequestRecord>, Seq<char>> {
        if !self.index.contains_key(key) {
            Ok(None)
        } else {
            let seq = self.index[key];
            match row_at(self.rows, seq) {
                None => Err(missing_reason(seq)),
                Some(StoredRow::Unreadable(reason)) => Err(reason@),
                Some(StoredRow::Entry(JournalEntry::Outcome { origin_seq, outcome })) => Err(
                    outcome_reason(seq),
                ),
                Some(StoredRow::Entry(JournalEntry::Admission(record))) => match scanned(
                    self.rows,
                    seq,
                ) {
                    Ok(entries) => Ok(
                        Some(
                            RequestRecord {
                                admission: *record,
                                outcome: latest_outcome(entries, seq),
                            },
                        ),
                    ),
                    Err(reason) => Err(reason),
                },
            }
        }
    }
}

/// Rows put to their places one after the other.
pub open spec fn with_rows(rows: Seq<Row>, more: Seq<Row>) -> Seq<Row>
    decreases more.len(),
{
    if more.len() == 0 {
        rows
    } else {
        placed(with_rows(rows, more.drop_last()), more.last())
    }
}

/// Keys put into an index one after the other.
pub open spec fn with_keys(index: Map<Seq<char>, u64>, more: Seq<(String, u64)>) -> Map<
    Seq<char>,
    u64,
>
    decreases more.len(),
{
    if more.len() == 0 {
        index
    } else {
        with_keys(index, more.drop_last()).insert(more.last().0@, more.last().1)
    }
}

/// A list of keys names a key.
pub open spec fn names(keys: Seq<(String, u64)>, key: Seq<char>) -> bool {
    exists|i: int| 0 <= i < keys.len() && (#[trigger] keys[i]).0@ == key
}

fn names_key(keys: &Vec<(String, u64)>, key: &str) -> (r: bool)
    ensures
        r == names(keys@, key@),
{
    let mut i: usize = 0;
    while i < keys.len()
        invariant
            i <= keys@.len(),
            forall|k: int| 0 <= k < i ==> (#[trigger] keys@[k]).0@ != key@,
        decreases keys.len() - i,
    {
        if same(keys[i].0.as_str(), key) {
            return true;
        }
        i = i + 1;
    }
    false
}

/// An index with more keys knows its own and those.
proof fn lemma_keys_known(index: Map<Seq<char>, u64>, more: Seq<(String, u64)>, key: Seq<char>)
    ensures
        with_keys(index, more).contains_key(key) <==> index.contains_key(key) || names(more, key),
    decreases more.len(),
{
    if more.len() > 0 {
        let rest = more.drop_last();
        lemma_keys_known(index, rest, key);
        if names(rest, key) {
            let i = choose|i: int| 0 <= i < rest.len() && (#[trigger] rest[i]).0@ == key;
            assert(more[i].0@ == key);
        }
        if names(more, key) {
            let i = choose|i: int| 0 <= i < more.len() && (#[trigger] more[i]).0@ == key;
            if i < rest.len() {
                assert(rest[i].0@ == key);
            }
        }
        if more.last().0@ == key {
            assert(more[more.len() - 1].0@ == key);
        }
    }
}

/// What a row becomes a part of when the rows from `i` on come behind it.
proof fn lemma_placed(rows: Seq<Row>, row: Row, i: int)
    requires
        0 <= i <= rows.len(),
        forall|k: int| i <= k < rows.len() ==> (#[trigger] rows[k]).seq > row.seq,
        i > 0 ==> rows[i - 1].seq <= row.seq,
    ensures
        placed(rows, row) == (if i > 0 && rows[i - 1].seq == row.seq {
            rows.update(i - 1, row)
        } else {
            rows.insert(i, row)
        }),
    decreases rows.len(),
{
    if i == rows.len() {
        if i > 0 && rows[i - 1].seq == row.seq {
            assert(rows.drop_last().push(row) =~= rows.update(i - 1, row));
        } else {
            assert(rows.push(row) =~= rows.insert(i, row));
        }
    } else {
        let rest = rows.drop_last();
        lemma_placed(rest, row, i);
        if i > 0 && rows[i - 1].seq == row.seq {
            assert(rest.update(i - 1, row).push(rows.last()) =~= rows.update(i - 1, row));
        } else {
            assert(rest.insert(i, row).push(rows.last()) =~= rows.insert(i, row));
        }
    }
}

/// Puts a row to its place; it replaces a row of the same number.
fn put_row(rows: &mut Vec<Row>, row: Row)
    ensures
        final(rows)@ == placed(old(rows)@, row),
{
    let mut i: usize = rows.len();
    while i > 0 && rows[i - 1].seq > row.seq
        invariant
            rows@ == old(rows)@,
            i <= rows@.len(),
            forall|k: int| i <= k < rows@.len() ==> (#[trigger] rows@[k]).seq > row.seq,
        decreases i,
    {
        i = i - 1;
    }
    proof {
        lemma_placed(rows@, row, i as int);
    }
    if i > 0 && rows[i - 1].seq == row.seq {
        rows.set(i - 1, row);
    } else {
        rows.insert(i, row);
    }
}

// ---------------------------------------------------------------------------
// Journal
// ---------------------------------------------------------------------------

/// What a batch of pending writes puts into the journal, and what its writers
/// get back once it has committed.
#[derive(Debug)]
pub struct StagedBatch {
    /// The rows to write.
    pub rows: Vec<Row>,
    /// The idempotency keys to index.
    pub keys: Vec<(String, u64)>,
    /// The last committed sequence number afterwards.
    pub last_seq: u64,
    /// One result for each pending write, in the order of arrival.
    pub results: Vec<CommittedEntry>,
}

impl JournalView {
    /// The journal with a staged batch put into it.
    pub open spec fn applied(self, batch: StagedBatch) -> JournalView {
        JournalView {
            epoch: self.epoch,
            last_seq: batch.last_seq,
            rows: with_rows(self.rows, batch.rows@),
            index: with_keys(self.index, batch.keys@),
        }
    }
}

/// Append-only business journal, as it was last committed.
pub struct BusinessJournal {
    journal_epoch: u64,
    last_seq: u64,
    rows: Vec<Row>,
    index: StringHashMap<u64>,
}

impl View for BusinessJournal {
    type V = JournalView;

    closed spec fn view(&self) -> JournalView {
        JournalView {
            epoch: self.journal_epoch,
            last_seq: self.last_seq,
            rows: self.rows@,
            index: self.index@,
        }
    }
}

/// The epoch of a new journal.
pub const FIRST_EPOCH: u64 = 1;

/// The journal that a store holds; a store that does not say otherwise is at
/// epoch 1 and sequence 0.
pub open spec fn restored(
    journal_epoch: Option<u64>,
    last_seq: Option<u64>,
    rows: Seq<Row>,
    keys: Seq<(String, u64)>,
) -> JournalView {
    JournalView {
        epoch: match journal_epoch {
            Some(epoch) => epoch,
            None => FIRST_EPOCH,
        },
        last_seq: match last_seq {
            Some(seq) => seq,
            None => 0,
        },
        rows: with_rows(Seq::empty(), rows),
        index: with_keys(Map::empty(), keys),
    }
}

impl BusinessJournal {
    /// Creates an empty journal, at epoch 1 and sequence 0.
    pub fn new() -> (r: Self)
        ensures
            r@ == (JournalView {
                epoch: FIRST_EPOCH,
                last_seq: 0,
                rows: Seq::empty(),
                index: Map::empty(),
            }),
            r@.intact(),
    {
        let r = BusinessJournal {
            journal_epoch: FIRST_EPOCH,
            last_seq: 0,
            rows: Vec::new(),
            index: StringHashMap::new(),
        };
        assert(r@ =~= (JournalView {
            epoch: FIRST_EPOCH,
            last_seq: 0,
            rows: Seq::empty(),
            index: Map::empty(),
        }));
        r
    }

    /// Builds the journal from what a store holds.
    ///
    /// A store that does not say otherwise is at epoch 1 and sequence 0.
    pub fn restore(
        journal_epoch: Option<u64>,
        last_seq: Option<u64>,
        rows: Vec<Row>,
        keys: Vec<(String, u64)>,
    ) -> (r: Self)
        ensures
            r@ == restored(journal_epoch, last_seq, rows@, keys@),
    {
        let mut r = BusinessJournal::new();
        if let Some(epoch) = journal_epoch {
            r.journal_epoch = epoch;
        }
        let last = match last_seq {
            Some(seq) => seq,
            None => 0,
        };
        r.apply(StagedBatch { rows, keys, last_seq: last, results: Vec::new() });
        r
    }

    /// The current journal epoch.
    pub fn epoch(&self) -> (r: u64)
        ensures
            r == self@.epoch,
    {
        self.journal_epoch
    }

    /// The last committed sequence number (0 when the journal is empty).
    pub fn last_seq(&self) -> (r: Result<u64, JournalError>)
        ensures
            r == Ok::<u64, JournalError>(self@.last_seq),
    {
        Ok(self.last_seq)
    }

    /// The idempotency key of `(submitter, method, request_id)`.
    pub fn request_key_parts(submitter_id: &str, method: &str, request_id: &str) -> (r: String)
        ensures
            r@ == request_key(submitter_id@, method@, request_id@),
    {
        let head = join2(submitter_id, "|");
        let tail = join3(method, "|", request_id);
        let r = join2(head.as_str(), tail.as_str());
        proof {
            reveal_strlit("|");
            assert(r@ =~= request_key(submitter_id@, method@, request_id@));
        }
        r
    }

    fn request_key(record: &AdmissionRecord) -> (r: String)
        ensures
            r@ == record.key(),
    {
        BusinessJournal::request_key_parts(
            record.submitter_id.as_str(),
            record.request_kind.as_str(),
            record.request_id.as_str(),
        )
    }

    /// Puts a batch that the store has committed into the journal, and hands out
    /// the results of its writers.
    pub fn apply(&mut self, batch: StagedBatch) -> (r: Vec<CommittedEntry>)
        ensures
            final(self)@ == old(self)@.applied(batch),
            r == batch.results,
    {
        let ghost before = self@;
        let StagedBatch { rows: new_rows, keys: new_keys, last_seq, results } = batch;
        let ghost given = new_rows@;
        let ghost named = new_keys@;
        let mut rest = new_rows;
        let mut ordered_rows: Vec<Row> = Vec::new();
        while rest.len() > 0
            invariant
                given == rest@ + ordered_rows@.reverse(),
            decreases rest.len(),
        {
            let ghost was = rest@;
            let ghost out = ordered_rows@;
            let row = rest.pop().unwrap();
            ordered_rows.push(row);
            assert(was + out.reverse() =~= rest@ + ordered_rows@.reverse());
        }
        let ghost all = ordered_rows@;
        assert(given =~= all.reverse());
        assert(given.take(0) =~= Seq::<Row>::empty());
        while ordered_rows.len() > 0
            invariant
                self@.epoch == before.epoch,
                self@.index == before.index,
                ordered_rows@.len() <= all.len(),
                given == all.reverse(),
                ordered_rows@ == all.take(ordered_rows@.len() as int),
                self@.rows == with_rows(before.rows, given.take(all.len() - ordered_rows@.len())),
            decreases ordered_rows.len(),
        {
            let ghost done = all.len() - ordered_rows@.len();
            let row = ordered_rows.pop().unwrap();
            assert(given.take(done + 1).drop_last() =~= given.take(done));
            assert(given.take(done + 1).last() == row);
            put_row(&mut self.rows, row);
        }
        assert(given.take(given.len() as int) =~= given);
        let mut i: usize = 0;
        assert(named.take(0) =~= Seq::<(String, u64)>::empty());
        while i < new_keys.len()
            invariant
                self@.epoch == before.epoch,
                self@.rows == with_rows(before.rows, given),
                named == new_keys@,
                i <= new_keys@.len(),
                self@.index == with_keys(before.index, named.take(i as int)),
            decreases new_keys.len() - i,
        {
            assert(named.take(i + 1).drop_last() =~= named.take(i as int));
            self.index.insert(new_keys[i].0.clone(), new_keys[i].1);
            i = i + 1;
        }
        assert(named.take(named.len() as int) =~= named);
        self.last_seq = last_seq;
        results
    }

    /// Allocates the sequence numbers of a mixed batch of admissions and
    /// outcomes, in the order of arrival, and says what the batch writes.
    ///
    /// All or nothing: where the sequence numbers do not suffice, nothing is
    /// staged.
    pub fn stage_batch(&self, items: &[PendingEntry]) -> (r: Result<StagedBatch, JournalError>)
        ensures
            match r {
                Ok(batch) => {
                    &&& self@.has_room(items@)
                    &&& self@.applied(batch) == self@.with_batch(items@)
                    &&& batch.results@ == self@.results(items@)
                    &&& batch.last_seq == self@.last_seq + items@.len()
                },
                Err(JournalError::Encoding(reason)) => !self@.has_room(items@) && reason@
                    == "sequence overflow"@,
                _ => false,
            },
    {
        let mut rows: Vec<Row> = Vec::new();
        let mut keys: Vec<(String, u64)> = Vec::new();
        let mut results: Vec<CommittedEntry> = Vec::new();
        let mut next_seq: u64 = self.last_seq;
        let mut i: usize = 0;
        let ghost view = self@;
        proof {
            assert(items@.take(0) =~= Seq::<PendingEntry>::empty());
            assert(results@ =~= view.results(items@.take(0)));
        }
        while i < items.len()
            invariant
                view == self@,
                i <= items@.len(),
                next_seq == view.last_seq + i,
                with_rows(view.rows, rows@) == view.with_batch(items@.take(i as int)).rows,
                with_keys(view.index, keys@) == view.with_batch(items@.take(i as int)).index,
                view.with_batch(items@.take(i as int)).epoch == view.epoch,
                view.with_batch(items@.take(i as int)).last_seq == next_seq,
                results@ == view.results(items@.take(i as int)),
            decreases items.len() - i,
        {
            if next_seq == u64::MAX {
                return Err(JournalError::Encoding("sequence overflow".to_owned()));
            }
            let ghost sofar = items@.take(i as int);
            let ghost upto = items@.take(i + 1);
            assert(upto.drop_last() =~= sofar);
            assert(upto.last() == items@[i as int]);
            let ghost rows_before = rows@;
            let ghost keys_before = keys@;
            let ghost results_before = results@;
            next_seq = next_seq + 1;
            match &items[i] {
                PendingEntry::Admission(record) => {
                    let mut record = (&**record).clone();
                    record.journal_epoch = self.journal_epoch;
                    record.seq = next_seq;
                    let key = BusinessJournal::request_key(&record);
                    proof {
                        lemma_keys_known(view.index, keys@, key@);
                    }
                    if !self.index.contains_key(key.as_str()) && !names_key(&keys, key.as_str()) {
                        keys.push((key, next_seq));
                        assert(keys@.drop_last() =~= keys_before);
                    }
                    rows.push(
                        Row {
                            seq: next_seq,
                            stored: StoredRow::Entry(
                                JournalEntry::Admission(Box::new(record.clone())),
                            ),
                        },
                    );
                    results.push(CommittedEntry::Admission(Box::new(record)));
                },
                PendingEntry::Outcome { origin_seq, outcome } => {
                    rows.push(
                        Row {
                            seq: next_seq,
                            stored: StoredRow::Entry(
                                JournalEntry::Outcome {
                                    origin_seq: *origin_seq,
                                    outcome: outcome.clone(),
                                },
                            ),
                        },
                    );
                    results.push(
                        CommittedEntry::Outcome { seq: next_seq, origin_seq: *origin_seq },
                    );
                },
            }
            assert(rows@.drop_last() =~= rows_before);
            assert(results@ =~= view.results(upto));
            i = i + 1;
        }
        assert(items@.take(i as int) =~= items@);
        let batch = StagedBatch { rows, keys, last_seq: next_seq, results };
        assert(view.applied(batch) =~= view.with_batch(items@));
        Ok(batch)
    }

    /// Commits a mixed batch of admissions and outcomes in arrival order.
    ///
    /// All or nothing: where the sequence numbers do not suffice, the journal is
    /// unchanged. Sequence numbers are allocated contiguously in arrival order,
    /// so group commit preserves the logical order of concurrent admissions.
    pub fn append_batch(&mut self, items: &[PendingEntry]) -> (r: Result<
        Vec<CommittedEntry>,
        JournalError,
    >)
        ensures
            match r {
                Ok(results) => {
                    &&& old(self)@.has_room(items@)
                    &&& final(self)@ == old(self)@.with_batch(items@)
                    &&& results@ == old(self)@.results(items@)
                },
                Err(JournalError::Encoding(reason)) => {
                    &&& !old(self)@.has_room(items@)
                    &&& reason@ == "sequence overflow"@
                    &&& final(self)@ == old(self)@
                },
                _ => false,
            },
    {
        match self.stage_batch(items) {
            Ok(batch) => Ok(self.apply(batch)),
            Err(error) => Err(error),
        }
    }

    /// Appends an admission and indexes its idempotency key, if the key is new.
    ///
    /// The sequence number is allocated, written and indexed, and the high-water
    /// mark advanced, all in one step.
    pub fn append_admission(&mut self, record: AdmissionRecord) -> (r: Result<
        AdmissionRecord,
        JournalError,
    >)
        ensures
            match r {
                Ok(admitted) => {
                    &&& old(self)@.last_seq < u64::MAX
                    &&& admitted == record.numbered(
                        old(self)@.epoch,
                        (old(self)@.last_seq + 1) as u64,
                    )
                    &&& final(self)@ == old(self)@.with_entry(
                        PendingEntry::Admission(Box::new(record)),
                    )
                },
                Err(JournalError::Encoding(reason)) => {
                    &&& old(self)@.last_seq == u64::MAX
                    &&& reason@ == "sequence overflow"@
                    &&& final(self)@ == old(self)@
                },
                _ => false,
            },
    {
        let ghost given = record;
        if self.last_seq == u64::MAX {
            return Err(JournalError::Encoding("sequence overflow".to_owned()));
        }
        let next_seq = self.last_seq + 1;
        let mut record = record;
        record.journal_epoch = self.journal_epoch;
        record.seq = next_seq;
        put_row(
            &mut self.rows,
            Row {
                seq: next_seq,
                stored: StoredRow::Entry(JournalEntry::Admission(Box::new(record.clone()))),
            },
        );
        let key = BusinessJournal::request_key(&record);
        if !self.index.contains_key(key.as_str()) {
            self.index.insert(key, next_seq);
        }
        self.last_seq = next_seq;
        Ok(record)
    }

    /// Appends an outcome for the request admitted at `origin_seq`, and returns
    /// its own sequence number.
    pub fn append_outcome(&mut self, origin_seq: u64, outcome: JournalOutcome) -> (r: Result<
        u64,
        JournalError,
    >)
        ensures
            match r {
                Ok(seq) => {
                    &&& old(self)@.last_seq < u64::MAX
                    &&& seq == old(self)@.last_seq + 1
                    &&& final(self)@ == old(self)@.with_entry(
                        PendingEntry::Outcome { origin_seq, outcome },
                    )
                },
                Err(JournalError::Encoding(reason)) => {
                    &&& old(self)@.last_seq == u64::MAX
                    &&& reason@ == "sequence overflow"@
                    &&& final(self)@ == old(self)@
                },
                _ => false,
            },
    {
        if self.last_seq == u64::MAX {
            return Err(JournalError::Encoding("sequence overflow".to_owned()));
        }
        let next_seq = self.last_seq + 1;
        put_row(
            &mut self.rows,
            Row {
                seq: next_seq,
                stored: StoredRow::Entry(JournalEntry::Outcome { origin_seq, outcome }),
            },
        );
        self.last_seq = next_seq;
        Ok(next_seq)
    }

    /// The last row stored under a sequence number.
    fn row(&self, seq: u64) -> (r: Option<&StoredRow>)
        ensures
            match r {
                Some(stored) => row_at(self@.rows, seq) == Some(*stored),
                None => row_at(self@.rows, seq) is None,
            },
    {
        let mut i: usize = self.rows.len();
        assert(self.rows@.take(i as int) =~= self.rows@);
        while i > 0
            invariant
                i <= self.rows@.len(),
                row_at(self@.rows, seq) == row_at(self.rows@.take(i as int), seq),
            decreases i,
        {
            assert(self.rows@.take(i as int).drop_last() =~= self.rows@.take(i - 1));
            if self.rows[i - 1].seq == seq {
                return Some(&self.rows[i - 1].stored);
            }
            i = i - 1;
        }
        None
    }

    /// Scans committed entries with sequence numbers greater than `after`.
    ///
    /// This is the durable-log half of the resync contract: a follower that has
    /// applied through cursor N reads `scan_after(N)` to catch up.
    pub fn scan_after(&self, after: u64) -> (r: Result<Vec<(u64, JournalEntry)>, JournalError>)
        ensures
            match r {
                Ok(entries) => scanned(self@.rows, after) == Ok::<
                    Seq<(u64, JournalEntry)>,
                    Seq<char>,
                >(entries@),
                Err(JournalError::Encoding(reason)) => scanned(self@.rows, after) == Err::<
                    Seq<(u64, JournalEntry)>,
                    Seq<char>,
                >(reason@),
                _ => false,
            },
    {
        let mut entries: Vec<(u64, JournalEntry)> = Vec::new();
        let mut i: usize = 0;
        assert(self.rows@.take(0) =~= Seq::<Row>::empty());
        while i < self.rows.len()
            invariant
                i <= self.rows@.len(),
                scanned(self.rows@.take(i as int), after) == Ok::<
                    Seq<(u64, JournalEntry)>,
                    Seq<char>,
                >(entries@),
            decreases self.rows.len() - i,
        {
            let ghost upto = self.rows@.take(i + 1);
            assert(upto.drop_last() =~= self.rows@.take(i as int));
            if self.rows[i].seq > after {
                match &self.rows[i].stored {
                    StoredRow::Entry(entry) => {
                        entries.push((self.rows[i].seq, entry.clone()));
                    },
                    StoredRow::Unreadable(reason) => {
                        proof {
                            assert(scanned(upto, after) is Err);
                            lemma_scan_error(self.rows@, after, i + 1);
                        }
                        return Err(JournalError::Encoding(reason.clone()));
                    },
                }
            }
            i = i + 1;
        }
        assert(self.rows@.take(i as int) =~= self.rows@);
        Ok(entries)
    }

    /// Scans all committed entries in sequence order (recovery verification).
    pub fn scan_all(&self) -> (r: Result<Vec<(u64, JournalEntry)>, JournalError>)
        ensures
            match r {
                Ok(entries) => scanned(self@.rows, 0) == Ok::<Seq<(u64, JournalEntry)>, Seq<char>>(
                    entries@,
                ),
                Err(JournalError::Encoding(reason)) => scanned(self@.rows, 0) == Err::<
                    Seq<(u64, JournalEntry)>,
                    Seq<char>,
                >(reason@),
                _ => false,
            },
    {
        self.scan_after(0)
    }

    /// Looks up a request by its idempotency key `(submitter, method, request_id)`.
    ///
    /// Returns the original admission and the latest committed outcome.
    pub fn find_request(&self, submitter_id: &str, method: &str, request_id: &str) -> (r: Result<
        Option<RequestRecord>,
        JournalError,
    >)
        ensures
            match r {
                Ok(found) => self@.found(request_key(submitter_id@, method@, request_id@)) == Ok::<
                    Option<RequestRecord>,
                    Seq<char>,
                >(found),
                Err(JournalError::Encoding(reason)) => self@.found(
                    request_key(submitter_id@, method@, request_id@),
                ) == Err::<Option<RequestRecord>, Seq<char>>(reason@),
                _ => false,
            },
    {
        let key = BusinessJournal::request_key_parts(submitter_id, method, request_id);
        let admission_seq = match self.index.get(key.as_str()) {
            Some(seq) => *seq,
            None => {
                return Ok(None);
            },
        };
        let admission = match self.row(admission_seq) {
            Some(StoredRow::Entry(JournalEntry::Admission(record))) => (&**record).clone(),
            Some(StoredRow::Entry(JournalEntry::Outcome { origin_seq, outcome })) => {
                return Err(
                    JournalError::Encoding(
                        join2(
                            "request index points at an outcome entry at seq ",
                            u64_text(admission_seq).as_str(),
                        ),
                    ),
                );
            },
            Some(StoredRow::Unreadable(reason)) => {
                return Err(JournalError::Encoding(reason.clone()));
            },
            None => {
                return Err(
                    JournalError::Encoding(
                        join2(
                            "request index points at missing seq ",
                            u64_text(admission_seq).as_str(),
                        ),
                    ),
                );
            },
        };
        match self.scan_after(admission_seq) {
            Ok(entries) => Ok(
                Some(RequestRecord { admission, outcome: latest_of(&entries, admission_seq) }),
            ),
            Err(error) => Err(error),
        }
    }
}

/// The last outcome in a list of entries that refers to `origin_seq`.
fn latest_of(entries: &Vec<(u64, JournalEntry)>, origin_seq: u64) -> (r: Option<JournalOutcome>)
    ensures
        r == latest_outcome(entries@, origin_seq),
{
    let mut i: usize = entries.len();
    assert(entries@.take(i as int) =~= entries@);
    while i > 0
        invariant
            i <= entries@.len(),
            latest_outcome(entries@, origin_seq) == latest_outcome(
                entries@.take(i as int),
                origin_seq,
            ),
        decreases i,
    {
        assert(entries@.take(i as int).drop_last() =~= entries@.take(i - 1));
        if let JournalEntry::Outcome { origin_seq: origin, outcome } = &entries[i - 1].1 {
            if *origin == origin_seq {
                return Some(outcome.clone());
            }
        }
        i = i - 1;
    }
    None
}

/// A scan that fails on the first rows fails on all of them, for the same
/// reason.
proof fn lemma_scan_error(rows: Seq<Row>, after: u64, i: int)
    requires
        0 <= i <= rows.len(),
        scanned(rows.take(i), after) is Err,
    ensures
        scanned(rows, after) == scanned(rows.take(i), after),
    decreases rows.len() - i,
{
    if i < rows.len() {
        assert(rows.take(i + 1).drop_last() =~= rows.take(i));
        lemma_scan_error(rows, after, i + 1);
    } else {
        assert(rows.take(i) =~= rows);
    }
}

// ---------------------------------------------------------------------------
// Laws
// ---------------------------------------------------------------------------

/// The entries of an intact journal behind `after`.
pub open spec fn entries_after(rows: Seq<Row>, after: u64) -> Seq<(u64, JournalEntry)> {
    if after < rows.len() {
        Seq::new(
            (rows.len() - after) as nat,
            |i: int| ((after + 1 + i) as u64, rows[after + i].stored->Entry_0),
        )
    } else {
        Seq::empty()
    }
}

/// The journal only grows: an append puts one row behind all others, under the
/// next sequence number, and changes none of them. It keeps the journal intact.
pub proof fn law_append_only(journal: JournalView, item: PendingEntry)
    requires
        journal.intact(),
        journal.last_seq < u64::MAX,
    ensures
        ({
            let seq = (journal.last_seq + 1) as u64;
            let after = journal.with_entry(item);
            &&& after.intact()
            &&& after.last_seq == journal.last_seq + 1
            &&& after.epoch == journal.epoch
            &&& after.rows == journal.rows.push(
                Row { seq, stored: StoredRow::Entry(entry_of(item, journal.epoch, seq)) },
            )
        }),
{
    let seq = (journal.last_seq + 1) as u64;
    let after = journal.with_entry(item);
    let row = Row { seq, stored: StoredRow::Entry(entry_of(item, journal.epoch, seq)) };
    assert(placed(journal.rows, row) =~= journal.rows.push(row));
    let n = journal.rows.len() as int;
    assert forall|i: int| 0 <= i < after.rows.len() implies (#[trigger] after.rows[i]).seq == i + 1
        && after.rows[i].stored is Entry by {
        if i < n {
            assert(after.rows[i] == journal.rows[i]);
        }
    }
    assert forall|i: int| 0 <= i < after.rows.len() implies ((
    #[trigger] after.rows[i]).stored matches StoredRow::Entry(JournalEntry::Admission(record))
        ==> record.seq == i + 1 && after.index.contains_key(record.key())
        && after.index[record.key()] <= i + 1) by {
        if i < n {
            assert(after.rows[i] == journal.rows[i]);
        } else {
            assert(after.rows[i] == row);
        }
    }
    assert forall|key: Seq<char>| #[trigger] after.index.contains_key(key) implies {
        &&& 1 <= after.index[key] <= after.last_seq
        &&& after.rows[after.index[key] - 1].stored matches StoredRow::Entry(
            JournalEntry::Admission(record),
        ) && record.key() == key
    } by {
        if journal.index.contains_key(key) && after.index[key] == journal.index[key] {
            assert(after.rows[after.index[key] - 1] == journal.rows[journal.index[key] - 1]);
        } else {
            assert(after.rows[after.index[key] - 1] == row);
        }
    }
}

/// A batch takes contiguous sequence numbers in the order of arrival, changes no
/// earlier row and keeps the journal intact. No committed number is issued
/// again.
pub proof fn law_batch_is_contiguous(journal: JournalView, items: Seq<PendingEntry>)
    requires
        journal.intact(),
        journal.has_room(items),
    ensures
        ({
            let after = journal.with_batch(items);
            &&& after.intact()
            &&& after.epoch == journal.epoch
            &&& after.last_seq == journal.last_seq + items.len()
            &&& after.rows == journal.rows + Seq::new(
                items.len(),
                |i: int|
                    Row {
                        seq: (journal.last_seq + 1 + i) as u64,
                        stored: StoredRow::Entry(
                            entry_of(items[i], journal.epoch, (journal.last_seq + 1 + i) as u64),
                        ),
                    },
            )
        }),
    decreases items.len(),
{
    let rows_of = |some: Seq<PendingEntry>|
        Seq::new(
            some.len(),
            |i: int|
                Row {
                    seq: (journal.last_seq + 1 + i) as u64,
                    stored: StoredRow::Entry(
                        entry_of(some[i], journal.epoch, (journal.last_seq + 1 + i) as u64),
                    ),
                },
        );
    if items.len() == 0 {
        assert(journal.rows + rows_of(items) =~= journal.rows);
    } else {
        let rest = items.drop_last();
        law_batch_is_contiguous(journal, rest);
        law_append_only(journal.with_batch(rest), items.last());
        assert(journal.with_batch(rest).rows == journal.rows + rows_of(rest));
        assert(journal.with_batch(items).rows =~= journal.rows + rows_of(items));
    }
}

/// Sequence numbers of an intact journal lead to their rows.
proof fn lemma_row_at(journal: JournalView, seq: u64, n: int)
    requires
        journal.intact(),
        1 <= seq <= n <= journal.rows.len(),
    ensures
        row_at(journal.rows.take(n), seq) == Some(journal.rows[seq - 1].stored),
    decreases n,
{
    let rows = journal.rows.take(n);
    assert(rows.last() == journal.rows[n - 1]);
    assert(rows.drop_last() =~= journal.rows.take(n - 1));
    if seq < n {
        lemma_row_at(journal, seq, n - 1);
    }
}

/// A scan of the first rows of an intact journal.
proof fn lemma_scan(journal: JournalView, after: u64, n: int)
    requires
        journal.intact(),
        0 <= n <= journal.rows.len(),
    ensures
        scanned(journal.rows.take(n), after) == Ok::<Seq<(u64, JournalEntry)>, Seq<char>>(
            entries_after(journal.rows.take(n), after),
        ),
    decreases n,
{
    let rows = journal.rows.take(n);
    if n > 0 {
        assert(rows.last() == journal.rows[n - 1]);
        assert(rows.drop_last() =~= journal.rows.take(n - 1));
        lemma_scan(journal, after, n - 1);
        if n - 1 >= after {
            assert(entries_after(rows, after) =~= entries_after(rows.drop_last(), after).push(
                (n as u64, journal.rows[n - 1].stored->Entry_0),
            ));
        } else {
            assert(entries_after(rows, after) =~= entries_after(rows.drop_last(), after));
        }
    } else {
        assert(entries_after(rows, after) =~= Seq::<(u64, JournalEntry)>::empty());
    }
}

/// A scan has no gaps: it gives every entry behind the cursor, under contiguous
/// sequence numbers that start right behind it and end at the last one.
pub proof fn law_scan_has_no_gaps(journal: JournalView, after: u64)
    requires
        journal.intact(),
    ensures
        scanned(journal.rows, after) == Ok::<Seq<(u64, JournalEntry)>, Seq<char>>(
            entries_after(journal.rows, after),
        ),
        after >= journal.last_seq ==> entries_after(journal.rows, after).len() == 0,
        after < journal.last_seq ==> {
            &&& entries_after(journal.rows, after).len() == journal.last_seq - after
            &&& forall|i: int|
                0 <= i < journal.last_seq - after ==> (#[trigger] entries_after(
                    journal.rows,
                    after,
                )[i]) == (
                    (after + 1 + i) as u64,
                    journal.rows[after + i].stored->Entry_0,
                )
        },
{
    lemma_scan(journal, after, journal.rows.len() as int);
    assert(journal.rows.take(journal.rows.len() as int) =~= journal.rows);
}

/// On an intact journal a lookup never fails, and gives the admission that the
/// index leads to.
pub proof fn law_lookup_succeeds(journal: JournalView, key: Seq<char>)
    requires
        journal.intact(),
    ensures
        match journal.found(key) {
            Ok(Some(record)) => {
                &&& journal.index.contains_key(key)
                &&& record.admission.seq == journal.index[key]
                &&& record.admission.key() == key
                &&& record.outcome == latest_outcome(
                    entries_after(journal.rows, journal.index[key]),
                    journal.index[key],
                )
            },
            Ok(None) => !journal.index.contains_key(key),
            Err(reason) => false,
        },
{
    if journal.index.contains_key(key) {
        let seq = journal.index[key];
        let n = journal.rows.len() as int;
        lemma_row_at(journal, seq, n);
        lemma_scan(journal, seq, n);
        assert(journal.rows.take(n) =~= journal.rows);
        assert(journal.rows[seq - 1].stored is Entry);
    }
}

/// What was written is what is read: right after an admission under a new key, the
/// key leads to that very record, under its number and without an outcome.
pub proof fn law_admission_is_found(journal: JournalView, record: AdmissionRecord)
    requires
        journal.intact(),
        journal.last_seq < u64::MAX,
        !journal.index.contains_key(record.key()),
    ensures
        journal.with_entry(PendingEntry::Admission(Box::new(record))).found(record.key()) == Ok::<
            Option<RequestRecord>,
            Seq<char>,
        >(
            Some(
                RequestRecord {
                    admission: record.numbered(journal.epoch, (journal.last_seq + 1) as u64),
                    outcome: None,
                },
            ),
        ),
{
    let item = PendingEntry::Admission(Box::new(record));
    let after = journal.with_entry(item);
    law_append_only(journal, item);
    law_lookup_succeeds(after, record.key());
    lemma_row_at(after, after.last_seq, after.rows.len() as int);
    assert(after.rows.take(after.rows.len() as int) =~= after.rows);
}

/// The latest outcome counts: right after an outcome for the admission that a
/// key leads to, a lookup gives the same admission with that outcome.
pub proof fn law_outcome_is_latest(journal: JournalView, key: Seq<char>, outcome: JournalOutcome)
    requires
        journal.intact(),
        journal.last_seq < u64::MAX,
        journal.index.contains_key(key),
    ensures
        journal.found(key) matches Ok(Some(before)) && journal.with_entry(
            PendingEntry::Outcome { origin_seq: journal.index[key], outcome },
        ).found(key) == Ok::<Option<RequestRecord>, Seq<char>>(
            Some(RequestRecord { admission: before.admission, outcome: Some(outcome) }),
        ),
{
    let seq = journal.index[key];
    let item = PendingEntry::Outcome { origin_seq: seq, outcome };
    let after = journal.with_entry(item);
    law_append_only(journal, item);
    law_lookup_succeeds(journal, key);
    law_lookup_succeeds(after, key);
    lemma_rows_kept(journal, item, seq);
}

/// An append leaves every request alone that it does not concern: a lookup gives
/// the same as before for another key, and after an outcome for another request.
/// A further admission under a known key changes nothing either: the lookup keeps
/// giving the original one.
pub proof fn law_append_leaves_others(journal: JournalView, item: PendingEntry, key: Seq<char>)
    requires
        journal.intact(),
        journal.last_seq < u64::MAX,
        match item {
            PendingEntry::Admission(record) => record.key() != key || journal.index.contains_key(
                key,
            ),
            PendingEntry::Outcome { origin_seq, outcome } => journal.index.contains_key(key)
                ==> origin_seq != journal.index[key],
        },
    ensures
        journal.with_entry(item).found(key) == journal.found(key),
{
    let after = journal.with_entry(item);
    law_append_only(journal, item);
    law_lookup_succeeds(journal, key);
    law_lookup_succeeds(after, key);
    if journal.index.contains_key(key) {
        lemma_rows_kept(journal, item, journal.index[key]);
    }
}

/// An append adds its entry to every scan and leaves the row of an earlier
/// admission alone.
proof fn lemma_rows_kept(journal: JournalView, item: PendingEntry, seq: u64)
    requires
        journal.intact(),
        journal.last_seq < u64::MAX,
        1 <= seq <= journal.last_seq,
    ensures
        row_at(journal.with_entry(item).rows, seq) == row_at(journal.rows, seq),
        entries_after(journal.with_entry(item).rows, seq) == entries_after(journal.rows, seq).push(
            (
                (journal.last_seq + 1) as u64,
                entry_of(item, journal.epoch, (journal.last_seq + 1) as u64),
            ),
        ),
        entries_after(journal.with_entry(item).rows, seq).drop_last() == entries_after(
            journal.rows,
            seq,
        ),
{
    let after = journal.with_entry(item);
    law_append_only(journal, item);
    let n = journal.rows.len() as int;
    lemma_row_at(journal, seq, n);
    lemma_row_at(after, seq, n + 1);
    assert(journal.rows.take(n) =~= journal.rows);
    assert(after.rows.take(n + 1) =~= after.rows);
    let list = entries_after(journal.rows, seq);
    let entry = (
        (journal.last_seq + 1) as u64,
        entry_of(item, journal.epoch, (journal.last_seq + 1) as u64),
    );
    assert(entries_after(after.rows, seq) =~= list.push(entry));
    assert(list.push(entry).drop_last() =~= list);
}

/// What a store that holds the journal gives when it is read: the rows in the
/// order of their sequence numbers, and each key of the index once.
pub open spec fn reads(journal: JournalView, rows: Seq<Row>, keys: Seq<(String, u64)>) -> bool {
    &&& rows == journal.rows
    &&& forall|i: int, j: int|
        0 <= i < j < keys.len() ==> (#[trigger] keys[i]).0@ != (#[trigger] keys[j]).0@
    &&& forall|i: int|
        0 <= i < keys.len() ==> journal.index.contains_key((#[trigger] keys[i]).0@)
            && journal.index[keys[i].0@] == keys[i].1
    &&& forall|key: Seq<char>| #[trigger]
        journal.index.contains_key(key) ==> exists|i: int|
            0 <= i < keys.len() && (#[trigger] keys[i]).0@ == key
}

/// The first rows of an intact journal come back in their order.
proof fn lemma_rows_come_back(journal: JournalView, n: int)
    requires
        journal.intact(),
        0 <= n <= journal.rows.len(),
    ensures
        with_rows(Seq::empty(), journal.rows.take(n)) == journal.rows.take(n),
    decreases n,
{
    let rows = journal.rows.take(n);
    if n > 0 {
        lemma_rows_come_back(journal, n - 1);
        assert(rows.drop_last() =~= journal.rows.take(n - 1));
        assert(rows.last() == journal.rows[n - 1]);
        if n > 1 {
            assert(rows.drop_last().last() == journal.rows[n - 2]);
        }
        assert(placed(rows.drop_last(), rows.last()) =~= rows);
    } else {
        assert(rows =~= Seq::<Row>::empty());
    }
}

/// The first keys come back, each with its own number.
proof fn lemma_keys_come_back(keys: Seq<(String, u64)>, n: int)
    requires
        0 <= n <= keys.len(),
        forall|i: int, j: int|
            0 <= i < j < keys.len() ==> (#[trigger] keys[i]).0@ != (#[trigger] keys[j]).0@,
    ensures
        forall|i: int|
            0 <= i < n ==> with_keys(Map::empty(), keys.take(n)).contains_key(
                (#[trigger] keys[i]).0@,
            ) && with_keys(Map::empty(), keys.take(n))[keys[i].0@] == keys[i].1,
        forall|key: Seq<char>| #[trigger]
            with_keys(Map::empty(), keys.take(n)).contains_key(key) ==> exists|i: int|
                0 <= i < n && (#[trigger] keys[i]).0@ == key,
    decreases n,
{
    let some = keys.take(n);
    if n > 0 {
        lemma_keys_come_back(keys, n - 1);
        assert(some.drop_last() =~= keys.take(n - 1));
        assert(some.last() == keys[n - 1]);
        let before = with_keys(Map::empty(), some.drop_last());
        assert forall|key: Seq<char>| #[trigger]
            with_keys(Map::empty(), some).contains_key(key) implies exists|i: int|
            0 <= i < n && (#[trigger] keys[i]).0@ == key by {
            if key != keys[n - 1].0@ {
                assert(before.contains_key(key));
            }
        }
    } else {
        assert(some =~= Seq::<(String, u64)>::empty());
    }
}

/// A restart loses nothing: what a store gives back of an intact journal restores
/// that very journal, with its epoch, its last sequence number, its entries and
/// its idempotency keys.
pub proof fn law_restart_loses_nothing(
    journal: JournalView,
    journal_epoch: Option<u64>,
    last_seq: Option<u64>,
    rows: Seq<Row>,
    keys: Seq<(String, u64)>,
)
    requires
        journal.intact(),
        reads(journal, rows, keys),
        journal.epoch == (match journal_epoch {
            Some(epoch) => epoch,
            None => FIRST_EPOCH,
        }),
        journal.last_seq == (match last_seq {
            Some(seq) => seq,
            None => 0,
        }),
    ensures
        restored(journal_epoch, last_seq, rows, keys) == journal,
{
    lemma_rows_come_back(journal, rows.len() as int);
    assert(rows.take(rows.len() as int) =~= rows);
    lemma_keys_come_back(keys, keys.len() as int);
    assert(keys.take(keys.len() as int) =~= keys);
    let index = with_keys(Map::empty(), keys);
    assert forall|key: Seq<char>| #[trigger]
        index.contains_key(key) implies journal.index.contains_key(key) && index[key]
        == journal.index[key] by {
        let i = choose|i: int| 0 <= i < keys.len() && (#[trigger] keys[i]).0@ == key;
        assert(keys[i].0@ == key);
    }
    assert forall|key: Seq<char>| #[trigger]
        journal.index.contains_key(key) implies index.contains_key(key) by {
        let i = choose|i: int| 0 <= i < keys.len() && (#[trigger] keys[i]).0@ == key;
        assert(keys[i].0@ == key);
    }
    assert(index =~= journal.index);
}

/// Idempotency keys are unambiguous: requests whose submitters and methods hold
/// no `|` share a key only if they are the same in all three parts.
pub proof fn law_request_keys_are_unambiguous(
    submitter_a: Seq<char>,
    method_a: Seq<char>,
    request_a: Seq<char>,
    submitter_b: Seq<char>,
    method_b: Seq<char>,
    request_b: Seq<char>,
)
    requires
        !submitter_a.contains('|'),
        !method_a.contains('|'),
        !submitter_b.contains('|'),
        !method_b.contains('|'),
        request_key(submitter_a, method_a, request_a) == request_key(
            submitter_b,
            method_b,
            request_b,
        ),
    ensures
        submitter_a == submitter_b,
        method_a == method_b,
        request_a == request_b,
{
    lemma_split_at(
        submitter_a,
        method_a.push('|') + request_a,
        submitter_b,
        method_b.push('|') + request_b,
        '|',
    );
    lemma_split_at(method_a, request_a, method_b, request_b, '|');
}

/// The number of `|` in a text.
spec fn bars(s: Seq<char>) -> nat
    decreases s.len(),
{
    if s.len() == 0 {
        0
    } else {
        bars(s.drop_last()) + (if s.last() == '|' {
            1nat
        } else {
            0
        })
    }
}

/// The `|` of two texts add up.
proof fn lemma_bars_add(a: Seq<char>, b: Seq<char>)
    ensures
        bars(a + b) == bars(a) + bars(b),
    decreases b.len(),
{
    if b.len() == 0 {
        assert(a + b =~= a);
    } else {
        lemma_bars_add(a, b.drop_last());
        assert((a + b).drop_last() =~= a + b.drop_last());
    }
}

/// A text without `|` has none of them.
proof fn lemma_no_bars(s: Seq<char>)
    ensures
        bars(s) == 0 <==> !s.contains('|'),
    decreases s.len(),
{
    if s.len() > 0 {
        lemma_no_bars(s.drop_last());
        if s.contains('|') && s.last() != '|' {
            let i = choose|i: int| 0 <= i < s.len() && s[i] == '|';
            assert(s.drop_last()[i] == '|');
        }
        if s.drop_last().contains('|') {
            let i = choose|i: int| 0 <= i < s.drop_last().len() && s.drop_last()[i] == '|';
            assert(s[i] == '|');
        }
        if s.last() == '|' {
            assert(s[s.len() - 1] == '|');
        }
    }
}

/// The `|` of a key: those of its parts and the two between them.
proof fn lemma_key_bars(submitter_id: Seq<char>, method: Seq<char>, request_id: Seq<char>)
    ensures
        bars(request_key(submitter_id, method, request_id)) == bars(submitter_id) + bars(method)
            + bars(request_id) + 2,
{
    lemma_bars_add(submitter_id.push('|'), method.push('|') + request_id);
    lemma_bars_add(method.push('|'), request_id);
    assert(submitter_id.push('|').drop_last() =~= submitter_id);
    assert(method.push('|').drop_last() =~= method);
}

/// A request without `|` in any of its parts shares its key with no other
/// request whatever.
pub proof fn law_plain_request_key_is_unique(
    submitter_a: Seq<char>,
    method_a: Seq<char>,
    request_a: Seq<char>,
    submitter_b: Seq<char>,
    method_b: Seq<char>,
    request_b: Seq<char>,
)
    requires
        !submitter_a.contains('|'),
        !method_a.contains('|'),
        !request_a.contains('|'),
        request_key(submitter_a, method_a, request_a) == request_key(
            submitter_b,
            method_b,
            request_b,
        ),
    ensures
        submitter_a == submitter_b,
        method_a == method_b,
        request_a == request_b,
{
    lemma_key_bars(submitter_a, method_a, request_a);
    lemma_key_bars(submitter_b, method_b, request_b);
    lemma_no_bars(submitter_a);
    lemma_no_bars(method_a);
    lemma_no_bars(request_a);
    lemma_no_bars(submitter_b);
    lemma_no_bars(method_b);
    law_request_keys_are_unambiguous(
        submitter_a,
        method_a,
        request_a,
        submitter_b,
        method_b,
        request_b,
    );
}

} // verus!
