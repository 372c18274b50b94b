//! The local cache of conversations: one table, keyed by the conversation's
//! identity. A write of a batch inserts or overwrites, record by record and
//! all of it at once; a read lists the records with the most recently written
//! first.

use crate::api::models::{Conversation, ConversationView};
use crate::document::{encode, encoded, Document};
use crate::seqs::{lemma_views_push, views};
use crate::text::{same_text, sorts_before, text_before};
use vstd::prelude::*;

verus! {

/// A conversation as the cache holds it.
#[derive(Debug, Clone, PartialEq, Eq)]
pub struct CachedConversationRecord {
    pub id: String,
    pub name: String,
    /// When the record was last written, in seconds since the epoch.
    pub updated_at: i64,
    /// The document that the server sent for the conversation, as JSON text.
    pub raw_payload: Option<String>,
}

/// The value of a `CachedConversationRecord`.
pub struct RecordView {
    pub id: Seq<char>,
    pub name: Seq<char>,
    pub updated_at: int,
    pub raw_payload: Option<Seq<char>>,
}

impl View for CachedConversationRecord {
    type V = RecordView;

    open spec fn view(&self) -> RecordView {
        RecordView {
            id: self.id@,
            name: self.name@,
            updated_at: self.updated_at as int,
            raw_payload: match self.raw_payload {
                Some(p) => Some(p@),
                None => None,
            },
        }
    }
}

/// The ways in which the cache fails.
#[derive(Debug, Clone, Copy, PartialEq, Eq, Structural)]
pub enum StorageError {
    /// The table does not exist yet: `init` was not called.
    Uninitialized,
}

impl StorageError {
    /// The message that a caller shows for this failure.
    pub fn message(&self) -> (r: String)
        ensures
            r@ == "no such table: chats"@,
    {
        "no such table: chats".to_owned()
    }
}

/// No two rows have the same identity.
pub open spec fn distinct_ids(rows: Seq<RecordView>) -> bool {
    forall|i: int, j: int| 0 <= i < j < rows.len() ==> rows[i].id != rows[j].id
}

/// The index of the last row with the identity `id`.
pub open spec fn slot(rows: Seq<RecordView>, id: Seq<char>) -> Option<int>
    decreases rows.len(),
{
    if rows.len() == 0 {
        None
    } else if rows.last().id == id {
        Some(rows.len() - 1)
    } else {
        slot(rows.drop_last(), id)
    }
}

/// The rows after one record is written: it takes the place of the row with
/// its identity, and comes last where there is none.
pub open spec fn put(rows: Seq<RecordView>, record: RecordView) -> Seq<RecordView> {
    match slot(rows, record.id) {
        Some(i) => rows.update(i, record),
        None => rows.push(record),
    }
}

/// The rows after the records of `batch` are written in order.
pub open spec fn put_all(rows: Seq<RecordView>, batch: Seq<RecordView>) -> Seq<RecordView>
    decreases batch.len(),
{
    if batch.len() == 0 {
        rows
    } else {
        put(put_all(rows, batch.drop_last()), batch.last())
    }
}

/// The texts that are stored for the raw documents of a batch.
pub open spec fn payloads(raws: Option<&Vec<Document>>) -> Option<Seq<Seq<char>>> {
    match raws {
        Some(docs) => Some(Seq::new(docs@.len(), |i: int| encoded(docs@[i]@))),
        None => None,
    }
}

/// The record that is written for conversation `i` of a batch: its identity
/// and name, the time of writing, and the text of raw document `i` where
/// there is one.
pub open spec fn record_for(
    chats: Seq<ConversationView>,
    texts: Option<Seq<Seq<char>>>,
    now: int,
    i: int,
) -> RecordView {
    RecordView {
        id: chats[i].id,
        name: chats[i].name,
        updated_at: now,
        raw_payload: match texts {
            Some(t) => if i < t.len() {
                Some(t[i])
            } else {
                None
            },
            None => None,
        },
    }
}

/// The records that are written for a batch, in the order of its
/// conversations.
pub open spec fn batch(chats: Seq<ConversationView>, texts: Option<Seq<Seq<char>>>, now: int) -> Seq<
    RecordView,
> {
    Seq::new(chats.len(), |i: int| record_for(chats, texts, now, i))
}

/// What `slot` finds: the last row with the identity, and none where no row
/// has it.
pub proof fn lemma_slot(rows: Seq<RecordView>, id: Seq<char>)
    ensures
        match slot(rows, id) {
            Some(i) => 0 <= i < rows.len() && rows[i].id == id && forall|j: int|
                i < j < rows.len() ==> rows[j].id != id,
            None => forall|j: int| 0 <= j < rows.len() ==> rows[j].id != id,
        },
    decreases rows.len(),
{
    if rows.len() > 0 {
        lemma_slot(rows.drop_last(), id);
        assert(forall|j: int| 0 <= j < rows.len() - 1 ==> rows.drop_last()[j] == rows[j]);
    }
}

/// A write keeps the identities distinct.
pub proof fn lemma_put_distinct(rows: Seq<RecordView>, record: RecordView)
    requires
        distinct_ids(rows),
    ensures
        distinct_ids(put(rows, record)),
{
    lemma_slot(rows, record.id);
}

/// What a batch does to the table. Rows keep their place, new ones come
/// behind them, and every row holds what the batch last wrote for its
/// identity, or what it held before where the batch does not name it.
pub proof fn lemma_put_all(rows: Seq<RecordView>, batch: Seq<RecordView>)
    requires
        distinct_ids(rows),
    ensures
        distinct_ids(put_all(rows, batch)),
        rows.len() <= put_all(rows, batch).len(),
        forall|i: int| 0 <= i < rows.len() ==> (#[trigger] put_all(rows, batch)[i]).id == rows[i].id,
        forall|i: int|
            0 <= i < put_all(rows, batch).len() ==> #[trigger] put_all(rows, batch)[i] == (
            match slot(batch, put_all(rows, batch)[i].id) {
                Some(k) => batch[k],
                None => rows[i],
            }),
        forall|i: int|
            rows.len() <= i < put_all(rows, batch).len() ==> slot(
                batch,
                (#[trigger] put_all(rows, batch)[i]).id,
            ) is Some,
        forall|k: int|
            0 <= k < batch.len() ==> slot(put_all(rows, batch), (#[trigger] batch[k]).id) is Some,
    decreases batch.len(),
{
    if batch.len() > 0 {
        let before = put_all(rows, batch.drop_last());
        let record = batch.last();
        let after = put_all(rows, batch);
        lemma_put_all(rows, batch.drop_last());
        lemma_slot(before, record.id);
        lemma_put_distinct(before, record);
        assert(after == put(before, record));
        assert forall|i: int| 0 <= i < after.len() implies #[trigger] after[i] == (match slot(
            batch,
            after[i].id,
        ) {
            Some(k) => batch[k],
            None => rows[i],
        }) by {
            if after[i].id == record.id {
                assert(after[i] == record);
            } else {
                assert(after[i] == before[i]);
                assert(slot(batch, after[i].id) == slot(batch.drop_last(), before[i].id));
                match slot(batch.drop_last(), before[i].id) {
                    Some(k) => {
                        lemma_slot(batch.drop_last(), before[i].id);
                        assert(batch.drop_last()[k] == batch[k]);
                    },
                    None => {},
                }
            }
        }
        assert forall|i: int| rows.len() <= i < after.len() implies slot(
            batch,
            (#[trigger] after[i]).id,
        ) is Some by {
            if after[i].id != record.id {
                assert(after[i] == before[i]);
                assert(slot(batch, after[i].id) == slot(batch.drop_last(), before[i].id));
            }
        }
        assert forall|k: int| 0 <= k < batch.len() implies slot(
            after,
            (#[trigger] batch[k]).id,
        ) is Some by {
            lemma_slot(after, batch[k].id);
            if batch[k].id == record.id {
                match slot(before, record.id) {
                    Some(i) => {
                        assert(after[i].id == batch[k].id);
                    },
                    None => {
                        assert(after[after.len() - 1].id == batch[k].id);
                    },
                }
            } else {
                assert(batch.drop_last()[k] == batch[k]);
                lemma_slot(before, batch[k].id);
                let i = slot(before, batch[k].id)->0;
                assert(after[i].id == batch[k].id);
            }
        }
    }
}

/// Writing a batch a second time changes nothing: the table after any number
/// of identical writes is the table after one.
pub proof fn lemma_put_all_idempotent(rows: Seq<RecordView>, batch: Seq<RecordView>)
    requires
        distinct_ids(rows),
    ensures
        put_all(put_all(rows, batch), batch) == put_all(rows, batch),
{
    let once = put_all(rows, batch);
    let twice = put_all(once, batch);
    lemma_put_all(rows, batch);
    lemma_put_all(once, batch);
    if twice.len() > once.len() {
        let i = once.len() as int;
        let k = slot(batch, twice[i].id)->0;
        lemma_slot(batch, twice[i].id);
        lemma_slot(once, batch[k].id);
        let j = slot(once, batch[k].id)->0;
        assert(twice[j].id == once[j].id);
        assert(false);
    }
    assert forall|i: int| 0 <= i < once.len() implies twice[i] == once[i] by {
        assert(twice[i].id == once[i].id);
    }
    assert(twice =~= once);
}

/// The rows after the same batch is written `times` times.
pub open spec fn put_all_times(rows: Seq<RecordView>, batch: Seq<RecordView>, times: nat) -> Seq<
    RecordView,
>
    decreases times,
{
    if times == 0 {
        rows
    } else {
        put_all(put_all_times(rows, batch, (times - 1) as nat), batch)
    }
}

/// The table after any number of identical writes, one at least, is the
/// table after one.
pub proof fn lemma_put_all_times(rows: Seq<RecordView>, batch: Seq<RecordView>, times: nat)
    requires
        distinct_ids(rows),
        times >= 1,
    ensures
        put_all_times(rows, batch, times) == put_all(rows, batch),
    decreases times,
{
    if times > 1 {
        lemma_put_all_times(rows, batch, (times - 1) as nat);
        lemma_put_all_idempotent(rows, batch);
    } else {
        assert(put_all_times(rows, batch, 0) == rows);
    }
}

/// After a batch the table has exactly one row for each identity that the
/// batch names, and that row holds what the batch last wrote for it.
pub proof fn lemma_put_all_one_row(rows: Seq<RecordView>, batch: Seq<RecordView>, k: int)
    requires
        distinct_ids(rows),
        0 <= k < batch.len(),
    ensures
        slot(batch, batch[k].id) is Some,
        slot(put_all(rows, batch), batch[k].id) is Some,
        put_all(rows, batch)[slot(put_all(rows, batch), batch[k].id)->0] == batch[slot(
            batch,
            batch[k].id,
        )->0],
        forall|j: int|
            0 <= j < put_all(rows, batch).len() && j != slot(put_all(rows, batch), batch[k].id)->0
                ==> (#[trigger] put_all(rows, batch)[j]).id != batch[k].id,
{
    let after = put_all(rows, batch);
    lemma_put_all(rows, batch);
    lemma_slot(batch, batch[k].id);
    lemma_slot(after, batch[k].id);
    let i = slot(after, batch[k].id)->0;
    assert(after[i].id == batch[k].id);
}

/// The table of the cache.
pub struct CacheStore {
    ready: bool,
    rows: Vec<CachedConversationRecord>,
}

/// The state of the cache: whether the table exists, and its rows in the
/// order in which their identities were first written.
pub struct StoreView {
    pub ready: bool,
    pub rows: Seq<RecordView>,
}

impl View for CacheStore {
    type V = StoreView;

    closed spec fn view(&self) -> StoreView {
        StoreView { ready: self.ready, rows: views(self.rows@) }
    }
}

/// Whether row `i` of `after` is new or changed against `before`: `before`
/// has no row there, or another one.
pub open spec fn differs(before: Seq<RecordView>, after: Seq<RecordView>, i: int) -> bool {
    i >= before.len() || before[i] != after[i]
}

/// Whether two optional texts are the same.
fn same_optional_text(a: &Option<String>, b: &Option<String>) -> (r: bool)
    ensures
        r == (match (*a, *b) {
            (Some(x), Some(y)) => x@ == y@,
            (None, None) => true,
            _ => false,
        }),
{
    match a {
        Some(x) => match b {
            Some(y) => same_text(x.as_str(), y.as_str()),
            None => false,
        },
        None => match b {
            Some(_) => false,
            None => true,
        },
    }
}

/// Whether two records hold the same.
fn same_record(a: &CachedConversationRecord, b: &CachedConversationRecord) -> (r: bool)
    ensures
        r == (a@ == b@),
{
    same_text(a.id.as_str(), b.id.as_str()) && same_text(a.name.as_str(), b.name.as_str())
        && a.updated_at == b.updated_at && same_optional_text(&a.raw_payload, &b.raw_payload)
}

/// The index of the row with the identity `id`.
fn find_row(rows: &Vec<CachedConversationRecord>, id: &str) -> (r: Option<usize>)
    ensures
        match r {
            Some(i) => slot(views(rows@), id@) == Some(i as int) && i < rows@.len(),
            None => slot(views(rows@), id@) is None,
        },
{
    let mut i = rows.len();
    assert(views(rows@).take(i as int) =~= views(rows@));
    while i > 0
        invariant
            i <= rows@.len(),
            slot(views(rows@), id@) == slot(views(rows@).take(i as int), id@),
        decreases i,
    {
        i = i - 1;
        let ghost front = views(rows@).take(i + 1);
        assert(front.last() == rows@[i as int]@);
        assert(front.drop_last() =~= views(rows@).take(i as int));
        if same_text(rows[i].id.as_str(), id) {
            return Some(i);
        }
    }
    None
}

impl CacheStore {
    #[verifier::type_invariant]
    spec fn well_formed(self) -> bool {
        distinct_ids(views(self.rows@))
    }

    /// A cache without a table.
    pub fn new() -> (r: CacheStore)
        ensures
            r@ == (StoreView { ready: false, rows: Seq::empty() }),
    {
        let r = CacheStore { ready: false, rows: Vec::new() };
        assert(r@.rows =~= Seq::<RecordView>::empty());
        r
    }

    /// A cache with the rows that were kept on disk, written in their order,
    /// so that of two rows with one identity the later one counts. Whether
    /// the table exists is for `init` to say.
    pub fn restore(rows: Vec<CachedConversationRecord>) -> (r: CacheStore)
        ensures
            r@ == (StoreView {
                ready: false,
                rows: put_all(Seq::<RecordView>::empty(), views(rows@)),
            }),
    {
        let mut current = CacheStore::new();
        let mut i: usize = 0;
        assert(views(rows@).take(0) =~= Seq::<RecordView>::empty());
        while i < rows.len()
            invariant
                i <= rows@.len(),
                !current@.ready,
                current@.rows == put_all(Seq::<RecordView>::empty(), views(rows@).take(i as int)),
            decreases rows@.len() - i,
        {
            let row = &rows[i];
            let raw_payload = match &row.raw_payload {
                Some(text) => Some(text.clone()),
                None => None,
            };
            let record = CachedConversationRecord {
                id: row.id.clone(),
                name: row.name.clone(),
                updated_at: row.updated_at,
                raw_payload,
            };
            proof {
                assert(record@ == views(rows@)[i as int]);
                assert(views(rows@).take(i + 1).drop_last() =~= views(rows@).take(i as int));
                assert(views(rows@).take(i + 1).last() == views(rows@)[i as int]);
            }
            current = current.written(record);
            i = i + 1;
        }
        assert(views(rows@).take(i as int) =~= views(rows@));
        current
    }

    /// The places of the rows that are new or changed since the table held
    /// `before`, in ascending order, for whoever keeps the rows on disk. Rows
    /// keep their place, so a row is new or changed where it differs from the
    /// one that stood there.
    pub fn changed_rows(&self, before: &Vec<CachedConversationRecord>) -> (r: Vec<usize>)
        ensures
            forall|k: int| 0 <= k < r@.len() ==> (#[trigger] r@[k]) < self@.rows.len(),
            forall|k: int, m: int| 0 <= k < m < r@.len() ==> r@[k] < r@[m],
            forall|i: int|
                0 <= i < self@.rows.len() ==> (r@.contains(i as usize) <==> differs(
                    views(before@),
                    self@.rows,
                    i,
                )),
    {
        let mut out: Vec<usize> = Vec::new();
        let mut i: usize = 0;
        while i < self.rows.len()
            invariant
                i <= self.rows@.len(),
                forall|k: int| 0 <= k < out@.len() ==> (#[trigger] out@[k]) < i,
                forall|k: int, m: int| 0 <= k < m < out@.len() ==> out@[k] < out@[m],
                forall|j: int|
                    0 <= j < i ==> (out@.contains(j as usize) <==> differs(
                        views(before@),
                        views(self.rows@),
                        j,
                    )),
            decreases self.rows@.len() - i,
        {
            let fresh = if i < before.len() {
                !same_record(&before[i], &self.rows[i])
            } else {
                true
            };
            let ghost earlier = out@;
            if fresh {
                out.push(i);
                assert(out@[out@.len() - 1] == i);
            }
            proof {
                assert forall|j: int| 0 <= j < i + 1 implies (out@.contains(j as usize) <==> differs(
                    views(before@),
                    views(self.rows@),
                    j,
                )) by {
                    if j < i {
                        if earlier.contains(j as usize) {
                            let k = choose|k: int| 0 <= k < earlier.len() && earlier[k] == j as usize;
                            assert(out@[k] == j as usize);
                        }
                        if out@.contains(j as usize) {
                            let k = choose|k: int| 0 <= k < out@.len() && out@[k] == j as usize;
                            assert(k < earlier.len());
                            assert(earlier[k] == j as usize);
                        }
                    } else if out@.contains(j as usize) {
                        let k = choose|k: int| 0 <= k < out@.len() && out@[k] == j as usize;
                        assert(k == earlier.len());
                    }
                }
            }
            i = i + 1;
        }
        out
    }

    /// The rows of the table, for whoever keeps them on disk.
    pub fn rows(&self) -> (r: &Vec<CachedConversationRecord>)
        ensures
            views(r@) == self@.rows,
            distinct_ids(self@.rows),
    {
        proof {
            use_type_invariant(self);
        }
        &self.rows
    }

    /// The cache after one record is written.
    fn written(self, record: CachedConversationRecord) -> (r: CacheStore)
        ensures
            r@ == (StoreView { ready: self@.ready, rows: put(self@.rows, record@) }),
    {
        proof {
            use_type_invariant(&self);
            lemma_put_distinct(self@.rows, record@);
        }
        let ready = self.ready;
        let mut rows = self.rows;
        match find_row(&rows, record.id.as_str()) {
            Some(i) => {
                assert(views(rows@.update(i as int, record)) =~= views(rows@).update(
                    i as int,
                    record@,
                ));
                rows[i] = record;
            },
            None => {
                proof {
                    lemma_views_push(rows@, record);
                }
                rows.push(record);
            },
        }
        CacheStore { ready, rows }
    }
}

/// Makes sure that the table exists. The rows stay as they are, so this is
/// safe at every start.
pub fn init(store: &mut CacheStore) -> (r: Result<(), StorageError>)
    ensures
        r is Ok,
        final(store)@ == (StoreView { ready: true, rows: old(store)@.rows }),
{
    proof {
        use_type_invariant(&*store);
    }
    store.ready = true;
    Ok(())
}

/// Writes a batch: for each conversation, in order, a record with the time
/// `now` and with the text of the raw document at the same index, where there
/// is one. A record replaces the row with its identity and is added where
/// there is none. Either the whole batch is written or, where there is no
/// table, nothing.
pub fn upsert_chats(
    store: &mut CacheStore,
    chats: &Vec<Conversation>,
    raws: Option<&Vec<Document>>,
    now: i64,
) -> (r: Result<(), StorageError>)
    ensures
        match r {
            Ok(_) => old(store)@.ready && final(store)@ == (StoreView {
                ready: true,
                rows: put_all(old(store)@.rows, batch(views(chats@), payloads(raws), now as int)),
            }),
            Err(e) => !old(store)@.ready && final(store)@ == old(store)@,
        },
        distinct_ids(final(store)@.rows),
{
    proof {
        use_type_invariant(&*store);
    }
    if !store.ready {
        return Err(StorageError::Uninitialized);
    }
    let ghost start = store@.rows;
    let ghost all = batch(views(chats@), payloads(raws), now as int);
    let mut current = CacheStore::new();
    core::mem::swap(store, &mut current);
    let mut i: usize = 0;
    assert(all.take(0) =~= Seq::<RecordView>::empty());
    while i < chats.len()
        invariant
            i <= chats@.len(),
            all == batch(views(chats@), payloads(raws), now as int),
            current@.ready,
            current@.rows == put_all(start, all.take(i as int)),
        decreases chats@.len() - i,
    {
        let raw_payload = match raws {
            Some(docs) => if i < docs.len() {
                Some(encode(&docs[i]))
            } else {
                None
            },
            None => None,
        };
        let record = CachedConversationRecord {
            id: chats[i].id.clone(),
            name: chats[i].name.clone(),
            updated_at: now,
            raw_payload,
        };
        proof {
            assert(record@ == all[i as int]);
            assert(all.take(i + 1).drop_last() =~= all.take(i as int));
            assert(all.take(i + 1).last() == all[i as int]);
        }
        current = current.written(record);
        i = i + 1;
    }
    proof {
        assert(all.take(i as int) =~= all);
        use_type_invariant(&current);
    }
    *store = current;
    Ok(())
}

/// Whether the record `a` is listed before `b`: it was written later, or at
/// the same time and its name sorts first.
pub open spec fn listed_before(a: RecordView, b: RecordView) -> bool {
    a.updated_at > b.updated_at || (a.updated_at == b.updated_at && text_before(a.name, b.name))
}

/// No row is listed before one that stands before it.
pub open spec fn in_order(rows: Seq<RecordView>) -> bool {
    forall|i: int, j: int| 0 <= i < j < rows.len() ==> !listed_before(rows[j], rows[i])
}

/// `sorted` with `record` put in: before the rows that it is listed before,
/// behind all others.
pub open spec fn insert_ordered(sorted: Seq<RecordView>, record: RecordView) -> Seq<RecordView>
    decreases sorted.len(),
{
    if sorted.len() > 0 && listed_before(record, sorted.last()) {
        insert_ordered(sorted.drop_last(), record).push(sorted.last())
    } else {
        sorted.push(record)
    }
}

/// The rows in the order of listing. Rows that neither time nor name tells
/// apart keep the order of the table.
pub open spec fn ordered(rows: Seq<RecordView>) -> Seq<RecordView>
    decreases rows.len(),
{
    if rows.len() == 0 {
        Seq::empty()
    } else {
        insert_ordered(ordered(rows.drop_last()), rows.last())
    }
}

/// The first `limit` rows in the order of listing.
pub open spec fn listing(rows: Seq<RecordView>, limit: nat) -> Seq<RecordView> {
    if limit < ordered(rows).len() {
        ordered(rows).take(limit as int)
    } else {
        ordered(rows)
    }
}

/// The conversation that a row holds.
pub open spec fn conversation_of(row: RecordView) -> ConversationView {
    ConversationView { id: row.id, name: row.name }
}

/// The conversations that the rows hold, in their order.
pub open spec fn conversations_of(rows: Seq<RecordView>) -> Seq<ConversationView> {
    Seq::new(rows.len(), |i: int| conversation_of(rows[i]))
}

/// The limit of a listing: the one given, and 500 where none is.
pub open spec fn limit_of(limit: Option<usize>) -> nat {
    match limit {
        Some(n) => n as nat,
        None => 500,
    }
}

/// If `a` is not listed before `b` and `b` not before `c`, then `a` is not
/// listed before `c`.
pub proof fn lemma_not_before_chain(a: RecordView, b: RecordView, c: RecordView)
    requires
        !listed_before(a, b),
        !listed_before(b, c),
    ensures
        !listed_before(a, c),
{
    if a.updated_at == b.updated_at && b.updated_at == c.updated_at && text_before(a.name, c.name) {
        let x = vstd::utf8::encode_utf8(a.name);
        let y = vstd::utf8::encode_utf8(b.name);
        let z = vstd::utf8::encode_utf8(c.name);
        crate::text::lemma_bytes_before_total(x, y);
        if y == x {
            assert(text_before(b.name, c.name));
        } else {
            crate::text::lemma_bytes_before_transitive(y, x, z);
        }
    }
}

/// Of two records at most one is listed before the other.
pub proof fn lemma_before_one_way(a: RecordView, b: RecordView)
    requires
        listed_before(a, b),
    ensures
        !listed_before(b, a),
{
    if a.updated_at == b.updated_at {
        crate::text::lemma_bytes_before_asymmetric(
            vstd::utf8::encode_utf8(a.name),
            vstd::utf8::encode_utf8(b.name),
        );
    }
}

/// Putting a record in adds it and keeps every row.
pub proof fn lemma_insert_members(sorted: Seq<RecordView>, record: RecordView)
    ensures
        insert_ordered(sorted, record).len() == sorted.len() + 1,
        insert_ordered(sorted, record).contains(record),
        forall|i: int|
            0 <= i < sorted.len() ==> insert_ordered(sorted, record).contains(#[trigger] sorted[i]),
        forall|i: int|
            0 <= i < insert_ordered(sorted, record).len() ==> (#[trigger] insert_ordered(
                sorted,
                record,
            )[i]) == record || sorted.contains(insert_ordered(sorted, record)[i]),
    decreases sorted.len(),
{
    let made = insert_ordered(sorted, record);
    if sorted.len() > 0 && listed_before(record, sorted.last()) {
        let front = insert_ordered(sorted.drop_last(), record);
        lemma_insert_members(sorted.drop_last(), record);
        assert(made == front.push(sorted.last()));
        let at = choose|k: int| 0 <= k < front.len() && front[k] == record;
        assert(made[at] == record);
        assert forall|i: int| 0 <= i < sorted.len() implies made.contains(
            #[trigger] sorted[i],
        ) by {
            if i == sorted.len() - 1 {
                assert(made[made.len() - 1] == sorted[i]);
            } else {
                assert(sorted.drop_last()[i] == sorted[i]);
                let k = choose|k: int| 0 <= k < front.len() && front[k] == sorted[i];
                assert(made[k] == sorted[i]);
            }
        }
        assert forall|i: int| 0 <= i < made.len() implies (#[trigger] made[i]) == record
            || sorted.contains(made[i]) by {
            if i == made.len() - 1 {
                assert(sorted[sorted.len() - 1] == made[i]);
            } else {
                assert(front[i] == made[i]);
                if front[i] != record {
                    let k = choose|k: int|
                        0 <= k < sorted.drop_last().len() && sorted.drop_last()[k] == front[i];
                    assert(sorted[k] == made[i]);
                }
            }
        }
    } else {
        assert(made == sorted.push(record));
        assert(made[made.len() - 1] == record);
        assert forall|i: int| 0 <= i < sorted.len() implies made.contains(
            #[trigger] sorted[i],
        ) by {
            assert(made[i] == sorted[i]);
        }
        assert forall|i: int| 0 <= i < made.len() implies (#[trigger] made[i]) == record
            || sorted.contains(made[i]) by {
            if i < sorted.len() {
                assert(sorted[i] == made[i]);
            }
        }
    }
}

/// Putting a record into rows that are in order leaves them in order.
pub proof fn lemma_insert_in_order(sorted: Seq<RecordView>, record: RecordView)
    requires
        in_order(sorted),
    ensures
        in_order(insert_ordered(sorted, record)),
    decreases sorted.len(),
{
    let made = insert_ordered(sorted, record);
    if sorted.len() > 0 && listed_before(record, sorted.last()) {
        let front = insert_ordered(sorted.drop_last(), record);
        assert(in_order(sorted.drop_last())) by {
            assert forall|i: int, j: int| 0 <= i < j < sorted.drop_last().len() implies !listed_before(
                sorted.drop_last()[j],
                sorted.drop_last()[i],
            ) by {
                assert(sorted.drop_last()[i] == sorted[i] && sorted.drop_last()[j] == sorted[j]);
            }
        }
        lemma_insert_in_order(sorted.drop_last(), record);
        lemma_insert_members(sorted.drop_last(), record);
        assert forall|i: int, j: int| 0 <= i < j < made.len() implies !listed_before(
            made[j],
            made[i],
        ) by {
            if j == made.len() - 1 {
                assert(made[j] == sorted.last());
                assert(made[i] == front[i]);
                if front[i] == record {
                    lemma_before_one_way(record, sorted.last());
                } else {
                    let k = choose|k: int|
                        0 <= k < sorted.drop_last().len() && sorted.drop_last()[k] == front[i];
                    assert(sorted[k] == front[i]);
                }
            } else {
                assert(made[i] == front[i] && made[j] == front[j]);
            }
        }
    } else {
        assert forall|i: int, j: int| 0 <= i < j < made.len() implies !listed_before(
            made[j],
            made[i],
        ) by {
            if j == made.len() - 1 {
                assert(made[j] == record);
                assert(made[i] == sorted[i]);
                if i < sorted.len() - 1 {
                    lemma_not_before_chain(record, sorted.last(), sorted[i]);
                }
            } else {
                assert(made[i] == sorted[i] && made[j] == sorted[j]);
            }
        }
    }
}

/// Putting a record with a new identity in keeps the identities distinct.
pub proof fn lemma_insert_distinct(sorted: Seq<RecordView>, record: RecordView)
    requires
        distinct_ids(sorted),
        forall|i: int| 0 <= i < sorted.len() ==> (#[trigger] sorted[i]).id != record.id,
    ensures
        distinct_ids(insert_ordered(sorted, record)),
    decreases sorted.len(),
{
    let made = insert_ordered(sorted, record);
    if sorted.len() > 0 && listed_before(record, sorted.last()) {
        let front = insert_ordered(sorted.drop_last(), record);
        assert forall|i: int| 0 <= i < sorted.drop_last().len() implies (
        #[trigger] sorted.drop_last()[i]).id != record.id by {
            assert(sorted.drop_last()[i] == sorted[i]);
        }
        assert(distinct_ids(sorted.drop_last())) by {
            assert forall|i: int, j: int| 0 <= i < j < sorted.drop_last().len() implies sorted.drop_last()[i].id
                != sorted.drop_last()[j].id by {
                assert(sorted.drop_last()[i] == sorted[i] && sorted.drop_last()[j] == sorted[j]);
            }
        }
        lemma_insert_distinct(sorted.drop_last(), record);
        lemma_insert_members(sorted.drop_last(), record);
        assert forall|i: int, j: int| 0 <= i < j < made.len() implies made[i].id != made[j].id by {
            if j == made.len() - 1 {
                assert(made[j] == sorted.last());
                assert(made[i] == front[i]);
                if front[i] != record {
                    let k = choose|k: int|
                        0 <= k < sorted.drop_last().len() && sorted.drop_last()[k] == front[i];
                    assert(sorted[k] == front[i]);
                }
            } else {
                assert(made[i] == front[i] && made[j] == front[j]);
            }
        }
    } else {
        assert forall|i: int, j: int| 0 <= i < j < made.len() implies made[i].id != made[j].id by {
            if j == made.len() - 1 {
                assert(made[i] == sorted[i]);
            } else {
                assert(made[i] == sorted[i] && made[j] == sorted[j]);
            }
        }
    }
}

/// The listing is in order, holds every row of the table and nothing else,
/// and has one row for each identity where the table has.
pub proof fn lemma_ordered(rows: Seq<RecordView>)
    ensures
        in_order(ordered(rows)),
        ordered(rows).len() == rows.len(),
        forall|i: int| 0 <= i < rows.len() ==> ordered(rows).contains(#[trigger] rows[i]),
        forall|i: int| 0 <= i < rows.len() ==> rows.contains(#[trigger] ordered(rows)[i]),
        distinct_ids(rows) ==> distinct_ids(ordered(rows)),
    decreases rows.len(),
{
    if rows.len() > 0 {
        let front = ordered(rows.drop_last());
        let made = ordered(rows);
        lemma_ordered(rows.drop_last());
        lemma_insert_in_order(front, rows.last());
        lemma_insert_members(front, rows.last());
        assert forall|i: int| 0 <= i < rows.len() implies made.contains(#[trigger] rows[i]) by {
            if i < rows.len() - 1 {
                assert(rows.drop_last()[i] == rows[i]);
                let k = choose|k: int| 0 <= k < front.len() && front[k] == rows[i];
                assert(made.contains(front[k]));
            }
        }
        assert forall|i: int| 0 <= i < rows.len() implies rows.contains(#[trigger] made[i]) by {
            if made[i] == rows.last() {
                assert(rows[rows.len() - 1] == made[i]);
            } else {
                let k = choose|k: int| 0 <= k < front.len() && front[k] == made[i];
                let m = choose|m: int|
                    0 <= m < rows.drop_last().len() && rows.drop_last()[m] == front[k];
                assert(rows[m] == made[i]);
            }
        }
        if distinct_ids(rows) {
            assert(distinct_ids(rows.drop_last())) by {
                assert forall|i: int, j: int| 0 <= i < j < rows.drop_last().len() implies rows.drop_last()[i].id
                    != rows.drop_last()[j].id by {
                    assert(rows.drop_last()[i] == rows[i] && rows.drop_last()[j] == rows[j]);
                }
            }
            assert forall|i: int| 0 <= i < front.len() implies (#[trigger] front[i]).id
                != rows.last().id by {
                let m = choose|m: int|
                    0 <= m < rows.drop_last().len() && rows.drop_last()[m] == front[i];
                assert(rows[m] == front[i]);
            }
            lemma_insert_distinct(front, rows.last());
        }
    }
}

/// A listing has no more rows than its limit and is in order: the later
/// written first, and among rows written at the same time the names
/// ascending.
pub proof fn lemma_listing(rows: Seq<RecordView>, limit: nat)
    ensures
        listing(rows, limit).len() <= limit,
        listing(rows, limit).len() <= rows.len(),
        in_order(listing(rows, limit)),
{
    lemma_ordered(rows);
    if limit < ordered(rows).len() {
        assert forall|i: int, j: int| 0 <= i < j < listing(rows, limit).len() implies !listed_before(
            listing(rows, limit)[j],
            listing(rows, limit)[i],
        ) by {
            assert(listing(rows, limit)[i] == ordered(rows)[i]);
            assert(listing(rows, limit)[j] == ordered(rows)[j]);
        }
    }
}

/// After a batch is written, a listing that is long enough for the whole
/// table shows exactly one conversation for each identity that the batch
/// names, under the name that the batch last wrote for it.
pub proof fn lemma_written_is_listed_once(
    rows: Seq<RecordView>,
    batch: Seq<RecordView>,
    k: int,
    limit: nat,
)
    requires
        distinct_ids(rows),
        0 <= k < batch.len(),
        put_all(rows, batch).len() <= limit,
    ensures
        slot(batch, batch[k].id) is Some,
        exists|i: int|
            0 <= i < conversations_of(listing(put_all(rows, batch), limit)).len() && (
            #[trigger] conversations_of(listing(put_all(rows, batch), limit))[i])
                == (ConversationView {
                id: batch[k].id,
                name: batch[slot(batch, batch[k].id)->0].name,
            }) && forall|j: int|
                0 <= j < conversations_of(listing(put_all(rows, batch), limit)).len() && j != i
                    ==> (#[trigger] conversations_of(listing(put_all(rows, batch), limit))[j]).id
                    != batch[k].id,
{
    let table = put_all(rows, batch);
    let listed = listing(table, limit);
    let shown = conversations_of(listed);
    lemma_put_all_one_row(rows, batch, k);
    lemma_put_all(rows, batch);
    lemma_ordered(table);
    assert(listed == ordered(table));
    let s = slot(table, batch[k].id)->0;
    lemma_slot(table, batch[k].id);
    let i = choose|i: int| 0 <= i < listed.len() && listed[i] == table[s];
    assert(shown[i] == conversation_of(listed[i]));
    assert forall|j: int| 0 <= j < shown.len() && j != i implies (#[trigger] shown[j]).id
        != batch[k].id by {
        assert(shown[j] == conversation_of(listed[j]));
        if j < i {
            assert(listed[j].id != listed[i].id);
        } else {
            assert(listed[i].id != listed[j].id);
        }
    }
}

/// Two writes of a conversation with one identity, in either order and with
/// whatever stands between them in the batches, leave one row for it.
pub proof fn lemma_no_duplicate_after_two_writes(
    rows: Seq<RecordView>,
    first: Seq<RecordView>,
    second: Seq<RecordView>,
)
    requires
        distinct_ids(rows),
    ensures
        distinct_ids(put_all(put_all(rows, first), second)),
{
    lemma_put_all(rows, first);
    lemma_put_all(put_all(rows, first), second);
}

/// Where `record` is listed before every row from `at` on and before none
/// right ahead of `at`, putting it in puts it at `at`.
proof fn lemma_insert_at(sorted: Seq<RecordView>, record: RecordView, at: int)
    requires
        0 <= at <= sorted.len(),
        forall|k: int| at <= k < sorted.len() ==> listed_before(record, #[trigger] sorted[k]),
        at > 0 ==> !listed_before(record, sorted[at - 1]),
    ensures
        insert_ordered(sorted, record) == sorted.insert(at, record),
    decreases sorted.len() - at,
{
    if at == sorted.len() {
        assert(sorted.push(record) =~= sorted.insert(at, record));
    } else {
        assert(listed_before(record, sorted[sorted.len() - 1]));
        assert forall|k: int| at <= k < sorted.drop_last().len() implies listed_before(
            record,
            #[trigger] sorted.drop_last()[k],
        ) by {
            assert(sorted.drop_last()[k] == sorted[k]);
        }
        if at > 0 {
            assert(sorted.drop_last()[at - 1] == sorted[at - 1]);
        }
        lemma_insert_at(sorted.drop_last(), record, at);
        assert(sorted.drop_last().insert(at, record).push(sorted.last()) =~= sorted.insert(
            at,
            record,
        ));
    }
}

/// The rows that `order` picks from `rows`.
pub open spec fn picked(rows: Seq<RecordView>, order: Seq<usize>) -> Seq<RecordView> {
    Seq::new(order.len(), |k: int| rows[order[k] as int])
}

fn listed_first(a: &CachedConversationRecord, b: &CachedConversationRecord) -> (r: bool)
    ensures
        r == listed_before(a@, b@),
{
    a.updated_at > b.updated_at || (a.updated_at == b.updated_at && sorts_before(
        a.name.as_str(),
        b.name.as_str(),
    ))
}

/// The indices of the rows in the order of listing.
fn order_of(rows: &Vec<CachedConversationRecord>) -> (r: Vec<usize>)
    ensures
        r@.len() == rows@.len(),
        forall|k: int| 0 <= k < r@.len() ==> (#[trigger] r@[k]) < rows@.len(),
        picked(views(rows@), r@) == ordered(views(rows@)),
{
    let ghost all = views(rows@);
    let mut order: Vec<usize> = Vec::new();
    let mut i: usize = 0;
    assert(picked(all, order@) =~= ordered(all.take(0)));
    while i < rows.len()
        invariant
            i <= rows@.len(),
            all == views(rows@),
            order@.len() == i,
            forall|k: int| 0 <= k < order@.len() ==> (#[trigger] order@[k]) < i,
            picked(all, order@) == ordered(all.take(i as int)),
        decreases rows@.len() - i,
    {
        let ghost sorted = picked(all, order@);
        let mut at = order.len();
        while at > 0 && listed_first(&rows[i], &rows[order[at - 1]])
            invariant
                at <= order@.len(),
                i < rows@.len(),
                all == views(rows@),
                sorted == picked(all, order@),
                forall|k: int| 0 <= k < order@.len() ==> (#[trigger] order@[k]) < i,
                forall|k: int| at <= k < sorted.len() ==> listed_before(all[i as int], #[trigger] sorted[k]),
            decreases at,
        {
            at = at - 1;
        }
        proof {
            lemma_insert_at(sorted, all[i as int], at as int);
            assert(all.take(i + 1).drop_last() =~= all.take(i as int));
            assert(all.take(i + 1).last() == all[i as int]);
            assert(picked(all, order@.insert(at as int, i)) =~= sorted.insert(
                at as int,
                all[i as int],
            ));
        }
        order.insert(at, i);
        i = i + 1;
    }
    assert(all.take(i as int) =~= all);
    order
}

/// Lists the conversations of the cache, the most recently written first and
/// among those written at the same time the names ascending, and no more
/// than `limit` of them, which is 500 where none is given.
pub fn get_chats(store: &CacheStore, limit: Option<usize>) -> (r: Result<
    Vec<Conversation>,
    StorageError,
>)
    ensures
        match r {
            Ok(list) => store@.ready && views(list@) == conversations_of(
                listing(store@.rows, limit_of(limit)),
            ),
            Err(e) => !store@.ready,
        },
        in_order(listing(store@.rows, limit_of(limit))),
        r matches Ok(list) ==> list@.len() <= limit_of(limit),
{
    proof {
        lemma_listing(store@.rows, limit_of(limit));
    }
    if !store.ready {
        return Err(StorageError::Uninitialized);
    }
    let bound = match limit {
        Some(n) => n,
        None => 500,
    };
    let order = order_of(&store.rows);
    let count = if bound < order.len() {
        bound
    } else {
        order.len()
    };
    let ghost wanted = conversations_of(listing(store@.rows, limit_of(limit)));
    let mut list: Vec<Conversation> = Vec::new();
    let mut k: usize = 0;
    assert(views(list@) =~= wanted.take(0));
    while k < count
        invariant
            k <= count,
            count <= order@.len(),
            count == wanted.len(),
            order@.len() == store.rows@.len(),
            forall|m: int| 0 <= m < order@.len() ==> (#[trigger] order@[m]) < store.rows@.len(),
            picked(views(store.rows@), order@) == ordered(views(store.rows@)),
            wanted == conversations_of(listing(views(store.rows@), limit_of(limit))),
            views(list@) == wanted.take(k as int),
        decreases count - k,
    {
        let row = &store.rows[order[k]];
        let shown = Conversation { id: row.id.clone(), name: row.name.clone() };
        proof {
            assert(picked(views(store.rows@), order@)[k as int] == row@);
            assert(wanted[k as int] == shown@);
            lemma_views_push(list@, shown);
            assert(wanted.take(k + 1) =~= wanted.take(k as int).push(wanted[k as int]));
        }
        list.push(shown);
        k = k + 1;
    }
    assert(wanted.take(k as int) =~= wanted);
    Ok(list)
}

/// When the conversation `id` was last written, if the cache holds it.
pub fn last_chat_updated_at(store: &CacheStore, id: &str) -> (r: Result<Option<i64>, StorageError>)
    ensures
        match r {
            Ok(found) => store@.ready && match slot(store@.rows, id@) {
                Some(i) => found matches Some(at) && at == store@.rows[i].updated_at,
                None => found is None,
            },
            Err(e) => !store@.ready,
        },
{
    if !store.ready {
        return Err(StorageError::Uninitialized);
    }
    match find_row(&store.rows, id) {
        Some(i) => Ok(Some(store.rows[i].updated_at)),
        None => Ok(None),
    }
}

} // verus!
