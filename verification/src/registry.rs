//! The URL registry: the sole gateway to persisted long-URL/short-code
//! mappings, modelled as a relation with two uniqueness invariants.
//!
//! Records are keyed by an identifier the registry assigns on insert,
//! starting at 1 and increasing by 1 with each record, so identifiers are
//! strictly increasing in insertion order and never reused.

use vstd::prelude::*;

use crate::text::str_eq;

verus! {

/// The mathematical model of one persisted mapping.
pub ghost struct RecordModel {
    /// Identifier assigned by the registry on insert.
    pub id: u64,
    /// The canonical long URL.
    pub url: Seq<char>,
    /// The short code mapped to the URL.
    pub code: Seq<char>,
    /// Insertion timestamp, milliseconds since the Unix epoch.
    pub at: i64,
}

/// Some record carries the long URL `u`.
pub open spec fn has_url(rs: Seq<RecordModel>, u: Seq<char>) -> bool {
    exists|i: int| 0 <= i < rs.len() && rs[i].url == u
}

/// Some record carries the short code `c`.
pub open spec fn has_code(rs: Seq<RecordModel>, c: Seq<char>) -> bool {
    exists|i: int| 0 <= i < rs.len() && rs[i].code == c
}

/// The short code of the record carrying the long URL `u`.
pub open spec fn code_at_url(rs: Seq<RecordModel>, u: Seq<char>) -> Seq<char> {
    rs[choose|i: int| 0 <= i < rs.len() && rs[i].url == u].code
}

/// The long URL of the record carrying the short code `c`.
pub open spec fn url_at_code(rs: Seq<RecordModel>, c: Seq<char>) -> Seq<char> {
    rs[choose|i: int| 0 <= i < rs.len() && rs[i].code == c].url
}

/// Well-formedness of the relation: identifiers are assigned in insertion
/// order starting at 1, and both the long URLs and the short codes are
/// unique across all records.
pub open spec fn wf_records(rs: Seq<RecordModel>) -> bool {
    &&& forall|i: int| 0 <= i < rs.len() ==> #[trigger] rs[i].id == i + 1
    &&& forall|i: int, j: int| 0 <= i < j < rs.len() ==> #[trigger] rs[i].url != #[trigger] rs[j].url
    &&& forall|i: int, j: int| 0 <= i < j < rs.len() ==> #[trigger] rs[i].code != #[trigger] rs[j].code
}

/// On a well-formed relation the record carrying a given URL is unique,
/// so its short code is determined.
pub proof fn lemma_code_at_url(rs: Seq<RecordModel>, u: Seq<char>, i: int)
    requires
        wf_records(rs),
        0 <= i < rs.len(),
        rs[i].url == u,
    ensures
        code_at_url(rs, u) == rs[i].code,
{
    let k = choose|k: int| 0 <= k < rs.len() && rs[k].url == u;
    assert(rs[k].url == u);
    assert(k == i);
}

/// On a well-formed relation the record carrying a given code is unique,
/// so its long URL is determined.
pub proof fn lemma_url_at_code(rs: Seq<RecordModel>, c: Seq<char>, i: int)
    requires
        wf_records(rs),
        0 <= i < rs.len(),
        rs[i].code == c,
    ensures
        url_at_code(rs, c) == rs[i].url,
{
    let k = choose|k: int| 0 <= k < rs.len() && rs[k].code == c;
    assert(rs[k].code == c);
    assert(k == i);
}

/// One persisted mapping from a long URL to its short code.
pub struct ShortUrlRecord {
    pub id: u64,
    pub original_url: String,
    pub short_code: String,
    pub created_at: i64,
}

impl View for ShortUrlRecord {
    type V = RecordModel;

    open spec fn view(&self) -> RecordModel {
        RecordModel {
            id: self.id,
            url: self.original_url@,
            code: self.short_code@,
            at: self.created_at,
        }
    }
}

/// How the storage layer fails: a uniqueness-constraint violation on
/// insert, or the engine being unreachable.
#[derive(Clone, Copy, Debug, PartialEq, Eq, Structural)]
pub enum StorageError {
    Conflict,
    Unavailable,
}

/// Relies on chrono's `Utc::now` and `DateTime::timestamp_millis`: the
/// current time as milliseconds since the Unix epoch. Nothing is promised
/// of the clock's value.
#[verifier::external_body]
fn now_millis() -> i64 {
    chrono::Utc::now().timestamp_millis()
}

/// The registry of persisted mappings. Its view is the sequence of record
/// models in insertion order.
pub struct Registry {
    records: Vec<ShortUrlRecord>,
}

impl View for Registry {
    type V = Seq<RecordModel>;

    closed spec fn view(&self) -> Seq<RecordModel> {
        self.records@.map_values(|r: ShortUrlRecord| r@)
    }
}

impl Registry {
    /// The registry's well-formedness invariant; established by `new` and
    /// preserved by `insert`.
    pub open spec fn wf(&self) -> bool {
        wf_records(self@)
    }

    /// An empty registry.
    pub fn new() -> (r: Registry)
        ensures
            r@ == Seq::<RecordModel>::empty(),
            r.wf(),
    {
        let r = Registry { records: Vec::new() };
        proof {
            assert(r@ =~= Seq::<RecordModel>::empty());
        }
        r
    }

    /// How many records the relation holds.
    pub fn len(&self) -> (r: usize)
        ensures
            r == self@.len(),
    {
        self.records.len()
    }

    /// The record whose `original_url` equals `url` byte for byte, if any.
    pub fn find_by_long_url(&self, url: &str) -> (r: Option<&ShortUrlRecord>)
        ensures
            r is Some <==> has_url(self@, url@),
            match r {
                Some(rec) => exists|i: int|
                    0 <= i < self@.len() && self@[i] == rec@ && rec@.url == url@,
                None => true,
            },
    {
        let n = self.records.len();
        let mut i: usize = 0;
        while i < n
            invariant
                i <= n,
                n == self.records@.len(),
                self@ == self.records@.map_values(|r: ShortUrlRecord| r@),
                self@.len() == n,
                forall|j: int| 0 <= j < i ==> #[trigger] self@[j].url != url@,
            decreases n - i,
        {
            if str_eq(self.records[i].original_url.as_str(), url) {
                assert(self@[i as int].url == url@);
                return Some(&self.records[i]);
            }
            i += 1;
        }
        None
    }

    /// The record whose `short_code` equals `code`, if any.
    pub fn find_by_short_code(&self, code: &str) -> (r: Option<&ShortUrlRecord>)
        ensures
            r is Some <==> has_code(self@, code@),
            match r {
                Some(rec) => exists|i: int|
                    0 <= i < self@.len() && self@[i] == rec@ && rec@.code == code@,
                None => true,
            },
    {
        let n = self.records.len();
        let mut i: usize = 0;
        while i < n
            invariant
                i <= n,
                n == self.records@.len(),
                self@ == self.records@.map_values(|r: ShortUrlRecord| r@),
                self@.len() == n,
                forall|j: int| 0 <= j < i ==> #[trigger] self@[j].code != code@,
            decreases n - i,
        {
            if str_eq(self.records[i].short_code.as_str(), code) {
                assert(self@[i as int].code == code@);
                return Some(&self.records[i]);
            }
            i += 1;
        }
        None
    }

    /// The identifier of the most recently created record, or nothing when
    /// the relation is empty.
    pub fn highest_id(&self) -> (r: Option<u64>)
        ensures
            r == if self@.len() == 0 {
                Option::<u64>::None
            } else {
                Option::<u64>::Some(self@.last().id)
            },
    {
        let n = self.records.len();
        if n == 0 {
            None
        } else {
            assert(self@[n - 1] == self.records@[n - 1]@);
            Some(self.records[n - 1].id)
        }
    }

    /// Persist a new record mapping `url` to `code`, with `created_at` set
    /// to the current time. Fails with `Conflict`, changing nothing, when
    /// either uniqueness invariant would be violated; succeeds otherwise.
    pub fn insert(&mut self, url: &str, code: &str) -> (r: Result<(), StorageError>)
        requires
            old(self).wf(),
            old(self)@.len() < u64::MAX,
        ensures
            final(self).wf(),
            r is Ok <==> !(has_url(old(self)@, url@) || has_code(old(self)@, code@)),
            r is Ok ==> final(self)@ == old(self)@.push(final(self)@.last())
                && final(self)@.last().id == old(self)@.len() + 1
                && final(self)@.last().url == url@ && final(self)@.last().code == code@,
            r is Err ==> r == Err::<(), StorageError>(StorageError::Conflict) && final(self)@
                == old(self)@,
    {
        if self.find_by_long_url(url).is_some() {
            return Err(StorageError::Conflict);
        }
        if self.find_by_short_code(code).is_some() {
            return Err(StorageError::Conflict);
        }
        let id = self.records.len() as u64 + 1;
        let rec = ShortUrlRecord {
            id,
            original_url: String::from_str(url),
            short_code: String::from_str(code),
            created_at: now_millis(),
        };
        proof {
            let ghost rs0 = self.records@;
            assert(rs0.push(rec).map_values(|r: ShortUrlRecord| r@) =~= rs0.map_values(
                |r: ShortUrlRecord| r@,
            ).push(rec@));
        }
        self.records.push(rec);
        Ok(())
    }
}

} // verus!
