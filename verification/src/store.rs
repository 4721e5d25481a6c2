//! The keys of the server and what they hold.

use crate::table::Table;
use crate::text::{parse_u64, split_at_hyphen, split_hyphen, to_u64};
use vstd::prelude::*;

verus! {

/// One entry of a stream.
pub struct StreamEntry {
    pub id: String,
    pub fields: Vec<(String, String)>,
}

/// What a key holds.
pub enum DataType {
    String(String),
    List(Vec<String>),
    Stream(Vec<StreamEntry>),
}

/// A key's data, the time after which it is gone, and how often it was written.
///
/// Time is counted in nanoseconds on the server's monotonic clock.
pub struct DbValue {
    pub value: DataType,
    pub expires_at: Option<u128>,
    pub version: usize,
}

/// What a [`StreamEntry`] holds.
pub struct StreamEntryView {
    pub id: Seq<char>,
    pub fields: Seq<(Seq<char>, Seq<char>)>,
}

/// What a [`DataType`] holds.
pub enum DataView {
    String(Seq<char>),
    List(Seq<Seq<char>>),
    Stream(Seq<StreamEntryView>),
}

/// What a [`DbValue`] holds.
pub struct DbValueView {
    pub value: DataView,
    pub expires_at: Option<u128>,
    pub version: nat,
}

/// What a [`Db`] holds.
pub type DbView = Map<Seq<char>, DbValueView>;

/// The texts of a row of strings.
pub open spec fn texts(s: Seq<String>) -> Seq<Seq<char>> {
    s.map_values(|x: String| x@)
}

/// The texts of a row of pairs of strings.
pub open spec fn pair_texts(s: Seq<(String, String)>) -> Seq<(Seq<char>, Seq<char>)> {
    s.map_values(|x: (String, String)| (x.0@, x.1@))
}

impl View for StreamEntry {
    type V = StreamEntryView;

    open spec fn view(&self) -> StreamEntryView {
        StreamEntryView { id: self.id@, fields: pair_texts(self.fields@) }
    }
}

/// What a row of entries holds.
pub open spec fn entry_views(s: Seq<StreamEntry>) -> Seq<StreamEntryView> {
    s.map_values(|x: StreamEntry| x@)
}

impl View for DataType {
    type V = DataView;

    open spec fn view(&self) -> DataView {
        match self {
            DataType::String(s) => DataView::String(s@),
            DataType::List(l) => DataView::List(texts(l@)),
            DataType::Stream(s) => DataView::Stream(entry_views(s@)),
        }
    }
}

impl View for DbValue {
    type V = DbValueView;

    open spec fn view(&self) -> DbValueView {
        DbValueView {
            value: self.value@,
            expires_at: self.expires_at,
            version: self.version as nat,
        }
    }
}

/// The milliseconds and the sequence number of an entry's id, where the id has
/// that form.
pub open spec fn parse_id(id: Seq<char>) -> Option<(u64, u64)> {
    match split_hyphen(id) {
        Some((ms, seq)) => match (to_u64(ms), to_u64(seq)) {
            (Some(m), Some(s)) => Some((m, s)),
            _ => None,
        },
        None => None,
    }
}

/// The order of entry ids.
pub open spec fn id_less(a: (u64, u64), b: (u64, u64)) -> bool {
    a.0 < b.0 || (a.0 == b.0 && a.1 < b.1)
}

/// The parsed id of an entry.
pub open spec fn id_of(e: StreamEntryView) -> (u64, u64) {
    parse_id(e.id)->0
}

/// Every entry has an id above `0-0`.
pub open spec fn valid_entries(s: Seq<StreamEntryView>) -> bool {
    forall|i: int|
        0 <= i < s.len() ==> parse_id((#[trigger] s[i]).id) is Some && id_less((0, 0), id_of(s[i]))
}

/// Every stream has valid entries.
pub open spec fn valid_db(db: DbView) -> bool {
    forall|k: Seq<char>| #[trigger]
        db.contains_key(k) ==> (db[k].value matches DataView::Stream(s) ==> valid_entries(s))
}

/// Every version fits into a machine word.
pub open spec fn versions_fit(db: DbView) -> bool {
    forall|k: Seq<char>| #[trigger] db.contains_key(k) ==> db[k].version <= usize::MAX
}

/// Reads an entry's id.
pub fn read_id(id: &str) -> (r: Option<(u64, u64)>)
    ensures
        r == parse_id(id@),
{
    match split_at_hyphen(id) {
        Some((first, second)) => match (parse_u64(first), parse_u64(second)) {
            (Some(ms), Some(seq)) => Some((ms, seq)),
            _ => None,
        },
        None => None,
    }
}

/// The keys of the server.
pub struct Db {
    table: Table<DbValue>,
}

impl View for Db {
    type V = DbView;

    closed spec fn view(&self) -> DbView {
        self.table@.map_values(|v: DbValue| v@)
    }
}

impl Db {
    /// The table is sound and every stream has valid entries.
    pub closed spec fn wf(&self) -> bool {
        self.table.wf() && valid_db(self@)
    }

    /// A sound database has valid streams, and its versions fit into a machine word.
    pub broadcast proof fn lemma_wf(self)
        requires
            #[trigger] self.wf(),
        ensures
            valid_db(self@),
            versions_fit(self@),
    {
    }

    /// A database without keys.
    pub fn new() -> (r: Self)
        ensures
            r.wf(),
            r@ == Map::<Seq<char>, DbValueView>::empty(),
    {
        let r = Db { table: Table::new() };
        proof {
            assert(r@ =~= Map::<Seq<char>, DbValueView>::empty());
        }
        r
    }

    /// What a key holds.
    pub fn get(&self, key: &str) -> (r: Option<&DbValue>)
        requires
            self.wf(),
        ensures
            match r {
                Some(v) => self@.contains_key(key@) && v@ == self@[key@],
                None => !self@.contains_key(key@),
            },
    {
        self.table.get(key)
    }

    /// Gives a key its value.
    pub fn insert(&mut self, key: String, value: DbValue)
        requires
            old(self).wf(),
            value@.value matches DataView::Stream(s) ==> valid_entries(s),
        ensures
            final(self).wf(),
            final(self)@ == old(self)@.insert(key@, value@),
    {
        self.table.insert(key, value);
        proof {
            assert(self@ =~= old(self)@.insert(key@, value@));
        }
    }

    /// Takes a key and what it holds out of the database.
    pub fn take(&mut self, key: &str) -> (r: Option<DbValue>)
        requires
            old(self).wf(),
        ensures
            final(self).wf(),
            final(self)@ == old(self)@.remove(key@),
            match r {
                Some(v) => old(self)@.contains_key(key@) && v@ == old(self)@[key@],
                None => !old(self)@.contains_key(key@),
            },
    {
        let r = self.table.take(key);
        proof {
            assert(self@ =~= old(self)@.remove(key@));
        }
        r
    }
}

} // verus!
