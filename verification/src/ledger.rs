//! The ledger: which migrations are applied, as records in a collection of
//! the vector store itself. This module holds what is decided about those
//! records; reading and writing the store is the caller's part.

use crate::handle::{fresh_handle, handle_text, handle_to_text, parse_handle, parsed_handle};
use uuid::Uuid;
use vstd::hash_map::StringHashMap;
use vstd::prelude::*;

verus! {

/// A point in time: seconds since the Unix epoch, and the nanoseconds within
/// the second.
#[derive(Clone, Copy, Debug, PartialEq, Eq, Structural)]
pub struct Timestamp {
    pub secs: i64,
    pub nanos: u32,
}

/// `chrono::Utc::now`, as seconds and nanoseconds. Nothing is claimed of the
/// clock.
#[verifier::external_body]
fn utc_now() -> (now: Timestamp) {
    let now = chrono::Utc::now();
    Timestamp { secs: now.timestamp(), nanos: now.timestamp_subsec_nanos() }
}

/// What a ledger record says: which migration was applied, and when.
#[derive(Debug)]
pub struct LedgerRecord {
    pub name: String,
    pub applied_at: Timestamp,
}

/// The identifier of a point in the store: a number or the text of a UUID.
#[derive(Debug)]
pub enum PointKey {
    Num(u64),
    Uuid(String),
}

/// A point as read from the ledger's collection: its identifier, if it has
/// one, and its payload, if the payload is a ledger record.
#[derive(Debug)]
pub struct StoredPoint {
    pub id: Option<PointKey>,
    pub record: Option<LedgerRecord>,
}

/// A point to be written: a new handle and the record stored under it.
#[derive(Debug)]
pub struct NewPoint {
    pub id: Uuid,
    pub record: LedgerRecord,
}

/// The way distances are measured in a collection.
#[derive(Clone, Copy, Debug, PartialEq, Eq, Structural)]
pub enum Distance {
    Cosine,
}

/// The settings of the ledger's collection.
#[derive(Debug)]
pub struct CollectionSpec {
    pub name: String,
    pub vector_size: u64,
    pub distance: Distance,
}

/// The applied migrations: the handle of the ledger record of each, by the
/// migration's name.
pub struct Applied {
    map: StringHashMap<Uuid>,
}

impl View for Applied {
    type V = Map<Seq<char>, Uuid>;

    closed spec fn view(&self) -> Map<Seq<char>, Uuid> {
        self.map@
    }
}

impl Applied {
    /// Nothing applied.
    pub fn new() -> (applied: Applied)
        ensures
            applied@ == Map::<Seq<char>, Uuid>::empty(),
    {
        Applied { map: StringHashMap::new() }
    }

    /// Records `id` as the handle of `name`, in place of any earlier one.
    pub fn insert(&mut self, name: String, id: Uuid)
        ensures
            final(self)@ == old(self)@.insert(name@, id),
    {
        self.map.insert(name, id);
    }

    /// The handle recorded for `name`.
    pub fn get(&self, name: &str) -> (id: Option<Uuid>)
        ensures
            id == (if self@.contains_key(name@) {
                Some(self@[name@])
            } else {
                None
            }),
    {
        match self.map.get(name) {
            Some(id) => Some(*id),
            None => None,
        }
    }

    /// Whether a handle is recorded for `name`.
    pub fn contains(&self, name: &str) -> (found: bool)
        ensures
            found == self@.contains_key(name@),
    {
        self.map.contains_key(name)
    }

    /// The number of names with a handle.
    pub fn len(&self) -> (n: usize)
        ensures
            n == self@.len(),
    {
        self.map.len()
    }
}

/// The name of the ledger's collection.
pub open spec fn ledger_collection() -> Seq<char> {
    "_qdrant_migration"@
}

/// The name of the collection that holds the ledger.
pub fn collection_name() -> (name: String)
    ensures
        name@ == ledger_collection(),
{
    "_qdrant_migration".to_string()
}

/// The settings of a collection, as a store keeps them.
pub struct Settings {
    pub vector_size: u64,
    pub distance: Distance,
}

/// The settings of the ledger's collection: one dimension, cosine distance.
/// The store wants a vector space; the ledger never searches it.
pub open spec fn ledger_settings() -> Settings {
    Settings { vector_size: 1, distance: Distance::Cosine }
}

/// What `ensure` asks for on a store where the ledger's collection is
/// `present`: nothing where it is, else the creation of that collection with
/// the ledger's settings.
pub open spec fn asked(present: bool, create: Option<CollectionSpec>) -> bool {
    match create {
        None => present,
        Some(spec) => {
            &&& !present
            &&& spec.name@ == ledger_collection()
            &&& spec.vector_size == ledger_settings().vector_size
            &&& spec.distance == ledger_settings().distance
        },
    }
}

/// The collections of a store, by name, once the creation that was asked for
/// is done.
pub open spec fn performed(
    store: Map<Seq<char>, Settings>,
    create: Option<CollectionSpec>,
) -> Map<Seq<char>, Settings> {
    match create {
        Some(spec) => store.insert(
            spec.name@,
            Settings { vector_size: spec.vector_size, distance: spec.distance },
        ),
        None => store,
    }
}

/// The collections of a store, by name, once the ledger is ensured: the
/// store as it was where it held the ledger's collection, else the store
/// with that collection added.
pub open spec fn ensured(store: Map<Seq<char>, Settings>) -> Map<Seq<char>, Settings> {
    if store.contains_key(ledger_collection()) {
        store
    } else {
        store.insert(ledger_collection(), ledger_settings())
    }
}

/// What `ensure` has to do: nothing where the collection exists, else create
/// it, with one dimension and cosine distance.
pub fn ensure(present: bool) -> (create: Option<CollectionSpec>)
    ensures
        asked(present, create),
{
    if present {
        None
    } else {
        Some(CollectionSpec { name: collection_name(), vector_size: 1, distance: Distance::Cosine })
    }
}

/// What a round of `ensure` does to a store: once what it asked for is done,
/// the store holds the ledger's collection, and every other collection is as
/// it was; a ledger's collection that was there is as it was, too.
pub proof fn law_ensure(store: Map<Seq<char>, Settings>, create: Option<CollectionSpec>)
    requires
        asked(store.contains_key(ledger_collection()), create),
    ensures
        performed(store, create) == ensured(store),
        ensured(store).contains_key(ledger_collection()),
        store.contains_key(ledger_collection()) ==> ensured(store) == store,
        forall|name: Seq<char>|
            name != ledger_collection() ==> (ensured(store).contains_key(name)
                <==> store.contains_key(name)) && (store.contains_key(name) ==> ensured(
                store,
            )[name] == store[name]),
{
}

/// Ensuring is idempotent: a second round, on the store as the first round
/// left it, asks for nothing, and so leaves the store in the same state.
pub proof fn law_ensure_idempotent(
    store: Map<Seq<char>, Settings>,
    first: Option<CollectionSpec>,
    second: Option<CollectionSpec>,
)
    requires
        asked(store.contains_key(ledger_collection()), first),
        asked(performed(store, first).contains_key(ledger_collection()), second),
    ensures
        second is None,
        performed(performed(store, first), second) == performed(store, first),
        ensured(ensured(store)) == ensured(store),
{
}

/// The names that the ledger holds after records for `names` are inserted.
pub open spec fn after_insert(ledger: Map<Seq<char>, Uuid>, names: Seq<Seq<char>>) -> Set<
    Seq<char>,
> {
    ledger.dom().union(names.to_set())
}

/// The ledger after the records with the given handles are deleted.
pub open spec fn after_delete(ledger: Map<Seq<char>, Uuid>, handles: Seq<Uuid>) -> Map<
    Seq<char>,
    Uuid,
> {
    Map::new(
        |name: Seq<char>| ledger.contains_key(name) && !handles.contains(ledger[name]),
        |name: Seq<char>| ledger[name],
    )
}

/// No two names of the ledger share a handle.
pub open spec fn one_to_one(ledger: Map<Seq<char>, Uuid>) -> bool {
    forall|a: Seq<char>, b: Seq<char>|
        ledger.contains_key(a) && ledger.contains_key(b) && a != b ==> ledger[a] != ledger[b]
}

/// The entry that a stored point contributes to the applied set: its name
/// under its handle, where the identifier is the text of a UUID and the
/// payload is a ledger record. Every other point contributes nothing.
pub open spec fn decoded(point: StoredPoint) -> Option<(Seq<char>, Uuid)> {
    match (point.id, point.record) {
        (Some(PointKey::Uuid(text)), Some(record)) => match parsed_handle(text@) {
            Some(id) => Some((record.name@, id)),
            None => None,
        },
        _ => None,
    }
}

/// The applied set that a scan of the collection yields: the entries of the
/// points in scan order, a later point replacing an earlier one of the same
/// name.
pub open spec fn applied_of(points: Seq<StoredPoint>) -> Map<Seq<char>, Uuid>
    decreases points.len(),
{
    if points.len() == 0 {
        Map::empty()
    } else {
        let before = applied_of(points.drop_last());
        match decoded(points.last()) {
            Some(entry) => before.insert(entry.0, entry.1),
            None => before,
        }
    }
}

fn decode(point: &StoredPoint) -> (entry: Option<(String, Uuid)>)
    ensures
        match entry {
            Some(entry) => decoded(*point) == Some((entry.0@, entry.1)),
            None => decoded(*point) is None,
        },
{
    let text = match &point.id {
        Some(PointKey::Uuid(text)) => text,
        _ => {
            return None;
        },
    };
    let record = match &point.record {
        Some(record) => record,
        None => {
            return None;
        },
    };
    match parse_handle(text.as_str()) {
        Some(id) => Some((record.name.clone(), id)),
        None => None,
    }
}

/// The applied set from the points of a scan. Points whose identifier is not
/// a UUID are passed over, and so are points whose payload is no ledger
/// record.
pub fn retrieve(points: &Vec<StoredPoint>) -> (applied: Applied)
    ensures
        applied@ == applied_of(points@),
{
    let mut applied = Applied::new();
    let mut i: usize = 0;
    while i < points.len()
        invariant
            i <= points@.len(),
            applied@ == applied_of(points@.take(i as int)),
        decreases points@.len() - i,
    {
        proof {
            assert(points@.take(i + 1).drop_last() == points@.take(i as int));
        }
        match decode(&points[i]) {
            Some(entry) => {
                applied.insert(entry.0, entry.1);
            },
            None => {},
        }
        i = i + 1;
    }
    proof {
        assert(points@.take(points@.len() as int) == points@);
    }
    applied
}

/// The points to write: one for each name, in order, under the handle that
/// comes with the name, all stamped `now`.
pub fn new_points(named: Vec<(String, Uuid)>, now: Timestamp) -> (points: Vec<NewPoint>)
    ensures
        points@.len() == named@.len(),
        forall|i: int|
            0 <= i < points@.len() ==> {
                &&& (#[trigger] points@[i]).id == named@[i].1
                &&& points@[i].record.name == named@[i].0
                &&& points@[i].record.applied_at == now
            },
{
    let ghost wanted = named@;
    let mut points: Vec<NewPoint> = Vec::new();
    for pair in it: named
        invariant
            it.seq() == wanted,
            points@.len() == it.index(),
            forall|i: int|
                0 <= i < points@.len() ==> {
                    &&& (#[trigger] points@[i]).id == wanted[i].1
                    &&& points@[i].record.name == wanted[i].0
                    &&& points@[i].record.applied_at == now
                },
    {
        points.push(NewPoint { id: pair.1, record: LedgerRecord { name: pair.0, applied_at: now } });
    }
    points
}

/// The points to write for `names`: one per name, in order, each under a
/// fresh handle, all stamped with the same reading of the clock.
pub fn insert_many(names: Vec<String>) -> (points: Vec<NewPoint>)
    ensures
        points@.len() == names@.len(),
        forall|i: int|
            0 <= i < points@.len() ==> {
                &&& (#[trigger] points@[i]).record.name == names@[i]
                &&& points@[i].record.applied_at == points@[0].record.applied_at
            },
{
    let now = utc_now();
    let ghost wanted = names@;
    let mut named: Vec<(String, Uuid)> = Vec::new();
    for name in it: names
        invariant
            it.seq() == wanted,
            named@.len() == it.index(),
            forall|i: int| 0 <= i < named@.len() ==> (#[trigger] named@[i]).0 == wanted[i],
    {
        named.push((name, fresh_handle()));
    }
    new_points(named, now)
}

/// The identifiers of the points to delete: the text of each handle, in
/// order.
pub fn delete_many(handles: &Vec<Uuid>) -> (keys: Vec<String>)
    ensures
        keys@.len() == handles@.len(),
        forall|i: int| 0 <= i < keys@.len() ==> (#[trigger] keys@[i])@ == handle_text(handles@[i]),
{
    let mut keys: Vec<String> = Vec::new();
    let mut i: usize = 0;
    while i < handles.len()
        invariant
            i <= handles@.len(),
            keys@.len() == i,
            forall|k: int| 0 <= k < i ==> (#[trigger] keys@[k])@ == handle_text(handles@[k]),
        decreases handles@.len() - i,
    {
        keys.push(handle_to_text(&handles[i]));
        i = i + 1;
    }
    keys
}

/// The point as a later scan finds it: under the text of its handle, with its
/// record as payload.
pub fn stored(point: &NewPoint) -> (found: StoredPoint)
    ensures
        decoded(found) == Some((point.record.name@, point.id)),
        found.id matches Some(PointKey::Uuid(text)) && text@ == handle_text(point.id),
        found.record matches Some(record) && record.name@ == point.record.name@
            && record.applied_at == point.record.applied_at,
{
    StoredPoint {
        id: Some(PointKey::Uuid(handle_to_text(&point.id))),
        record: Some(
            LedgerRecord { name: point.record.name.clone(), applied_at: point.record.applied_at },
        ),
    }
}

/// Insert, then retrieve: a scan that ends with a freshly written point
/// yields, for the name of that point, the handle it was written under.
pub proof fn law_insert_then_retrieve(earlier: Seq<StoredPoint>, written: StoredPoint, name: Seq<
    char,
>, id: Uuid)
    requires
        decoded(written) == Some((name, id)),
    ensures
        applied_of(earlier.push(written)).contains_key(name),
        applied_of(earlier.push(written))[name] == id,
{
    assert(earlier.push(written).drop_last() == earlier);
    assert(earlier.push(written).last() == written);
}

} // verus!
