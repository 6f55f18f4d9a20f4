use vstd::prelude::*;

use crate::server::index::ExpirationIndex;

verus! {

/// A stored value: a closed set of scalar kinds, cloned on read.
#[derive(Debug, PartialEq)]
pub enum Value {
    Text(String),
    Bytes(Vec<u8>),
    Integer(i64),
    Boolean(bool),
}

/// The mathematical shape of a `Value`: each variant reduced to its view.
pub enum ValueView {
    Text(Seq<char>),
    Bytes(Seq<u8>),
    Integer(i64),
    Boolean(bool),
}

impl View for Value {
    type V = ValueView;

    open spec fn view(&self) -> ValueView {
        match self {
            Value::Text(s) => ValueView::Text(s@),
            Value::Bytes(b) => ValueView::Bytes(b@),
            Value::Integer(i) => ValueView::Integer(*i),
            Value::Boolean(b) => ValueView::Boolean(*b),
        }
    }
}

fn copy_bytes(b: &Vec<u8>) -> (r: Vec<u8>)
    ensures
        r@ == b@,
{
    let mut r: Vec<u8> = Vec::new();
    let mut i: usize = 0;
    while i < b.len()
        invariant
            i <= b@.len(),
            r@ == b@.take(i as int),
        decreases b@.len() - i,
    {
        r.push(b[i]);
        proof {
            assert(b@.take(i + 1 as int) =~= b@.take(i as int).push(b@[i as int]));
        }
        i += 1;
    }
    proof {
        assert(b@.take(b@.len() as int) =~= b@);
    }
    r
}

impl Clone for Value {
    fn clone(&self) -> (r: Self)
        ensures
            r@ == self@,
    {
        match self {
            Value::Text(s) => Value::Text(s.clone()),
            Value::Bytes(b) => Value::Bytes(copy_bytes(b)),
            Value::Integer(i) => Value::Integer(*i),
            Value::Boolean(b) => Value::Boolean(*b),
        }
    }
}

/// The stored record for one key: a value and an optional absolute
/// expiration instant (epoch milliseconds); `None` means "never expires".
#[derive(Clone)]
pub struct ValueEntry {
    pub value: Value,
    expiration: Option<u128>,
}

/// The mathematical shape of a `ValueEntry`.
pub struct EntryView {
    pub value: ValueView,
    pub expires_at: Option<u128>,
}

impl View for ValueEntry {
    type V = EntryView;

    closed spec fn view(&self) -> EntryView {
        EntryView { value: self.value@, expires_at: self.expiration }
    }
}

/// The primary map: the original's concurrent map from key to entry.
pub type KeyMap = dashmap::DashMap<String, ValueEntry>;

/// What the primary map holds: each key's characters to the view of its entry.
pub uninterp spec fn key_map_contents(m: KeyMap) -> Map<Seq<char>, EntryView>;

#[verifier::external_type_specification]
#[verifier::external_body]
#[verifier::reject_recursive_types(K)]
#[verifier::reject_recursive_types(V)]
#[verifier::reject_recursive_types(S)]
pub struct ExDashMap<K, V, S>(dashmap::DashMap<K, V, S>);

/// Relies on dashmap::DashMap::new: creates an empty map.
#[verifier::external_body]
fn km_new() -> (r: KeyMap)
    ensures
        key_map_contents(r).dom() == Set::<Seq<char>>::empty(),
{
    dashmap::DashMap::new()
}

/// Relies on dashmap::DashMap::get: returns the entry stored under the key,
/// if any; the guard it hands back is turned into an owned copy of the entry.
#[verifier::external_body]
fn km_get(m: &KeyMap, key: &str) -> (r: Option<ValueEntry>)
    ensures
        r is Some <==> key_map_contents(*m).dom().contains(key@),
        r matches Some(e) ==> e@ == key_map_contents(*m)[key@],
{
    m.get(key).map(|e| e.value().clone())
}

/// Relies on dashmap::DashMap::insert: stores the entry under the key,
/// replacing any entry previously stored there.
#[verifier::external_body]
fn km_insert(m: &mut KeyMap, key: String, e: ValueEntry)
    ensures
        key_map_contents(*final(m)) == key_map_contents(*old(m)).insert(key@, e@),
{
    m.insert(key, e);
}

/// Relies on dashmap::DashMap::remove: removes and returns the entry stored
/// under the key, if any.
#[verifier::external_body]
fn km_remove(m: &mut KeyMap, key: &str) -> (r: Option<ValueEntry>)
    ensures
        key_map_contents(*final(m)) == key_map_contents(*old(m)).remove(key@),
        r is Some <==> key_map_contents(*old(m)).dom().contains(key@),
        r matches Some(e) ==> e@ == key_map_contents(*old(m))[key@],
{
    m.remove(key).map(|p| p.1)
}

/// The contents after a set: the key is bound to the new value and deadline,
/// everything else is untouched.
pub open spec fn set_contents(
    m: Map<Seq<char>, EntryView>,
    k: Seq<char>,
    v: ValueView,
    expires_at: Option<u128>,
) -> Map<Seq<char>, EntryView> {
    m.insert(k, EntryView { value: v, expires_at })
}

/// The absolute deadline a set computes from the clock and an optional
/// time-to-live in milliseconds.
pub open spec fn deadline_of(now: u128, expiration_ms: Option<u128>) -> Option<u128> {
    match expiration_ms {
        Some(ms) => Some((now + ms) as u128),
        None => None,
    }
}

/// What a get returns, as a function of the store contents and the clock:
/// the value if the key is present and not past its deadline, none otherwise.
pub open spec fn get_result(m: Map<Seq<char>, EntryView>, k: Seq<char>, now: u128) -> Option<
    ValueView,
> {
    if !m.dom().contains(k) {
        None
    } else if m[k].expires_at matches Some(t) && t <= now {
        None
    } else {
        Some(m[k].value)
    }
}

/// The contents after a get: an entry observed past its deadline is removed
/// (lazy expiration); otherwise nothing changes.
pub open spec fn get_contents_after(m: Map<Seq<char>, EntryView>, k: Seq<char>, now: u128) -> Map<
    Seq<char>,
    EntryView,
> {
    if m.dom().contains(k) && (m[k].expires_at matches Some(t) && t <= now) {
        m.remove(k)
    } else {
        m
    }
}

/// The stored absolute deadline of a key: none when the key is absent or
/// never expires.
pub open spec fn ttl_of(m: Map<Seq<char>, EntryView>, k: Seq<char>) -> Option<u128> {
    if m.dom().contains(k) {
        m[k].expires_at
    } else {
        None
    }
}

/// The concurrent store: the primary key-to-entry map together with the
/// derived expiration index, kept in lockstep.
pub struct Store {
    data: KeyMap,
    expiration_map: ExpirationIndex,
}

impl Store {
    /// The primary contents of the store: key characters to entry view.
    pub closed spec fn contents(self) -> Map<Seq<char>, EntryView> {
        key_map_contents(self.data)
    }

    /// The key is recorded in the expiration index under instant `t`.
    pub closed spec fn index_has(self, t: u128, k: Seq<char>) -> bool {
        self.expiration_map.contains(t, k)
    }

    /// The store invariant: the expiration index is well formed (instants
    /// strictly ordered, no empty bucket), and a key stands in the index
    /// under instant `t` iff the store holds that key with that exact
    /// deadline.
    pub closed spec fn inv(self) -> bool {
        &&& self.expiration_map.wf()
        &&& forall|t: u128, k: Seq<char>|
            self.expiration_map.contains(t, k) <==> (self.contents().dom().contains(k)
                && self.contents()[k].expires_at == Some(t))
    }

    pub fn new() -> (r: Store)
        ensures
            r.inv(),
            r.contents() == Map::<Seq<char>, EntryView>::empty(),
    {
        let r = Store { data: km_new(), expiration_map: ExpirationIndex::new() };
        proof {
            assert(r.contents() =~= Map::<Seq<char>, EntryView>::empty());
            assert forall|t: u128, k: Seq<char>|
                r.expiration_map.contains(t, k) <==> (r.contents().dom().contains(k)
                    && r.contents()[k].expires_at == Some(t)) by {
                assert(!r.expiration_map.contains(t, k));
                assert(!r.contents().dom().contains(k));
            }
        }
        r
    }

    /// Relies on std::time::SystemTime::now and its distance from the epoch:
    /// the wall clock as epoch milliseconds. Nothing can be promised of a
    /// clock reading.
    #[verifier::external_body]
    pub fn current_time_millis(&self) -> u128 {
        match std::time::SystemTime::now().duration_since(std::time::UNIX_EPOCH) {
            Ok(d) => d.as_millis(),
            Err(_) => 0,
        }
    }

    /// Bind `key` to `value`, with the deadline `now + expiration_ms` when a
    /// time-to-live is given. Any previous entry is replaced whole, and its
    /// old deadline is retracted from the index before the new one is
    /// recorded.
    pub fn set(&mut self, key: String, value: Value, expiration_ms: Option<u128>, now: u128)
        requires
            old(self).inv(),
            expiration_ms matches Some(ms) ==> now + ms <= u128::MAX,
        ensures
            final(self).inv(),
            final(self).contents() == set_contents(
                old(self).contents(),
                key@,
                value@,
                deadline_of(now, expiration_ms),
            ),
    {
        let ghost pre = *old(self);
        let expiration: Option<u128> = match expiration_ms {
            Some(ms) => Some(now + ms),
            None => None,
        };
        let old_expiration: Option<u128> = match km_get(&self.data, key.as_str()) {
            Some(e) => e.expiration,
            None => None,
        };
        if let Some(t0) = old_expiration {
            self.expiration_map.retract(t0, key.as_str());
        }
        let ghost mid = *self;
        km_insert(&mut self.data, key.clone(), ValueEntry { value, expiration });
        if let Some(t) = expiration {
            self.expiration_map.record(t, key);
        }
        proof {
            assert forall|t2: u128, k2: Seq<char>|
                self.expiration_map.contains(t2, k2) <==> (self.contents().dom().contains(k2)
                    && self.contents()[k2].expires_at == Some(t2)) by {
                if k2 == key@ {
                    assert(!mid.expiration_map.contains(t2, k2));
                } else {
                    assert(mid.expiration_map.contains(t2, k2) == pre.expiration_map.contains(
                        t2,
                        k2,
                    ));
                    assert(self.expiration_map.contains(t2, k2) == mid.expiration_map.contains(
                        t2,
                        k2,
                    ));
                }
            }
        }
    }

    /// Look the key up at clock reading `now`. An entry past its deadline is
    /// treated as absent: it is removed from the store and the index, and
    /// none is returned. Otherwise a copy of the value is returned.
    pub fn get(&mut self, key: &str, now: u128) -> (r: Option<Value>)
        requires
            old(self).inv(),
        ensures
            final(self).inv(),
            final(self).contents() == get_contents_after(old(self).contents(), key@, now),
            get_result(old(self).contents(), key@, now) == match r {
                Some(v) => Some(v@),
                None => None::<ValueView>,
            },
    {
        let ghost pre = *old(self);
        match km_get(&self.data, key) {
            None => None,
            Some(e) => {
                if let Some(t) = e.expiration {
                    if t <= now {
                        self.expiration_map.retract(t, key);
                        let ghost mid = *self;
                        km_remove(&mut self.data, key);
                        proof {
                            assert forall|t2: u128, k2: Seq<char>|
                                self.expiration_map.contains(t2, k2) <==> (
                                self.contents().dom().contains(k2) && self.contents()[k2].expires_at
                                    == Some(t2)) by {
                                if k2 == key@ {
                                    assert(!self.expiration_map.contains(t2, k2));
                                } else {
                                    assert(self.expiration_map.contains(t2, k2)
                                        == pre.expiration_map.contains(t2, k2));
                                }
                            }
                        }
                        return None;
                    }
                }
                Some(e.value)
            },
        }
    }

    /// Remove the key unconditionally, retracting any recorded deadline, and
    /// return the value that was stored; none when the key was absent (a
    /// normal empty result, not a failure).
    pub fn delete(&mut self, key: &str) -> (r: Option<Value>)
        requires
            old(self).inv(),
        ensures
            final(self).inv(),
            final(self).contents() == old(self).contents().remove(key@),
            r is Some <==> old(self).contents().dom().contains(key@),
            r matches Some(v) ==> v@ == old(self).contents()[key@].value,
    {
        let ghost pre = *old(self);
        match km_remove(&mut self.data, key) {
            None => {
                proof {
                    assert(self.contents() =~= pre.contents().remove(key@));
                }
                None
            },
            Some(e) => {
                if let Some(t) = e.expiration {
                    self.expiration_map.retract(t, key);
                }
                proof {
                    assert forall|t2: u128, k2: Seq<char>|
                        self.expiration_map.contains(t2, k2) <==> (self.contents().dom().contains(
                            k2,
                        ) && self.contents()[k2].expires_at == Some(t2)) by {
                        if k2 == key@ {
                            assert(!self.expiration_map.contains(t2, k2));
                        } else {
                            assert(self.expiration_map.contains(t2, k2)
                                == pre.expiration_map.contains(t2, k2));
                        }
                    }
                }
                Some(e.value)
            },
        }
    }

    /// Give the key the absolute deadline `expires_at`, retracting any old
    /// deadline first; the entry's value is untouched. Returns false, and
    /// changes nothing, when the key is absent. A key that had no deadline
    /// is given one: both the entry and the index are updated together, so
    /// the invariant is preserved either way.
    pub fn set_expiration(&mut self, key: &str, expires_at: u128) -> (r: bool)
        requires
            old(self).inv(),
        ensures
            final(self).inv(),
            r == old(self).contents().dom().contains(key@),
            r ==> final(self).contents() == old(self).contents().insert(
                key@,
                EntryView { value: old(self).contents()[key@].value, expires_at: Some(expires_at) },
            ),
            !r ==> final(self).contents() == old(self).contents(),
    {
        let ghost pre = *old(self);
        match km_get(&self.data, key) {
            None => false,
            Some(e) => {
                if let Some(t0) = e.expiration {
                    self.expiration_map.retract(t0, key);
                }
                let ghost mid = *self;
                km_insert(
                    &mut self.data,
                    key.to_owned(),
                    ValueEntry { value: e.value, expiration: Some(expires_at) },
                );
                self.expiration_map.record(expires_at, key.to_owned());
                proof {
                    assert forall|t2: u128, k2: Seq<char>|
                        self.expiration_map.contains(t2, k2) <==> (self.contents().dom().contains(
                            k2,
                        ) && self.contents()[k2].expires_at == Some(t2)) by {
                        if k2 == key@ {
                            assert(!mid.expiration_map.contains(t2, k2));
                        } else {
                            assert(mid.expiration_map.contains(t2, k2)
                                == pre.expiration_map.contains(t2, k2));
                            assert(self.expiration_map.contains(t2, k2)
                                == mid.expiration_map.contains(t2, k2));
                        }
                    }
                }
                true
            },
        }
    }

    /// Read the stored absolute deadline without touching the entry: no
    /// expiration is triggered, and a key with no deadline or no entry
    /// yields none.
    pub fn get_time_to_live(&self, key: &str) -> (r: Option<u128>)
        ensures
            r == ttl_of(self.contents(), key@),
    {
        match km_get(&self.data, key) {
            Some(e) => e.expiration,
            None => None,
        }
    }
}

/// Round trip: binding a key with no time-to-live and then reading it back
/// at any clock yields exactly the value that was bound.
pub proof fn lemma_set_then_get(
    m: Map<Seq<char>, EntryView>,
    k: Seq<char>,
    v: ValueView,
    later: u128,
)
    ensures
        get_result(set_contents(m, k, v, None), k, later) == Some(v),
{
}

/// Expiration: after a set with absolute deadline `t`, a get returns the
/// value at every clock strictly before `t`, and none at `t` or after.
pub proof fn lemma_expiration(
    m: Map<Seq<char>, EntryView>,
    k: Seq<char>,
    v: ValueView,
    t: u128,
    now: u128,
)
    ensures
        now < t ==> get_result(set_contents(m, k, v, Some(t)), k, now) == Some(v),
        now >= t ==> get_result(set_contents(m, k, v, Some(t)), k, now) == None::<ValueView>,
{
}

/// Once a get has observed a key expired and removed it, every later get
/// of that key returns none, whatever the clock then reads.
pub proof fn lemma_expired_stays_absent(
    m: Map<Seq<char>, EntryView>,
    k: Seq<char>,
    v: ValueView,
    t: u128,
    now: u128,
    later: u128,
)
    requires
        now >= t,
    ensures
        ({
            let m1 = set_contents(m, k, v, Some(t));
            let m2 = get_contents_after(m1, k, now);
            &&& get_result(m1, k, now) == None::<ValueView>
            &&& get_result(m2, k, later) == None::<ValueView>
        }),
{
}

/// Delete is idempotent: deleting an absent key returns none and leaves the
/// contents unchanged, and after one set, the first delete yields the bound
/// value while a second yields none and changes nothing further.
pub proof fn lemma_delete_idempotent(
    m: Map<Seq<char>, EntryView>,
    k: Seq<char>,
    v: ValueView,
    e: Option<u128>,
)
    ensures
        !m.dom().contains(k) ==> m.remove(k) == m,
        ({
            let m1 = set_contents(m, k, v, e);
            let m2 = m1.remove(k);
            &&& m1.dom().contains(k) && m1[k].value == v
            &&& !m2.dom().contains(k)
            &&& m2.remove(k) == m2
        }),
{
    if !m.dom().contains(k) {
        assert(m.remove(k) =~= m);
    }
    let m2 = set_contents(m, k, v, e).remove(k);
    assert(m2.remove(k) =~= m2);
}

/// Overwrite: a set with a deadline followed by a set of the same key with
/// no time-to-live leaves the key bound to the second value, with no
/// expiration left to observe.
pub proof fn lemma_overwrite(
    m: Map<Seq<char>, EntryView>,
    k: Seq<char>,
    v1: ValueView,
    t1: u128,
    v2: ValueView,
    later: u128,
)
    ensures
        ({
            let m2 = set_contents(set_contents(m, k, v1, Some(t1)), k, v2, None);
            &&& get_result(m2, k, later) == Some(v2)
            &&& m2[k].expires_at == None::<u128>
        }),
{
}

impl Store {
    /// Index consistency: under the store invariant, a key stands in the
    /// expiration index under instant `t` iff the store holds that key with
    /// exactly that deadline.
    pub proof fn lemma_index_consistency(self, t: u128, k: Seq<char>)
        requires
            self.inv(),
        ensures
            self.index_has(t, k) <==> (self.contents().dom().contains(k)
                && self.contents()[k].expires_at == Some(t)),
    {
    }

    /// A key whose entry carries no deadline stands nowhere in the
    /// expiration index; in particular a bucket for a deadline it once had
    /// no longer holds it.
    pub proof fn lemma_no_deadline_not_indexed(self, t: u128, k: Seq<char>)
        requires
            self.inv(),
            self.contents().dom().contains(k),
            self.contents()[k].expires_at == None::<u128>,
        ensures
            !self.index_has(t, k),
    {
    }

    /// The expiration index, bucket by bucket: instants strictly increase
    /// and no bucket is ever empty.
    pub closed spec fn index_model(self) -> Seq<(u128, Seq<Seq<char>>)> {
        self.expiration_map.model()
    }

    /// No bucket of the expiration index is ever empty, and the instants
    /// are strictly ordered.
    pub proof fn lemma_index_no_empty_bucket(self)
        requires
            self.inv(),
        ensures
            forall|i: int| 0 <= i < self.index_model().len() ==> (self.index_model()[i].1.len() > 0),
            forall|i: int, j: int|
                0 <= i < j < self.index_model().len() ==> (self.index_model()[i].0
                    < self.index_model()[j].0),
    {
        self.expiration_map.lemma_wf_model();
    }
}

} // verus!
