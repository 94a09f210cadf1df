use crate::codec::{decode_tables, encode_tables, nanos_since, now, parsed_tables, tables_json};
use crate::entries::{first_index, lemma_operations_keep_exclusive, Entries};
use crate::policy::{flush_due, flushes_after_mutation, PickleDbDumpPolicy};
use crate::table::{entries_view, unique_keys, Table};
use std::time::Instant;
use vstd::prelude::*;

verus! {

/// Why a store could not be loaded from text.
#[derive(Debug)]
pub enum LoadError {
    /// The text is not a pair of JSON objects of the expected shape.
    Decode(serde_json::Error),
    /// A key is both a scalar and a list.
    KeyConflict,
}

/// The characters of an optional string.
pub open spec fn opt_view(o: Option<String>) -> Option<Seq<char>> {
    match o {
        Some(s) => Some(s@),
        None => None,
    }
}

/// The position of the first payload of `list` equal to `value`.
fn position_of(list: &Vec<String>, value: &str) -> (r: Option<usize>)
    ensures
        match r {
            Some(i) => i < list@.len() && list@[i as int]@ == value@ && forall|j: int|
                0 <= j < i ==> #[trigger] list@[j]@ != value@,
            None => forall|j: int| 0 <= j < list@.len() ==> #[trigger] list@[j]@ != value@,
        },
{
    let target = value.to_owned();
    let mut i: usize = 0;
    while i < list.len()
        invariant
            i <= list@.len(),
            target@ == value@,
            forall|j: int| 0 <= j < i ==> #[trigger] list@[j]@ != value@,
        decreases list@.len() - i,
    {
        if list[i] == target {
            return Some(i);
        }
        i = i + 1;
    }
    None
}

/// What a mutation at clock reading `now` does about dumping, from a store
/// with `policy`, last flush time `last` and pending dump `pending`, to
/// `next`: where the policy asks for a flush, the dump of `next`'s contents
/// becomes pending and, under `PeriodicDump`, the last flush time becomes
/// `now`; otherwise both stay.
pub open spec fn flush_after(
    policy: PickleDbDumpPolicy,
    last: u128,
    pending: Option<Seq<char>>,
    next: &PickleDb,
    now: u128,
) -> bool {
    if flushes_after_mutation(policy, now - last) {
        &&& next.pending() == Some(next.current_json())
        &&& next.last_flush() == if policy is PeriodicDump {
            now
        } else {
            last
        }
    } else {
        &&& next.pending() == pending
        &&& next.last_flush() == last
    }
}

/// What a dump at clock reading `now` does, from a store with `policy`, last
/// flush time `last`, pending dump `pending` and contents whose dump text is
/// `json`, to `next`: under `NeverDump` nothing; otherwise `json` becomes
/// pending and, under `PeriodicDump`, the last flush time becomes `now`.
pub open spec fn dump_effect(
    policy: PickleDbDumpPolicy,
    last: u128,
    pending: Option<Seq<char>>,
    json: Seq<char>,
    next: &PickleDb,
    now: u128,
) -> bool {
    if policy is NeverDump {
        &&& next.pending() == pending
        &&& next.last_flush() == last
    } else {
        &&& next.pending() == Some(json)
        &&& next.last_flush() == if policy is PeriodicDump {
            now
        } else {
            last
        }
    }
}

/// Under `PeriodicDump(d)`: a mutation more than `d` after the last flush
/// flushes, a second one within `d` of the first does not, and a third one
/// more than `d` after the first flushes again.
pub proof fn lemma_periodic_cooldown(
    a: &PickleDb,
    b: &PickleDb,
    c: &PickleDb,
    e: &PickleDb,
    d: u128,
    t1: u128,
    t2: u128,
    t3: u128,
)
    requires
        a.policy() == PickleDbDumpPolicy::PeriodicDump(d),
        flush_after(a.policy(), a.last_flush(), a.pending(), b, t1),
        flush_after(a.policy(), b.last_flush(), b.pending(), c, t2),
        flush_after(a.policy(), c.last_flush(), c.pending(), e, t3),
        t1 - a.last_flush() > d,
        t2 - t1 <= d,
        t3 - t1 > d,
    ensures
        b.pending() == Some(b.current_json()),
        b.last_flush() == t1,
        c.pending() == b.pending(),
        c.last_flush() == t1,
        e.pending() == Some(e.current_json()),
        e.last_flush() == t3,
{
}

/// A manual dump restarts the cooldown: under `PeriodicDump(d)`, a mutation
/// within `d` of a dump does not flush.
pub proof fn lemma_dump_restarts_cooldown(
    a: &PickleDb,
    b: &PickleDb,
    c: &PickleDb,
    d: u128,
    t0: u128,
    t: u128,
)
    requires
        a.policy() == PickleDbDumpPolicy::PeriodicDump(d),
        dump_effect(a.policy(), a.last_flush(), a.pending(), a.current_json(), b, t0),
        flush_after(a.policy(), b.last_flush(), b.pending(), c, t),
        t - t0 <= d,
    ensures
        b.last_flush() == t0,
        c.pending() == b.pending(),
        c.last_flush() == t0,
{
}

/// Under `NeverDump` or `DumpUponRequest` a mutation neither dumps nor
/// moves the last flush time.
pub proof fn lemma_no_flush_without_request(a: &PickleDb, b: &PickleDb)
    requires
        a.policy() is NeverDump || a.policy() is DumpUponRequest,
        a.flush_step(b),
    ensures
        b.pending() == a.pending(),
        b.last_flush() == a.last_flush(),
{
    let now = choose|now: u128| #[trigger] flush_after(a.policy(), a.last_flush(), a.pending(), b, now);
}

/// An in-memory store of scalar and list entries of JSON payloads, with the
/// policy that decides when a dump of its contents is due.
///
/// A dump produces the JSON text of the whole store and leaves it pending
/// until `take_snapshot` hands it out to be written to the store's location.
pub struct PickleDb {
    scalars: Table<String>,
    lists: Table<Vec<String>>,
    db_file_path: String,
    dump_policy: PickleDbDumpPolicy,
    clock_origin: Instant,
    last_flush: u128,
    snapshot: Option<String>,
}

impl PickleDb {
    /// The store's contents.
    pub closed spec fn entries(&self) -> Entries {
        Entries { scalars: self.scalars@, lists: self.lists@ }
    }

    /// The store is well formed: no key is held twice.
    pub closed spec fn wf(&self) -> bool {
        self.scalars.wf() && self.lists.wf() && self.entries().exclusive()
    }

    pub closed spec fn policy(&self) -> PickleDbDumpPolicy {
        self.dump_policy
    }

    /// Where the store is written.
    pub closed spec fn location(&self) -> Seq<char> {
        self.db_file_path@
    }

    /// The dump text waiting to be written, if any.
    pub closed spec fn pending(&self) -> Option<Seq<char>> {
        opt_view(self.snapshot)
    }

    /// When the store last flushed under `PeriodicDump`, in nanoseconds of
    /// the store's clock, which reads zero when the store is made.
    pub closed spec fn last_flush(&self) -> u128 {
        self.last_flush
    }

    /// The dump text of the current contents.
    pub open spec fn current_json(&self) -> Seq<char> {
        tables_json(self.entries().scalars, self.entries().lists)
    }

    /// What a mutation that leads from `self` to `next` does about dumping:
    /// the settings stay, and the policy decides on a flush as `flush_after`
    /// says at the clock reading taken during the call.
    pub open spec fn flush_step(&self, next: &PickleDb) -> bool {
        &&& next.policy() == self.policy()
        &&& next.location() == self.location()
        &&& exists|now: u128| #[trigger]
            flush_after(self.policy(), self.last_flush(), self.pending(), next, now)
    }

    /// Nothing observable changed.
    pub open spec fn unchanged(&self, next: &PickleDb) -> bool {
        &&& next.entries() == self.entries()
        &&& next.policy() == self.policy()
        &&& next.location() == self.location()
        &&& next.pending() == self.pending()
        &&& next.last_flush() == self.last_flush()
    }

    /// A well-formed store never holds a key both as a scalar and as a list.
    pub proof fn lemma_keys_exclusive(&self)
        requires
            self.wf(),
        ensures
            self.entries().exclusive(),
    {
    }

    /// An empty store.
    pub fn new(location: &str, dump_policy: PickleDbDumpPolicy) -> (r: PickleDb)
        ensures
            r.wf(),
            r.entries().scalars == Map::<Seq<char>, Seq<char>>::empty(),
            r.entries().lists == Map::<Seq<char>, Seq<Seq<char>>>::empty(),
            r.policy() == dump_policy,
            r.location() == location@,
            r.pending() is None,
            r.last_flush() == 0,
    {
        PickleDb {
            scalars: Table::new(),
            lists: Table::new(),
            db_file_path: location.to_owned(),
            dump_policy,
            clock_origin: now(),
            last_flush: 0,
            snapshot: None,
        }
    }

    /// A store holding the given entries, refused where a key is held twice.
    pub fn from_tables(
        location: &str,
        scalars: Vec<(String, String)>,
        lists: Vec<(String, Vec<String>)>,
        dump_policy: PickleDbDumpPolicy,
    ) -> (r: Result<PickleDb, LoadError>)
        ensures
            r is Ok <==> unique_keys(scalars@) && unique_keys(lists@) && (Entries {
                scalars: entries_view(scalars@),
                lists: entries_view(lists@),
            }).exclusive(),
            r matches Err(e) ==> e is KeyConflict,
            r matches Ok(db) ==> {
                &&& db.wf()
                &&& db.entries().scalars == entries_view(scalars@)
                &&& db.entries().lists == entries_view(lists@)
                &&& db.policy() == dump_policy
                &&& db.location() == location@
                &&& db.pending() is None
                &&& db.last_flush() == 0
            },
    {
        let ghost sv = scalars@;
        let ghost lv = lists@;
        let s = match Table::from_entries(scalars) {
            Some(t) => t,
            None => return Err(LoadError::KeyConflict),
        };
        let l = match Table::from_entries(lists) {
            Some(t) => t,
            None => return Err(LoadError::KeyConflict),
        };
        let keys = s.keys();
        let mut i: usize = 0;
        while i < keys.len()
            invariant
                i <= keys@.len(),
                s.wf(),
                l.wf(),
                s@ == entries_view(sv),
                l@ == entries_view(lv),
                unique_keys(sv),
                unique_keys(lv),
                sv == scalars@,
                lv == lists@,
                forall|k: Seq<char>|
                    s@.contains_key(k) <==> exists|a: int|
                        0 <= a < keys@.len() && #[trigger] keys@[a]@ == k,
                forall|a: int| 0 <= a < i ==> !l@.contains_key(#[trigger] keys@[a]@),
            decreases keys@.len() - i,
        {
            if l.contains(keys[i].as_str()) {
                let ghost e = Entries { scalars: s@, lists: l@ };
                assert(e.scalars.contains_key(keys@[i as int]@) && e.lists.contains_key(
                    keys@[i as int]@,
                ));
                assert(!e.exclusive());
                return Err(LoadError::KeyConflict);
            }
            i = i + 1;
        }
        let db = PickleDb {
            scalars: s,
            lists: l,
            db_file_path: location.to_owned(),
            dump_policy,
            clock_origin: now(),
            last_flush: 0,
            snapshot: None,
        };
        assert(db.entries().exclusive()) by {
            assert forall|k: Seq<char>|
                !(#[trigger] db.entries().scalars.contains_key(k) && db.entries().lists.contains_key(
                    k,
                )) by {
                if s@.contains_key(k) {
                    let a = choose|a: int| 0 <= a < keys@.len() && #[trigger] keys@[a]@ == k;
                }
            }
        }
        Ok(db)
    }

    /// Reads a store from the text of an earlier dump.
    pub fn load(location: &str, contents: &str, dump_policy: PickleDbDumpPolicy) -> (r: Result<
        PickleDb,
        LoadError,
    >)
        ensures
            r is Ok <==> (parsed_tables(contents@) matches Some((sc, li)) && (Entries {
                scalars: sc,
                lists: li,
            }).exclusive()),
            (r matches Err(LoadError::Decode(_))) <==> parsed_tables(contents@) is None,
            r matches Ok(db) ==> {
                &&& db.wf()
                &&& parsed_tables(contents@) == Some((db.entries().scalars, db.entries().lists))
                &&& db.policy() == dump_policy
                &&& db.location() == location@
                &&& db.pending() is None
                &&& db.last_flush() == 0
            },
    {
        match decode_tables(contents) {
            Ok((s, l)) => PickleDb::from_tables(location, s, l, dump_policy),
            Err(e) => Err(LoadError::Decode(e)),
        }
    }

    /// Reads a store that never dumps.
    pub fn load_read_only(location: &str, contents: &str) -> (r: Result<PickleDb, LoadError>)
        ensures
            r is Ok <==> (parsed_tables(contents@) matches Some((sc, li)) && (Entries {
                scalars: sc,
                lists: li,
            }).exclusive()),
            (r matches Err(LoadError::Decode(_))) <==> parsed_tables(contents@) is None,
            r matches Ok(db) ==> {
                &&& db.wf()
                &&& parsed_tables(contents@) == Some((db.entries().scalars, db.entries().lists))
                &&& db.policy() == PickleDbDumpPolicy::NeverDump
                &&& db.location() == location@
                &&& db.pending() is None
                &&& db.last_flush() == 0
            },
    {
        PickleDb::load(location, contents, PickleDbDumpPolicy::NeverDump)
    }

    /// Dumps the store at clock reading `now` unless its policy is
    /// `NeverDump`: the JSON text of the contents becomes pending, and under
    /// `PeriodicDump` the last flush time becomes `now`. Returns true:
    /// encoding the contents does not fail.
    pub fn dump_at(&mut self, now: u128) -> (r: bool)
        requires
            old(self).wf(),
        ensures
            r,
            final(self).wf(),
            final(self).entries() == old(self).entries(),
            final(self).policy() == old(self).policy(),
            final(self).location() == old(self).location(),
            dump_effect(
                old(self).policy(),
                old(self).last_flush(),
                old(self).pending(),
                old(self).current_json(),
                final(self),
                now,
            ),
    {
        match self.dump_policy {
            PickleDbDumpPolicy::NeverDump => {
                return true;
            },
            _ => {},
        }
        match encode_tables(self.scalars.as_vec(), self.lists.as_vec()) {
            Some(text) => {
                self.snapshot = Some(text);
                match self.dump_policy {
                    PickleDbDumpPolicy::PeriodicDump(_) => {
                        self.last_flush = now;
                    },
                    _ => {},
                }
                true
            },
            None => false,
        }
    }

    /// Dumps the store, as `dump_at` does at the current clock reading.
    pub fn dump(&mut self) -> (r: bool)
        requires
            old(self).wf(),
        ensures
            r,
            final(self).wf(),
            final(self).entries() == old(self).entries(),
            final(self).policy() == old(self).policy(),
            final(self).location() == old(self).location(),
            exists|now: u128| #[trigger]
                dump_effect(
                    old(self).policy(),
                    old(self).last_flush(),
                    old(self).pending(),
                    old(self).current_json(),
                    final(self),
                    now,
                ),
    {
        let now = nanos_since(&self.clock_origin);
        self.dump_at(now)
    }

    /// Dumps where the policy asks for it after a mutation made at clock
    /// reading `now`.
    pub fn on_mutation_at(&mut self, now: u128)
        requires
            old(self).wf(),
        ensures
            final(self).wf(),
            final(self).entries() == old(self).entries(),
            final(self).policy() == old(self).policy(),
            final(self).location() == old(self).location(),
            flush_after(old(self).policy(), old(self).last_flush(), old(self).pending(), final(self), now),
    {
        let elapsed: u128 = if now >= self.last_flush {
            now - self.last_flush
        } else {
            0
        };
        if flush_due(&self.dump_policy, elapsed) {
            let _ = self.dump_at(now);
        }
    }

    /// Dumps where the policy asks for it after a mutation, at the current
    /// clock reading.
    fn dumpdb(&mut self)
        requires
            old(self).wf(),
        ensures
            final(self).wf(),
            final(self).entries() == old(self).entries(),
            forall|p: PickleDb|
                p.policy() == old(self).policy() && p.location() == old(self).location()
                    && p.last_flush() == old(self).last_flush() && p.pending() == old(
                    self,
                ).pending() ==> #[trigger] p.flush_step(final(self)),
    {
        let now = nanos_since(&self.clock_origin);
        let ghost pre = *self;
        self.on_mutation_at(now);
        assert forall|p: PickleDb|
            p.policy() == pre.policy() && p.location() == pre.location() && p.last_flush()
                == pre.last_flush() && p.pending() == pre.pending() implies #[trigger] p.flush_step(
            self,
        ) by {
            assert(flush_after(p.policy(), p.last_flush(), p.pending(), self, now));
        }
    }

    /// Hands out the pending dump text, leaving none pending.
    pub fn take_snapshot(&mut self) -> (r: Option<String>)
        ensures
            opt_view(r) == old(self).pending(),
            final(self).pending() is None,
            final(self).entries() == old(self).entries(),
            final(self).policy() == old(self).policy(),
            final(self).location() == old(self).location(),
            final(self).last_flush() == old(self).last_flush(),
            final(self).wf() == old(self).wf(),
    {
        let mut r: Option<String> = None;
        std::mem::swap(&mut r, &mut self.snapshot);
        r
    }

    /// Stores `value` as scalar `key`, replacing whatever `key` held.
    pub fn set(&mut self, key: &str, value: &str)
        requires
            old(self).wf(),
        ensures
            final(self).wf(),
            final(self).entries() == old(self).entries().put_scalar(key@, value@),
            old(self).flush_step(final(self)),
    {
        proof {
            lemma_operations_keep_exclusive(self.entries(), key@, value@, seq![], 0);
        }
        let _ = self.lists.remove(key);
        self.scalars.insert(key.to_owned(), value.to_owned());
        self.dumpdb();
    }

    /// The payload of scalar `key`.
    pub fn get(&self, key: &str) -> (r: Option<String>)
        requires
            self.wf(),
        ensures
            opt_view(r) == self.entries().scalar(key@),
    {
        match self.scalars.get(key) {
            Some(v) => Some(v.clone()),
            None => None,
        }
    }

    /// Whether `key` is held, as a scalar or as a list.
    pub fn key_exists(&self, key: &str) -> (r: bool)
        ensures
            r == self.entries().holds(key@),
    {
        self.scalars.contains(key) || self.lists.contains(key)
    }

    /// Every key held, each once, in no particular order.
    pub fn get_all(&self) -> (r: Vec<String>)
        requires
            self.wf(),
        ensures
            forall|k: Seq<char>|
                self.entries().holds(k) <==> exists|i: int|
                    0 <= i < r@.len() && #[trigger] r@[i]@ == k,
            forall|i: int, j: int|
                0 <= i < r@.len() && 0 <= j < r@.len() && i != j ==> #[trigger] r@[i]@
                    != #[trigger] r@[j]@,
            r@.len() == self.entries().scalars.dom().len() + self.entries().lists.dom().len(),
    {
        let mut r = self.scalars.keys();
        let mut l = self.lists.keys();
        let ghost a = r@;
        let ghost b = l@;
        r.append(&mut l);
        proof {
            assert(r@ == a + b);
            assert forall|k: Seq<char>|
                self.entries().holds(k) <==> exists|i: int|
                    0 <= i < r@.len() && #[trigger] r@[i]@ == k by {
                if self.scalars@.contains_key(k) {
                    let i = choose|i: int| 0 <= i < a.len() && #[trigger] a[i]@ == k;
                    assert(r@[i] == a[i]);
                }
                if self.lists@.contains_key(k) {
                    let i = choose|i: int| 0 <= i < b.len() && #[trigger] b[i]@ == k;
                    assert(r@[a.len() + i] == b[i]);
                }
                if exists|i: int| 0 <= i < r@.len() && #[trigger] r@[i]@ == k {
                    let i = choose|i: int| 0 <= i < r@.len() && #[trigger] r@[i]@ == k;
                    if i < a.len() {
                        assert(r@[i] == a[i]);
                    } else {
                        assert(r@[i] == b[i - a.len()]);
                    }
                }
            }
            assert forall|i: int, j: int|
                0 <= i < r@.len() && 0 <= j < r@.len() && i != j implies #[trigger] r@[i]@
                != #[trigger] r@[j]@ by {
                if i < a.len() && j < a.len() {
                    assert(r@[i] == a[i] && r@[j] == a[j]);
                } else if i >= a.len() && j >= a.len() {
                    assert(r@[i] == b[i - a.len()] && r@[j] == b[j - a.len()]);
                } else if i < a.len() {
                    assert(r@[i] == a[i] && r@[j] == b[j - a.len()]);
                    assert(self.scalars@.contains_key(a[i]@));
                    assert(self.lists@.contains_key(b[j - a.len()]@));
                    assert(!(self.entries().scalars.contains_key(a[i]@) && self.entries().lists.contains_key(a[i]@)));
                } else {
                    assert(r@[j] == a[j] && r@[i] == b[i - a.len()]);
                    assert(self.scalars@.contains_key(a[j]@));
                    assert(self.lists@.contains_key(b[i - a.len()]@));
                    assert(!(self.entries().scalars.contains_key(a[j]@) && self.entries().lists.contains_key(a[j]@)));
                }
            }
        }
        r
    }

    /// The number of keys held, scalars and lists together.
    pub fn total_keys(&self) -> (r: usize)
        requires
            self.wf(),
        ensures
            r == self.entries().scalars.dom().len() + self.entries().lists.dom().len(),
    {
        self.get_all().len()
    }

    /// Removes `key`, whichever kind it is; returns whether it was held.
    pub fn rem(&mut self, key: &str) -> (r: bool)
        requires
            old(self).wf(),
        ensures
            final(self).wf(),
            r == old(self).entries().holds(key@),
            final(self).entries() == old(self).entries().remove_key(key@),
            old(self).flush_step(final(self)),
    {
        proof {
            lemma_operations_keep_exclusive(self.entries(), key@, seq![], seq![], 0);
        }
        let a = self.scalars.remove(key).is_some();
        let b = self.lists.remove(key).is_some();
        self.dumpdb();
        a || b
    }

    /// Makes `name` an empty list, replacing whatever `name` held.
    pub fn lcreate(&mut self, name: &str)
        requires
            old(self).wf(),
        ensures
            final(self).wf(),
            final(self).entries() == old(self).entries().put_list(name@),
            old(self).flush_step(final(self)),
    {
        proof {
            lemma_operations_keep_exclusive(self.entries(), name@, seq![], seq![], 0);
        }
        let _ = self.scalars.remove(name);
        let empty: Vec<String> = Vec::new();
        assert(empty.deep_view() =~= Seq::<Seq<char>>::empty());
        self.lists.insert(name.to_owned(), empty);
        self.dumpdb();
    }

    /// Whether `name` is a list.
    pub fn lexists(&self, name: &str) -> (r: bool)
        ensures
            r == self.entries().lists.contains_key(name@),
    {
        self.lists.contains(name)
    }

    /// Appends `value` to list `name`; returns whether the list exists.
    pub fn ladd(&mut self, name: &str, value: &str) -> (r: bool)
        requires
            old(self).wf(),
        ensures
            final(self).wf(),
            r == old(self).entries().lists.contains_key(name@),
            final(self).entries() == old(self).entries().extend_list(name@, seq![value@]),
            r ==> old(self).flush_step(final(self)),
            !r ==> old(self).unchanged(final(self)),
    {
        let mut values: Vec<String> = Vec::new();
        values.push(value.to_owned());
        assert(values.deep_view() =~= seq![value@]);
        self.lextend(name, &values)
    }

    /// Appends `values`, in order, to list `name`; returns whether the list exists.
    pub fn lextend(&mut self, name: &str, values: &Vec<String>) -> (r: bool)
        requires
            old(self).wf(),
        ensures
            final(self).wf(),
            r == old(self).entries().lists.contains_key(name@),
            final(self).entries() == old(self).entries().extend_list(name@, values.deep_view()),
            r ==> old(self).flush_step(final(self)),
            !r ==> old(self).unchanged(final(self)),
    {
        if !self.lists.contains(name) {
            return false;
        }
        proof {
            lemma_operations_keep_exclusive(self.entries(), name@, seq![], values.deep_view(), 0);
        }
        match self.lists.remove(name) {
            Some(list) => {
                let mut list = list;
                let ghost start = list.deep_view();
                let n0 = list.len();
                let mut i: usize = 0;
                while i < values.len()
                    invariant
                        i <= values@.len(),
                        n0 == start.len(),
                        list@.len() == n0 + i,
                        forall|a: int| 0 <= a < n0 ==> #[trigger] list@[a]@ == start[a],
                        forall|a: int| 0 <= a < i ==> #[trigger] list@[n0 + a]@ == values@[a]@,
                    decreases values@.len() - i,
                {
                    list.push(values[i].clone());
                    i = i + 1;
                }
                assert(list.deep_view() =~= start + values.deep_view()) by {
                    assert forall|a: int| n0 <= a < list@.len() implies list@[a]@ == (start
                        + values.deep_view())[a] by {
                        assert(list@[n0 + (a - n0)]@ == values@[a - n0]@);
                    }
                }
                let ghost newlist = list.deep_view();
                self.lists.insert(name.to_owned(), list);
                assert(self.lists@ =~= old(self).lists@.insert(name@, newlist));
                self.dumpdb();
                true
            },
            None => false,
        }
    }

    /// The payload at `pos` of list `name`.
    pub fn lget(&self, name: &str, pos: usize) -> (r: Option<String>)
        requires
            self.wf(),
        ensures
            opt_view(r) == self.entries().item(name@, pos as int),
    {
        match self.lists.get(name) {
            Some(list) => {
                if pos < list.len() {
                    Some(list[pos].clone())
                } else {
                    None
                }
            },
            None => None,
        }
    }

    /// The length of list `name`, zero where there is no such list.
    pub fn llen(&self, name: &str) -> (r: usize)
        requires
            self.wf(),
        ensures
            r == self.entries().list_len(name@),
    {
        match self.lists.get(name) {
            Some(list) => list.len(),
            None => 0,
        }
    }

    /// Removes list `name`; returns the length it had.
    pub fn lrem_list(&mut self, name: &str) -> (r: usize)
        requires
            old(self).wf(),
        ensures
            final(self).wf(),
            r == old(self).entries().list_len(name@),
            final(self).entries() == old(self).entries().remove_list(name@),
            old(self).flush_step(final(self)),
    {
        proof {
            lemma_operations_keep_exclusive(self.entries(), name@, seq![], seq![], 0);
        }
        let res = self.llen(name);
        let _ = self.lists.remove(name);
        self.dumpdb();
        res
    }

    /// Takes out the payload at `pos` of list `name`, shifting the later ones
    /// to the left.
    pub fn lpop(&mut self, name: &str, pos: usize) -> (r: Option<String>)
        requires
            old(self).wf(),
        ensures
            final(self).wf(),
            opt_view(r) == old(self).entries().item(name@, pos as int),
            final(self).entries() == old(self).entries().pop_at(name@, pos as int),
            r is Some ==> old(self).flush_step(final(self)),
            r is None ==> old(self).unchanged(final(self)),
    {
        if pos >= self.llen(name) {
            return None;
        }
        proof {
            lemma_operations_keep_exclusive(self.entries(), name@, seq![], seq![], pos as int);
        }
        match self.lists.remove(name) {
            Some(list) => {
                let mut list = list;
                let ghost before = list.deep_view();
                let res = list.remove(pos);
                assert(list.deep_view() =~= before.remove(pos as int));
                let ghost newlist = list.deep_view();
                self.lists.insert(name.to_owned(), list);
                assert(self.lists@ =~= old(self).lists@.insert(name@, newlist));
                self.dumpdb();
                Some(res)
            },
            None => None,
        }
    }

    /// Removes the first payload of list `name` equal to `value`; returns
    /// whether there was one.
    pub fn lrem_value(&mut self, name: &str, value: &str) -> (r: bool)
        requires
            old(self).wf(),
        ensures
            final(self).wf(),
            r == (old(self).entries().lists.contains_key(name@) && old(
                self,
            ).entries().lists[name@].contains(value@)),
            final(self).entries() == old(self).entries().remove_first(name@, value@),
            r ==> old(self).flush_step(final(self)),
            !r ==> old(self).unchanged(final(self)),
    {
        let found = match self.lists.get(name) {
            Some(list) => position_of(list, value),
            None => None,
        };
        let pos = match found {
            Some(p) => p,
            None => {
                return false;
            },
        };
        proof {
            lemma_operations_keep_exclusive(self.entries(), name@, value@, seq![], 0);
            let lv = self.lists@[name@];
            assert(lv[pos as int] == value@);
            assert(lv.contains(value@));
            let c = first_index(lv, value@);
            if c < pos {
                assert(lv[c] != value@);
            } else if c > pos {
                assert(lv[pos as int] != value@);
            }
            assert(c == pos);
        }
        match self.lists.remove(name) {
            Some(list) => {
                let mut list = list;
                let ghost before = list.deep_view();
                let _ = list.remove(pos);
                assert(list.deep_view() =~= before.remove(pos as int));
                let ghost newlist = list.deep_view();
                self.lists.insert(name.to_owned(), list);
                assert(self.lists@ =~= old(self).lists@.insert(name@, newlist));
                self.dumpdb();
                true
            },
            None => false,
        }
    }

    /// Where the store is written.
    pub fn db_file_path(&self) -> (r: &str)
        ensures
            r@ == self.location(),
    {
        self.db_file_path.as_str()
    }

    /// The store's dump policy.
    pub fn dump_policy(&self) -> (r: PickleDbDumpPolicy)
        ensures
            r == self.policy(),
    {
        self.dump_policy
    }
}

} // verus!
