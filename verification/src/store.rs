//! The credential store: one key and one usage counter for each application.
//!
//! The store is the image of a directory of records. Whoever owns the
//! directory restores the image from it and writes back each record that an
//! operation changed, before it reports success.

use vstd::prelude::*;
use vstd::slice::slice_to_vec;
use crate::counter::{advance, advance_spec, decimal, lemma_counter_round_trip, parse_counter};
use crate::error::StoreError;
use crate::key::{same_application, ApplicationKey, KeyView};

verus! {

/// What the store holds, as plain values: for each application at most one
/// key, and at most one counter record, the latter as the text that is
/// persisted.
pub struct StoreView {
    pub keys: Map<Seq<u8>, KeyView>,
    pub counters: Map<Seq<u8>, Seq<u8>>,
}

impl StoreView {
    /// The store with `key` written, in place of any key that its application
    /// had before.
    pub open spec fn put_key(self, key: KeyView) -> StoreView {
        StoreView { keys: self.keys.insert(key.application, key), counters: self.counters }
    }

    /// The key of `application`, if there is one and its handle is `handle`.
    /// A wrong handle and an unknown application give the same answer.
    pub open spec fn get_key(self, application: Seq<u8>, handle: Seq<u8>) -> Option<KeyView> {
        if self.keys.contains_key(application) && self.keys[application].handle == handle {
            Some(self.keys[application])
        } else {
            None
        }
    }

    /// The counter record of `application`, if there is one.
    pub open spec fn counter_record(self, application: Seq<u8>) -> Option<Seq<u8>> {
        if self.counters.contains_key(application) {
            Some(self.counters[application])
        } else {
            None
        }
    }

    /// The store with the counter record of `application` replaced by `text`.
    pub open spec fn put_counter(self, application: Seq<u8>, text: Seq<u8>) -> StoreView {
        StoreView { keys: self.keys, counters: self.counters.insert(application, text) }
    }

    /// A read-and-increment of the counter of `application`: the counter
    /// before the increment and the store after it, or the error, in which
    /// case the store stays as it is.
    pub open spec fn next_counter(self, application: Seq<u8>) -> Result<
        (u32, StoreView),
        StoreError,
    > {
        match advance_spec(self.counter_record(application)) {
            Ok((n, text)) => Ok((n, self.put_counter(application, text))),
            Err(e) => Err(e),
        }
    }

    /// The store after a read-and-increment of the counter of `application`,
    /// whether it succeeded or not.
    pub open spec fn after_next_counter(self, application: Seq<u8>) -> StoreView {
        match self.next_counter(application) {
            Ok((_, next)) => next,
            Err(_) => self,
        }
    }

    /// Where the counter of `application` stands: zero where it has no
    /// record. A damaged record stands for no number; it counts as zero here
    /// and no operation ever changes it.
    pub open spec fn counter_value(self, application: Seq<u8>) -> nat {
        match self.counter_record(application) {
            None => 0,
            Some(text) => match parse_counter(text) {
                None => 0,
                Some(n) => n as nat,
            },
        }
    }
}

/// An operation on the store, as plain values.
pub enum StoreOp {
    /// Writing a key.
    PutKey(KeyView),
    /// Looking up the key of an application by its handle.
    GetKey(Seq<u8>, Seq<u8>),
    /// A read-and-increment of the counter of an application.
    NextCounter(Seq<u8>),
}

impl StoreView {
    /// Whether the counter of `application` can be read: it has no record,
    /// or an undamaged one.
    pub open spec fn counter_readable(self, application: Seq<u8>) -> bool {
        match self.counter_record(application) {
            None => true,
            Some(text) => parse_counter(text).is_some(),
        }
    }

    /// The store after `n` consecutive read-and-increments of the counter of
    /// `application`.
    pub open spec fn after_counters(self, application: Seq<u8>, n: nat) -> StoreView
        decreases n,
    {
        if n == 0 {
            self
        } else {
            self.after_counters(application, (n - 1) as nat).after_next_counter(application)
        }
    }

    /// The store after `op`.
    pub open spec fn apply(self, op: StoreOp) -> StoreView {
        match op {
            StoreOp::PutKey(key) => self.put_key(key),
            StoreOp::GetKey(_, _) => self,
            StoreOp::NextCounter(application) => self.after_next_counter(application),
        }
    }

    /// The store after the operations `ops`, in their order.
    pub open spec fn apply_all(self, ops: Seq<StoreOp>) -> StoreView
        decreases ops.len(),
    {
        if ops.len() == 0 {
            self
        } else {
            self.apply_all(ops.drop_last()).apply(ops.last())
        }
    }
}

/// An application without a key has no key under any handle.
pub proof fn lemma_unregistered_has_no_key(s: StoreView, application: Seq<u8>, handle: Seq<u8>)
    requires
        !s.keys.contains_key(application),
    ensures
        s.get_key(application, handle).is_none(),
{
}

/// A key that was written is found again under its application and handle,
/// whatever the store held before, and is not found under its application
/// and any other handle.
pub proof fn lemma_put_then_get(s: StoreView, key: KeyView, handle: Seq<u8>)
    ensures
        s.put_key(key).get_key(key.application, key.handle) == Some(key),
        handle != key.handle ==> s.put_key(key).get_key(key.application, handle).is_none(),
{
}

/// Writing a key changes the key of no other application.
pub proof fn lemma_put_keeps_other_keys(
    s: StoreView,
    key: KeyView,
    application: Seq<u8>,
    handle: Seq<u8>,
)
    requires
        application != key.application,
    ensures
        s.put_key(key).get_key(application, handle) == s.get_key(application, handle),
{
}

/// Consecutive read-and-increments hand out consecutive counters: where the
/// counter of an application can be read and stands at `c`, the call that
/// follows `i` earlier ones returns `c + i`, as long as that is below the
/// largest counter. For an application without a counter record the calls
/// return 0, 1, 2 and so on.
pub proof fn lemma_consecutive_counters(s: StoreView, application: Seq<u8>, i: nat)
    requires
        s.counter_readable(application),
        s.counter_value(application) + i < u32::MAX,
    ensures
        s.after_counters(application, i).counter_readable(application),
        s.after_counters(application, i).counter_value(application) == s.counter_value(
            application,
        ) + i,
        s.after_counters(application, i).next_counter(application).is_ok(),
        s.after_counters(application, i).next_counter(application).unwrap().0 == s.counter_value(
            application,
        ) + i,
    decreases i,
{
    if i > 0 {
        let j = (i - 1) as nat;
        lemma_consecutive_counters(s, application, j);
        let c = s.counter_value(application) + j;
        let before = s.after_counters(application, j);
        let after = s.after_counters(application, i);
        assert(after == before.after_next_counter(application));
        assert(after == before.put_counter(application, decimal(c + 1)));
        lemma_counter_round_trip((c + 1) as u32);
    }
}

/// For an application without a counter record, consecutive
/// read-and-increments return 0, 1, 2 and so on: the call that follows `i`
/// earlier ones returns `i`, as long as that is below the largest counter.
pub proof fn lemma_fresh_counters(s: StoreView, application: Seq<u8>, i: nat)
    requires
        !s.counters.contains_key(application),
        i < u32::MAX,
    ensures
        s.after_counters(application, i).next_counter(application).is_ok(),
        s.after_counters(application, i).next_counter(application).unwrap().0 == i,
{
    lemma_consecutive_counters(s, application, i);
}

/// No operation lowers a counter.
pub proof fn lemma_op_keeps_counter(s: StoreView, op: StoreOp, application: Seq<u8>)
    ensures
        s.apply(op).counter_value(application) >= s.counter_value(application),
{
    match op {
        StoreOp::NextCounter(a) => {
            match s.next_counter(a) {
                Ok((n, next)) => {
                    lemma_counter_round_trip((n + 1) as u32);
                },
                Err(_) => {},
            }
        },
        _ => {},
    }
}

/// Over any sequence of operations the counter of an application never
/// decreases. The store's value is what is persisted, so this holds across
/// a restart that restores the records as they were written.
pub proof fn lemma_counter_never_decreases(s: StoreView, ops: Seq<StoreOp>, application: Seq<u8>)
    ensures
        s.apply_all(ops).counter_value(application) >= s.counter_value(application),
    decreases ops.len(),
{
    if ops.len() > 0 {
        lemma_counter_never_decreases(s, ops.drop_last(), application);
        lemma_op_keeps_counter(s.apply_all(ops.drop_last()), ops.last(), application);
    }
}

/// The records of one application.
struct Entry {
    application: [u8; 32],
    key: Option<ApplicationKey>,
    counter: Option<Vec<u8>>,
}

/// Whether `entries` hold anything for `application`.
spec fn has_entry(entries: Seq<Entry>, application: Seq<u8>) -> bool {
    exists|i: int| 0 <= i < entries.len() && (#[trigger] entries[i]).application@ == application
}

/// Where in `entries` the records of `application` are.
spec fn slot(entries: Seq<Entry>, application: Seq<u8>) -> int {
    choose|i: int| 0 <= i < entries.len() && (#[trigger] entries[i]).application@ == application
}

/// No application has two entries, and each key lies with its application.
spec fn entries_wf(entries: Seq<Entry>) -> bool {
    &&& forall|i: int, j: int|
        0 <= i < j < entries.len() ==> (#[trigger] entries[i]).application@ != (
        #[trigger] entries[j]).application@
    &&& forall|i: int|
        0 <= i < entries.len() && (#[trigger] entries[i]).key.is_some()
            ==> entries[i].key.unwrap().application@ == entries[i].application@
}

/// The keys that `entries` hold.
spec fn keys_of(entries: Seq<Entry>) -> Map<Seq<u8>, KeyView> {
    Map::new(
        |a: Seq<u8>| has_entry(entries, a) && entries[slot(entries, a)].key.is_some(),
        |a: Seq<u8>| entries[slot(entries, a)].key.unwrap()@,
    )
}

/// The counter records that `entries` hold.
spec fn counters_of(entries: Seq<Entry>) -> Map<Seq<u8>, Seq<u8>> {
    Map::new(
        |a: Seq<u8>| has_entry(entries, a) && entries[slot(entries, a)].counter.is_some(),
        |a: Seq<u8>| entries[slot(entries, a)].counter.unwrap()@,
    )
}

/// In well-formed entries the place of an application is the only index
/// that holds it.
proof fn lemma_slot(entries: Seq<Entry>, i: int)
    requires
        entries_wf(entries),
        0 <= i < entries.len(),
    ensures
        has_entry(entries, entries[i].application@),
        slot(entries, entries[i].application@) == i,
{
    let a = entries[i].application@;
    let j = slot(entries, a);
    assert(0 <= j < entries.len() && entries[j].application@ == a);
    if j < i {
        assert(entries[j].application@ != entries[i].application@);
    } else if i < j {
        assert(entries[i].application@ != entries[j].application@);
    }
}

/// Replacing the entry of an application changes what the store holds for
/// that application and for no other.
proof fn lemma_replace(before: Seq<Entry>, i: int, e: Entry)
    requires
        entries_wf(before),
        0 <= i < before.len(),
        e.application@ == before[i].application@,
        e.key.is_some() ==> e.key.unwrap().application@ == e.application@,
    ensures
        entries_wf(before.update(i, e)),
        forall|a: Seq<u8>| has_entry(before.update(i, e), a) == has_entry(before, a),
        forall|a: Seq<u8>| #[trigger]
            has_entry(before, a) ==> slot(before.update(i, e), a) == slot(before, a),
{
    let after = before.update(i, e);
    assert forall|j: int, k: int| 0 <= j < k < after.len() implies (#[trigger] after[j]).application@
        != (#[trigger] after[k]).application@ by {
        assert(after[j].application@ == before[j].application@);
        assert(after[k].application@ == before[k].application@);
    }
    assert(entries_wf(after));
    assert forall|a: Seq<u8>| has_entry(after, a) == has_entry(before, a) by {
        if has_entry(after, a) {
            let j = slot(after, a);
            assert(before[j].application@ == a);
        }
        if has_entry(before, a) {
            let j = slot(before, a);
            assert(after[j].application@ == a);
        }
    }
    assert forall|a: Seq<u8>| #[trigger] has_entry(before, a) implies slot(after, a) == slot(
        before,
        a,
    ) by {
        let j = slot(before, a);
        assert(after[j].application@ == a);
        lemma_slot(before, j);
        lemma_slot(after, j);
    }
}

/// Adding an entry for an application that had none changes what the store
/// holds for that application and for no other.
proof fn lemma_append(before: Seq<Entry>, e: Entry)
    requires
        entries_wf(before),
        !has_entry(before, e.application@),
        e.key.is_some() ==> e.key.unwrap().application@ == e.application@,
    ensures
        entries_wf(before.push(e)),
        has_entry(before.push(e), e.application@),
        slot(before.push(e), e.application@) == before.len(),
        forall|a: Seq<u8>|
            a != e.application@ ==> has_entry(before.push(e), a) == has_entry(before, a),
        forall|a: Seq<u8>| #[trigger]
            has_entry(before, a) ==> slot(before.push(e), a) == slot(before, a),
{
    let after = before.push(e);
    assert forall|j: int, k: int| 0 <= j < k < after.len() implies (#[trigger] after[j]).application@
        != (#[trigger] after[k]).application@ by {
        if k == before.len() {
            assert(after[j] == before[j]);
            if before[j].application@ == e.application@ {
                assert(has_entry(before, e.application@));
            }
        } else {
            assert(after[j] == before[j]);
            assert(after[k] == before[k]);
        }
    }
    assert forall|j: int| 0 <= j < after.len() && (#[trigger] after[j]).key.is_some() implies
        after[j].key.unwrap().application@ == after[j].application@ by {
        if j < before.len() {
            assert(after[j] == before[j]);
        }
    }
    assert(entries_wf(after));
    assert(after[before.len() as int] == e);
    lemma_slot(after, before.len() as int);
    assert forall|a: Seq<u8>| a != e.application@ implies has_entry(after, a) == has_entry(
        before,
        a,
    ) by {
        if has_entry(after, a) {
            let j = slot(after, a);
            assert(j < before.len());
            assert(before[j].application@ == a);
        }
        if has_entry(before, a) {
            let j = slot(before, a);
            assert(after[j].application@ == a);
        }
    }
    assert forall|a: Seq<u8>| #[trigger] has_entry(before, a) implies slot(after, a) == slot(
        before,
        a,
    ) by {
        let j = slot(before, a);
        assert(after[j] == before[j]);
        lemma_slot(before, j);
        lemma_slot(after, j);
    }
}

/// A file-backed store of application keys and usage counters.
pub struct FileSecretStore {
    /// The directory that holds the records.
    storage_path: String,
    entries: Vec<Entry>,
}

impl View for FileSecretStore {
    type V = StoreView;

    closed spec fn view(&self) -> StoreView {
        StoreView { keys: keys_of(self.entries@), counters: counters_of(self.entries@) }
    }
}

impl FileSecretStore {
    /// The store's invariant: no application has two entries, and each key
    /// is filed under its own application.
    pub closed spec fn wf(&self) -> bool {
        entries_wf(self.entries@)
    }

    /// The directory that holds the records.
    pub closed spec fn path(&self) -> Seq<char> {
        self.storage_path@
    }

    /// The directory that holds the records.
    pub fn storage_path(&self) -> (r: &str)
        ensures
            r@ == self.path(),
    {
        self.storage_path.as_str()
    }

    /// A store over the directory `storage_path`, with no record restored
    /// yet.
    pub fn new(storage_path: String) -> (r: Self)
        ensures
            r.wf(),
            r.path() == storage_path@,
            r@.keys == Map::<Seq<u8>, KeyView>::empty(),
            r@.counters == Map::<Seq<u8>, Seq<u8>>::empty(),
    {
        let r = FileSecretStore { storage_path, entries: Vec::new() };
        proof {
            assert(r@.keys =~= Map::<Seq<u8>, KeyView>::empty());
            assert(r@.counters =~= Map::<Seq<u8>, Seq<u8>>::empty());
        }
        r
    }

    /// Where the records of `application` are, if it has any.
    fn find(&self, application: &[u8; 32]) -> (r: Option<usize>)
        requires
            self.wf(),
        ensures
            match r {
                Some(i) => i < self.entries@.len() && self.entries@[i as int].application@
                    == application@ && has_entry(self.entries@, application@) && slot(
                    self.entries@,
                    application@,
                ) == i,
                None => !has_entry(self.entries@, application@),
            },
    {
        let mut i: usize = 0;
        while i < self.entries.len()
            invariant
                0 <= i <= self.entries@.len(),
                self.wf(),
                forall|j: int| 0 <= j < i ==> (#[trigger] self.entries@[j]).application@ != application@,
            decreases self.entries@.len() - i,
        {
            if same_application(&self.entries[i].application, application) {
                proof {
                    lemma_slot(self.entries@, i as int);
                }
                return Some(i);
            }
            i += 1;
        }
        None
    }

    /// Writes `key` under its application, in place of any key that the
    /// application had. Counters are left alone.
    pub fn add_application_key(&mut self, key: ApplicationKey)
        requires
            old(self).wf(),
        ensures
            final(self).wf(),
            final(self).path() == old(self).path(),
            final(self)@ == old(self)@.put_key(key@),
    {
        let application = key.application;
        let ghost before = self.entries@;
        let ghost k = key@;
        match self.find(&application) {
            Some(i) => {
                let counter = match &self.entries[i].counter {
                    Some(text) => Some(slice_to_vec(text.as_slice())),
                    None => None,
                };
                let e = Entry { application, key: Some(key), counter };
                proof {
                    lemma_replace(before, i as int, e);
                }
                self.entries.set(i, e);
            },
            None => {
                let e = Entry { application, key: Some(key), counter: None };
                proof {
                    lemma_append(before, e);
                }
                self.entries.push(e);
            },
        }
        proof {
            assert(final(self)@.keys =~= old(self)@.keys.insert(k.application, k));
            assert(final(self)@.counters =~= old(self)@.counters);
        }
    }

    /// The key of `application`, if the store has one and its handle equals
    /// `handle`; the handles are compared in constant time. The caller gets
    /// a copy.
    pub fn retrieve_application_key(&self, application: &[u8; 32], handle: &[u8]) -> (r: Option<
        ApplicationKey,
    >)
        requires
            self.wf(),
        ensures
            match self@.get_key(application@, handle@) {
                Some(k) => r.is_some() && r.unwrap()@ == k,
                None => r.is_none(),
            },
    {
        match self.find(application) {
            Some(i) => match &self.entries[i].key {
                Some(key) => {
                    if key.matches(application, handle) {
                        Some(key.clone())
                    } else {
                        None
                    }
                },
                None => None,
            },
            None => None,
        }
    }

    /// The counter record of `application` as it is to be persisted, if
    /// there is one.
    pub fn counter_record(&self, application: &[u8; 32]) -> (r: Option<Vec<u8>>)
        requires
            self.wf(),
        ensures
            match self@.counter_record(application@) {
                Some(text) => r.is_some() && r.unwrap()@ == text,
                None => r.is_none(),
            },
    {
        match self.find(application) {
            Some(i) => match &self.entries[i].counter {
                Some(text) => Some(slice_to_vec(text.as_slice())),
                None => None,
            },
            None => None,
        }
    }

    /// Puts the counter record of `application` into the image as it was
    /// found in the directory, damaged or not.
    pub fn restore_counter(&mut self, application: &[u8; 32], text: Vec<u8>)
        requires
            old(self).wf(),
        ensures
            final(self).wf(),
            final(self).path() == old(self).path(),
            final(self)@ == old(self)@.put_counter(application@, text@),
    {
        self.set_counter(application, text);
    }

    /// Replaces the counter record of `application`.
    fn set_counter(&mut self, application: &[u8; 32], text: Vec<u8>)
        requires
            old(self).wf(),
        ensures
            final(self).wf(),
            final(self).path() == old(self).path(),
            final(self)@ == old(self)@.put_counter(application@, text@),
    {
        let ghost before = self.entries@;
        let ghost t = text@;
        match self.find(application) {
            Some(i) => {
                let key = match &self.entries[i].key {
                    Some(k) => Some(k.clone()),
                    None => None,
                };
                let e = Entry { application: *application, key, counter: Some(text) };
                proof {
                    lemma_replace(before, i as int, e);
                }
                self.entries.set(i, e);
            },
            None => {
                let e = Entry { application: *application, key: None, counter: Some(text) };
                proof {
                    lemma_append(before, e);
                }
                self.entries.push(e);
            },
        }
        proof {
            assert(final(self)@.keys =~= old(self)@.keys);
            assert(final(self)@.counters =~= old(self)@.counters.insert(application@, t));
        }
    }

    /// Reads the counter of `application`, zero where it has none, stores
    /// the counter plus one, and returns the counter that it read. The
    /// counter belongs to the application, whatever the handle. A damaged
    /// record and a counter at its largest value are errors, and leave the
    /// store as it is.
    pub fn get_and_increment_counter(&mut self, application: &[u8; 32], handle: &[u8]) -> (r:
        Result<u32, StoreError>)
        requires
            old(self).wf(),
        ensures
            final(self).wf(),
            final(self).path() == old(self).path(),
            match old(self)@.next_counter(application@) {
                Ok((n, next)) => r == Ok::<u32, StoreError>(n) && final(self)@ == next,
                Err(e) => r == Err::<u32, StoreError>(e) && final(self)@ == old(self)@,
            },
            final(self)@.counter_value(application@) >= old(self)@.counter_value(application@),
    {
        let record = self.counter_record(application);
        let step = match &record {
            Some(text) => advance(Some(text.as_slice())),
            None => advance(None),
        };
        match step {
            Ok((n, text)) => {
                proof {
                    lemma_counter_round_trip((n + 1) as u32);
                }
                self.set_counter(application, text);
                Ok(n)
            },
            Err(e) => Err(e),
        }
    }
}

} // verus!
