//! The answer cache: answers obtained upstream, keyed by question and kept
//! until their expiry time. Times are clock readings in milliseconds.

use vstd::prelude::*;
use crate::message::{
    AnswerView, DnsAnswer, DnsMessage, DnsName, DnsQuestion, answers_view, lower_labels,
};

verus! {

/// What a cache key is: the lower-cased name, the type and the class.
pub struct KeyView {
    pub name: Seq<Seq<u8>>,
    pub qtype: u16,
    pub qclass: u16,
}

/// What a cache entry is.
pub struct EntryView {
    pub key: KeyView,
    pub answers: Seq<AnswerView>,
    pub ttl: u32,
    pub expiry: u64,
}

/// A question key. The name is kept lower-cased, so that keys compare
/// without regard to the case of letters.
#[derive(Debug)]
pub struct CacheKey {
    qname: DnsName,
    qtype: u16,
    qclass: u16,
}

#[derive(Debug)]
pub struct CacheEntry {
    pub key: CacheKey,
    pub answers: Vec<DnsAnswer>,
    ttl: u32,
    expiry: u64,
}

impl View for CacheKey {
    type V = KeyView;

    closed spec fn view(&self) -> KeyView {
        KeyView { name: self.qname@, qtype: self.qtype, qclass: self.qclass }
    }
}

impl View for CacheEntry {
    type V = EntryView;

    closed spec fn view(&self) -> EntryView {
        EntryView {
            key: self.key@,
            answers: answers_view(self.answers@),
            ttl: self.ttl,
            expiry: self.expiry,
        }
    }
}

/// The key of a question about `name`.
pub open spec fn key_of(name: Seq<Seq<u8>>, qtype: u16, qclass: u16) -> KeyView {
    KeyView { name: lower_labels(name), qtype: qtype, qclass: qclass }
}

impl CacheKey {
    pub fn new(qname: String, qtype: u16, qclass: u16) -> (r: CacheKey)
        ensures
            r@ == key_of(
                crate::message::labels_of_text(vstd::utf8::encode_utf8(qname@)),
                qtype,
                qclass,
            ),
    {
        let name = DnsName::from_string(qname);
        CacheKey { qname: name.to_lowercase(), qtype: qtype, qclass: qclass }
    }

    pub fn from(query: &DnsQuestion) -> (r: CacheKey)
        ensures
            r@ == key_of(query.qname@, query.qtype, query.qclass),
    {
        CacheKey { qname: query.qname.to_lowercase(), qtype: query.qtype, qclass: query.qclass }
    }

    pub fn copy(&self) -> (r: CacheKey)
        ensures
            r@ == self@,
    {
        CacheKey { qname: self.qname.copy(), qtype: self.qtype, qclass: self.qclass }
    }

    /// Whether the two keys are equal.
    pub fn matches(&self, other: &CacheKey) -> (r: bool)
        ensures
            r == (self@ == other@),
    {
        self.qtype == other.qtype && self.qclass == other.qclass && self.qname.same_as(
            &other.qname,
        )
    }
}

/// Milliseconds in a second.
pub const MILLIS_PER_SECOND: u64 = 1000;

/// The whole seconds, rounded up, from `now` until `expiry`; zero once it
/// has passed.
pub open spec fn remaining_secs(expiry: u64, now: u64) -> u64 {
    if expiry <= now {
        0
    } else {
        ((expiry - now - 1) / 1000 + 1) as u64
    }
}

/// The entry for an upstream reply `m` received at `now`: keyed by its
/// first answer, holding all its answers, living as long as the first
/// answer's TTL in seconds.
pub open spec fn entry_of_reply(m: crate::message::MessageView, now: u64) -> EntryView {
    let a = m.answers[0];
    EntryView {
        key: key_of(a.name, a.atype, a.aclass),
        answers: m.answers,
        ttl: a.ttl,
        expiry: if now + a.ttl * 1000 <= u64::MAX {
            (now + a.ttl * 1000) as u64
        } else {
            u64::MAX
        },
    }
}

impl CacheEntry {
    /// An entry that lives `lifetime` milliseconds from `now`, saturating at
    /// the end of the clock.
    pub fn with_lifetime(key: CacheKey, answers: Vec<DnsAnswer>, ttl: u32, lifetime: u64, now: u64) -> (r: CacheEntry)
        ensures
            r@ == (EntryView {
                key: key@,
                answers: answers_view(answers@),
                ttl: ttl,
                expiry: if now + lifetime <= u64::MAX {
                    (now + lifetime) as u64
                } else {
                    u64::MAX
                },
            }),
    {
        let expiry = now.saturating_add(lifetime);
        CacheEntry { key: key, answers: answers, ttl: ttl, expiry: expiry }
    }

    /// An entry whose answers live `ttl` seconds from `now`.
    pub fn new_at(key: CacheKey, answers: Vec<DnsAnswer>, ttl: u32, now: u64) -> (r: CacheEntry)
        ensures
            r@ == (EntryView {
                key: key@,
                answers: answers_view(answers@),
                ttl: ttl,
                expiry: if now + ttl * 1000 <= u64::MAX {
                    (now + ttl * 1000) as u64
                } else {
                    u64::MAX
                },
            }),
    {
        Self::with_lifetime(key, answers, ttl, ttl as u64 * MILLIS_PER_SECOND, now)
    }

    /// An entry whose answers live `ttl` seconds from the current clock
    /// reading.
    pub fn new(key: CacheKey, answers: Vec<DnsAnswer>, ttl: u32) -> (r: CacheEntry)
        ensures
            r@.key == key@,
            r@.answers == answers_view(answers@),
            r@.ttl == ttl,
    {
        Self::new_at(key, answers, ttl, crate::clock::now_ms())
    }

    /// The entry for an upstream reply at `now`: keyed by its first answer,
    /// holding all its answers, living as long as the first answer's TTL.
    /// A reply without answers gives no entry.
    pub fn from_at(msg: &DnsMessage, now: u64) -> (r: Option<CacheEntry>)
        ensures
            msg.answers@.len() == 0 <==> r is None,
            match r {
                Some(e) => e@ == entry_of_reply(msg@, now),
                None => true,
            },
    {
        match msg.first_answer() {
            Some(answer) => {
                let key = CacheKey {
                    qname: answer.name.to_lowercase(),
                    qtype: answer.atype,
                    qclass: answer.aclass,
                };
                let answers = copy_answers(&msg.answers);
                let e = CacheEntry::new_at(key, answers, answer.ttl, now);
                assert(answer@ == msg@.answers[0]);
                assert(e@ == entry_of_reply(msg@, now));
                Some(e)
            },
            None => None,
        }
    }

    /// As `from_at`, at the current clock reading.
    pub fn from(msg: &DnsMessage) -> (r: Option<CacheEntry>)
        ensures
            msg.answers@.len() == 0 <==> r is None,
    {
        Self::from_at(msg, crate::clock::now_ms())
    }

    /// A copy of the entry's key.
    pub fn key_copy(&self) -> (r: CacheKey)
        ensures
            r@ == self@.key,
    {
        self.key.copy()
    }

    /// The cached answers.
    pub fn answer_list(&self) -> (r: &Vec<DnsAnswer>)
        ensures
            answers_view(r@) == self@.answers,
    {
        &self.answers
    }

    /// When the entry expires.
    pub fn expiry(&self) -> (r: u64)
        ensures
            r == self@.expiry,
    {
        self.expiry
    }

    pub fn ttl(&self) -> (r: u32)
        ensures
            r == self@.ttl,
    {
        self.ttl
    }

    /// Whole seconds, rounded up, until the entry expires.
    pub fn calc_ttl(&self, now: u64) -> (r: u64)
        ensures
            r == remaining_secs(self@.expiry, now),
    {
        if self.expiry <= now {
            0
        } else {
            (self.expiry - now - 1) / 1000 + 1
        }
    }
}

/// Independent copies of the answers.
pub fn copy_answers(answers: &Vec<DnsAnswer>) -> (r: Vec<DnsAnswer>)
    ensures
        answers_view(r@) == answers_view(answers@),
{
    let mut out: Vec<DnsAnswer> = Vec::new();
    let mut i: usize = 0;
    while i < answers.len()
        invariant
            i <= answers@.len(),
            answers_view(out@) =~= answers_view(answers@).subrange(0, i as int),
        decreases answers@.len() - i,
    {
        let a = answers[i].copy();
        let ghost prev = answers_view(out@);
        out.push(a);
        assert(answers_view(out@) =~= prev.push(answers@[i as int]@));
        i = i + 1;
    }
    assert(answers_view(answers@).subrange(0, answers@.len() as int) =~= answers_view(answers@));
    out
}

/// The live entry for `k` at `now`, if there is one.
pub open spec fn found(s: Seq<EntryView>, k: KeyView, now: u64) -> Option<EntryView> {
    if exists|i: int| 0 <= i < s.len() && s[i].key == k && s[i].expiry > now {
        Some(
            s[choose|i: int| 0 <= i < s.len() && s[i].key == k && s[i].expiry > now],
        )
    } else {
        None
    }
}

/// `new` is `old` with the entries expired at `now` dropped, any entry for
/// `e`'s key replaced, and `e` added.
pub open spec fn upserted(old: Seq<EntryView>, new: Seq<EntryView>, e: EntryView, now: u64) -> bool {
    &&& new.contains(e)
    &&& forall|x: EntryView|
        x.key != e.key ==> (#[trigger] new.contains(x) <==> old.contains(x) && x.expiry > now)
    &&& forall|i: int| 0 <= i < new.len() && #[trigger] new[i].key == e.key ==> new[i] == e
}

/// The entry `v` filed under `key`.
pub open spec fn stored(key: KeyView, v: EntryView) -> EntryView {
    EntryView { key: key, ..v }
}

/// How many of the entries have expired at `now`.
pub open spec fn count_expired(s: Seq<EntryView>, now: u64) -> nat
    decreases s.len(),
{
    if s.len() == 0 {
        0
    } else {
        count_expired(s.drop_last(), now) + if s.last().expiry <= now {
            1nat
        } else {
            0nat
        }
    }
}

/// Entries in ascending expiry order, one per key.
pub open spec fn cache_wf(s: Seq<EntryView>) -> bool {
    &&& forall|i: int, j: int| 0 <= i < j < s.len() ==> s[i].expiry <= s[j].expiry
    &&& forall|i: int, j: int| 0 <= i < j < s.len() ==> s[i].key != s[j].key
}

pub struct Cache {
    entries: Vec<CacheEntry>,
}

impl View for Cache {
    type V = Seq<EntryView>;

    closed spec fn view(&self) -> Seq<EntryView> {
        self.entries@.map_values(|e: CacheEntry| e@)
    }
}

proof fn lemma_count_expired_prefix(s: Seq<EntryView>, now: u64, r: int)
    requires
        0 <= r <= s.len(),
        forall|i: int| 0 <= i < r ==> s[i].expiry <= now,
        forall|i: int| r <= i < s.len() ==> s[i].expiry > now,
    ensures
        count_expired(s, now) == r,
    decreases s.len(),
{
    if s.len() > 0 {
        if r == s.len() {
            lemma_count_expired_prefix(s.drop_last(), now, r - 1);
        } else {
            lemma_count_expired_prefix(s.drop_last(), now, r);
        }
    }
}

impl Cache {
    pub open spec fn wf(&self) -> bool {
        cache_wf(self@)
    }

    pub fn new() -> (r: Cache)
        ensures
            r@ == Seq::<EntryView>::empty(),
            r.wf(),
    {
        let r = Cache { entries: Vec::new() };
        assert(r@ =~= Seq::<EntryView>::empty());
        r
    }

    pub fn len(&self) -> (r: usize)
        ensures
            r == self@.len(),
    {
        self.entries.len()
    }

    /// The live entry for `key` at `now`.
    pub fn get_at(&self, key: &CacheKey, now: u64) -> (r: Option<&CacheEntry>)
        requires
            self.wf(),
        ensures
            match r {
                Some(x) => found(self@, key@, now) == Some(x@),
                None => found(self@, key@, now) is None,
            },
    {
        let mut i: usize = 0;
        while i < self.entries.len()
            invariant
                self.wf(),
                i <= self@.len(),
                self@.len() == self.entries@.len(),
                forall|j: int| 0 <= j < i ==> !(self@[j].key == key@ && self@[j].expiry > now),
            decreases self@.len() - i,
        {
            let e = &self.entries[i];
            assert(e@ == self@[i as int]);
            if e.key.matches(key) {
                if e.expiry > now {
                    let ghost c = choose|j: int|
                        0 <= j < self@.len() && self@[j].key == key@ && self@[j].expiry > now;
                    assert(c == i) by {
                        if c < i {
                            assert(self@[c].key != self@[i as int].key);
                        } else if c > i {
                            assert(self@[i as int].key != self@[c].key);
                        }
                    }
                    return Some(e);
                } else {
                    assert forall|j: int| 0 <= j < self@.len() implies !(self@[j].key == key@
                        && self@[j].expiry > now) by {
                        if j < i {
                        } else if j > i {
                            assert(self@[i as int].key != self@[j].key);
                        }
                    }
                    return None;
                }
            }
            i = i + 1;
        }
        None
    }

    /// The live entry for `key` at the current clock reading.
    pub fn get(&self, key: &CacheKey) -> (r: Option<&CacheEntry>)
        requires
            self.wf(),
        ensures
            exists|t: u64|
                match r {
                    Some(x) => found(self@, key@, t) == Some(x@),
                    None => found(self@, key@, t) is None,
                },
    {
        let now = crate::clock::now_ms();
        self.get_at(key, now)
    }

    /// Drops every entry expired at `now` and returns how many there were.
    pub fn remove_expired_at(&mut self, now: u64) -> (r: usize)
        requires
            old(self).wf(),
        ensures
            final(self).wf(),
            r == count_expired(old(self)@, now),
            r <= old(self)@.len(),
            final(self)@ == old(self)@.subrange(r as int, old(self)@.len() as int),
            forall|i: int| 0 <= i < r ==> old(self)@[i].expiry <= now,
            forall|i: int| 0 <= i < final(self)@.len() ==> final(self)@[i].expiry > now,
    {
        let mut r: usize = 0;
        while r < self.entries.len()
            invariant
                self.entries == old(self).entries,
                r <= self@.len(),
                self@.len() == self.entries@.len(),
                forall|i: int| 0 <= i < r ==> self@[i].expiry <= now,
            ensures
                r <= self@.len(),
                r == self@.len() || self@[r as int].expiry > now,
                forall|i: int| 0 <= i < r ==> self@[i].expiry <= now,
            decreases self@.len() - r,
        {
            assert(self@[r as int] == self.entries@[r as int]@);
            if self.entries[r].expiry > now {
                break;
            }
            r = r + 1;
        }
        assert forall|i: int| r <= i < self@.len() implies self@[i].expiry > now by {
            if r < i {
                assert(self@[r as int].expiry <= self@[i].expiry);
            }
        }
        proof {
            lemma_count_expired_prefix(self@, now, r as int);
        }
        let rest = self.entries.split_off(r);
        self.entries = rest;
        assert(self@ =~= old(self)@.subrange(r as int, old(self)@.len() as int));
        r
    }

    /// As `remove_expired_at`, at the current clock reading.
    pub fn remove_expired(&mut self) -> (r: usize)
        requires
            old(self).wf(),
        ensures
            final(self).wf(),
            exists|t: u64|
                r == count_expired(old(self)@, t) && final(self)@ == old(self)@.subrange(
                    r as int,
                    old(self)@.len() as int,
                ) && forall|i: int|
                    0 <= i < final(self)@.len() ==> final(self)@[i].expiry > t,
    {
        let now = crate::clock::now_ms();
        self.remove_expired_at(now)
    }

    /// Removes the entry for `key`, if there is one.
    fn drop_key(&mut self, key: &CacheKey)
        requires
            old(self).wf(),
        ensures
            final(self).wf(),
            forall|j: int| 0 <= j < final(self)@.len() ==> final(self)@[j].key != key@,
            forall|x: EntryView|
                x.key != key@ ==> (#[trigger] final(self)@.contains(x) <==> old(self)@.contains(x)),
    {
        let ghost live = self@;
        let mut i: usize = 0;
        while i < self.entries.len()
            invariant
                self@ == live,
                cache_wf(live),
                i <= self@.len(),
                self@.len() == self.entries@.len(),
                forall|j: int| 0 <= j < i ==> self@[j].key != key@,
            ensures
                i <= self@.len(),
                i < self@.len() ==> self@[i as int].key == key@,
                forall|j: int| 0 <= j < i ==> self@[j].key != key@,
            decreases self@.len() - i,
        {
            assert(self@[i as int] == self.entries@[i as int]@);
            if self.entries[i].key.matches(key) {
                break;
            }
            i = i + 1;
        }
        if i < self.entries.len() {
            let ghost before = self@;
            self.entries.remove(i);
            assert(self@ =~= before.remove(i as int));
            let ghost rest = self@;
            assert forall|j: int| 0 <= j < rest.len() implies rest[j].key != key@ by {
                if j < i {
                    assert(rest[j] == live[j]);
                } else {
                    assert(rest[j] == live[j + 1]);
                    assert(live[i as int].key != live[j + 1].key);
                }
            }
            assert forall|a: int, b: int| 0 <= a < b < rest.len() implies rest[a].expiry
                <= rest[b].expiry && rest[a].key != rest[b].key by {
                let a2 = if a < i {
                    a
                } else {
                    a + 1
                };
                let b2 = if b < i {
                    b
                } else {
                    b + 1
                };
                assert(rest[a] == live[a2]);
                assert(rest[b] == live[b2]);
            }
            assert forall|x: EntryView| x.key != key@ implies (#[trigger] rest.contains(x)
                <==> live.contains(x)) by {
                if rest.contains(x) {
                    let j = choose|j: int| 0 <= j < rest.len() && rest[j] == x;
                    if j < i {
                        assert(live[j] == x);
                    } else {
                        assert(live[j + 1] == x);
                    }
                }
                if live.contains(x) {
                    let j = choose|j: int| 0 <= j < live.len() && live[j] == x;
                    assert(j != i);
                    if j < i {
                        assert(rest[j] == x);
                    } else {
                        assert(rest[j - 1] == x);
                    }
                }
            }
        }
    }

    /// Adds an entry for a key the cache does not hold, in expiry order,
    /// after the entries that expire no later.
    fn insert_sorted(&mut self, entry: CacheEntry)
        requires
            old(self).wf(),
            forall|j: int| 0 <= j < old(self)@.len() ==> old(self)@[j].key != entry@.key,
        ensures
            final(self).wf(),
            final(self)@.contains(entry@),
            forall|x: EntryView|
                #[trigger] final(self)@.contains(x) <==> old(self)@.contains(x) || x == entry@,
    {
        let ghost rest = self@;
        let ghost e = entry@;
        let mut p: usize = 0;
        while p < self.entries.len()
            invariant
                self@ == rest,
                cache_wf(rest),
                p <= self@.len(),
                self@.len() == self.entries@.len(),
                entry@ == e,
                forall|j: int| 0 <= j < p ==> self@[j].expiry <= e.expiry,
            ensures
                p <= self@.len(),
                p < self@.len() ==> self@[p as int].expiry > e.expiry,
                forall|j: int| 0 <= j < p ==> self@[j].expiry <= e.expiry,
            decreases self@.len() - p,
        {
            assert(self@[p as int] == self.entries@[p as int]@);
            if self.entries[p].expiry > entry.expiry {
                break;
            }
            p = p + 1;
        }
        assert forall|j: int| p <= j < rest.len() implies rest[j].expiry > e.expiry by {
            if p < j {
                assert(rest[p as int].expiry <= rest[j].expiry);
            }
        }
        self.entries.insert(p, entry);
        let ghost fin = self@;
        assert(fin =~= rest.insert(p as int, e));
        assert(fin[p as int] == e);
        assert forall|a: int, b: int| 0 <= a < b < fin.len() implies fin[a].expiry
            <= fin[b].expiry && fin[a].key != fin[b].key by {
            if a < p && b < p {
                assert(fin[a] == rest[a] && fin[b] == rest[b]);
            } else if a < p && b == p {
                assert(fin[a] == rest[a]);
            } else if a < p {
                assert(fin[a] == rest[a] && fin[b] == rest[b - 1]);
            } else if a == p {
                assert(fin[b] == rest[b - 1]);
            } else {
                assert(fin[a] == rest[a - 1] && fin[b] == rest[b - 1]);
            }
        }
        assert(fin.contains(e));
        assert forall|x: EntryView| #[trigger] fin.contains(x) <==> rest.contains(x) || x == e by {
            if fin.contains(x) && x != e {
                let j = choose|j: int| 0 <= j < fin.len() && fin[j] == x;
                if j < p {
                    assert(rest[j] == x);
                } else {
                    assert(rest[j - 1] == x);
                }
            }
            if rest.contains(x) {
                let j = choose|j: int| 0 <= j < rest.len() && rest[j] == x;
                if j < p {
                    assert(fin[j] == x);
                } else {
                    assert(fin[j + 1] == x);
                }
            }
        }
    }

    /// Stores `val` under `key`, replacing what `key` held, after dropping
    /// every entry expired at `now`.
    pub fn upsert_at(&mut self, key: CacheKey, val: CacheEntry, now: u64)
        requires
            old(self).wf(),
        ensures
            final(self).wf(),
            upserted(old(self)@, final(self)@, stored(key@, val@), now),
    {
        let ghost orig = self@;
        let r = self.remove_expired_at(now);
        let ghost live = self@;
        assert forall|x: EntryView| #[trigger] live.contains(x) <==> orig.contains(x) && x.expiry
            > now by {
            if live.contains(x) {
                let k = choose|k: int| 0 <= k < live.len() && live[k] == x;
                assert(orig[k + r] == x);
            }
            if orig.contains(x) && x.expiry > now {
                let k = choose|k: int| 0 <= k < orig.len() && orig[k] == x;
                assert(k >= r);
                assert(live[k - r] == x);
            }
        }
        let mut entry = val;
        entry.key = key;
        assert(entry@ == stored(key@, val@));
        self.drop_key(&entry.key);
        self.insert_sorted(entry);
        let ghost fin = self@;
        let ghost e = stored(key@, val@);
        assert forall|j: int| 0 <= j < fin.len() && #[trigger] fin[j].key == e.key implies fin[j]
            == e by {
            assert(fin.contains(fin[j]));
        }
    }

    /// As `upsert_at`, at the current clock reading.
    pub fn upsert(&mut self, key: CacheKey, val: CacheEntry)
        requires
            old(self).wf(),
        ensures
            final(self).wf(),
            exists|t: u64| #[trigger] upserted(old(self)@, final(self)@, stored(key@, val@), t),
    {
        let now = crate::clock::now_ms();
        self.upsert_at(key, val, now);
    }
}

/// Right after an entry is stored it is what a lookup of its key finds,
/// until its expiry time; from then on the lookup finds nothing.
pub proof fn lemma_upsert_then_get(
    old: Seq<EntryView>,
    new: Seq<EntryView>,
    e: EntryView,
    now: u64,
    later: u64,
)
    requires
        cache_wf(new),
        upserted(old, new, e, now),
    ensures
        e.expiry > now ==> found(new, e.key, now) == Some(e),
        later >= e.expiry ==> found(new, e.key, later) is None,
{
    let i = choose|i: int| 0 <= i < new.len() && new[i] == e;
    if e.expiry > now {
        assert(new[i].key == e.key && new[i].expiry > now);
        let c = choose|c: int| 0 <= c < new.len() && new[c].key == e.key && new[c].expiry > now;
        assert(new[c] == e);
    }
    if later >= e.expiry {
        assert forall|j: int| 0 <= j < new.len() && new[j].key == e.key implies new[j].expiry
            <= later by {
            assert(new[j] == e);
        }
    }
}

} // verus!
