//! The authority table: records this server answers for directly.

use vstd::prelude::*;
use crate::message::{DnsName, lower_labels};

verus! {

/// The question a record answers.
pub struct RecordKey {
    pub name: DnsName,
    pub typex: u16,
    pub class: u16,
}

pub struct Record {
    pub name: DnsName,
    pub typex: u16,
    pub class: u16,
    pub ttl: u32,
    pub rdata: Vec<u8>,
}

/// What a record is.
pub struct RecordView {
    pub name: Seq<Seq<u8>>,
    pub typex: u16,
    pub class: u16,
    pub ttl: u32,
    pub rdata: Seq<u8>,
}

impl View for Record {
    type V = RecordView;

    open spec fn view(&self) -> RecordView {
        RecordView {
            name: self.name@,
            typex: self.typex,
            class: self.class,
            ttl: self.ttl,
            rdata: self.rdata@,
        }
    }
}

/// Whether record `r` answers a question about `name` with this type and
/// class; names compare without regard to letter case.
pub open spec fn answers_question(r: RecordView, name: Seq<Seq<u8>>, typex: u16, class: u16) -> bool {
    lower_labels(r.name) == lower_labels(name) && r.typex == typex && r.class == class
}

/// The first record in `s` that answers the question.
pub open spec fn find_record(s: Seq<RecordView>, name: Seq<Seq<u8>>, typex: u16, class: u16) -> Option<
    RecordView,
>
    decreases s.len(),
{
    if s.len() == 0 {
        None
    } else if answers_question(s[0], name, typex, class) {
        Some(s[0])
    } else {
        find_record(s.drop_first(), name, typex, class)
    }
}

/// A read-only table of records, the most recently added first.
pub struct Master {
    records: Vec<Record>,
}

impl View for Master {
    type V = Seq<RecordView>;

    closed spec fn view(&self) -> Seq<RecordView> {
        self.records@.map_values(|r: Record| r@)
    }
}

/// A record found for a question is one of the table's records.
pub proof fn lemma_found_record_in_table(
    s: Seq<RecordView>,
    name: Seq<Seq<u8>>,
    typex: u16,
    class: u16,
)
    requires
        find_record(s, name, typex, class) is Some,
    ensures
        s.contains(find_record(s, name, typex, class)->Some_0),
        answers_question(find_record(s, name, typex, class)->Some_0, name, typex, class),
    decreases s.len(),
{
    if !answers_question(s[0], name, typex, class) {
        lemma_found_record_in_table(s.drop_first(), name, typex, class);
        let r = find_record(s, name, typex, class)->Some_0;
        let j = choose|j: int| 0 <= j < s.drop_first().len() && s.drop_first()[j] == r;
        assert(s[j + 1] == r);
    } else {
        assert(s[0] == find_record(s, name, typex, class)->Some_0);
    }
}

impl Master {
    /// Every record's data fits a 16-bit length field.
    pub open spec fn wf(&self) -> bool {
        forall|i: int| 0 <= i < self@.len() ==> #[trigger] self@[i].rdata.len() <= 0xffff
    }

    pub fn new() -> (r: Master)
        ensures
            r@ == Seq::<RecordView>::empty(),
            r.wf(),
    {
        let r = Master { records: Vec::new() };
        assert(r@ =~= Seq::<RecordView>::empty());
        r
    }

    /// Adds a record; it takes precedence over earlier ones for the same
    /// question.
    pub fn add(&mut self, record: Record)
        requires
            old(self).wf(),
            record.rdata@.len() <= 0xffff,
        ensures
            final(self)@ == seq![record@] + old(self)@,
            final(self).wf(),
    {
        let ghost rv = record@;
        self.records.insert(0, record);
        assert(final(self)@ =~= seq![rv] + old(self)@);
        assert forall|i: int| 0 <= i < final(self)@.len() implies #[trigger] final(self)@[i].rdata.len()
            <= 0xffff by {
            if i > 0 {
                assert(final(self)@[i] == old(self)@[i - 1]);
            }
        }
    }

    pub fn len(&self) -> (r: usize)
        ensures
            r == self@.len(),
    {
        self.records.len()
    }

    /// The record that answers the question of `key`.
    pub fn get(&self, key: &RecordKey) -> (r: Option<&Record>)
        ensures
            match r {
                Some(x) => find_record(self@, key.name@, key.typex, key.class) == Some(x@),
                None => find_record(self@, key.name@, key.typex, key.class) is None,
            },
    {
        let wanted = key.name.to_lowercase();
        let mut i: usize = 0;
        assert(self@.subrange(0, self@.len() as int) =~= self@);
        while i < self.records.len()
            invariant
                i <= self@.len(),
                self@.len() == self.records@.len(),
                wanted@ == lower_labels(key.name@),
                find_record(self@, key.name@, key.typex, key.class) == find_record(
                    self@.subrange(i as int, self@.len() as int),
                    key.name@,
                    key.typex,
                    key.class,
                ),
            decreases self@.len() - i,
        {
            let rec = &self.records[i];
            assert(rec@ == self@[i as int]);
            let ghost tail = self@.subrange(i as int, self@.len() as int);
            assert(tail[0] == self@[i as int]);
            assert(tail.drop_first() =~= self@.subrange(i + 1, self@.len() as int));
            if rec.typex == key.typex && rec.class == key.class && rec.name.to_lowercase().same_as(
                &wanted,
            ) {
                return Some(rec);
            }
            i = i + 1;
        }
        None
    }
}

/// Builds an authority table from some source of records.
pub trait AuthorityProvider {
    fn create(&mut self) -> Master;
}

/// A record source that stands for a master file. It holds one built-in
/// record: `example.org A IN 300 93.184.216.34`.
pub struct MasterFile {
    pub path: String,
    record_count: usize,
}

/// The labels of `example.org`.
pub open spec fn example_org() -> Seq<Seq<u8>> {
    seq![seq![101u8, 120u8, 97u8, 109u8, 112u8, 108u8, 101u8], seq![111u8, 114u8, 103u8]]
}

/// The record a master file yields first.
pub open spec fn builtin_record() -> RecordView {
    RecordView {
        name: example_org(),
        typex: 1,
        class: 1,
        ttl: 300,
        rdata: seq![93u8, 184u8, 216u8, 34u8],
    }
}

impl MasterFile {
    pub closed spec fn count(&self) -> nat {
        self.record_count as nat
    }

    pub fn new(path: String) -> (r: MasterFile)
        ensures
            r.count() == 0,
    {
        MasterFile { path: path, record_count: 0 }
    }

    /// The next record of the file, if any.
    pub fn next_record(&mut self) -> (r: Option<Record>)
        ensures
            final(self).count() == if old(self).count() < usize::MAX {
                old(self).count() + 1
            } else {
                old(self).count()
            },
            match r {
                Some(x) => old(self).count() == 0 && x@ == builtin_record(),
                None => old(self).count() != 0,
            },
    {
        if self.record_count == usize::MAX {
            return None;
        }
        self.record_count = self.record_count + 1;
        if self.record_count == 1 {
            let name = DnsName::from(
                vec![vec![101u8, 120, 97, 109, 112, 108, 101], vec![111u8, 114, 103]],
            );
            let r = Record { name: name, typex: 1, class: 1, ttl: 300, rdata: vec![93u8, 184, 216, 34] };
            assert(r@.name =~= example_org());
            assert(r@.rdata =~= seq![93u8, 184u8, 216u8, 34u8]);
            Some(r)
        } else {
            None
        }
    }

    /// Reads every remaining record into a table.
    pub fn parse(&mut self) -> (r: Master)
        ensures
            r.wf(),
            old(self).count() == 0 ==> r@ == seq![builtin_record()],
            old(self).count() != 0 ==> r@ == Seq::<RecordView>::empty(),
    {
        let mut master = Master::new();
        let ghost first = self.count();
        loop
            invariant
                master.wf(),
                first == old(self).count(),
                first == 0 ==> (self.count() == 0 && master@ == Seq::<RecordView>::empty()) || (
                self.count() >= 1 && master@ == seq![builtin_record()]),
                first != 0 ==> self.count() != 0 && master@ == Seq::<RecordView>::empty(),
            ensures
                first == 0 ==> master@ == seq![builtin_record()],
                first != 0 ==> master@ == Seq::<RecordView>::empty(),
            decreases usize::MAX - self.count(),
        {
            match self.next_record() {
                Some(record) => {
                    master.add(record);
                    assert(master@ =~= seq![builtin_record()]);
                },
                None => {
                    break ;
                },
            }
        }
        master
    }
}

impl AuthorityProvider for MasterFile {
    fn create(&mut self) -> Master {
        self.parse()
    }
}

} // verus!
