//! The catalogue: raw names with the documents stored under them, kept in
//! lexicographic order of the names.

use vstd::prelude::*;
use crate::text::lex_lt;
use crate::text::str_eq;
use crate::text::str_lt;
use crate::text::lemma_lex_irreflexive;
use crate::text::lemma_lex_transitive;
use crate::text::lemma_lex_total;

verus! {

/// One asset as the supplier hands it over.
pub struct AssetRecord {
    pub raw_name: String,
    pub content: String,
}

/// The model of a catalogue: pairs of raw name and content.
pub type Records = Seq<(Seq<char>, Seq<char>)>;

/// The names stand in strictly increasing lexicographic order.
pub open spec fn sorted_names(recs: Records) -> bool {
    forall|i: int, j: int|
        #![trigger recs[i], recs[j]]
        0 <= i < j < recs.len() ==> lex_lt(recs[i].0, recs[j].0)
}

/// Some record carries the name `n`.
pub open spec fn has_name(recs: Records, n: Seq<char>) -> bool {
    exists|i: int| 0 <= i < recs.len() && (#[trigger] recs[i]).0 == n
}

/// A place at which the name `n` stands, where some record carries it.
pub open spec fn place_of(recs: Records, n: Seq<char>) -> int {
    choose|i: int| 0 <= i < recs.len() && (#[trigger] recs[i]).0 == n
}

/// The content stored under `n`, where some record carries that name.
pub open spec fn content_of(recs: Records, n: Seq<char>) -> Seq<char> {
    recs[place_of(recs, n)].1
}

/// In sorted records a name stands at one place only.
pub proof fn lemma_name_once(recs: Records, i: int, j: int)
    requires
        sorted_names(recs),
        0 <= i < recs.len(),
        0 <= j < recs.len(),
        recs[i].0 == recs[j].0,
    ensures
        i == j,
{
    lemma_lex_irreflexive(recs[i].0);
    if i < j {
        assert(lex_lt(recs[i].0, recs[j].0));
    }
    if j < i {
        assert(lex_lt(recs[j].0, recs[i].0));
    }
}

/// In sorted records the content under the name at `at` is the content at
/// `at`.
pub proof fn lemma_content_at(recs: Records, at: int)
    requires
        sorted_names(recs),
        0 <= at < recs.len(),
    ensures
        has_name(recs, recs[at].0),
        content_of(recs, recs[at].0) == recs[at].1,
{
    let n = recs[at].0;
    assert(has_name(recs, n));
    lemma_name_once(recs, at, place_of(recs, n));
}

/// Without its first record a sorted sequence is still sorted; it holds the
/// other names, each with its content.
pub proof fn lemma_sorted_tail(recs: Records)
    requires
        sorted_names(recs),
        recs.len() > 0,
    ensures
        sorted_names(recs.drop_first()),
        forall|n: Seq<char>|
            has_name(recs.drop_first(), n) <==> has_name(recs, n) && n != recs[0].0,
        forall|n: Seq<char>|
            has_name(recs.drop_first(), n) ==> content_of(recs.drop_first(), n) == content_of(
                recs,
                n,
            ),
{
    let tail = recs.drop_first();
    assert forall|i: int, j: int|
        #![trigger tail[i], tail[j]]
        0 <= i < j < tail.len() implies lex_lt(tail[i].0, tail[j].0) by {
        assert(lex_lt(recs[i + 1].0, recs[j + 1].0));
    }
    assert forall|n: Seq<char>| has_name(tail, n) implies has_name(recs, n) && n != recs[0].0
        && content_of(tail, n) == content_of(recs, n) by {
        let c = place_of(tail, n);
        assert(recs[c + 1] == tail[c]);
        if n == recs[0].0 {
            lemma_name_once(recs, 0, c + 1);
        }
        lemma_content_at(tail, c);
        lemma_content_at(recs, c + 1);
    }
    assert forall|n: Seq<char>| has_name(recs, n) && n != recs[0].0 implies has_name(tail, n) by {
        let c = place_of(recs, n);
        assert(tail[c - 1] == recs[c]);
    }
}

/// The enumeration is fixed by the mapping: two sorted sequences that hold
/// the same names with the same contents are the same sequence, whatever the
/// order in which the records were put in.
pub proof fn lemma_same_mapping_same_records(a: Records, b: Records)
    requires
        sorted_names(a),
        sorted_names(b),
        forall|n: Seq<char>| has_name(a, n) == has_name(b, n),
        forall|n: Seq<char>| has_name(a, n) ==> content_of(a, n) == content_of(b, n),
    ensures
        a == b,
    decreases a.len(),
{
    if a.len() == 0 {
        if b.len() > 0 {
            lemma_content_at(b, 0);
            let c = place_of(a, b[0].0);
            assert(false);
        }
        assert(a =~= b);
    } else {
        lemma_content_at(a, 0);
        let kb = place_of(b, a[0].0);
        lemma_content_at(b, 0);
        let ka = place_of(a, b[0].0);
        lemma_lex_total(a[0].0, b[0].0);
        lemma_lex_irreflexive(a[0].0);
        lemma_lex_irreflexive(b[0].0);
        if lex_lt(a[0].0, b[0].0) {
            if kb > 0 {
                assert(lex_lt(b[0].0, b[kb].0));
                lemma_lex_transitive(a[0].0, b[0].0, b[kb].0);
            }
            assert(false);
        }
        if lex_lt(b[0].0, a[0].0) {
            if ka > 0 {
                assert(lex_lt(a[0].0, a[ka].0));
                lemma_lex_transitive(b[0].0, a[0].0, a[ka].0);
            }
            assert(false);
        }
        assert(a[0] == b[0]);
        lemma_sorted_tail(a);
        lemma_sorted_tail(b);
        let ta = a.drop_first();
        let tb = b.drop_first();
        assert forall|n: Seq<char>| has_name(ta, n) == has_name(tb, n) by {
            assert(has_name(ta, n) <==> has_name(a, n) && n != a[0].0);
            assert(has_name(tb, n) <==> has_name(b, n) && n != b[0].0);
            assert(has_name(a, n) == has_name(b, n));
        }
        assert forall|n: Seq<char>| has_name(ta, n) implies content_of(ta, n) == content_of(
            tb,
            n,
        ) by {
            assert(has_name(tb, n));
            assert(has_name(a, n));
            assert(content_of(a, n) == content_of(b, n));
        }
        lemma_same_mapping_same_records(ta, tb);
        assert(a =~= seq![a[0]] + a.drop_first());
        assert(b =~= seq![b[0]] + b.drop_first());
    }
}

/// A mapping from raw names to stored documents. Each name occurs once, and
/// the records are enumerated in lexicographic order of the names, whatever
/// the order in which they were put in.
pub struct Catalogue {
    records: Vec<AssetRecord>,
}

/// The model of a sequence of stored records.
pub open spec fn records_view(records: Seq<AssetRecord>) -> Records {
    records.map_values(|r: AssetRecord| (r.raw_name@, r.content@))
}

impl View for Catalogue {
    type V = Records;

    closed spec fn view(&self) -> Records {
        records_view(self.records@)
    }
}

impl Catalogue {
    /// The records are sorted by name. This holds of every catalogue.
    pub open spec fn wf(&self) -> bool {
        sorted_names(self@)
    }

    #[verifier::type_invariant]
    closed spec fn sorted(&self) -> bool {
        sorted_names(records_view(self.records@))
    }

    /// The empty catalogue.
    pub fn new() -> (r: Catalogue)
        ensures
            r.wf(),
            r@.len() == 0,
    {
        Catalogue { records: Vec::new() }
    }

    /// The number of records.
    pub fn len(&self) -> (n: usize)
        ensures
            n == self@.len(),
            self.wf(),
    {
        proof {
            use_type_invariant(self);
        }
        self.records.len()
    }

    /// The record at place `i` of the enumeration.
    pub fn record(&self, i: usize) -> (r: &AssetRecord)
        requires
            i < self@.len(),
        ensures
            (r.raw_name@, r.content@) == self@[i as int],
    {
        &self.records[i]
    }

    /// The first place whose name does not come before `name`.
    fn position(&self, name: &str) -> (i: usize)
        ensures
            i <= self@.len(),
            forall|j: int| 0 <= j < i ==> lex_lt((#[trigger] self@[j]).0, name@),
            i < self@.len() ==> !lex_lt(self@[i as int].0, name@),
    {
        let mut i: usize = 0;
        while i < self.records.len()
            invariant
                i <= self@.len(),
                self@.len() == self.records.len(),
                forall|j: int| 0 <= j < i ==> lex_lt((#[trigger] self@[j]).0, name@),
            decreases self.records.len() - i,
        {
            if !str_lt(self.records[i].raw_name.as_str(), name) {
                return i;
            }
            i = i + 1;
        }
        i
    }

    /// The document stored under `name`.
    pub fn get(&self, name: &str) -> (r: Option<&String>)
        ensures
            self.wf(),
            match r {
                Some(c) => has_name(self@, name@) && c@ == content_of(self@, name@),
                None => !has_name(self@, name@),
            },
    {
        proof {
            use_type_invariant(self);
        }
        let i = self.position(name);
        if i < self.records.len() && str_eq(self.records[i].raw_name.as_str(), name) {
            proof {
                lemma_content_at(self@, i as int);
            }
            Some(&self.records[i].content)
        } else {
            proof {
                if has_name(self@, name@) {
                    let c = place_of(self@, name@);
                    lemma_lex_irreflexive(name@);
                    if c > i {
                        lemma_lex_total(self@[i as int].0, name@);
                        assert(lex_lt(self@[i as int].0, self@[c].0));
                    }
                }
            }
            None
        }
    }

    /// Whether some record carries `name`.
    pub fn contains(&self, name: &str) -> (r: bool)
        ensures
            self.wf(),
            r == has_name(self@, name@),
    {
        self.get(name).is_some()
    }

    /// Stores `content` under `name`, in place of what was stored under it
    /// before, if anything was. Every other name keeps its content.
    pub fn insert(&mut self, name: String, content: String)
        ensures
            final(self).wf(),
            has_name(final(self)@, name@),
            content_of(final(self)@, name@) == content@,
            forall|n: Seq<char>| n != name@ ==> has_name(final(self)@, n) == has_name(old(self)@, n),
            forall|n: Seq<char>|
                n != name@ && has_name(old(self)@, n) ==> content_of(final(self)@, n) == content_of(
                    old(self)@,
                    n,
                ),
            final(self)@.len() == old(self)@.len() + (if has_name(old(self)@, name@) {
                0int
            } else {
                1int
            }),
    {
        proof {
            use_type_invariant(&*self);
        }
        let i = self.position(name.as_str());
        let ghost before = self@;
        let ghost key = name@;
        let ghost pair = (name@, content@);
        let replace = i < self.records.len() && str_eq(self.records[i].raw_name.as_str(), name.as_str());
        let rec = AssetRecord { raw_name: name, content };
        let mut records: Vec<AssetRecord> = Vec::new();
        std::mem::swap(&mut records, &mut self.records);
        if replace {
            records.set(i, rec);
            proof {
                let after = records_view(records@);
                assert(after =~= before.update(i as int, pair));
                assert(before[i as int].0 == key);
                assert forall|a: int, b: int|
                    #![trigger after[a], after[b]]
                    0 <= a < b < after.len() implies lex_lt(after[a].0, after[b].0) by {
                    assert(lex_lt(before[a].0, before[b].0));
                }
                lemma_content_at(after, i as int);
                lemma_content_at(before, i as int);
                assert forall|n: Seq<char>| n != key implies has_name(after, n) == has_name(
                    before,
                    n,
                ) by {
                    if has_name(before, n) {
                        let c = place_of(before, n);
                        assert(after[c].0 == n);
                    }
                    if has_name(after, n) {
                        let c = place_of(after, n);
                        assert(before[c].0 == n);
                    }
                }
                assert forall|n: Seq<char>| n != key && has_name(before, n) implies content_of(
                    after,
                    n,
                ) == content_of(before, n) by {
                    let c = place_of(before, n);
                    assert(after[c] == before[c]);
                    lemma_content_at(before, c);
                    lemma_content_at(after, c);
                }
            }
        } else {
            records.insert(i, rec);
            proof {
                let after = records_view(records@);
                assert(after =~= before.insert(i as int, pair));
                if i < before.len() {
                    lemma_lex_total(before[i as int].0, key);
                }
                assert forall|a: int, b: int|
                    #![trigger after[a], after[b]]
                    0 <= a < b < after.len() implies lex_lt(after[a].0, after[b].0) by {
                    if b < i {
                        assert(lex_lt(before[a].0, before[b].0));
                    } else if b == i {
                        assert(lex_lt(before[a].0, key));
                    } else if a < i {
                        assert(lex_lt(before[a].0, key));
                        assert(lex_lt(key, before[i as int].0));
                        if b - 1 > i {
                            assert(lex_lt(before[i as int].0, before[b - 1].0));
                            lemma_lex_transitive(key, before[i as int].0, before[b - 1].0);
                        }
                        lemma_lex_transitive(before[a].0, key, before[b - 1].0);
                    } else if a == i {
                        assert(lex_lt(key, before[i as int].0));
                        if b - 1 > i {
                            assert(lex_lt(before[i as int].0, before[b - 1].0));
                            lemma_lex_transitive(key, before[i as int].0, before[b - 1].0);
                        }
                    } else {
                        assert(lex_lt(before[a - 1].0, before[b - 1].0));
                    }
                }
                assert(after[i as int] == pair);
                lemma_content_at(after, i as int);
                if has_name(before, key) {
                    let c = place_of(before, key);
                    lemma_lex_irreflexive(key);
                    if c > i {
                        assert(lex_lt(before[i as int].0, before[c].0));
                        lemma_lex_transitive(key, before[i as int].0, key);
                    }
                    assert(false);
                }
                assert forall|n: Seq<char>| n != key implies has_name(after, n) == has_name(
                    before,
                    n,
                ) by {
                    if has_name(before, n) {
                        let c = place_of(before, n);
                        if c < i {
                            assert(after[c].0 == n);
                        } else {
                            assert(after[c + 1].0 == n);
                        }
                    }
                    if has_name(after, n) {
                        let c = place_of(after, n);
                        if c < i {
                            assert(before[c].0 == n);
                        } else {
                            assert(before[c - 1].0 == n);
                        }
                    }
                }
                assert forall|n: Seq<char>| n != key && has_name(before, n) implies content_of(
                    after,
                    n,
                ) == content_of(before, n) by {
                    let c = place_of(before, n);
                    lemma_content_at(before, c);
                    if c < i {
                        assert(after[c] == before[c]);
                        lemma_content_at(after, c);
                    } else {
                        assert(after[c + 1] == before[c]);
                        lemma_content_at(after, c + 1);
                    }
                }
            }
        }
        self.records = records;
    }
}

} // verus!
