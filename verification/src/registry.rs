//! The registry built from a catalogue, and dispatch by name at run time.

use vstd::prelude::*;
use crate::catalogue::Catalogue;
use crate::catalogue::Records;
use crate::catalogue::sorted_names;
use crate::catalogue::has_name;
use crate::catalogue::content_of;
use crate::catalogue::lemma_name_once;
use crate::catalogue::lemma_same_mapping_same_records;
use crate::content::resolve;
use crate::content::resolved;
use crate::content::records_of;
use crate::content::placeholder;
use crate::content::primary;
use crate::content::fallback_content;
use crate::content::inner_fragment;
use crate::ident::IdentSet;
use crate::ident::synthesize;
use crate::ident::synthesized;
use crate::ident::candidate;
use crate::ident::pascal_case;
use crate::ident::well_formed_ident;
use crate::ident::lemma_candidate_well_formed;
use crate::ident::lemma_fresh_is_free;
use crate::text::str_eq;

verus! {

/// The model of a registry entry.
pub struct Triple {
    pub raw_name: Seq<char>,
    pub identifier: Seq<char>,
    pub content: Seq<char>,
}

/// One asset of the registry: its raw name, the identifier bound to it and
/// its content.
pub struct IconEntry {
    pub raw_name: String,
    pub identifier: String,
    pub content: String,
}

impl View for IconEntry {
    type V = Triple;

    open spec fn view(&self) -> Triple {
        Triple { raw_name: self.raw_name@, identifier: self.identifier@, content: self.content@ }
    }
}

/// The identifiers that the entries carry.
pub open spec fn identifiers(entries: Seq<Triple>) -> Set<Seq<char>> {
    entries.map_values(|t: Triple| t.identifier).to_set()
}

/// The entries for the first `n` records of `recs`, in their order: each
/// identifier is synthesized against those of the entries before it, each
/// content is resolved with `recs` as the catalogue.
pub open spec fn entries_upto(recs: Records, n: nat) -> Seq<Triple>
    decreases n,
{
    if n == 0 {
        Seq::empty()
    } else {
        let before = entries_upto(recs, (n - 1) as nat);
        let name = recs[n - 1].0;
        before.push(
            Triple {
                raw_name: name,
                identifier: synthesized(name, identifiers(before)),
                content: resolved(name, Some(recs)),
            },
        )
    }
}

/// The registry of a catalogue.
pub open spec fn registry_of(recs: Records) -> Seq<Triple> {
    entries_upto(recs, recs.len())
}

/// No two entries share a raw name, no two share an identifier, and every
/// identifier meets the grammar.
pub open spec fn valid_registry(entries: Seq<Triple>) -> bool {
    &&& forall|i: int, j: int|
        #![trigger entries[i], entries[j]]
        0 <= i < j < entries.len() ==> entries[i].raw_name != entries[j].raw_name
    &&& forall|i: int, j: int|
        #![trigger entries[i], entries[j]]
        0 <= i < j < entries.len() ==> entries[i].identifier != entries[j].identifier
    &&& forall|i: int| 0 <= i < entries.len() ==> well_formed_ident((#[trigger] entries[i]).identifier)
}

/// The entries for a prefix of sorted records carry the records' names in
/// their order and form a valid registry.
pub proof fn lemma_entries_valid(recs: Records, n: nat)
    requires
        sorted_names(recs),
        n <= recs.len(),
    ensures
        entries_upto(recs, n).len() == n,
        forall|i: int| 0 <= i < n ==> (#[trigger] entries_upto(recs, n)[i]).raw_name == recs[i].0,
        forall|i: int|
            0 <= i < n ==> (#[trigger] entries_upto(recs, n)[i]).content == resolved(
                recs[i].0,
                Some(recs),
            ),
        valid_registry(entries_upto(recs, n)),
    decreases n,
{
    if n > 0 {
        let before = entries_upto(recs, (n - 1) as nat);
        let after = entries_upto(recs, n);
        lemma_entries_valid(recs, (n - 1) as nat);
        let name = recs[n - 1].0;
        let used = identifiers(before);
        let ids = before.map_values(|t: Triple| t.identifier);
        vstd::seq_lib::seq_to_set_is_finite(ids);
        lemma_candidate_well_formed(pascal_case(name));
        lemma_fresh_is_free(candidate(pascal_case(name)), used);
        assert forall|i: int, j: int|
            #![trigger after[i], after[j]]
            0 <= i < j < after.len() implies after[i].raw_name != after[j].raw_name
            && after[i].identifier != after[j].identifier by {
            assert(after[i] == before[i]);
            if j < n - 1 {
                assert(after[j] == before[j]);
            } else {
                if recs[i].0 == recs[j].0 {
                    lemma_name_once(recs, i, j);
                }
                assert(ids[i] == before[i].identifier);
                assert(used.contains(ids[i]));
            }
        }
        assert forall|i: int| 0 <= i < after.len() implies well_formed_ident(
            (#[trigger] after[i]).identifier,
        ) by {
            if i < n - 1 {
                assert(after[i] == before[i]);
            }
        }
    }
}

/// The registry of a catalogue has one entry for each record, under the
/// record's name and in the catalogue's order; no two entries share a name or
/// an identifier, and every identifier meets the grammar.
pub proof fn lemma_registry_valid(recs: Records)
    requires
        sorted_names(recs),
    ensures
        registry_of(recs).len() == recs.len(),
        forall|i: int|
            0 <= i < recs.len() ==> (#[trigger] registry_of(recs)[i]).raw_name == recs[i].0,
        valid_registry(registry_of(recs)),
{
    lemma_entries_valid(recs, recs.len());
}

/// Two builds from catalogues that hold the same names with the same
/// contents give the same entries, identifiers and order included, whatever
/// the order in which the catalogues were filled.
pub proof fn lemma_build_deterministic(a: Catalogue, b: Catalogue, ra: Registry, rb: Registry)
    requires
        a.wf(),
        b.wf(),
        forall|n: Seq<char>| has_name(a@, n) == has_name(b@, n),
        forall|n: Seq<char>| has_name(a@, n) ==> content_of(a@, n) == content_of(b@, n),
        ra@ == registry_of(a@),
        rb@ == registry_of(b@),
    ensures
        a@ == b@,
        ra@ == rb@,
{
    lemma_same_mapping_same_records(a@, b@);
}

/// The table generated from a catalogue, read-only once built.
pub struct Registry {
    entries: Vec<IconEntry>,
}

impl View for Registry {
    type V = Seq<Triple>;

    closed spec fn view(&self) -> Seq<Triple> {
        self.entries@.map_values(|e: IconEntry| e@)
    }
}

impl Registry {
    /// The registry upholds [`valid_registry`]. This holds of every registry.
    pub open spec fn wf(&self) -> bool {
        valid_registry(self@)
    }

    #[verifier::type_invariant]
    closed spec fn valid(&self) -> bool {
        valid_registry(self.entries@.map_values(|e: IconEntry| e@))
    }

    /// Builds the registry of `catalogue`: one entry for each record, in
    /// lexicographic order of the raw names.
    pub fn build(catalogue: &Catalogue) -> (r: Registry)
        ensures
            r@ == registry_of(catalogue@),
            r@.len() == catalogue@.len(),
            r.wf(),
    {
        let n = catalogue.len();
        let mut used = IdentSet::new();
        let mut entries: Vec<IconEntry> = Vec::new();
        let mut i: usize = 0;
        proof {
            assert(entries@.map_values(|e: IconEntry| e@) =~= entries_upto(catalogue@, 0));
            assert(identifiers(entries_upto(catalogue@, 0)) =~= Set::<Seq<char>>::empty());
        }
        while i < n
            invariant
                catalogue.wf(),
                n == catalogue@.len(),
                i <= n,
                entries@.map_values(|e: IconEntry| e@) == entries_upto(catalogue@, i as nat),
                used@ == identifiers(entries_upto(catalogue@, i as nat)),
            decreases n - i,
        {
            let rec = catalogue.record(i);
            let ghost before = entries_upto(catalogue@, i as nat);
            let content = resolve(rec.raw_name.as_str(), Some(catalogue));
            let identifier = synthesize(rec.raw_name.as_str(), &mut used);
            let entry = IconEntry { raw_name: rec.raw_name.clone(), identifier, content };
            let ghost t = entry@;
            entries.push(entry);
            proof {
                let after = entries_upto(catalogue@, (i + 1) as nat);
                assert(after == before.push(t));
                assert(entries@.map_values(|e: IconEntry| e@) =~= after);
                before.map_values(|t: Triple| t.identifier).lemma_push_to_set_commute(t.identifier);
                assert(after.map_values(|t: Triple| t.identifier) =~= before.map_values(
                    |t: Triple| t.identifier,
                ).push(t.identifier));
            }
            i = i + 1;
        }
        proof {
            lemma_registry_valid(catalogue@);
        }
        Registry { entries }
    }

    /// The number of entries.
    pub fn count(&self) -> (n: usize)
        ensures
            n == self@.len(),
            self.wf(),
    {
        proof {
            use_type_invariant(self);
        }
        self.entries.len()
    }

    /// The entry at place `i`.
    pub fn entry(&self, i: usize) -> (e: &IconEntry)
        requires
            i < self@.len(),
        ensures
            e@ == self@[i as int],
    {
        &self.entries[i]
    }

    /// The first entry whose raw name is exactly `name`.
    pub fn lookup(&self, name: &str) -> (r: Option<&IconEntry>)
        ensures
            match r {
                Some(e) => has_entry(self@, name@) && e@ == self@[first_entry(self@, name@)],
                None => !has_entry(self@, name@),
            },
    {
        let mut i: usize = 0;
        while i < self.entries.len()
            invariant
                i <= self.entries.len(),
                self@.len() == self.entries.len(),
                forall|j: int| 0 <= j < i ==> (#[trigger] self@[j]).raw_name != name@,
            decreases self.entries.len() - i,
        {
            if str_eq(self.entries[i].raw_name.as_str(), name) {
                proof {
                    lemma_first_entry(self@, name@, i as int);
                }
                return Some(&self.entries[i]);
            }
            i = i + 1;
        }
        None
    }
}

/// Some entry carries the raw name `n`.
pub open spec fn has_entry(entries: Seq<Triple>, n: Seq<char>) -> bool {
    exists|i: int| 0 <= i < entries.len() && (#[trigger] entries[i]).raw_name == n
}

/// `i` is the first place at which the raw name `n` stands.
pub open spec fn is_first_entry(entries: Seq<Triple>, n: Seq<char>, i: int) -> bool {
    &&& 0 <= i < entries.len()
    &&& entries[i].raw_name == n
    &&& forall|j: int| 0 <= j < i ==> (#[trigger] entries[j]).raw_name != n
}

/// The first place at which the raw name `n` stands, where some entry
/// carries it.
pub open spec fn first_entry(entries: Seq<Triple>, n: Seq<char>) -> int {
    choose|i: int| is_first_entry(entries, n, i)
}

/// A first place is the first place.
pub proof fn lemma_first_entry(entries: Seq<Triple>, n: Seq<char>, i: int)
    requires
        is_first_entry(entries, n, i),
    ensures
        has_entry(entries, n),
        first_entry(entries, n) == i,
{
    let c = first_entry(entries, n);
    assert(is_first_entry(entries, n, c));
}

/// The content that dispatch gives for `name`: that of the entry under the
/// name where there is one, else what the name resolves to with `live` as the
/// catalogue.
pub open spec fn dispatched(name: Seq<char>, entries: Seq<Triple>, live: Option<Records>) -> Seq<
    char,
> {
    if has_entry(entries, name) {
        entries[first_entry(entries, name)].content
    } else {
        resolved(name, live)
    }
}

/// What dispatch hands to the renderer: the name asked for, the content, and
/// whether the registry had an entry under the name.
pub struct Dispatched {
    pub name: String,
    pub content: String,
    pub matched: bool,
}

/// Resolves an arbitrary name at run time. The match is exact. A name
/// without an entry is resolved afresh, against `live` where a catalogue is
/// at hand, and ends at the placeholder where no tier has it.
pub fn dispatch(name: &str, registry: &Registry, live: Option<&Catalogue>) -> (d: Dispatched)
    ensures
        d.name@ == name@,
        d.matched == has_entry(registry@, name@),
        d.content@ == dispatched(name@, registry@, records_of(live)),
{
    match registry.lookup(name) {
        Some(e) => Dispatched { name: name.to_owned(), content: e.content.clone(), matched: true },
        None => Dispatched { name: name.to_owned(), content: resolve(name, live), matched: false },
    }
}

/// The content for `name`, as [`dispatch`] finds it.
pub fn load_icon(name: &str, registry: &Registry, live: Option<&Catalogue>) -> (r: String)
    ensures
        r@ == dispatched(name@, registry@, records_of(live)),
{
    dispatch(name, registry, live).content
}

/// A name that no tier knows is dispatched to the placeholder.
pub proof fn lemma_dispatch_placeholder(name: Seq<char>, entries: Seq<Triple>, live: Option<Records>)
    requires
        !has_entry(entries, name),
        primary(name, live) is None,
        fallback_content(name) is None,
    ensures
        dispatched(name, entries, live) == placeholder(),
{
}

/// A name that the registry lacks and the live catalogue holds, with a
/// document that has an inner fragment, is dispatched to that fragment.
pub proof fn lemma_dispatch_live(name: Seq<char>, entries: Seq<Triple>, live: Records)
    requires
        !has_entry(entries, name),
        has_name(live, name),
        inner_fragment(content_of(live, name)) is Some,
    ensures
        Some(dispatched(name, entries, Some(live))) == inner_fragment(content_of(live, name)),
{
}

/// A name of the catalogue is dispatched, by the catalogue's registry, to
/// what the name resolves to in the catalogue.
pub proof fn lemma_dispatch_hit(recs: Records, i: int)
    requires
        sorted_names(recs),
        0 <= i < recs.len(),
    ensures
        has_entry(registry_of(recs), recs[i].0),
        forall|live: Option<Records>|
            #[trigger] dispatched(recs[i].0, registry_of(recs), live) == resolved(
                recs[i].0,
                Some(recs),
            ),
{
    let entries = registry_of(recs);
    lemma_entries_valid(recs, recs.len());
    assert(entries[i].raw_name == recs[i].0);
    assert forall|j: int| 0 <= j < i implies (#[trigger] entries[j]).raw_name != recs[i].0 by {
        if recs[j].0 == recs[i].0 {
            lemma_name_once(recs, i, j);
        }
    }
    lemma_first_entry(entries, recs[i].0, i);
}

} // verus!
