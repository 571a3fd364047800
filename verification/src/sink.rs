//! Domain sink: deduplicates observed domain names. Recording is
//! idempotent — a duplicate is a benign no-op, never a failure — which is
//! what the storage boundary's uniqueness constraint guarantees for the
//! persisted copy.

use vstd::prelude::*;

verus! {

/// What recording `d` into the set `s` leaves behind: `s` itself when `d`
/// is already present, else `s` with `d` appended.
pub open spec fn spec_record(s: Seq<Seq<char>>, d: Seq<char>) -> Seq<Seq<char>> {
    if s.contains(d) {
        s
    } else {
        s.push(d)
    }
}

/// Recording a whole batch, front to back.
pub open spec fn spec_record_all(s: Seq<Seq<char>>, ds: Seq<Seq<char>>) -> Seq<Seq<char>>
    decreases ds.len(),
{
    if ds.len() == 0 {
        s
    } else {
        spec_record_all(spec_record(s, ds[0]), ds.drop_first())
    }
}

/// The deduplicated set of observed domains.
pub struct DomainSink {
    domains: Vec<String>,
}

impl View for DomainSink {
    type V = Seq<Seq<char>>;

    closed spec fn view(&self) -> Seq<Seq<char>> {
        self.domains@.map_values(|d: String| d@)
    }
}

impl DomainSink {
    /// No domain is stored twice.
    pub open spec fn wf(&self) -> bool {
        forall|i: int, j: int| 0 <= i < j < self@.len() ==> self@[i] != self@[j]
    }

    /// An empty sink.
    pub fn new() -> (r: DomainSink)
        ensures
            r.wf(),
            r@ == Seq::<Seq<char>>::empty(),
    {
        let r = DomainSink { domains: Vec::new() };
        proof {
            assert(r@ =~= Seq::<Seq<char>>::empty());
        }
        r
    }

    /// Whether `domain` has been recorded.
    pub fn contains(&self, domain: &String) -> (r: bool)
        ensures
            r == self@.contains(domain@),
    {
        let mut i: usize = 0;
        while i < self.domains.len()
            invariant
                i <= self.domains@.len(),
                self@.len() == self.domains@.len(),
                forall|k: int| 0 <= k < self@.len() ==> self@[k] == self.domains@[k]@,
                forall|k: int| 0 <= k < i ==> self@[k] != domain@,
            decreases self.domains@.len() - i,
        {
            if self.domains[i] == *domain {
                proof {
                    assert(self@[i as int] == domain@);
                }
                return true;
            }
            i = i + 1;
        }
        proof {
            assert(forall|k: int| 0 <= k < self@.len() ==> self@[k] != domain@);
        }
        false
    }

    /// Records a domain. Idempotent: a domain already present is left as
    /// it is and the call still succeeds; the result says whether the
    /// domain was new.
    pub fn record(&mut self, domain: String) -> (fresh: bool)
        requires
            old(self).wf(),
        ensures
            final(self).wf(),
            final(self)@ == spec_record(old(self)@, domain@),
            fresh == !old(self)@.contains(domain@),
    {
        if self.contains(&domain) {
            false
        } else {
            proof {
                assert(forall|k: int| 0 <= k < self@.len()
                    ==> #[trigger] self@[k] != domain@);
            }
            self.domains.push(domain);
            proof {
                assert(self@ =~= old(self)@.push(domain@));
                assert(forall|i: int, j: int| 0 <= i < j < self@.len()
                    ==> self@[i] != self@[j]) by {
                    assert(forall|i: int| 0 <= i < old(self)@.len()
                        ==> self@[i] == old(self)@[i]);
                }
            }
            true
        }
    }

    /// Records every domain of one batch, in order, each under the
    /// idempotent policy of `record`.
    pub fn record_all(&mut self, domains: &Vec<String>)
        requires
            old(self).wf(),
        ensures
            final(self).wf(),
            final(self)@ == spec_record_all(old(self)@, domains@.map_values(|d: String| d@)),
    {
        let ghost ds = domains@.map_values(|d: String| d@);
        let mut i: usize = 0;
        proof {
            assert(ds.skip(0) =~= ds);
        }
        while i < domains.len()
            invariant
                i <= domains.len(),
                self.wf(),
                ds == domains@.map_values(|d: String| d@),
                spec_record_all(old(self)@, ds) == spec_record_all(self@, ds.skip(i as int)),
            decreases domains.len() - i,
        {
            proof {
                let rem = ds.skip(i as int);
                assert(rem.len() > 0);
                assert(rem[0] == ds[i as int]);
                assert(rem.drop_first() =~= ds.skip(i + 1));
            }
            let d = domains[i].clone();
            proof {
                assert(d@ == domains@[i as int]@);
            }
            self.record(d);
            i = i + 1;
        }
        proof {
            assert(ds.skip(domains.len() as int) =~= Seq::<Seq<char>>::empty());
        }
    }

    /// How many distinct domains have been recorded.
    pub fn count(&self) -> (r: usize)
        ensures
            r == self@.len(),
    {
        self.domains.len()
    }

    /// The recorded domains, in the order first observed.
    pub fn domains(&self) -> (r: &Vec<String>)
        ensures
            r@.map_values(|d: String| d@) == self@,
    {
        &self.domains
    }
}

/// Union law: as a set, recording adds exactly the one domain, duplicates
/// collapsing — so a run's sink holds the union of everything recorded.
pub proof fn lemma_record_union(s: Seq<Seq<char>>, d: Seq<char>)
    ensures
        spec_record(s, d).to_set() == s.to_set().insert(d),
{
    let r = spec_record(s, d);
    assert forall|x: Seq<char>| r.to_set().contains(x)
        implies s.to_set().insert(d).contains(x) by {
        let i = choose|i: int| 0 <= i < r.len() && r[i] == x;
        if !s.contains(d) && i == s.len() {
            assert(x == d);
        } else {
            assert(s[i] == x);
        }
    }
    assert forall|x: Seq<char>| s.to_set().insert(d).contains(x)
        implies r.to_set().contains(x) by {
        if x == d {
            if s.contains(d) {
                assert(r.contains(d));
            } else {
                assert(r[s.len() as int] == d);
                assert(r.contains(d));
            }
        } else {
            let i = choose|i: int| 0 <= i < s.len() && s[i] == x;
            assert(r[i] == x);
            assert(r.contains(x));
        }
    }
    assert(r.to_set() =~= s.to_set().insert(d));
}

/// A well-formed sink holds no duplicate: as many stored entries as
/// distinct domains.
pub proof fn lemma_sink_distinct(sink: &DomainSink)
    requires
        sink.wf(),
    ensures
        sink@.to_set().len() == sink@.len(),
{
    assert(sink@.no_duplicates()) by {
        assert forall|i: int, j: int|
            0 <= i < sink@.len() && 0 <= j < sink@.len() && i != j
            implies sink@[i] != sink@[j] by {
            if i < j {
                assert(sink@[i] != sink@[j]);
            } else {
                assert(sink@[j] != sink@[i]);
            }
        }
    }
    sink@.unique_seq_to_set();
}

proof fn lemma_first_to_set(ds: Seq<Seq<char>>)
    requires
        ds.len() > 0,
    ensures
        ds.to_set() == ds.drop_first().to_set().insert(ds[0]),
{
    assert forall|x: Seq<char>| ds.to_set().contains(x)
        implies ds.drop_first().to_set().insert(ds[0]).contains(x) by {
        let i = choose|i: int| 0 <= i < ds.len() && ds[i] == x;
        if i > 0 {
            assert(ds.drop_first()[i - 1] == x);
            assert(ds.drop_first().contains(x));
        }
    }
    assert forall|x: Seq<char>| ds.drop_first().to_set().insert(ds[0]).contains(x)
        implies ds.to_set().contains(x) by {
        if x == ds[0] {
            assert(ds.contains(x));
        } else {
            let i = choose|i: int| 0 <= i < ds.drop_first().len() && ds.drop_first()[i] == x;
            assert(ds[i + 1] == x);
            assert(ds.contains(x));
        }
    }
    assert(ds.to_set() =~= ds.drop_first().to_set().insert(ds[0]));
}

/// Batch union law: recording a whole batch leaves, as a set, exactly the
/// union of what was there and the batch — whatever order the scheduler's
/// tasks delivered their domains in.
pub proof fn lemma_record_all_union(s: Seq<Seq<char>>, ds: Seq<Seq<char>>)
    ensures
        spec_record_all(s, ds).to_set() == s.to_set() + ds.to_set(),
    decreases ds.len(),
{
    if ds.len() == 0 {
        assert(ds.to_set() =~= Set::<Seq<char>>::empty());
        assert(s.to_set() + ds.to_set() =~= s.to_set());
    } else {
        lemma_record_union(s, ds[0]);
        lemma_record_all_union(spec_record(s, ds[0]), ds.drop_first());
        lemma_first_to_set(ds);
        assert(s.to_set().insert(ds[0]) + ds.drop_first().to_set()
            =~= s.to_set() + ds.drop_first().to_set().insert(ds[0]));
    }
}

/// Idempotence law: recording the same domain twice leaves exactly what
/// one recording leaves — in particular, one occurrence of that domain.
pub proof fn lemma_record_idempotent(s: Seq<Seq<char>>, d: Seq<char>)
    ensures
        spec_record(spec_record(s, d), d) == spec_record(s, d),
        spec_record(s, d).contains(d),
{
    if s.contains(d) {
    } else {
        assert(s.push(d)[s.len() as int] == d);
        assert(s.push(d).contains(d));
    }
}

} // verus!
