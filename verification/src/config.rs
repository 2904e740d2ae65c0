//! The validated configuration a successful compilation produces, and the
//! acknowledgement propagator that runs over it.

use vstd::prelude::*;
use crate::builder::ConfigBuilder;
use crate::components::{
    EnrichmentTableOuter, GlobalOptions, HealthcheckOptions, SecretBackend, SinkOuter, SourceInner,
    SourceOuter, TransformOuter,
};
use crate::id::{ComponentKey, OutputId};
use crate::omap::OMap;
use crate::testdef::TestDefinition;

verus! {

/// A compiled configuration: the namespaces after expansion, the resolved
/// tests, and the logical-to-physical expansion map.
pub struct Config {
    pub global: GlobalOptions,
    pub healthchecks: HealthcheckOptions,
    pub sources: OMap<SourceOuter>,
    pub transforms: OMap<TransformOuter>,
    pub sinks: OMap<SinkOuter>,
    pub enrichment_tables: OMap<EnrichmentTableOuter>,
    pub secret: OMap<SecretBackend>,
    pub tests: Vec<TestDefinition<OutputId>>,
    pub expansions: OMap<Vec<ComponentKey>>,
}

/// A sink's effective acknowledgement policy: its own setting, or the
/// global default where unset.
pub open spec fn effective_ack(sink: SinkOuter, g: GlobalOptions) -> bool {
    match sink.acknowledgements.enabled {
        Some(b) => b,
        None => g.acknowledgements.enabled == Some(true),
    }
}

/// Component `k` feeds, directly, a sink whose effective acknowledgement
/// policy is enabled.
pub open spec fn sink_seed(c: Config, k: Seq<char>) -> bool {
    exists|m: int, t: int|
        0 <= m < c.sinks.entries().len() && 0 <= t < c.sinks.entries()[m].1.inputs@.len()
            && effective_ack(c.sinks.entries()[m].1, c.global) && #[trigger] c.sinks.entries()[
        m].1.inputs@[t].component@ == k
}

/// Component `k` reaches an acknowledging sink through at most `d`
/// transforms.
pub open spec fn demanded(c: Config, k: Seq<char>, d: nat) -> bool
    decreases d,
{
    if d == 0 {
        sink_seed(c, k)
    } else {
        demanded(c, k, (d - 1) as nat) || exists|m: int, t: int|
            0 <= m < c.transforms.entries().len() && 0 <= t < c.transforms.entries()[
            m].1.inputs@.len() && demanded(c, c.transforms.entries()[m].0, (d - 1) as nat)
                && #[trigger] c.transforms.entries()[m].1.inputs@[t].component@ == k
    }
}

/// There is a path from component `k` to some sink with effective
/// acknowledgements enabled, through transforms only.
pub open spec fn ack_demanded(c: Config, k: Seq<char>) -> bool {
    exists|d: nat| demanded(c, k, d)
}

/// Key `k` occurs among the marks' component keys. Each mark pairs a
/// component key with the key of an acknowledging sink it reaches.
pub open spec fn in_marks(s: Seq<(String, String)>, k: Seq<char>) -> bool {
    exists|i: int| 0 <= i < s.len() && s[i].0@ == k
}

/// `snk` names a sink whose effective acknowledgement policy is enabled.
pub open spec fn is_ack_sink(c: Config, snk: Seq<char>) -> bool {
    exists|m: int|
        0 <= m < c.sinks.entries().len() && c.sinks.entries()[m].0 == snk && effective_ack(
            c.sinks.entries()[m].1,
            c.global,
        )
}

/// The position of the mark for component key `k`, if any.
fn marks_find(list: &Vec<(String, String)>, k: &str) -> (r: Option<usize>)
    ensures
        match r {
            Some(i) => i < list@.len() && list@[i as int].0@ == k@,
            None => !in_marks(list@, k@),
        },
{
    let n = list.len();
    let mut i: usize = 0;
    while i < n
        invariant
            0 <= i <= n,
            n == list@.len(),
            forall|j: int| 0 <= j < i ==> list@[j].0@ != k@,
        decreases n - i,
    {
        if crate::graph::str_eq(list[i].0.as_str(), k) {
            return Some(i);
        }
        i += 1;
    }
    None
}

/// Add a mark for `k`, carrying the sink `snk`, unless `k` is marked.
fn marks_add(list: &mut Vec<(String, String)>, k: &str, snk: &String) -> (added: bool)
    ensures
        forall|q: Seq<char>| in_marks(final(list)@, q) <==> in_marks(old(list)@, q) || q == k@,
        final(list)@.len() >= old(list)@.len(),
        final(list)@.len() <= old(list)@.len() + 1,
        added == (final(list)@.len() > old(list)@.len()),
        added == !in_marks(old(list)@, k@),
        forall|i: int| 0 <= i < old(list)@.len() ==> final(list)@[i] == old(list)@[i],
        added ==> final(list)@[final(list)@.len() - 1].0@ == k@
            && final(list)@[final(list)@.len() - 1].1@ == snk@,
{
    if marks_find(list, k).is_none() {
        list.push((k.to_owned(), snk.clone()));
        proof {
            assert forall|q: Seq<char>| in_marks(list@, q) implies in_marks(old(list)@, q) || q
                == k@ by {
                let i = choose|i: int| 0 <= i < list@.len() && list@[i].0@ == q;
                if i < old(list)@.len() {
                    assert(in_marks(old(list)@, q));
                }
            }
            assert forall|q: Seq<char>| in_marks(old(list)@, q) || q == k@ implies in_marks(
                list@,
                q,
            ) by {
                if in_marks(old(list)@, q) {
                    let i = choose|i: int| 0 <= i < old(list)@.len() && old(list)@[i].0@ == q;
                    assert(list@[i].0@ == q);
                } else {
                    assert(list@[list@.len() - 1].0@ == q);
                }
            }
        }
        true
    } else {
        false
    }
}

impl Config {
    pub open spec fn wf(&self) -> bool {
        self.sources.wf() && self.transforms.wf() && self.sinks.wf()
            && self.enrichment_tables.wf() && self.secret.wf() && self.expansions.wf()
    }

    /// A fresh builder to accumulate fragments into.
    pub fn builder() -> (r: ConfigBuilder)
        ensures
            r.wf(),
    {
        ConfigBuilder::new()
    }

    /// The sources, in declaration order.
    pub fn sources(&self) -> (r: &OMap<SourceOuter>)
        ensures
            r == &self.sources,
    {
        &self.sources
    }

    pub fn source(&self, id: &ComponentKey) -> (r: Option<&SourceOuter>)
        requires
            self.wf(),
        ensures
            match r {
                Some(v) => self.sources.spec_get(id@) == Some(*v),
                None => !self.sources.spec_contains(id@),
            },
    {
        self.sources.get(&id.id().to_owned())
    }

    /// The transforms, in declaration order.
    pub fn transforms(&self) -> (r: &OMap<TransformOuter>)
        ensures
            r == &self.transforms,
    {
        &self.transforms
    }

    pub fn transform(&self, id: &ComponentKey) -> (r: Option<&TransformOuter>)
        requires
            self.wf(),
        ensures
            match r {
                Some(v) => self.transforms.spec_get(id@) == Some(*v),
                None => !self.transforms.spec_contains(id@),
            },
    {
        self.transforms.get(&id.id().to_owned())
    }

    /// The sinks, in declaration order.
    pub fn sinks(&self) -> (r: &OMap<SinkOuter>)
        ensures
            r == &self.sinks,
    {
        &self.sinks
    }

    pub fn sink(&self, id: &ComponentKey) -> (r: Option<&SinkOuter>)
        requires
            self.wf(),
        ensures
            match r {
                Some(v) => self.sinks.spec_get(id@) == Some(*v),
                None => !self.sinks.spec_contains(id@),
            },
    {
        self.sinks.get(&id.id().to_owned())
    }

    /// The declared inputs of a transform or sink, or `None` for other
    /// identifiers.
    pub fn inputs_for_node(&self, id: &ComponentKey) -> (r: Option<&Vec<OutputId>>)
        requires
            self.wf(),
        ensures
            match r {
                Some(v) => (match self.transforms.spec_get(id@) {
                    Some(t) => v == &t.inputs,
                    None => match self.sinks.spec_get(id@) {
                        Some(sk) => v == &sk.inputs,
                        None => false,
                    },
                }),
                None => !self.transforms.spec_contains(id@) && !self.sinks.spec_contains(id@),
            },
    {
        let key = id.id().to_owned();
        match self.transforms.get(&key) {
            Some(t) => Some(&t.inputs),
            None => match self.sinks.get(&key) {
                Some(sk) => Some(&sk.inputs),
                None => None,
            },
        }
    }

    /// Expand a logical component id into the physical ids it expanded
    /// to, or the id itself when it was never a macro.
    pub fn expand_input(&self, identifier: &ComponentKey) -> (r: Vec<ComponentKey>)
        requires
            self.wf(),
        ensures
            match self.expansions.spec_get(identifier@) {
                Some(phys) => r@.len() == phys@.len() && forall|i: int|
                    0 <= i < phys@.len() ==> r@[i]@ == phys@[i]@,
                None => r@.len() == 1 && r@[0]@ == identifier@,
            },
    {
        match self.expansions.get(&identifier.id().to_owned()) {
            Some(phys) => {
                let n = phys.len();
                let mut out: Vec<ComponentKey> = Vec::new();
                let mut i: usize = 0;
                while i < n
                    invariant
                        0 <= i <= n,
                        n == phys@.len(),
                        out@.len() == i,
                        forall|j: int| 0 <= j < i ==> out@[j]@ == phys@[j]@,
                    decreases n - i,
                {
                    out.push(phys[i].clone());
                    i += 1;
                }
                out
            },
            None => {
                let mut out: Vec<ComponentKey> = Vec::new();
                out.push(identifier.clone());
                out
            },
        }
    }

    /// Compute which components must acknowledge: exactly those from
    /// which data reaches a sink with effective acknowledgements enabled,
    /// through transforms only.
    #[verifier::loop_isolation(false)]
    #[verifier::rlimit(100)]
    fn collect_ack_demand(&self) -> (marked: Vec<(String, String)>)
        requires
            self.wf(),
        ensures
            forall|k: Seq<char>| in_marks(marked@, k) <==> ack_demanded(*self, k),
            forall|i: int| 0 <= i < marked@.len() ==> is_ack_sink(*self, #[trigger] marked@[i].1@),
    {
        let mut marked: Vec<(String, String)> = Vec::new();
        // Seeds: the inputs of every acknowledging sink.
        let ns = self.sinks.len();
        let mut m: usize = 0;
        while m < ns
            invariant
                0 <= m <= ns,
                ns == self.sinks.entries().len(),
                forall|k: Seq<char>| in_marks(marked@, k) <==> seed_prefix(*self, m as int, k),
                forall|i: int|
                    0 <= i < marked@.len() ==> is_ack_sink(*self, #[trigger] marked@[i].1@),
            decreases ns - m,
        {
            let sk = self.sinks.val_at(m);
            let eff = match sk.acknowledgements.enabled {
                Some(b) => b,
                None => match self.global.acknowledgements.enabled {
                    Some(b) => b,
                    None => false,
                },
            };
            let ghost mv = m as int;
            proof {
                assert(eff == effective_ack(self.sinks.entries()[mv].1, self.global));
            }
            if eff {
                let mi = sk.inputs.len();
                let mut t: usize = 0;
                while t < mi
                    invariant
                        0 <= t <= mi,
                        0 <= m < ns,
                        ns == self.sinks.entries().len(),
                        mi == self.sinks.entries()[m as int].1.inputs@.len(),
                        effective_ack(self.sinks.entries()[m as int].1, self.global),
                        forall|i: int|
                            0 <= i < marked@.len() ==> is_ack_sink(
                                *self,
                                #[trigger] marked@[i].1@,
                            ),
                        forall|k: Seq<char>|
                            in_marks(marked@, k) <==> (seed_prefix(*self, m as int, k) || exists|
                                t2: int,
                            |
                                0 <= t2 < t && #[trigger] self.sinks.entries()[
                                m as int].1.inputs@[t2].component@ == k),
                    decreases mi - t,
                {
                    let ghost marked0 = marked@;
                    let seed_sink = self.sinks.key_at(m).clone();
                    marks_add(&mut marked, self.sinks.val_at(m).inputs[t].component.id(), &seed_sink);
                    proof {
                        assert(is_ack_sink(*self, seed_sink@));
                        assert forall|i2: int|
                            0 <= i2 < marked@.len() implies is_ack_sink(
                            *self,
                            #[trigger] marked@[i2].1@,
                        ) by {
                            if i2 < marked0.len() {
                                assert(marked@[i2] == marked0[i2]);
                            } else {
                                assert(marked@[i2].1@ == seed_sink@);
                            }
                        }
                    }
                    proof {
                        assert forall|k: Seq<char>|
                            in_marks(marked@, k) <==> (seed_prefix(*self, m as int, k) || exists|
                                t2: int,
                            |
                                0 <= t2 < t + 1 && #[trigger] self.sinks.entries()[
                                m as int].1.inputs@[t2].component@ == k) by {
                            if in_marks(marked@, k) && !in_marks(marked0, k) {
                                assert(self.sinks.entries()[m as int].1.inputs@[t as int].component@
                                    == k);
                            }
                            if !in_marks(marked@, k) {
                                assert(self.sinks.entries()[m as int].1.inputs@[t as int].component@
                                    != k);
                            }
                        }
                    }
                    t += 1;
                }
            }
            m += 1;
            proof {
                assert forall|k: Seq<char>|
                    in_marks(marked@, k) <==> seed_prefix(*self, m as int, k) by {
                    if seed_prefix(*self, m as int, k) && !seed_prefix(*self, m as int - 1, k) {
                        let (m2, t2): (int, int) = choose|m2: int, t2: int|
                            0 <= m2 < m && 0 <= t2 < self.sinks.entries()[m2].1.inputs@.len()
                                && effective_ack(self.sinks.entries()[m2].1, self.global)
                                && #[trigger] self.sinks.entries()[m2].1.inputs@[t2].component@
                                == k;
                        assert(m2 == m - 1);
                    }
                }
            }
        }
        proof {
            assert forall|k: Seq<char>| in_marks(marked@, k) <==> sink_seed(*self, k) by {}
            assert forall|k: Seq<char>| in_marks(marked@, k) implies ack_demanded(*self, k) by {
                assert(sink_seed(*self, k));
                assert(demanded(*self, k, 0));
            }
        }
        // Closure: expand every marked transform once, to a fixpoint.
        let nt = self.transforms.len();
        let mut expanded: Vec<bool> = Vec::new();
        let mut i0: usize = 0;
        while i0 < nt
            invariant
                0 <= i0 <= nt,
                expanded@.len() == i0,
                forall|j: int| 0 <= j < i0 ==> expanded@[j] == false,
            decreases nt - i0,
        {
            expanded.push(false);
            i0 += 1;
        }
        let mut num_exp: usize = 0;
        proof {
            crate::graph::lemma_count_all_false(expanded@);
        }
        let mut changed = true;
        while changed
            invariant
                expanded@.len() == nt,
                nt == self.transforms.entries().len(),
                num_exp == crate::graph::count_trues(expanded@),
                num_exp <= nt,
                forall|k: Seq<char>| sink_seed(*self, k) ==> in_marks(marked@, k),
                forall|k: Seq<char>| in_marks(marked@, k) ==> ack_demanded(*self, k),
                forall|i: int|
                    0 <= i < marked@.len() ==> is_ack_sink(*self, #[trigger] marked@[i].1@),
                forall|m2: int|
                    0 <= m2 < nt && expanded@[m2] ==> in_marks(
                        marked@,
                        self.transforms.entries()[m2].0,
                    ) && forall|t: int|
                        0 <= t < self.transforms.entries()[m2].1.inputs@.len() ==> in_marks(
                            marked@,
                            #[trigger] self.transforms.entries()[m2].1.inputs@[t].component@,
                        ),
                !changed ==> forall|m2: int|
                    0 <= m2 < nt && in_marks(marked@, self.transforms.entries()[m2].0)
                        ==> expanded@[m2],
            decreases nt - num_exp + if changed {
                1int
            } else {
                0int
            },
        {
            changed = false;
            let ghost ne_start = num_exp as int;
            let mut m2: usize = 0;
            while m2 < nt
                invariant
                    0 <= m2 <= nt,
                    expanded@.len() == nt,
                    nt == self.transforms.entries().len(),
                    num_exp == crate::graph::count_trues(expanded@),
                    num_exp <= nt,
                    changed ==> num_exp >= ne_start + 1,
                    !changed ==> num_exp == ne_start,
                    forall|k: Seq<char>| sink_seed(*self, k) ==> in_marks(marked@, k),
                    forall|k: Seq<char>| in_marks(marked@, k) ==> ack_demanded(*self, k),
                    forall|i: int|
                        0 <= i < marked@.len() ==> is_ack_sink(*self, #[trigger] marked@[i].1@),
                    forall|q: int|
                        0 <= q < nt && expanded@[q] ==> in_marks(
                            marked@,
                            self.transforms.entries()[q].0,
                        ) && forall|t: int|
                            0 <= t < self.transforms.entries()[q].1.inputs@.len() ==> in_marks(
                                marked@,
                                #[trigger] self.transforms.entries()[q].1.inputs@[t].component@,
                            ),
                    !changed ==> forall|q: int|
                        0 <= q < m2 && in_marks(marked@, self.transforms.entries()[q].0)
                            ==> expanded@[q],
                decreases nt - m2,
            {
                let found_mark = marks_find(&marked, self.transforms.key_at(m2).as_str());
                if !expanded[m2] && found_mark.is_some() {
                    let witness = marked[found_mark.unwrap()].1.clone();
                    proof {
                        assert(is_ack_sink(*self, witness@));
                    }
                    let ghost dpre = expanded@;
                    expanded[m2] = true;
                    proof {
                        crate::graph::lemma_count_update(dpre, m2 as int);
                        crate::graph::lemma_count_le_len(expanded@);
                    }
                    num_exp += 1;
                    changed = true;
                    let mi = self.transforms.val_at(m2).inputs.len();
                    let mut t: usize = 0;
                    while t < mi
                        invariant
                            0 <= t <= mi,
                            0 <= m2 < nt,
                            expanded@.len() == nt,
                            nt == self.transforms.entries().len(),
                            mi == self.transforms.entries()[m2 as int].1.inputs@.len(),
                            expanded@[m2 as int],
                            in_marks(marked@, self.transforms.entries()[m2 as int].0),
                            forall|k: Seq<char>| sink_seed(*self, k) ==> in_marks(marked@, k),
                            forall|k: Seq<char>| in_marks(marked@, k) ==> ack_demanded(*self, k),
                            forall|i: int|
                                0 <= i < marked@.len() ==> is_ack_sink(
                                    *self,
                                    #[trigger] marked@[i].1@,
                                ),
                            forall|q: int|
                                0 <= q < nt && expanded@[q] && q != m2 ==> in_marks(
                                    marked@,
                                    self.transforms.entries()[q].0,
                                ) && forall|t2: int|
                                    0 <= t2 < self.transforms.entries()[q].1.inputs@.len()
                                        ==> in_marks(
                                        marked@,
                                        #[trigger] self.transforms.entries()[
                                        q].1.inputs@[t2].component@,
                                    ),
                            forall|t2: int|
                                0 <= t2 < t ==> in_marks(
                                    marked@,
                                    #[trigger] self.transforms.entries()[
                                    m2 as int].1.inputs@[t2].component@,
                                ),
                        decreases mi - t,
                    {
                        let ghost marked0 = marked@;
                        marks_add(
                            &mut marked,
                            self.transforms.val_at(m2).inputs[t].component.id(),
                            &witness,
                        );
                        proof {
                            assert forall|i2: int|
                                0 <= i2 < marked@.len() implies is_ack_sink(
                                *self,
                                #[trigger] marked@[i2].1@,
                            ) by {
                                if i2 < marked0.len() {
                                    assert(marked@[i2] == marked0[i2]);
                                } else {
                                    assert(marked@[i2].1@ == witness@);
                                }
                            }
                        }
                        proof {
                            assert forall|k: Seq<char>|
                                in_marks(marked@, k) implies ack_demanded(*self, k) by {
                                if !in_marks(marked0, k) {
                                    assert(self.transforms.entries()[
                                    m2 as int].1.inputs@[t as int].component@ == k);
                                    assert(in_marks(
                                        marked0,
                                        self.transforms.entries()[m2 as int].0,
                                    ));
                                    assert(ack_demanded(
                                        *self,
                                        self.transforms.entries()[m2 as int].0,
                                    ));
                                    let d = choose|d: nat|
                                        demanded(
                                            *self,
                                            self.transforms.entries()[m2 as int].0,
                                            d,
                                        );
                                    assert(demanded(
                                        *self,
                                        self.transforms.entries()[m2 as int].0,
                                        ((d + 1) - 1) as nat,
                                    ));
                                    assert(demanded(*self, k, d + 1));
                                }
                            }
                        }
                        t += 1;
                    }
                }
                m2 += 1;
            }
        }
        // At the fixpoint the marked set is closed, so it holds every
        // demanded component.
        proof {
            assert forall|k: Seq<char>| ack_demanded(*self, k) implies in_marks(marked@, k) by {
                let d = choose|d: nat| demanded(*self, k, d);
                lemma_demand_closed(*self, marked@, expanded@, k, d);
            }
        }
        marked
    }

    /// Walk every acknowledging sink's inputs back through transforms and
    /// mark the sources reached: a source's flag is raised exactly when
    /// it can acknowledge and data flows from it, through transforms
    /// only, to a sink with effective acknowledgements. Nothing else of
    /// the configuration changes. A reached source that cannot
    /// acknowledge yields one warning naming the source and an
    /// acknowledging sink it reaches.
    #[verifier::loop_isolation(false)]
    #[verifier::rlimit(60)]
    pub fn propagate_acknowledgements(&mut self) -> (warnings: Vec<String>)
        requires
            old(self).wf(),
        ensures
            final(self).wf(),
            final(self).global == old(self).global,
            final(self).healthchecks == old(self).healthchecks,
            final(self).transforms == old(self).transforms,
            final(self).sinks == old(self).sinks,
            final(self).enrichment_tables == old(self).enrichment_tables,
            final(self).secret == old(self).secret,
            final(self).tests == old(self).tests,
            final(self).expansions == old(self).expansions,
            final(self).sources.entries().len() == old(self).sources.entries().len(),
            forall|i: int|
                0 <= i < old(self).sources.entries().len() ==> {
                    let oldent = old(self).sources.entries()[i];
                    let newent = #[trigger] final(self).sources.entries()[i];
                    newent.0 == oldent.0 && newent.1.inner == oldent.1.inner && newent.1.proxy
                        == oldent.1.proxy && newent.1.sink_acknowledgements == (
                    oldent.1.sink_acknowledgements || (oldent.1.inner.can_acknowledge
                        && ack_demanded(*old(self), oldent.0)))
                },
            warnings@.len() == 0 <==> forall|i: int|
                0 <= i < old(self).sources.entries().len() && ack_demanded(
                    *old(self),
                    #[trigger] old(self).sources.entries()[i].0,
                ) ==> old(self).sources.entries()[i].1.inner.can_acknowledge,
            forall|w: int|
                0 <= w < warnings@.len() ==> ack_warning_ok(
                    *old(self),
                    (#[trigger] warnings@[w])@,
                ),
    {
        let marked = self.collect_ack_demand();
        let mut warnings: Vec<String> = Vec::new();
        let n = self.sources.len();
        let mut i: usize = 0;
        while i < n
            invariant
                self.wf(),
                n == self.sources.entries().len(),
                0 <= i <= n,
                self.global == old(self).global,
                self.healthchecks == old(self).healthchecks,
                self.transforms == old(self).transforms,
                self.sinks == old(self).sinks,
                self.enrichment_tables == old(self).enrichment_tables,
                self.secret == old(self).secret,
                self.tests == old(self).tests,
                self.expansions == old(self).expansions,
                self.sources.entries().len() == n,
                forall|k: Seq<char>| in_marks(marked@, k) <==> ack_demanded(*old(self), k),
                forall|q: int|
                    i <= q < n ==> #[trigger] self.sources.entries()[q] == old(
                        self,
                    ).sources.entries()[q],
                forall|q: int|
                    0 <= q < i ==> {
                        let oldent = old(self).sources.entries()[q];
                        let newent = #[trigger] self.sources.entries()[q];
                        newent.0 == oldent.0 && newent.1.inner == oldent.1.inner
                            && newent.1.proxy == oldent.1.proxy && newent.1.sink_acknowledgements
                            == (oldent.1.sink_acknowledgements || (
                        oldent.1.inner.can_acknowledge && ack_demanded(*old(self), oldent.0)))
                    },
                warnings@.len() == 0 <==> forall|q: int|
                    0 <= q < i && ack_demanded(*old(self), #[trigger] old(self).sources.entries()[q].0)
                        ==> old(self).sources.entries()[q].1.inner.can_acknowledge,
                forall|i2: int|
                    0 <= i2 < marked@.len() ==> is_ack_sink(
                        *old(self),
                        #[trigger] marked@[i2].1@,
                    ),
                forall|w: int|
                    0 <= w < warnings@.len() ==> ack_warning_ok(
                        *old(self),
                        (#[trigger] warnings@[w])@,
                    ),
            decreases n - i,
        {
            let found_mark = marks_find(&marked, self.sources.key_at(i).as_str());
            if found_mark.is_some() {
                if self.sources.val_at(i).inner.can_acknowledge {
                    let dummy = SourceOuter::new(
                        SourceInner {
                            kind_name: String::new(),
                            outputs: Vec::new(),
                            resources: Vec::new(),
                            can_acknowledge: false,
                        },
                    );
                    let old_v = self.sources.swap_at(i, dummy);
                    let new_v = SourceOuter {
                        inner: old_v.inner,
                        proxy: old_v.proxy,
                        sink_acknowledgements: true,
                    };
                    let _ = self.sources.swap_at(i, new_v);
                    proof {
                        assert(self.sources.entries()[i as int].0 == old(
                            self,
                        ).sources.entries()[i as int].0);
                    }
                } else {
                    let ghost w0 = warnings@;
                    let sink_name = &marked[found_mark.unwrap()].1;
                    let mut msg =
                        "Source has acknowledgements enabled by a sink, but acknowledgements are not supported by this source. Silent data loss could occur. source="
                        .to_owned();
                    msg.append(self.sources.key_at(i).as_str());
                    msg.append(", sink=");
                    msg.append(sink_name.as_str());
                    warnings.push(msg);
                    proof {
                        let ghost idx = found_mark->Some_0 as int;
                        assert(in_marks(marked@, old(self).sources.entries()[i as int].0));
                        assert(ack_demanded(*old(self), old(self).sources.entries()[i as int].0));
                        assert(is_ack_sink(*old(self), marked@[idx].1@));
                        assert(warnings@[warnings@.len() - 1]@ == spec_ack_warn_msg(
                            old(self).sources.entries()[i as int].0,
                            marked@[idx].1@,
                        ));
                        assert(ack_warning_ok(*old(self), warnings@[warnings@.len() - 1]@));
                        assert forall|w: int|
                            0 <= w < warnings@.len() implies ack_warning_ok(
                            *old(self),
                            (#[trigger] warnings@[w])@,
                        ) by {
                            if w < w0.len() {
                                assert(warnings@[w] == w0[w]);
                            }
                        }
                    }
                }
            }
            i += 1;
        }
        warnings
    }
}

/// The warning `w` is the message for some source the propagator reached
/// that cannot acknowledge, naming it and an acknowledging sink.
pub open spec fn ack_warning_ok(c: Config, w: Seq<char>) -> bool {
    exists|q: int, snk: Seq<char>|
        0 <= q < c.sources.entries().len() && ack_demanded(c, c.sources.entries()[q].0) && !c.sources.entries()[q].1.inner.can_acknowledge
            && is_ack_sink(c, snk) && w == spec_ack_warn_msg(c.sources.entries()[q].0, snk)
}

/// The warning for a source a sink demands acknowledgements of, where
/// the source does not support them.
pub open spec fn spec_ack_warn_msg(src: Seq<char>, snk: Seq<char>) -> Seq<char> {
    "Source has acknowledgements enabled by a sink, but acknowledgements are not supported by this source. Silent data loss could occur. source="@
        + src + ", sink="@ + snk
}

/// The seeds contributed by the first `m` sinks.
pub open spec fn seed_prefix(c: Config, m: int, k: Seq<char>) -> bool {
    exists|m2: int, t2: int|
        0 <= m2 < m && 0 <= t2 < c.sinks.entries()[m2].1.inputs@.len() && effective_ack(
            c.sinks.entries()[m2].1,
            c.global,
        ) && #[trigger] c.sinks.entries()[m2].1.inputs@[t2].component@ == k
}

/// A closed marked set that holds the seeds holds everything demanded.
proof fn lemma_demand_closed(
    c: Config,
    marked: Seq<(String, String)>,
    expanded: Seq<bool>,
    k: Seq<char>,
    d: nat,
)
    requires
        demanded(c, k, d),
        expanded.len() == c.transforms.entries().len(),
        forall|k2: Seq<char>| sink_seed(c, k2) ==> in_marks(marked, k2),
        forall|m2: int|
            0 <= m2 < expanded.len() && expanded[m2] ==> forall|t: int|
                0 <= t < c.transforms.entries()[m2].1.inputs@.len() ==> in_marks(
                    marked,
                    #[trigger] c.transforms.entries()[m2].1.inputs@[t].component@,
                ),
        forall|m2: int|
            0 <= m2 < expanded.len() && in_marks(marked, c.transforms.entries()[m2].0)
                ==> expanded[m2],
    ensures
        in_marks(marked, k),
    decreases d,
{
    if d == 0 {
    } else {
        if demanded(c, k, (d - 1) as nat) {
            lemma_demand_closed(c, marked, expanded, k, (d - 1) as nat);
        } else {
            let (m, t): (int, int) = choose|m: int, t: int|
                0 <= m < c.transforms.entries().len() && 0 <= t < c.transforms.entries()[
                m].1.inputs@.len() && demanded(c, c.transforms.entries()[m].0, (d - 1) as nat)
                    && #[trigger] c.transforms.entries()[m].1.inputs@[t].component@ == k;
            lemma_demand_closed(c, marked, expanded, c.transforms.entries()[m].0, (d - 1) as nat);
            assert(expanded[m]);
            assert(in_marks(marked, c.transforms.entries()[m].1.inputs@[t].component@));
        }
    }
}

/// The expansion map never maps a physical name back to a logical one.
pub open spec fn exp_map_wf(exp: Seq<(Seq<char>, Vec<ComponentKey>)>) -> bool {
    forall|m: int, p: int|
        0 <= m < exp.len() && 0 <= p < exp[m].1@.len() ==> crate::omap::find_in(
            exp,
            (#[trigger] exp[m].1@[p])@,
        ) is None
}

/// The configuration's expansion map never maps a physical name back to a
/// logical one.
pub open spec fn expansions_wf(c: Config) -> bool {
    exp_map_wf(c.expansions.entries())
}

/// Whether a component is demanded depends only on the sinks, transforms
/// and globals; the rest of the configuration is irrelevant.
pub proof fn lemma_demanded_same(c1: Config, c2: Config, k: Seq<char>, d: nat)
    requires
        c1.sinks == c2.sinks,
        c1.transforms == c2.transforms,
        c1.global == c2.global,
    ensures
        demanded(c1, k, d) == demanded(c2, k, d),
    decreases d,
{
    assert(sink_seed(c1, k) == sink_seed(c2, k)) by {
        if sink_seed(c1, k) {
            let (m, t): (int, int) = choose|m: int, t: int|
                0 <= m < c1.sinks.entries().len() && 0 <= t < c1.sinks.entries()[
                m].1.inputs@.len() && effective_ack(c1.sinks.entries()[m].1, c1.global)
                    && #[trigger] c1.sinks.entries()[m].1.inputs@[t].component@ == k;
            assert(c2.sinks.entries()[m].1.inputs@[t].component@ == k);
        }
        if sink_seed(c2, k) {
            let (m, t): (int, int) = choose|m: int, t: int|
                0 <= m < c2.sinks.entries().len() && 0 <= t < c2.sinks.entries()[
                m].1.inputs@.len() && effective_ack(c2.sinks.entries()[m].1, c2.global)
                    && #[trigger] c2.sinks.entries()[m].1.inputs@[t].component@ == k;
            assert(c1.sinks.entries()[m].1.inputs@[t].component@ == k);
        }
    }
    if d > 0 {
        lemma_demanded_same(c1, c2, k, (d - 1) as nat);
        assert forall|m: int|
            0 <= m < c1.transforms.entries().len() implies demanded(
            c1,
            #[trigger] c1.transforms.entries()[m].0,
            (d - 1) as nat,
        ) == demanded(c2, c2.transforms.entries()[m].0, (d - 1) as nat) by {
            lemma_demanded_same(c1, c2, c1.transforms.entries()[m].0, (d - 1) as nat);
        }
        assert(demanded(c1, k, d) == demanded(c2, k, d)) by {
            if demanded(c1, k, d) && !demanded(c1, k, (d - 1) as nat) {
                let (m, t): (int, int) = choose|m: int, t: int|
                    0 <= m < c1.transforms.entries().len() && 0 <= t < c1.transforms.entries()[
                    m].1.inputs@.len() && demanded(c1, c1.transforms.entries()[m].0, (d - 1) as nat)
                        && #[trigger] c1.transforms.entries()[m].1.inputs@[t].component@ == k;
                assert(c2.transforms.entries()[m].1.inputs@[t].component@ == k);
                assert(demanded(c2, c2.transforms.entries()[m].0, (d - 1) as nat));
            }
            if demanded(c2, k, d) && !demanded(c2, k, (d - 1) as nat) {
                let (m, t): (int, int) = choose|m: int, t: int|
                    0 <= m < c2.transforms.entries().len() && 0 <= t < c2.transforms.entries()[
                    m].1.inputs@.len() && demanded(c2, c2.transforms.entries()[m].0, (d - 1) as nat)
                        && #[trigger] c2.transforms.entries()[m].1.inputs@[t].component@ == k;
                assert(c1.transforms.entries()[m].1.inputs@[t].component@ == k);
                assert(demanded(c1, c1.transforms.entries()[m].0, (d - 1) as nat));
            }
        }
    }
}

/// The same, for reachability at any depth.
pub proof fn lemma_ack_demanded_same(c1: Config, c2: Config, k: Seq<char>)
    requires
        c1.sinks == c2.sinks,
        c1.transforms == c2.transforms,
        c1.global == c2.global,
    ensures
        ack_demanded(c1, k) == ack_demanded(c2, k),
{
    if ack_demanded(c1, k) {
        let d = choose|d: nat| demanded(c1, k, d);
        lemma_demanded_same(c1, c2, k, d);
        assert(demanded(c2, k, d));
    }
    if ack_demanded(c2, k) {
        let d = choose|d: nat| demanded(c2, k, d);
        lemma_demanded_same(c1, c2, k, d);
        assert(demanded(c1, k, d));
    }
}

/// Law: expansion round trip. For every logical name with expansion list
/// E, looking the name up yields exactly E, and every physical name in E
/// is absent from the map, so expanding it yields the name alone.
pub proof fn lemma_expansion_round_trip(c: Config, m: int)
    requires
        c.wf(),
        expansions_wf(c),
        0 <= m < c.expansions.entries().len(),
    ensures
        c.expansions.spec_get(c.expansions.entries()[m].0) == Some(c.expansions.entries()[m].1),
        forall|p: int|
            0 <= p < c.expansions.entries()[m].1@.len() ==> !c.expansions.spec_contains(
                #[trigger] c.expansions.entries()[m].1@[p]@,
            ),
{
    c.expansions.wf_distinct();
    crate::omap::lemma_find_characterizes(c.expansions.entries(), c.expansions.entries()[m].0, 0);
}

} // verus!
