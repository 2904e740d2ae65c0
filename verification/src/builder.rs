//! The mutable accumulator that configuration fragments fold into. Each
//! fragment becomes one builder; `append` merges a later fragment into an
//! earlier one, reporting key collisions per namespace.

use vstd::prelude::*;
use crate::components::{
    EnrichmentTableOuter, GlobalOptions, HealthcheckOptions, SecretBackend, SinkOuter, SourceOuter,
    TransformOuter,
};
use crate::omap::{
    distinct_keys, find_in, merge_dup_keys, merge_result, lemma_find_characterizes,
    lemma_merge_contains, lemma_merge_dup_keys_contains, lemma_merge_result_disjoint, OMap,
};
use crate::testdef::TestDefinition;

verus! {

/// Options of the paid management integration; the `tags` sub-table is
/// operator-chosen labelling and is excluded from the configuration hash.
pub struct EnterpriseOptions {
    pub api_key: String,
    pub configuration_key: String,
    pub tags: OMap<String>,
}

/// The collision message for one duplicate key.
pub open spec fn spec_dup_msg(kind: Seq<char>, key: Seq<char>) -> Seq<char> {
    "duplicate "@ + kind + " id found: "@ + key
}

fn dup_msg(kind: &str, key: &String) -> (r: String)
    ensures
        r@ == spec_dup_msg(kind@, key@),
{
    let mut s = "duplicate ".to_owned();
    s.append(kind);
    s.append(" id found: ");
    s.append(key.as_str());
    s
}

/// Fold `other` into `target`, appending one collision message per key of
/// `other` that `target` already holds. `other` is drained.
#[verifier::loop_isolation(false)]
fn merge_namespace<V>(target: &mut OMap<V>, other: &mut OMap<V>, kind: &str, errors: &mut Vec<
    String,
>)
    requires
        old(target).wf(),
        old(other).wf(),
    ensures
        final(target).wf(),
        final(target).entries() == merge_result(old(target).entries(), old(other).entries()),
        final(errors)@.len() == old(errors)@.len() + merge_dup_keys(
            old(target).entries(),
            old(other).entries(),
        ).len(),
        forall|i: int| 0 <= i < old(errors)@.len() ==> final(errors)@[i] == old(errors)@[i],
        forall|i: int|
            0 <= i < merge_dup_keys(old(target).entries(), old(other).entries()).len()
                ==> final(errors)@[old(errors)@.len() + i]@ == spec_dup_msg(
                kind@,
                merge_dup_keys(old(target).entries(), old(other).entries())[i],
            ),
{
    let ghost t0 = old(target).entries();
    let ghost o0 = old(other).entries();
    let ghost e0 = old(errors)@;
    loop
        invariant
            target.wf(),
            other.wf(),
            merge_result(t0, o0) == merge_result(target.entries(), other.entries()),
            errors@.len() >= e0.len(),
            errors@.len() - e0.len() + merge_dup_keys(target.entries(), other.entries()).len()
                == merge_dup_keys(t0, o0).len(),
            forall|i: int| 0 <= i < e0.len() ==> errors@[i] == e0[i],
            forall|i: int|
                e0.len() <= i < errors@.len() ==> errors@[i]@ == spec_dup_msg(
                    kind@,
                    merge_dup_keys(t0, o0)[i - e0.len()],
                ),
            forall|i: int|
                0 <= i < merge_dup_keys(target.entries(), other.entries()).len()
                    ==> merge_dup_keys(target.entries(), other.entries())[i] == merge_dup_keys(
                    t0,
                    o0,
                )[errors@.len() - e0.len() + i],
        decreases other.spec_len(),
    {
        let ghost tpre = target.entries();
        let ghost opre = other.entries();
        match other.shift() {
            None => {
                break ;
            },
            Some((k, v)) => {
                if target.contains_key(&k) {
                    let ghost eprev = errors@.len() - e0.len();
                    errors.push(dup_msg(kind, &k));
                    proof {
                        assert(merge_dup_keys(tpre, opre) == seq![opre[0].0] + merge_dup_keys(
                            target.entries(),
                            other.entries(),
                        ));
                        assert(merge_dup_keys(tpre, opre)[0] == opre[0].0);
                        assert(merge_dup_keys(t0, o0)[eprev] == opre[0].0);
                        assert(errors@.last()@ == spec_dup_msg(kind@, merge_dup_keys(t0, o0)[
                        eprev]));
                        assert forall|i: int|
                            0 <= i < merge_dup_keys(target.entries(), other.entries()).len()
                                implies merge_dup_keys(target.entries(), other.entries())[i]
                            == merge_dup_keys(t0, o0)[errors@.len() - e0.len() + i] by {
                            assert(merge_dup_keys(tpre, opre)[i + 1] == merge_dup_keys(
                                target.entries(),
                                other.entries(),
                            )[i]);
                        }
                    }
                } else {
                    target.push(k, v);
                    proof {
                        assert(merge_result(tpre, opre) == merge_result(
                            target.entries(),
                            other.entries(),
                        )) by {
                            assert(target.entries() == tpre.push(opre[0]));
                        }
                        assert(merge_dup_keys(tpre, opre) == merge_dup_keys(
                            target.entries(),
                            other.entries(),
                        ));
                    }
                }
            },
        }
    }
}

/// The configuration builder: globals plus one ordered namespace per
/// component kind, the test list, and optional enterprise options.
pub struct ConfigBuilder {
    pub global: GlobalOptions,
    pub healthchecks: HealthcheckOptions,
    pub sources: OMap<SourceOuter>,
    pub transforms: OMap<TransformOuter>,
    pub sinks: OMap<SinkOuter>,
    pub enrichment_tables: OMap<EnrichmentTableOuter>,
    pub secret: OMap<SecretBackend>,
    pub tests: Vec<TestDefinition<String>>,
    pub enterprise: Option<EnterpriseOptions>,
}

impl ConfigBuilder {
    /// All namespaces well-formed.
    pub open spec fn wf(&self) -> bool {
        self.sources.wf() && self.transforms.wf() && self.sinks.wf()
            && self.enrichment_tables.wf() && self.secret.wf() && match self.enterprise {
            Some(e) => e.tags.wf(),
            None => true,
        }
    }

    pub fn new() -> (r: Self)
        ensures
            r.wf(),
            r.sources.spec_len() == 0,
            r.transforms.spec_len() == 0,
            r.sinks.spec_len() == 0,
            r.enrichment_tables.spec_len() == 0,
            r.secret.spec_len() == 0,
            r.tests@.len() == 0,
            r.enterprise is None,
            r.healthchecks.enabled == true,
            r.healthchecks.require_healthy == false,
    {
        ConfigBuilder {
            global: Default::default(),
            healthchecks: Default::default(),
            sources: OMap::new(),
            transforms: OMap::new(),
            sinks: OMap::new(),
            enrichment_tables: OMap::new(),
            secret: OMap::new(),
            tests: Vec::new(),
            enterprise: None,
        }
    }
}

/// Whether a log schema differs from the default one.
pub open spec fn custom_schema(g: &GlobalOptions) -> bool {
    !(g.log_schema.host_key@ == "host"@ && g.log_schema.message_key@ == "message"@
        && g.log_schema.timestamp_key@ == "timestamp"@)
}

/// The collision messages that appending `b` to `a` reports, in namespace
/// order: sources, sinks, transforms, enrichment tables, secrets.
pub open spec fn append_err_msgs(a: ConfigBuilder, b: ConfigBuilder) -> Seq<Seq<char>> {
    merge_dup_keys(a.sources.entries(), b.sources.entries()).map_values(
        |k: Seq<char>| spec_dup_msg("source"@, k),
    ) + merge_dup_keys(a.sinks.entries(), b.sinks.entries()).map_values(
        |k: Seq<char>| spec_dup_msg("sink"@, k),
    ) + merge_dup_keys(a.transforms.entries(), b.transforms.entries()).map_values(
        |k: Seq<char>| spec_dup_msg("transform"@, k),
    ) + merge_dup_keys(a.enrichment_tables.entries(), b.enrichment_tables.entries()).map_values(
        |k: Seq<char>| spec_dup_msg("enrichment table"@, k),
    ) + merge_dup_keys(a.secret.entries(), b.secret.entries()).map_values(
        |k: Seq<char>| spec_dup_msg("secret"@, k),
    )
}

impl ConfigBuilder {
    /// Fold a later fragment into this builder.
    ///
    /// Every namespace takes the newcomer's entries whose keys are free;
    /// for each collision the first writer wins and one message is
    /// reported, and the call returns all messages. Tests concatenate.
    /// Healthchecks merge (`enabled` by and, `require_healthy` by or);
    /// optional globals are last-writer-wins when the newcomer sets them.
    pub fn append(&mut self, other: ConfigBuilder) -> (r: Result<(), Vec<String>>)
        requires
            old(self).wf(),
            other.wf(),
        ensures
            final(self).wf(),
            final(self).sources.entries() == merge_result(
                old(self).sources.entries(),
                other.sources.entries(),
            ),
            final(self).sinks.entries() == merge_result(
                old(self).sinks.entries(),
                other.sinks.entries(),
            ),
            final(self).transforms.entries() == merge_result(
                old(self).transforms.entries(),
                other.transforms.entries(),
            ),
            final(self).enrichment_tables.entries() == merge_result(
                old(self).enrichment_tables.entries(),
                other.enrichment_tables.entries(),
            ),
            final(self).secret.entries() == merge_result(
                old(self).secret.entries(),
                other.secret.entries(),
            ),
            final(self).tests@ == old(self).tests@ + other.tests@,
            final(self).healthchecks.enabled == (old(self).healthchecks.enabled
                && other.healthchecks.enabled),
            final(self).healthchecks.require_healthy == (old(self).healthchecks.require_healthy
                || other.healthchecks.require_healthy),
            final(self).global.data_dir == if other.global.data_dir is Some {
                other.global.data_dir
            } else {
                old(self).global.data_dir
            },
            final(self).global.acknowledgements.enabled
                == if other.global.acknowledgements.enabled is Some {
                other.global.acknowledgements.enabled
            } else {
                old(self).global.acknowledgements.enabled
            },
            final(self).global.timezone == if other.global.timezone is Some {
                other.global.timezone
            } else {
                old(self).global.timezone
            },
            final(self).global.proxy.http == if other.global.proxy.http is Some {
                other.global.proxy.http
            } else {
                old(self).global.proxy.http
            },
            final(self).global.proxy.https == if other.global.proxy.https is Some {
                other.global.proxy.https
            } else {
                old(self).global.proxy.https
            },
            custom_schema(&other.global) ==> final(self).global.log_schema == other.global.log_schema,
            !custom_schema(&other.global) ==> final(self).global.log_schema == old(
                self,
            ).global.log_schema,
            match r {
                Ok(_) => append_err_msgs(*old(self), other).len() == 0,
                Err(es) => es@.len() > 0 && es@.map_values(|s: String| s@) == append_err_msgs(
                    *old(self),
                    other,
                ),
            },
    {
        let ghost other0 = other;
        let ConfigBuilder {
            global,
            healthchecks,
            sources: mut o_sources,
            transforms: mut o_transforms,
            sinks: mut o_sinks,
            enrichment_tables: mut o_tables,
            secret: mut o_secret,
            tests: mut o_tests,
            enterprise: o_enterprise,
        } = other;
        let mut errors: Vec<String> = Vec::new();
        merge_namespace(&mut self.sources, &mut o_sources, "source", &mut errors);
        merge_namespace(&mut self.sinks, &mut o_sinks, "sink", &mut errors);
        merge_namespace(&mut self.transforms, &mut o_transforms, "transform", &mut errors);
        merge_namespace(
            &mut self.enrichment_tables,
            &mut o_tables,
            "enrichment table",
            &mut errors,
        );
        merge_namespace(&mut self.secret, &mut o_secret, "secret", &mut errors);
        self.tests.append(&mut o_tests);
        self.healthchecks.merge(healthchecks);
        let GlobalOptions { data_dir, log_schema, acknowledgements, proxy, timezone } = global;
        if data_dir.is_some() {
            self.global.data_dir = data_dir;
        }
        if acknowledgements.enabled.is_some() {
            self.global.acknowledgements = acknowledgements;
        }
        if timezone.is_some() {
            self.global.timezone = timezone;
        }
        let h_def = "host".to_owned();
        let m_def = "message".to_owned();
        let t_def = "timestamp".to_owned();
        let custom = !(log_schema.host_key == h_def && log_schema.message_key == m_def
            && log_schema.timestamp_key == t_def);
        if custom {
            self.global.log_schema = log_schema;
        }
        let crate::components::ProxyConfig { enabled: _, http, https, no_proxy } = proxy;
        if http.is_some() {
            self.global.proxy.http = http;
        }
        if https.is_some() {
            self.global.proxy.https = https;
        }
        if no_proxy.len() > 0 {
            self.global.proxy.no_proxy = no_proxy;
        }
        if o_enterprise.is_some() {
            self.enterprise = o_enterprise;
        }
        proof {
            assert(errors@.map_values(|s: String| s@) =~= append_err_msgs(*old(self), other0));
        }
        if errors.len() == 0 {
            Ok(())
        } else {
            Err(errors)
        }
    }
}

/// Both `x` and `y` bind the key `k`.
pub open spec fn collides<V>(x: Seq<(Seq<char>, V)>, y: Seq<(Seq<char>, V)>, k: Seq<char>) -> bool {
    find_in(x, k) is Some && find_in(y, k) is Some
}

/// Law: folding fragments together is associative when no keys collide.
/// For any three namespaces with unique keys and no key shared between
/// any two, merging the first two and then the third gives the same
/// entries as merging the last two into the first.
pub proof fn lemma_append_associative<V>(
    a: Seq<(Seq<char>, V)>,
    b: Seq<(Seq<char>, V)>,
    c: Seq<(Seq<char>, V)>,
)
    requires
        distinct_keys(a),
        distinct_keys(b),
        distinct_keys(c),
        forall|k: Seq<char>| !(find_in(a, k) is Some && find_in(b, k) is Some),
        forall|k: Seq<char>| !(find_in(a, k) is Some && find_in(c, k) is Some),
        forall|k: Seq<char>| !(find_in(b, k) is Some && find_in(c, k) is Some),
    ensures
        merge_result(merge_result(a, b), c) == merge_result(a, merge_result(b, c)),
        merge_result(merge_result(a, b), c) == a + b + c,
{
    lemma_merge_result_disjoint(a, b);
    lemma_merge_result_disjoint(b, c);
    assert forall|k: Seq<char>| !(find_in(a + b, k) is Some && find_in(c, k) is Some) by {
        lemma_merge_contains(a, b, k);
    }
    assert forall|k: Seq<char>| !(find_in(a, k) is Some && find_in(b + c, k) is Some) by {
        lemma_merge_contains(b, c, k);
    }
    assert(distinct_keys(b + c)) by {
        assert forall|i: int, j: int| 0 <= i < j < (b + c).len() implies (b + c)[i].0 != (b
            + c)[j].0 by {
            if i < b.len() && j >= b.len() {
                lemma_find_characterizes(b, b[i].0, 0);
                lemma_find_characterizes(c, (b + c)[j].0, 0);
                assert(find_in(b, b[i].0) is Some);
                assert((b + c)[j] == c[j - b.len()]);
                assert(find_in(c, c[j - b.len()].0) is Some);
            } else if j < b.len() {
            } else {
                assert((b + c)[i] == c[i - b.len()]);
                assert((b + c)[j] == c[j - b.len()]);
            }
        }
    }
    lemma_merge_result_disjoint(a + b, c);
    lemma_merge_result_disjoint(a, b + c);
    assert(a + b + c =~= a + (b + c));
}

/// Law: with collisions, the keys reported while folding three fragments
/// left to right are exactly the union of the pairwise collisions.
pub proof fn lemma_append_collisions_union<V>(
    a: Seq<(Seq<char>, V)>,
    b: Seq<(Seq<char>, V)>,
    c: Seq<(Seq<char>, V)>,
    k: Seq<char>,
)
    requires
        distinct_keys(b),
        distinct_keys(c),
    ensures
        (merge_dup_keys(a, b).contains(k) || merge_dup_keys(merge_result(a, b), c).contains(k))
            <==> (collides(a, b, k) || collides(a, c, k) || collides(b, c, k)),
{
    lemma_merge_dup_keys_contains(a, b, k);
    lemma_merge_dup_keys_contains(merge_result(a, b), c, k);
    lemma_merge_contains(a, b, k);
}

} // verus!
