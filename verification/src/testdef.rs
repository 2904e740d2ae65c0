//! Unit-test definitions carried inside a configuration. Before binding,
//! a test refers to components by bare strings; the binder resolves those
//! against the expanded graph into typed output identifiers.

use vstd::prelude::*;
use crate::graph::Graph;
use crate::id::{ComponentKey, OutputId};
use crate::omap::OMap;


verus! {

/// Value for a log field of a test input event. A floating-point value is
/// carried as its literal text; the compiler never computes with it.
pub enum TestInputValue {
    TextValue(String),
    Integer(i64),
    Decimal(String),
    Boolean(bool),
}

/// A unit-test input: which transform to insert the event at, and the
/// event itself.
pub struct TestInput {
    pub insert_at: ComponentKey,
    pub type_str: String,
    pub value: Option<String>,
    pub log_fields: Vec<(String, TestInputValue)>,
}

/// The default kind of a test input event.
pub fn default_test_input_type() -> (r: String)
    ensures
        r@ == "raw"@,
{
    "raw".to_owned()
}

/// A unit-test output: where to extract events from, and the conditions
/// they must meet. Conditions are opaque to the compiler and carried
/// through unchanged, each as the name of a registered condition.
pub struct TestOutput<T> {
    pub extract_from: Vec<T>,
    pub conditions: Vec<String>,
}

/// A unit test: named, with input events and expected outputs. `T` is the
/// reference form: `String` before binding, `OutputId` after.
pub struct TestDefinition<T> {
    pub name: String,
    pub input: Option<TestInput>,
    pub inputs: Vec<TestInput>,
    pub outputs: Vec<TestOutput<T>>,
    pub no_outputs_from: Vec<T>,
}

/// The views of a list of strings.
pub open spec fn str_views(refs: Seq<String>) -> Seq<Seq<char>> {
    refs.map_values(|r: String| r@)
}

/// The texts one reference expands to: the physical list when the
/// reference is a logical name of the expansion map, the reference alone
/// otherwise.
pub open spec fn targets_of(
    exp: Seq<(Seq<char>, Vec<ComponentKey>)>,
    from: Seq<char>,
) -> Seq<Seq<char>> {
    match crate::omap::find_in(exp, from) {
        Some(phys) => phys@.map_values(|k: ComponentKey| k@),
        None => seq![from],
    }
}

/// All expanded targets of a reference list, in order.
pub open spec fn targets_of_all(
    exp: Seq<(Seq<char>, Vec<ComponentKey>)>,
    refs: Seq<Seq<char>>,
) -> Seq<Seq<char>>
    decreases refs.len(),
{
    if refs.len() == 0 {
        Seq::empty()
    } else {
        targets_of(exp, refs[0]) + targets_of_all(exp, refs.drop_first())
    }
}

/// The targets some producer stream carries, in order.
pub open spec fn resolvable_targets(
    nodes: Seq<crate::graph::Node>,
    targets: Seq<Seq<char>>,
) -> Seq<Seq<char>>
    decreases targets.len(),
{
    if targets.len() == 0 {
        Seq::empty()
    } else if crate::graph::stream_text_matches(nodes, targets[0]) {
        seq![targets[0]] + resolvable_targets(nodes, targets.drop_first())
    } else {
        resolvable_targets(nodes, targets.drop_first())
    }
}

/// The targets no producer stream carries, in order.
pub open spec fn missing_targets(
    nodes: Seq<crate::graph::Node>,
    targets: Seq<Seq<char>>,
) -> Seq<Seq<char>>
    decreases targets.len(),
{
    if targets.len() == 0 {
        Seq::empty()
    } else if crate::graph::stream_text_matches(nodes, targets[0]) {
        missing_targets(nodes, targets.drop_first())
    } else {
        seq![targets[0]] + missing_targets(nodes, targets.drop_first())
    }
}

/// Both target splits distribute over concatenation.
pub proof fn lemma_targets_split_concat(
    nodes: Seq<crate::graph::Node>,
    a: Seq<Seq<char>>,
    b: Seq<Seq<char>>,
)
    ensures
        resolvable_targets(nodes, a + b) == resolvable_targets(nodes, a) + resolvable_targets(
            nodes,
            b,
        ),
        missing_targets(nodes, a + b) == missing_targets(nodes, a) + missing_targets(nodes, b),
    decreases a.len(),
{
    if a.len() == 0 {
        assert(a + b =~= b);
        assert(resolvable_targets(nodes, a) + resolvable_targets(nodes, b) =~= resolvable_targets(
            nodes,
            b,
        ));
        assert(missing_targets(nodes, a) + missing_targets(nodes, b) =~= missing_targets(
            nodes,
            b,
        ));
    } else {
        assert((a + b).drop_first() =~= a.drop_first() + b);
        assert((a + b)[0] == a[0]);
        lemma_targets_split_concat(nodes, a.drop_first(), b);
        if crate::graph::stream_text_matches(nodes, a[0]) {
            assert(resolvable_targets(nodes, a + b) =~= resolvable_targets(nodes, a)
                + resolvable_targets(nodes, b));
            assert(missing_targets(nodes, a + b) =~= missing_targets(nodes, a) + missing_targets(
                nodes,
                b,
            ));
        } else {
            assert(resolvable_targets(nodes, a + b) =~= resolvable_targets(nodes, a)
                + resolvable_targets(nodes, b));
            assert(missing_targets(nodes, a + b) =~= missing_targets(nodes, a) + missing_targets(
                nodes,
                b,
            ));
        }
    }
}

/// The expected surviving outputs: per original output, its resolvable
/// expanded targets, carried with its conditions; outputs with no
/// resolvable target are dropped.
pub open spec fn surviving_outputs(
    nodes: Seq<crate::graph::Node>,
    exp: Seq<(Seq<char>, Vec<ComponentKey>)>,
    outs: Seq<TestOutput<String>>,
) -> Seq<(Seq<Seq<char>>, Vec<String>)>
    decreases outs.len(),
{
    if outs.len() == 0 {
        Seq::empty()
    } else {
        let rt = resolvable_targets(nodes, targets_of_all(exp, str_views(outs[0].extract_from@)));
        if rt.len() > 0 {
            seq![(rt, outs[0].conditions)] + surviving_outputs(nodes, exp, outs.drop_first())
        } else {
            surviving_outputs(nodes, exp, outs.drop_first())
        }
    }
}

/// The message for one unresolvable `extract_from` target.
pub open spec fn spec_extract_miss_msg(name: Seq<char>, target: Seq<char>) -> Seq<char> {
    "Invalid extract_from target in test '"@ + name + "': '"@ + target + "' does not exist"@
}

/// The message for one unresolvable `no_outputs_from` target.
pub open spec fn spec_no_outputs_miss_msg(name: Seq<char>, target: Seq<char>) -> Seq<char> {
    "Invalid no_outputs_from target in test '"@ + name + "': '"@ + target + "' does not exist"@
}

/// The messages for every unresolvable expanded `extract_from` target of
/// every output, in order.
pub open spec fn extract_miss_msgs(
    nodes: Seq<crate::graph::Node>,
    exp: Seq<(Seq<char>, Vec<ComponentKey>)>,
    name: Seq<char>,
    outs: Seq<TestOutput<String>>,
) -> Seq<Seq<char>>
    decreases outs.len(),
{
    if outs.len() == 0 {
        Seq::empty()
    } else {
        missing_targets(nodes, targets_of_all(exp, str_views(outs[0].extract_from@))).map_values(
            |t: Seq<char>| spec_extract_miss_msg(name, t),
        ) + extract_miss_msgs(nodes, exp, name, outs.drop_first())
    }
}

/// The messages for every unresolvable `no_outputs_from` reference, in
/// order. These references are looked up as written, without expansion.
pub open spec fn no_outputs_miss_msgs(
    nodes: Seq<crate::graph::Node>,
    name: Seq<char>,
    refs: Seq<Seq<char>>,
) -> Seq<Seq<char>> {
    missing_targets(nodes, refs).map_values(|t: Seq<char>| spec_no_outputs_miss_msg(name, t))
}

/// The message for one unresolvable target of either kind.
pub open spec fn spec_miss_msg(extract: bool, name: Seq<char>, target: Seq<char>) -> Seq<char> {
    if extract {
        spec_extract_miss_msg(name, target)
    } else {
        spec_no_outputs_miss_msg(name, target)
    }
}

/// Every target resolvable means the resolvable split is the whole list.
pub proof fn lemma_all_resolvable(nodes: Seq<crate::graph::Node>, targets: Seq<Seq<char>>)
    requires
        missing_targets(nodes, targets).len() == 0,
    ensures
        resolvable_targets(nodes, targets) == targets,
    decreases targets.len(),
{
    if targets.len() > 0 {
        lemma_all_resolvable(nodes, targets.drop_first());
        assert(resolvable_targets(nodes, targets) =~= targets);
    }
}

/// Expand each reference through the expansion map, in order.
#[verifier::loop_isolation(false)]
fn expand_refs(expansions: &OMap<Vec<ComponentKey>>, refs: Vec<String>) -> (out: Vec<String>)
    requires
        expansions.wf(),
    ensures
        str_views(out@) == targets_of_all(expansions.entries(), str_views(refs@)),
{
    let ghost exp = expansions.entries();
    let ghost refs0v = str_views(refs@);
    let mut out: Vec<String> = Vec::new();
    let mut rem = refs;
    proof {
        assert(str_views(out@) =~= Seq::<Seq<char>>::empty());
        assert(str_views(out@) + targets_of_all(exp, str_views(rem@)) =~= targets_of_all(
            exp,
            refs0v,
        ));
    }
    while rem.len() > 0
        invariant
            targets_of_all(exp, refs0v) == str_views(out@) + targets_of_all(exp, str_views(rem@)),
        decreases rem.len(),
    {
        let ghost remv0 = str_views(rem@);
        let ghost outv0 = str_views(out@);
        let from = rem.remove(0);
        proof {
            assert(str_views(rem@) =~= remv0.drop_first());
            assert(remv0[0] == from@);
        }
        match expansions.get(&from) {
            Some(phys) => {
                let np = phys.len();
                let mut p: usize = 0;
                while p < np
                    invariant
                        0 <= p <= np,
                        np == phys@.len(),
                        str_views(out@) =~= outv0 + phys@.map_values(|k: ComponentKey| k@).take(
                            p as int,
                        ),
                    decreases np - p,
                {
                    let ghost outpre = out@;
                    out.push(phys[p].id().to_owned());
                    proof {
                        assert(out@[out@.len() - 1]@ == phys@[p as int]@);
                        assert forall|i: int|
                            0 <= i < out@.len() implies str_views(out@)[i] == (outv0
                            + phys@.map_values(|k: ComponentKey| k@).take(p as int + 1))[i] by {
                            if i < outpre.len() {
                                assert(out@[i] == outpre[i]);
                                assert(str_views(outpre)[i] == (outv0 + phys@.map_values(
                                    |k: ComponentKey| k@,
                                ).take(p as int))[i]);
                            }
                        }
                        assert(str_views(out@) =~= outv0 + phys@.map_values(
                            |k: ComponentKey| k@,
                        ).take(p as int + 1));
                    }
                    p += 1;
                }
                proof {
                    assert(phys@.map_values(|k: ComponentKey| k@).take(np as int) =~= phys@.map_values(
                        |k: ComponentKey| k@,
                    ));
                    assert(targets_of(exp, from@) == phys@.map_values(|k: ComponentKey| k@));
                    assert(targets_of_all(exp, remv0) =~= targets_of(exp, remv0[0])
                        + targets_of_all(exp, remv0.drop_first()));
                    assert(str_views(out@) + targets_of_all(exp, str_views(rem@))
                        =~= targets_of_all(exp, refs0v));
                }
            },
            None => {
                out.push(from);
                proof {
                    assert(targets_of(exp, remv0[0]) =~= seq![remv0[0]]);
                    assert(str_views(out@) =~= outv0 + seq![remv0[0]]);
                    assert(targets_of_all(exp, remv0) =~= targets_of(exp, remv0[0])
                        + targets_of_all(exp, remv0.drop_first()));
                    assert(str_views(out@) + targets_of_all(exp, str_views(rem@))
                        =~= targets_of_all(exp, refs0v));
                }
            },
        }
    }
    proof {
        assert(str_views(rem@) =~= Seq::<Seq<char>>::empty());
        assert(str_views(out@) + targets_of_all(exp, str_views(rem@)) =~= str_views(out@));
    }
    out
}

/// Resolve each target against the graph: the resolvable ones become
/// output identifiers, the rest each append one message naming the test
/// and the target.
#[verifier::loop_isolation(false)]
#[verifier::rlimit(60)]
fn resolve_targets(
    graph: &Graph,
    name: &String,
    targets: &Vec<String>,
    extract: bool,
    errors: &mut Vec<String>,
) -> (resolved: Vec<OutputId>)
    ensures
        ({
            let tv = str_views(targets@);
            let rt = resolvable_targets(graph.nodes@, tv);
            let ms = missing_targets(graph.nodes@, tv);
            &&& resolved@.len() == rt.len()
            &&& forall|t: int|
                0 <= t < rt.len() ==> crate::graph::input_known(
                    graph.nodes@,
                    #[trigger] resolved@[t],
                ) && crate::id::spec_output_text(
                    resolved@[t].component@,
                    resolved@[t].port_view(),
                ) == rt[t]
            &&& final(errors)@.len() == old(errors)@.len() + ms.len()
            &&& forall|i: int| 0 <= i < old(errors)@.len() ==> final(errors)@[i] == old(errors)@[i]
            &&& forall|i: int|
                0 <= i < ms.len() ==> (#[trigger] final(errors)@[old(errors)@.len() + i])@
                    == spec_miss_msg(extract, name@, ms[i])
        }),
{
    let ghost nodes = graph.nodes@;
    let ghost tv = str_views(targets@);
    let ghost e0 = old(errors)@;
    let ghost mut rt_done: Seq<Seq<char>> = Seq::empty();
    let ghost mut ms_done: Seq<Seq<char>> = Seq::empty();
    let mut resolved: Vec<OutputId> = Vec::new();
    let n = targets.len();
    let mut k: usize = 0;
    proof {
        assert(tv.skip(0) =~= tv);
        assert(rt_done + resolvable_targets(nodes, tv.skip(0)) =~= resolvable_targets(nodes, tv));
        assert(ms_done + missing_targets(nodes, tv.skip(0)) =~= missing_targets(nodes, tv));
    }
    while k < n
        invariant
            0 <= k <= n,
            n == tv.len(),
            resolvable_targets(nodes, tv) == rt_done + resolvable_targets(nodes, tv.skip(k as int)),
            missing_targets(nodes, tv) == ms_done + missing_targets(nodes, tv.skip(k as int)),
            resolved@.len() == rt_done.len(),
            forall|t: int|
                0 <= t < rt_done.len() ==> crate::graph::input_known(
                    nodes,
                    #[trigger] resolved@[t],
                ) && crate::id::spec_output_text(
                    resolved@[t].component@,
                    resolved@[t].port_view(),
                ) == rt_done[t],
            errors@.len() == e0.len() + ms_done.len(),
            forall|i: int| 0 <= i < e0.len() ==> errors@[i] == e0[i],
            forall|i: int|
                0 <= i < ms_done.len() ==> (#[trigger] errors@[e0.len() + i])@ == spec_miss_msg(
                    extract,
                    name@,
                    ms_done[i],
                ),
        decreases n - k,
    {
        proof {
            assert(tv.skip(k as int)[0] == tv[k as int]);
            assert(tv.skip(k as int).drop_first() =~= tv.skip(k as int + 1));
            assert(tv[k as int] == targets@[k as int]@);
        }
        match graph.output_for_text(&targets[k]) {
            Some(oid) => {
                proof {
                    assert(crate::graph::stream_text_matches(nodes, tv[k as int]));
                    rt_done = rt_done.push(tv[k as int]);
                    assert(resolvable_targets(nodes, tv.skip(k as int)) =~= seq![tv[k as int]]
                        + resolvable_targets(nodes, tv.skip(k as int + 1)));
                    assert(rt_done + resolvable_targets(nodes, tv.skip(k as int + 1))
                        =~= resolvable_targets(nodes, tv));
                }
                resolved.push(oid);
            },
            None => {
                proof {
                    assert(!crate::graph::stream_text_matches(nodes, tv[k as int]));
                    ms_done = ms_done.push(tv[k as int]);
                    assert(missing_targets(nodes, tv.skip(k as int)) =~= seq![tv[k as int]]
                        + missing_targets(nodes, tv.skip(k as int + 1)));
                    assert(ms_done + missing_targets(nodes, tv.skip(k as int + 1))
                        =~= missing_targets(nodes, tv));
                }
                let mut msg = if extract {
                    "Invalid extract_from target in test '".to_owned()
                } else {
                    "Invalid no_outputs_from target in test '".to_owned()
                };
                msg.append(name.as_str());
                msg.append("': '");
                msg.append(targets[k].as_str());
                msg.append("' does not exist");
                errors.push(msg);
            },
        }
        k += 1;
    }
    proof {
        assert(tv.skip(n as int).len() == 0);
        assert(rt_done =~= resolvable_targets(nodes, tv));
        assert(ms_done =~= missing_targets(nodes, tv));
    }
    resolved
}

impl TestDefinition<String> {
    /// Bind the test's stringy references against the expanded graph.
    ///
    /// Each `extract_from` entry is expanded through the expansion map (a
    /// logical name becomes its physical list), then looked up as a
    /// producer stream; an output keeps exactly its resolvable targets,
    /// in order, and an output with none is omitted. `no_outputs_from`
    /// entries are looked up as written. A test with no resolvable
    /// extract target at all is dropped without error; otherwise every
    /// reference that fails to resolve appends one message naming the
    /// test and the target, and the bound test is returned exactly when
    /// no message was appended.
    #[verifier::loop_isolation(false)]
    #[verifier::rlimit(100)]
    pub fn resolve_outputs(
        self,
        graph: &Graph,
        expansions: &OMap<Vec<ComponentKey>>,
        errors: &mut Vec<String>,
    ) -> (r: Option<TestDefinition<OutputId>>)
        requires
            expansions.wf(),
        ensures
            ({
                let nodes = graph.nodes@;
                let exp = expansions.entries();
                let surv = surviving_outputs(nodes, exp, self.outputs@);
                let miss = extract_miss_msgs(nodes, exp, self.name@, self.outputs@)
                    + no_outputs_miss_msgs(nodes, self.name@, str_views(self.no_outputs_from@));
                &&& (r is Some <==> surv.len() > 0 && miss.len() == 0)
                &&& (surv.len() == 0 ==> final(errors)@ == old(errors)@)
                &&& (surv.len() > 0 && miss.len() > 0 ==> final(errors)@.len() == old(
                    errors,
                )@.len() + miss.len() && (forall|i: int|
                    0 <= i < old(errors)@.len() ==> final(errors)@[i] == old(errors)@[i]) && (
                forall|i: int|
                    0 <= i < miss.len() ==> (#[trigger] final(errors)@[old(errors)@.len() + i])@
                        == miss[i]))
                &&& match r {
                    Some(res) => final(errors)@ == old(errors)@ && res.name == self.name
                        && res.input == self.input && res.inputs == self.inputs
                        && res.outputs@.len() == surv.len() && (forall|j: int|
                        0 <= j < surv.len() ==> {
                            let out = #[trigger] res.outputs@[j];
                            out.conditions == surv[j].1 && out.extract_from@.len()
                                == surv[j].0.len() && forall|t: int|
                                0 <= t < surv[j].0.len() ==> crate::graph::input_known(
                                    nodes,
                                    #[trigger] out.extract_from@[t],
                                ) && crate::id::spec_output_text(
                                    out.extract_from@[t].component@,
                                    out.extract_from@[t].port_view(),
                                ) == surv[j].0[t]
                        }) && res.no_outputs_from@.len() == self.no_outputs_from@.len() && (
                    forall|q: int|
                        0 <= q < self.no_outputs_from@.len() ==> crate::graph::input_known(
                            nodes,
                            #[trigger] res.no_outputs_from@[q],
                        ) && crate::id::spec_output_text(
                            res.no_outputs_from@[q].component@,
                            res.no_outputs_from@[q].port_view(),
                        ) == self.no_outputs_from@[q]@),
                    None => true,
                }
            }),
    {
        let ghost nodes = graph.nodes@;
        let ghost exp = expansions.entries();
        let TestDefinition { name, input, inputs, outputs, no_outputs_from } = self;
        let ghost outs0 = outputs@;
        let ghost name_v = name@;
        let mut new_errors: Vec<String> = Vec::new();
        let mut new_outputs: Vec<TestOutput<OutputId>> = Vec::new();
        let ghost mut surv_done: Seq<(Seq<Seq<char>>, Vec<String>)> = Seq::empty();
        let mut rem_outputs = outputs;
        proof {
            assert(surv_done + surviving_outputs(nodes, exp, rem_outputs@) =~= surviving_outputs(
                nodes,
                exp,
                outs0,
            ));
            assert(new_errors@.map_values(|e: String| e@) + extract_miss_msgs(
                nodes,
                exp,
                name_v,
                rem_outputs@,
            ) =~= extract_miss_msgs(nodes, exp, name_v, outs0));
        }
        while rem_outputs.len() > 0
            invariant
                expansions.wf(),
                name@ == name_v,
                surviving_outputs(nodes, exp, outs0) == surv_done + surviving_outputs(
                    nodes,
                    exp,
                    rem_outputs@,
                ),
                extract_miss_msgs(nodes, exp, name_v, outs0) == new_errors@.map_values(
                    |e: String| e@,
                ) + extract_miss_msgs(nodes, exp, name_v, rem_outputs@),
                new_outputs@.len() == surv_done.len(),
                forall|j: int|
                    0 <= j < surv_done.len() ==> {
                        let out = #[trigger] new_outputs@[j];
                        out.conditions == surv_done[j].1 && out.extract_from@.len()
                            == surv_done[j].0.len() && forall|t: int|
                            0 <= t < surv_done[j].0.len() ==> crate::graph::input_known(
                                nodes,
                                #[trigger] out.extract_from@[t],
                            ) && crate::id::spec_output_text(
                                out.extract_from@[t].component@,
                                out.extract_from@[t].port_view(),
                            ) == surv_done[j].0[t]
                    },
            decreases rem_outputs.len(),
        {
            let ghost rem0 = rem_outputs@;
            let ghost errs0 = new_errors@;
            let TestOutput { extract_from, conditions } = rem_outputs.remove(0);
            proof {
                assert(rem_outputs@ =~= rem0.drop_first());
            }
            let targets = expand_refs(expansions, extract_from);
            let ghost rt = resolvable_targets(nodes, str_views(targets@));
            let resolved = resolve_targets(graph, &name, &targets, true, &mut new_errors);
            proof {
                let ms = missing_targets(nodes, str_views(targets@));
                assert forall|i: int| #![trigger new_errors@[i]]
                    0 <= i < new_errors@.len() implies new_errors@.map_values(|e: String| e@)[i]
                    == (errs0.map_values(|e: String| e@) + ms.map_values(
                    |t: Seq<char>| spec_extract_miss_msg(name_v, t),
                ))[i] by {
                    if i >= errs0.len() {
                        let d = i - errs0.len();
                        assert((new_errors@[errs0.len() + d])@ == spec_miss_msg(
                            true,
                            name_v,
                            ms[d],
                        ));
                    }
                }
                assert(new_errors@.map_values(|e: String| e@) =~= errs0.map_values(
                    |e: String| e@,
                ) + ms.map_values(|t: Seq<char>| spec_extract_miss_msg(name_v, t)));
                assert(extract_miss_msgs(nodes, exp, name_v, rem0) == missing_targets(
                    nodes,
                    targets_of_all(exp, str_views(rem0[0].extract_from@)),
                ).map_values(|t: Seq<char>| spec_extract_miss_msg(name_v, t)) + extract_miss_msgs(
                    nodes,
                    exp,
                    name_v,
                    rem0.drop_first(),
                ));
                assert(new_errors@.map_values(|e: String| e@) + extract_miss_msgs(
                    nodes,
                    exp,
                    name_v,
                    rem_outputs@,
                ) =~= extract_miss_msgs(nodes, exp, name_v, outs0));
            }
            if resolved.len() > 0 {
                proof {
                    surv_done = surv_done.push((rt, conditions));
                    assert(surviving_outputs(nodes, exp, rem0) =~= seq![(rt, rem0[0].conditions)]
                        + surviving_outputs(nodes, exp, rem0.drop_first()));
                    assert(surv_done + surviving_outputs(nodes, exp, rem_outputs@)
                        =~= surviving_outputs(nodes, exp, outs0));
                }
                new_outputs.push(TestOutput { extract_from: resolved, conditions });
            } else {
                proof {
                    assert(surviving_outputs(nodes, exp, rem0) =~= surviving_outputs(
                        nodes,
                        exp,
                        rem0.drop_first(),
                    ));
                }
            }
        }
        proof {
            assert(surviving_outputs(nodes, exp, rem_outputs@) =~= Seq::<(
                Seq<Seq<char>>,
                Vec<String>,
            )>::empty());
            assert(surv_done =~= surviving_outputs(nodes, exp, outs0));
            assert(extract_miss_msgs(nodes, exp, name_v, rem_outputs@) =~= Seq::<
                Seq<char>,
            >::empty());
            assert(new_errors@.map_values(|e: String| e@) =~= extract_miss_msgs(
                nodes,
                exp,
                name_v,
                outs0,
            ));
        }
        let ghost extract_errs = new_errors@;
        let ghost nos0 = no_outputs_from@;
        let resolved_no = resolve_targets(graph, &name, &no_outputs_from, false, &mut new_errors);
        proof {
            let ms = missing_targets(nodes, str_views(nos0));
            assert forall|i: int| #![trigger new_errors@[i]]
                0 <= i < new_errors@.len() implies new_errors@.map_values(|e: String| e@)[i] == (
            extract_errs.map_values(|e: String| e@) + ms.map_values(
                |t: Seq<char>| spec_no_outputs_miss_msg(name_v, t),
            ))[i] by {
                if i >= extract_errs.len() {
                    let d = i - extract_errs.len();
                    assert((new_errors@[extract_errs.len() + d])@ == spec_miss_msg(
                        false,
                        name_v,
                        ms[d],
                    ));
                }
            }
            assert(new_errors@.map_values(|e: String| e@) =~= extract_miss_msgs(
                nodes,
                exp,
                name_v,
                outs0,
            ) + no_outputs_miss_msgs(nodes, name_v, str_views(nos0)));
        }
        if new_outputs.len() == 0 {
            // No extract target of any output resolved: the test's
            // components were not built in, so it is dropped silently.
            return None;
        }
        if new_errors.len() > 0 {
            let ghost appended = new_errors@;
            errors.append(&mut new_errors);
            proof {
                assert forall|i: int|
                    0 <= i < appended.len() implies (#[trigger] errors@[old(errors)@.len() + i])@
                    == appended.map_values(|e: String| e@)[i] by {
                    assert(errors@[old(errors)@.len() + i] == appended[i]);
                }
            }
            return None;
        }
        proof {
            assert(missing_targets(nodes, str_views(nos0)).len() == 0) by {
                assert(new_errors@.map_values(|e: String| e@).len() == 0);
            }
            lemma_all_resolvable(nodes, str_views(nos0));
            assert(resolvable_targets(nodes, str_views(nos0)) == str_views(nos0));
        }
        Some(
            TestDefinition {
                name,
                input,
                inputs,
                outputs: new_outputs,
                no_outputs_from: resolved_no,
            },
        )
    }
}

impl TestDefinition<OutputId> {
    /// Turn a bound test back into its stringy form: every output
    /// identifier is rendered in its wire form (`name`, or `name.port`
    /// for a named stream); the name, inputs and conditions are carried
    /// over unchanged.
    #[verifier::loop_isolation(false)]
    pub fn stringify(self) -> (r: TestDefinition<String>)
        ensures
            r.name == self.name,
            r.input == self.input,
            r.inputs == self.inputs,
            r.outputs@.len() == self.outputs@.len(),
            forall|j: int|
                0 <= j < self.outputs@.len() ==> {
                    let orig = self.outputs@[j];
                    let out = #[trigger] r.outputs@[j];
                    out.conditions == orig.conditions && out.extract_from@.len()
                        == orig.extract_from@.len() && forall|t: int|
                        0 <= t < orig.extract_from@.len()
                            ==> (#[trigger] out.extract_from@[t])@ == crate::id::spec_output_text(
                            orig.extract_from@[t].component@,
                            orig.extract_from@[t].port_view(),
                        )
                },
            r.no_outputs_from@.len() == self.no_outputs_from@.len(),
            forall|q: int|
                0 <= q < self.no_outputs_from@.len()
                    ==> (#[trigger] r.no_outputs_from@[q])@ == crate::id::spec_output_text(
                    self.no_outputs_from@[q].component@,
                    self.no_outputs_from@[q].port_view(),
                ),
    {
        let TestDefinition { name, input, inputs, outputs, no_outputs_from } = self;
        let ghost outs0 = outputs@;
        let mut new_outputs: Vec<TestOutput<String>> = Vec::new();
        let mut rem_outputs = outputs;
        while rem_outputs.len() > 0
            invariant
                new_outputs@.len() + rem_outputs@.len() == outs0.len(),
                forall|j: int|
                    0 <= j < rem_outputs@.len() ==> #[trigger] rem_outputs@[j] == outs0[j
                        + new_outputs@.len()],
                forall|j: int|
                    0 <= j < new_outputs@.len() ==> {
                        let orig = outs0[j];
                        let out = #[trigger] new_outputs@[j];
                        out.conditions == orig.conditions && out.extract_from@.len()
                            == orig.extract_from@.len() && forall|t: int|
                            0 <= t < orig.extract_from@.len()
                                ==> (#[trigger] out.extract_from@[t])@
                                == crate::id::spec_output_text(
                                orig.extract_from@[t].component@,
                                orig.extract_from@[t].port_view(),
                            )
                    },
            decreases rem_outputs.len(),
        {
            let ghost rem0 = rem_outputs@;
            let TestOutput { extract_from, conditions } = rem_outputs.remove(0);
            let ghost orig_idx = new_outputs@.len() as int;
            let mut texts: Vec<String> = Vec::new();
            let nf = extract_from.len();
            let mut t: usize = 0;
            while t < nf
                invariant
                    0 <= t <= nf,
                    nf == extract_from@.len(),
                    texts@.len() == t,
                    forall|u: int|
                        0 <= u < t ==> (#[trigger] texts@[u])@ == crate::id::spec_output_text(
                            extract_from@[u].component@,
                            extract_from@[u].port_view(),
                        ),
                decreases nf - t,
            {
                texts.push(extract_from[t].to_text());
                t += 1;
            }
            new_outputs.push(TestOutput { extract_from: texts, conditions });
            proof {
                assert(rem_outputs@ =~= rem0.drop_first());
            }
        }
        let ghost nos0 = no_outputs_from@;
        let mut new_no_outputs: Vec<String> = Vec::new();
        let nn = no_outputs_from.len();
        let mut q: usize = 0;
        while q < nn
            invariant
                0 <= q <= nn,
                nn == no_outputs_from@.len(),
                new_no_outputs@.len() == q,
                forall|u: int|
                    0 <= u < q ==> (#[trigger] new_no_outputs@[u])@ == crate::id::spec_output_text(
                        no_outputs_from@[u].component@,
                        no_outputs_from@[u].port_view(),
                    ),
            decreases nn - q,
        {
            new_no_outputs.push(no_outputs_from[q].to_text());
            q += 1;
        }
        TestDefinition {
            name,
            input,
            inputs,
            outputs: new_outputs,
            no_outputs_from: new_no_outputs,
        }
    }
}

} // verus!
