//! The configuration hash used for change detection: the SHA-256 digest
//! of the builder's canonical form. The canonical form renders every
//! namespace with its keys sorted, so fragment order cannot perturb it,
//! and excludes the enterprise `tags` sub-table, so operator labelling
//! cannot either.

use vstd::prelude::*;
use crate::builder::ConfigBuilder;
use crate::graph::{spec_str_lt, str_lt};
use crate::omap::{distinct_keys, find_in, OMap};

verus! {

/// Lexicographic order, admitting equality.
pub open spec fn lex_leq(a: Seq<char>, b: Seq<char>) -> bool {
    a == b || spec_str_lt(a, b)
}

proof fn lemma_str_lt_connected(a: Seq<char>, b: Seq<char>)
    ensures
        a == b || spec_str_lt(a, b) || spec_str_lt(b, a),
    decreases a.len(),
{
    if b.len() == 0 {
        if a.len() == 0 {
            assert(a =~= b);
        }
    } else if a.len() == 0 {
    } else if a[0] == b[0] {
        lemma_str_lt_connected(a.drop_first(), b.drop_first());
        if a.drop_first() == b.drop_first() {
            assert(a =~= b) by {
                assert(a.drop_first().len() == a.len() - 1);
                assert(b.drop_first().len() == b.len() - 1);
                assert(a.len() == b.len());
                assert forall|i: int| 0 <= i < a.len() implies a[i] == b[i] by {
                    if i > 0 {
                        assert(a.drop_first()[i - 1] == a[i]);
                        assert(b.drop_first()[i - 1] == b[i]);
                        assert(a.drop_first()[i - 1] == b.drop_first()[i - 1]);
                    }
                }
            }
        }
    } else {
        if !((a[0] as int) < (b[0] as int)) && !((b[0] as int) < (a[0] as int)) {
            assert((a[0] as int) == (b[0] as int));
            assert(a[0] == b[0]);
        }
    }
}

proof fn lemma_str_lt_asym(a: Seq<char>, b: Seq<char>)
    requires
        spec_str_lt(a, b),
    ensures
        !spec_str_lt(b, a),
        a != b,
    decreases a.len(),
{
    if b.len() == 0 {
    } else if a.len() == 0 {
        assert(a.len() != b.len());
    } else if a[0] == b[0] {
        lemma_str_lt_asym(a.drop_first(), b.drop_first());
        if a == b {
            assert(a.drop_first() =~= b.drop_first());
        }
    } else {
        assert((a[0] as int) < (b[0] as int));
        assert(a[0] != b[0]);
        if a == b {
            assert(a[0] == b[0]);
        }
    }
}

proof fn lemma_str_lt_trans(a: Seq<char>, b: Seq<char>, c: Seq<char>)
    requires
        spec_str_lt(a, b),
        spec_str_lt(b, c),
    ensures
        spec_str_lt(a, c),
    decreases a.len(),
{
    if c.len() > 0 && b.len() > 0 && a.len() > 0 {
        if a[0] == b[0] && b[0] == c[0] {
            lemma_str_lt_trans(a.drop_first(), b.drop_first(), c.drop_first());
        }
    }
}

/// The lexicographic order is total.
pub proof fn lemma_lex_total()
    ensures
        vstd::relations::total_ordering(|a: Seq<char>, b: Seq<char>| lex_leq(a, b)),
{
    let leq = |a: Seq<char>, b: Seq<char>| lex_leq(a, b);
    assert forall|a: Seq<char>| #[trigger] leq(a, a) by {}
    assert forall|a: Seq<char>, b: Seq<char>| #[trigger] leq(a, b) && #[trigger] leq(b, a)
        implies a == b by {
        if a != b {
            lemma_str_lt_asym(a, b);
        }
    }
    assert forall|a: Seq<char>, b: Seq<char>, c: Seq<char>|
        #[trigger] leq(a, b) && #[trigger] leq(b, c) implies leq(a, c) by {
        if a != b && b != c {
            lemma_str_lt_trans(a, b, c);
        }
    }
    assert forall|a: Seq<char>, b: Seq<char>| #[trigger] leq(a, b) || #[trigger] leq(b, a) by {
        lemma_str_lt_connected(a, b);
    }
}

/// The keys of an entry sequence.
pub open spec fn keys_of<V>(s: Seq<(Seq<char>, V)>) -> Seq<Seq<char>> {
    s.map_values(|e: (Seq<char>, V)| e.0)
}

/// The keys, sorted lexicographically.
pub open spec fn sorted_keys_of<V>(s: Seq<(Seq<char>, V)>) -> Seq<Seq<char>> {
    keys_of(s).sort_by(|a: Seq<char>, b: Seq<char>| lex_leq(a, b))
}

/// One text fragment per character sequence, length-prefixed so distinct
/// lists cannot collide by concatenation.
pub open spec fn frame(s: Seq<char>) -> Seq<char> {
    crate::text::spec_dec(s.len()) + ":"@ + s + ";"@
}

/// The canonical text of one namespace: each key in sorted order,
/// framed.
pub open spec fn render_keys(sorted: Seq<Seq<char>>) -> Seq<char>
    decreases sorted.len(),
{
    if sorted.len() == 0 {
        Seq::empty()
    } else {
        frame(sorted[0]) + render_keys(sorted.drop_first())
    }
}

/// The canonical text of a builder: the five namespaces' sorted keys,
/// the interpreted global settings, and the test names — with the
/// enterprise `tags` sub-table left out.
pub open spec fn canonical_text(b: ConfigBuilder) -> Seq<char> {
    "sources:"@ + render_keys(sorted_keys_of(b.sources.entries())) + "transforms:"@ + render_keys(
        sorted_keys_of(b.transforms.entries()),
    ) + "sinks:"@ + render_keys(sorted_keys_of(b.sinks.entries())) + "tables:"@ + render_keys(
        sorted_keys_of(b.enrichment_tables.entries()),
    ) + "secrets:"@ + render_keys(sorted_keys_of(b.secret.entries())) + "globals:"@ + frame(
        match b.global.data_dir {
            Some(d) => d@,
            None => Seq::empty(),
        },
    ) + frame(b.global.log_schema.host_key@) + frame(b.global.log_schema.message_key@) + frame(
        b.global.log_schema.timestamp_key@,
    ) + (if b.global.acknowledgements.enabled == Some(true) {
        "a1"@
    } else if b.global.acknowledgements.enabled == Some(false) {
        "a0"@
    } else {
        "a-"@
    }) + (if b.healthchecks.enabled {
        "h1"@
    } else {
        "h0"@
    }) + (if b.healthchecks.require_healthy {
        "r1"@
    } else {
        "r0"@
    }) + "enterprise:"@ + (match b.enterprise {
        Some(e) => frame(e.api_key@) + frame(e.configuration_key@),
        None => "-"@,
    }) + "tests:"@ + render_tests(b.tests@)
}

/// The test names, framed, in order.
pub open spec fn render_tests(tests: Seq<crate::testdef::TestDefinition<String>>) -> Seq<char>
    decreases tests.len(),
{
    if tests.len() == 0 {
        Seq::empty()
    } else {
        frame(tests[0].name@) + render_tests(tests.drop_first())
    }
}

/// The digest of a text's UTF-8 encoding: a function of the characters
/// alone.
pub uninterp spec fn sha256_text_of(s: Seq<char>) -> Seq<u8>;

/// Relies on sha2's Sha256 (through the one-shot `Digest::digest`): the
/// 32-byte SHA-256 digest of the text's UTF-8 bytes, a function of the
/// text alone.
#[verifier::external_body]
fn sha256_text(s: &str) -> (r: Vec<u8>)
    ensures
        r@ == sha256_text_of(s@),
        r@.len() == 32,
{
    let d = <sha2::Sha256 as sha2::Digest>::digest(s.as_bytes());
    d.to_vec()
}

/// Sort the views of the given keys lexicographically.
#[verifier::loop_isolation(false)]
#[verifier::rlimit(100)]
fn sort_key_views(keys: Vec<String>) -> (out: Vec<String>)
    ensures
        out@.map_values(|s: String| s@) == keys@.map_values(|s: String| s@).sort_by(
            |a: Seq<char>, b: Seq<char>| lex_leq(a, b),
        ),
{
    let ghost leq = |a: Seq<char>, b: Seq<char>| lex_leq(a, b);
    proof {
        lemma_lex_total();
    }
    let mut out: Vec<String> = Vec::new();
    let mut rem = keys;
    proof {
        broadcast use vstd::seq_lib::group_to_multiset_ensures;
        broadcast use vstd::multiset::group_multiset_axioms;

        assert(out@.map_values(|s: String| s@) =~= Seq::<Seq<char>>::empty());
        assert(out@.map_values(|s: String| s@).to_multiset().add(
            rem@.map_values(|s: String| s@).to_multiset(),
        ) =~= rem@.map_values(|s: String| s@).to_multiset());
    }
    while rem.len() > 0
        invariant
            vstd::relations::sorted_by(out@.map_values(|s: String| s@), leq),
            out@.map_values(|s: String| s@).to_multiset().add(
                rem@.map_values(|s: String| s@).to_multiset(),
            ) == keys@.map_values(|s: String| s@).to_multiset(),
        decreases rem.len(),
    {
        let ghost outv0 = out@.map_values(|s: String| s@);
        let ghost remv0 = rem@.map_values(|s: String| s@);
        let k = rem.remove(0);
        proof {
            broadcast use vstd::seq_lib::group_to_multiset_ensures;
            broadcast use vstd::multiset::group_multiset_axioms;

            assert(rem@.map_values(|s: String| s@) =~= remv0.drop_first());
            assert(remv0 =~= seq![remv0[0]] + remv0.drop_first());
            vstd::seq_lib::lemma_multiset_commutative(seq![remv0[0]], remv0.drop_first());
            assert(seq![remv0[0]] =~= Seq::<Seq<char>>::empty().push(remv0[0]));
            assert(seq![remv0[0]].to_multiset() =~= vstd::multiset::Multiset::<Seq<char>>::empty().insert(
                remv0[0],
            ));
            assert(remv0.drop_first().to_multiset() =~= remv0.to_multiset().remove(remv0[0]));
        }
        // Find the insertion point.
        let n = out.len();
        let mut pos: usize = 0;
        while pos < n && str_lt(out[pos].as_str(), k.as_str())
            invariant
                0 <= pos <= n,
                n == out@.len(),
                forall|j: int| 0 <= j < pos ==> spec_str_lt(outv0[j], k@),
            decreases n - pos,
        {
            pos += 1;
        }
        out.insert(pos, k);
        proof {
            let outv1 = out@.map_values(|s: String| s@);
            assert(outv1 =~= outv0.insert(pos as int, remv0[0]));
            assert(outv1 =~= outv0.take(pos as int) + seq![remv0[0]] + outv0.skip(pos as int));
            vstd::seq_lib::lemma_multiset_commutative(
                outv0.take(pos as int) + seq![remv0[0]],
                outv0.skip(pos as int),
            );
            vstd::seq_lib::lemma_multiset_commutative(outv0.take(pos as int), seq![remv0[0]]);
            assert(seq![remv0[0]] =~= Seq::<Seq<char>>::empty().push(remv0[0]));
            assert(seq![remv0[0]].to_multiset() =~= vstd::multiset::Multiset::<Seq<char>>::empty().insert(
                remv0[0],
            ));
            vstd::seq_lib::lemma_multiset_commutative(
                outv0.take(pos as int),
                outv0.skip(pos as int),
            );
            assert(outv0.take(pos as int) + outv0.skip(pos as int) =~= outv0);
            broadcast use vstd::seq_lib::group_to_multiset_ensures;

            assert(outv1.to_multiset() =~= outv0.to_multiset().insert(remv0[0]));
            broadcast use vstd::multiset::group_multiset_axioms;

            assert(outv1.to_multiset().add(rem@.map_values(|s: String| s@).to_multiset())
                =~= outv0.to_multiset().add(remv0.to_multiset()));
            // Sortedness of the extended list.
            assert forall|x: int, y: int| 0 <= x <= y < outv1.len() implies leq(
                outv1[x],
                outv1[y],
            ) by {
                lemma_lex_total();
                if x == pos as int {
                    if y > pos as int {
                        assert(outv1[y] == outv0[y - 1]);
                        if y - 1 == pos as int {
                        } else {
                        }
                        // out[pos..] were not less than k, so k <= them.
                        assert(!spec_str_lt(outv0[pos as int], k@) || pos as int >= outv0.len());
                        lemma_str_lt_connected(k@, outv0[y - 1]);
                        if spec_str_lt(outv0[y - 1], k@) {
                            if y - 1 > pos as int {
                                assert(leq(outv0[pos as int], outv0[y - 1]));
                                if outv0[pos as int] == outv0[y - 1] {
                                } else {
                                    lemma_str_lt_trans(outv0[pos as int], outv0[y - 1], k@);
                                }
                                lemma_str_lt_asym(outv0[pos as int], k@);
                            } else {
                                lemma_str_lt_asym(outv0[y - 1], k@);
                            }
                        }
                    }
                } else if x < pos as int {
                    assert(outv1[x] == outv0[x]);
                    assert(spec_str_lt(outv0[x], k@));
                    if y == pos as int {
                    } else if y < pos as int {
                        assert(outv1[y] == outv0[y]);
                    } else {
                        assert(outv1[y] == outv0[y - 1]);
                    }
                } else {
                    assert(outv1[x] == outv0[x - 1]);
                    assert(outv1[y] == outv0[y - 1]);
                }
            }
        }
    }
    proof {
        let keysv = keys@.map_values(|s: String| s@);
        let outv = out@.map_values(|s: String| s@);
        broadcast use vstd::seq_lib::group_to_multiset_ensures;

        assert(rem@.map_values(|s: String| s@) =~= Seq::<Seq<char>>::empty());
        assert(outv.to_multiset() =~= keysv.to_multiset());
        keysv.lemma_sort_by_ensures(leq);
        vstd::seq_lib::lemma_sorted_unique(outv, keysv.sort_by(leq), leq);
        assert(outv =~= keysv.sort_by(leq));
    }
    out
}

/// Two duplicate-free key sequences that contain the same keys sort to
/// the same sequence.
proof fn lemma_same_keys_same_sorted<V1, V2>(s1: Seq<(Seq<char>, V1)>, s2: Seq<(Seq<char>, V2)>)
    requires
        distinct_keys(s1),
        distinct_keys(s2),
        forall|k: Seq<char>| find_in(s1, k) is Some <==> find_in(s2, k) is Some,
    ensures
        sorted_keys_of(s1) == sorted_keys_of(s2),
{
    broadcast use vstd::seq_lib::group_to_multiset_ensures;
    broadcast use vstd::multiset::group_multiset_axioms;

    let k1 = keys_of(s1);
    let k2 = keys_of(s2);
    assert(k1.no_duplicates()) by {
        assert forall|i: int, j: int|
            0 <= i < k1.len() && 0 <= j < k1.len() && i != j implies k1[i] != k1[j] by {
            if i < j {
                assert(s1[i].0 != s1[j].0);
            } else {
                assert(s1[j].0 != s1[i].0);
            }
        }
    }
    assert(k2.no_duplicates()) by {
        assert forall|i: int, j: int|
            0 <= i < k2.len() && 0 <= j < k2.len() && i != j implies k2[i] != k2[j] by {
            if i < j {
                assert(s2[i].0 != s2[j].0);
            } else {
                assert(s2[j].0 != s2[i].0);
            }
        }
    }
    k1.lemma_multiset_has_no_duplicates();
    k2.lemma_multiset_has_no_duplicates();
    assert forall|x: Seq<char>| k1.to_multiset().contains(x) implies k2.to_multiset().contains(
        x,
    ) by {
        let i = choose|i: int| 0 <= i < k1.len() && k1[i] == x;
        assert(s1[i].0 == x);
        crate::omap::lemma_find_characterizes(s1, x, 0);
        crate::omap::lemma_find_characterizes(s2, x, 0);
        assert(find_in(s1, x) is Some);
        assert(find_in(s2, x) is Some);
        let j = choose|j: int| 0 <= j < s2.len() && s2[j].0 == x;
        assert(k2[j] == s2[j].0);
        assert(k2[j] == x);
        assert(k2.contains(x));
    }
    assert forall|x: Seq<char>| k2.to_multiset().contains(x) implies k1.to_multiset().contains(
        x,
    ) by {
        let i = choose|i: int| 0 <= i < k2.len() && k2[i] == x;
        assert(s2[i].0 == x);
        crate::omap::lemma_find_characterizes(s1, x, 0);
        crate::omap::lemma_find_characterizes(s2, x, 0);
        assert(find_in(s2, x) is Some);
        assert(find_in(s1, x) is Some);
        let j = choose|j: int| 0 <= j < s1.len() && s1[j].0 == x;
        assert(k1[j] == s1[j].0);
        assert(k1[j] == x);
        assert(k1.contains(x));
    }
    assert(k1.to_multiset() =~= k2.to_multiset()) by {
        assert forall|x: Seq<char>| k1.to_multiset().count(x) == k2.to_multiset().count(x) by {
            if k1.to_multiset().contains(x) {
                assert(k2.to_multiset().contains(x));
                assert(k1.to_multiset().count(x) == 1 && k2.to_multiset().count(x) == 1);
            } else if k2.to_multiset().contains(x) {
                assert(false);
            } else {
                assert(k1.to_multiset().count(x) == 0 && k2.to_multiset().count(x) == 0);
            }
        }
    }
    let leq = |a: Seq<char>, b: Seq<char>| lex_leq(a, b);
    lemma_lex_total();
    k1.lemma_sort_by_ensures(leq);
    k2.lemma_sort_by_ensures(leq);
    vstd::seq_lib::lemma_sorted_unique(k1.sort_by(leq), k2.sort_by(leq), leq);
    assert(k1.sort_by(leq) =~= k2.sort_by(leq));
}

/// Law: order independence of the hash. Two builders equal as maps, with
/// the same test list and settings, have the same canonical text and so
/// the same hash — whatever order their fragments declared things in,
/// and whatever their enterprise tags say.
pub proof fn lemma_hash_order_independent(a: ConfigBuilder, b: ConfigBuilder)
    requires
        a.wf(),
        b.wf(),
        forall|k: Seq<char>| a.sources.spec_get(k) == b.sources.spec_get(k),
        forall|k: Seq<char>| a.transforms.spec_get(k) == b.transforms.spec_get(k),
        forall|k: Seq<char>| a.sinks.spec_get(k) == b.sinks.spec_get(k),
        forall|k: Seq<char>| a.enrichment_tables.spec_get(k) == b.enrichment_tables.spec_get(k),
        forall|k: Seq<char>| a.secret.spec_get(k) == b.secret.spec_get(k),
        a.tests@ == b.tests@,
        a.global == b.global,
        a.healthchecks == b.healthchecks,
        match (a.enterprise, b.enterprise) {
            (None, None) => true,
            (Some(x), Some(y)) => x.api_key == y.api_key && x.configuration_key
                == y.configuration_key,
            _ => false,
        },
    ensures
        canonical_text(a) == canonical_text(b),
        sha256_text_of(canonical_text(a)) == sha256_text_of(canonical_text(b)),
{
    a.sources.wf_distinct();
    b.sources.wf_distinct();
    a.transforms.wf_distinct();
    b.transforms.wf_distinct();
    a.sinks.wf_distinct();
    b.sinks.wf_distinct();
    a.enrichment_tables.wf_distinct();
    b.enrichment_tables.wf_distinct();
    a.secret.wf_distinct();
    b.secret.wf_distinct();
    assert forall|k: Seq<char>|
        find_in(a.sources.entries(), k) is Some <==> find_in(b.sources.entries(), k) is Some by {
        assert(a.sources.spec_get(k) == b.sources.spec_get(k));
    }
    assert forall|k: Seq<char>|
        find_in(a.transforms.entries(), k) is Some <==> find_in(b.transforms.entries(), k)
            is Some by {
        assert(a.transforms.spec_get(k) == b.transforms.spec_get(k));
    }
    assert forall|k: Seq<char>|
        find_in(a.sinks.entries(), k) is Some <==> find_in(b.sinks.entries(), k) is Some by {
        assert(a.sinks.spec_get(k) == b.sinks.spec_get(k));
    }
    assert forall|k: Seq<char>|
        find_in(a.enrichment_tables.entries(), k) is Some <==> find_in(
            b.enrichment_tables.entries(),
            k,
        ) is Some by {
        assert(a.enrichment_tables.spec_get(k) == b.enrichment_tables.spec_get(k));
    }
    assert forall|k: Seq<char>|
        find_in(a.secret.entries(), k) is Some <==> find_in(b.secret.entries(), k) is Some by {
        assert(a.secret.spec_get(k) == b.secret.spec_get(k));
    }
    lemma_same_keys_same_sorted(a.sources.entries(), b.sources.entries());
    lemma_same_keys_same_sorted(a.transforms.entries(), b.transforms.entries());
    lemma_same_keys_same_sorted(a.sinks.entries(), b.sinks.entries());
    lemma_same_keys_same_sorted(a.enrichment_tables.entries(), b.enrichment_tables.entries());
    lemma_same_keys_same_sorted(a.secret.entries(), b.secret.entries());
}

/// Rendering distributes over extending the key list at its end.
proof fn lemma_render_keys_push(s: Seq<Seq<char>>, e: Seq<char>)
    ensures
        render_keys(s.push(e)) == render_keys(s) + frame(e),
    decreases s.len(),
{
    if s.len() == 0 {
        assert(s.push(e)[0] == e);
        assert(s.push(e).drop_first() =~= Seq::<Seq<char>>::empty());
        assert(render_keys(Seq::<Seq<char>>::empty()) == Seq::<char>::empty());
        assert(render_keys(s.push(e)) =~= frame(e) + Seq::<char>::empty());
        assert(frame(e) + Seq::<char>::empty() =~= frame(e));
        assert(render_keys(s) + frame(e) =~= frame(e));
    } else {
        assert(s.push(e).drop_first() =~= s.drop_first().push(e));
        lemma_render_keys_push(s.drop_first(), e);
        assert(render_keys(s.push(e)) =~= render_keys(s) + frame(e));
    }
}

/// Rendering distributes over extending the test list at its end.
proof fn lemma_render_tests_push(
    s: Seq<crate::testdef::TestDefinition<String>>,
    e: crate::testdef::TestDefinition<String>,
)
    ensures
        render_tests(s.push(e)) == render_tests(s) + frame(e.name@),
    decreases s.len(),
{
    if s.len() == 0 {
        assert(s.push(e)[0] == e);
        assert(s.push(e).drop_first() =~= Seq::<crate::testdef::TestDefinition<String>>::empty());
        assert(render_tests(Seq::<crate::testdef::TestDefinition<String>>::empty())
            == Seq::<char>::empty());
        assert(render_tests(s.push(e)) =~= frame(e.name@) + Seq::<char>::empty());
        assert(frame(e.name@) + Seq::<char>::empty() =~= frame(e.name@));
        assert(render_tests(s) + frame(e.name@) =~= frame(e.name@));
    } else {
        assert(s.push(e).drop_first() =~= s.drop_first().push(e));
        lemma_render_tests_push(s.drop_first(), e);
        assert(render_tests(s.push(e)) =~= render_tests(s) + frame(e.name@));
    }
}

/// Append the framed form of `s`.
fn append_frame(acc: &mut String, s: &str)
    ensures
        final(acc)@ == old(acc)@ + frame(s@),
{
    acc.append(crate::text::dec_u64(s.unicode_len() as u64).as_str());
    acc.append(":");
    acc.append(s);
    acc.append(";");
    proof {
        assert(acc@ =~= old(acc)@ + frame(s@));
    }
}

/// Append one namespace's sorted, framed keys.
#[verifier::loop_isolation(false)]
fn append_sorted_keys(acc: &mut String, keys: Vec<String>)
    ensures
        final(acc)@ == old(acc)@ + render_keys(
            keys@.map_values(|s: String| s@).sort_by(|x: Seq<char>, y: Seq<char>| lex_leq(x, y)),
        ),
{
    let sorted = sort_key_views(keys);
    let ghost sortedv = sorted@.map_values(|s: String| s@);
    let n = sorted.len();
    let mut i: usize = 0;
    proof {
        assert(sortedv.take(0) =~= Seq::<Seq<char>>::empty());
        assert(old(acc)@ + render_keys(sortedv.take(0)) =~= old(acc)@);
    }
    while i < n
        invariant
            0 <= i <= n,
            n == sortedv.len(),
            acc@ == old(acc)@ + render_keys(sortedv.take(i as int)),
        decreases n - i,
    {
        append_frame(acc, sorted[i].as_str());
        proof {
            assert(sortedv.take(i as int + 1) =~= sortedv.take(i as int).push(sortedv[i as int]));
            lemma_render_keys_push(sortedv.take(i as int), sortedv[i as int]);
            assert(acc@ =~= old(acc)@ + render_keys(sortedv.take(i as int + 1)));
        }
        i += 1;
    }
    proof {
        assert(sortedv.take(n as int) =~= sortedv);
    }
}

impl ConfigBuilder {
    /// The keys of one namespace, for canonicalisation.
    fn namespace_keys<V>(ns: &OMap<V>) -> (r: Vec<String>)
        requires
            ns.wf(),
        ensures
            r@.map_values(|s: String| s@) == keys_of(ns.entries()),
    {
        let n = ns.len();
        let mut r: Vec<String> = Vec::new();
        let mut i: usize = 0;
        while i < n
            invariant
                0 <= i <= n,
                ns.wf(),
                n == ns.spec_len(),
                r@.len() == i,
                forall|j: int| 0 <= j < i ==> r@[j]@ == ns.entries()[j].0,
            decreases n - i,
        {
            r.push(ns.key_at(i).clone());
            i += 1;
        }
        proof {
            assert(r@.map_values(|s: String| s@) =~= keys_of(ns.entries()));
        }
        r
    }

    /// The SHA-256 digest of this builder's canonical form: sorted keys,
    /// interpreted globals, test names — excluding enterprise tags.
    #[verifier::loop_isolation(false)]
    #[verifier::rlimit(100)]
    pub fn sha256_hash(&self) -> (r: Vec<u8>)
        requires
            self.wf(),
        ensures
            r@ == sha256_text_of(canonical_text(*self)),
            r@.len() == 32,
    {
        let mut acc = "sources:".to_owned();
        append_sorted_keys(&mut acc, Self::namespace_keys(&self.sources));
        acc.append("transforms:");
        append_sorted_keys(&mut acc, Self::namespace_keys(&self.transforms));
        acc.append("sinks:");
        append_sorted_keys(&mut acc, Self::namespace_keys(&self.sinks));
        acc.append("tables:");
        append_sorted_keys(&mut acc, Self::namespace_keys(&self.enrichment_tables));
        acc.append("secrets:");
        append_sorted_keys(&mut acc, Self::namespace_keys(&self.secret));
        acc.append("globals:");
        match &self.global.data_dir {
            Some(d) => append_frame(&mut acc, d.as_str()),
            None => append_frame(&mut acc, ""),
        }
        proof {
            reveal_strlit("");
        }
        append_frame(&mut acc, self.global.log_schema.host_key.as_str());
        append_frame(&mut acc, self.global.log_schema.message_key.as_str());
        append_frame(&mut acc, self.global.log_schema.timestamp_key.as_str());
        match self.global.acknowledgements.enabled {
            Some(true) => acc.append("a1"),
            Some(false) => acc.append("a0"),
            None => acc.append("a-"),
        }
        if self.healthchecks.enabled {
            acc.append("h1");
        } else {
            acc.append("h0");
        }
        if self.healthchecks.require_healthy {
            acc.append("r1");
        } else {
            acc.append("r0");
        }
        acc.append("enterprise:");
        match &self.enterprise {
            Some(e) => {
                append_frame(&mut acc, e.api_key.as_str());
                append_frame(&mut acc, e.configuration_key.as_str());
            },
            None => acc.append("-"),
        }
        acc.append("tests:");
        let ghost testsv = self.tests@;
        let nt = self.tests.len();
        let ghost acc_before = acc@;
        let mut q: usize = 0;
        proof {
            assert(testsv.take(0) =~= Seq::<crate::testdef::TestDefinition<String>>::empty());
            assert(acc_before + render_tests(testsv.take(0)) =~= acc_before);
        }
        while q < nt
            invariant
                0 <= q <= nt,
                nt == testsv.len(),
                acc@ == acc_before + render_tests(testsv.take(q as int)),
            decreases nt - q,
        {
            append_frame(&mut acc, self.tests[q].name.as_str());
            proof {
                assert(testsv.take(q as int + 1) =~= testsv.take(q as int).push(
                    testsv[q as int],
                ));
                lemma_render_tests_push(testsv.take(q as int), testsv[q as int]);
                assert(acc@ =~= acc_before + render_tests(testsv.take(q as int + 1)));
            }
            q += 1;
        }
        proof {
            assert(testsv.take(nt as int) =~= testsv);
            assert(acc@ =~= canonical_text(*self));
        }
        sha256_text(acc.as_str())
    }
}

} // verus!
