//! Variable substitution: the textual pass run over each raw fragment
//! before it is parsed. `${NAME}` takes the variable's value, with the
//! `${NAME-default}` and `${NAME:-default}` forms supplying a fallback,
//! and `$$` yields a literal dollar sign. Lookup goes against a
//! caller-supplied environment snapshot; an undefined variable without a
//! default is collected, and substitution continues. The pass is applied
//! once: values are not expanded again.

use vstd::prelude::*;

verus! {

/// The value of the first environment entry named `name`.
pub open spec fn env_lookup(env: Seq<(Seq<u8>, Seq<u8>)>, name: Seq<u8>) -> Option<Seq<u8>>
    decreases env.len(),
{
    if env.len() == 0 {
        None
    } else if env[0].0 == name {
        Some(env[0].1)
    } else {
        env_lookup(env.drop_first(), name)
    }
}

/// The position of the first `}` at or after `j`.
pub open spec fn close_from(text: Seq<u8>, j: int) -> Option<int>
    decreases text.len() - j,
{
    if j < 0 || j >= text.len() {
        None
    } else if text[j] == 125u8 {
        Some(j)
    } else {
        close_from(text, j + 1)
    }
}

/// The position of the first `-` at or after `j`.
pub open spec fn dash_from(body: Seq<u8>, j: int) -> Option<int>
    decreases body.len() - j,
{
    if j < 0 || j >= body.len() {
        None
    } else if body[j] == 45u8 {
        Some(j)
    } else {
        dash_from(body, j + 1)
    }
}

/// Split a braced body into the variable name and the optional default:
/// the name runs to the first `-` (a `:` right before it belongs to the
/// separator), the default is everything after.
pub open spec fn body_name(body: Seq<u8>) -> Seq<u8> {
    match dash_from(body, 0) {
        None => body,
        Some(d) => if d > 0 && body[d - 1] == 58u8 {
            body.take(d - 1)
        } else {
            body.take(d)
        },
    }
}

pub open spec fn body_default(body: Seq<u8>) -> Option<Seq<u8>> {
    match dash_from(body, 0) {
        None => None,
        Some(d) => Some(body.skip(d + 1)),
    }
}

/// A found closing brace lies at or after the start of the search.
pub proof fn lemma_close_bounds(text: Seq<u8>, j: int)
    ensures
        close_from(text, j) matches Some(c) ==> j <= c < text.len(),
    decreases text.len() - j,
{
    if 0 <= j < text.len() && text[j] != 125u8 {
        lemma_close_bounds(text, j + 1);
    }
}

/// The replacement for one braced occurrence.
pub open spec fn replacement(env: Seq<(Seq<u8>, Seq<u8>)>, body: Seq<u8>) -> Seq<u8> {
    match env_lookup(env, body_name(body)) {
        Some(v) => v,
        None => match body_default(body) {
            Some(d) => d,
            None => Seq::empty(),
        },
    }
}

/// The substituted text from position `i` on.
pub open spec fn subst_out(text: Seq<u8>, env: Seq<(Seq<u8>, Seq<u8>)>, i: int) -> Seq<u8>
    decreases text.len() - i,
    via subst_out_decreases
{
    if i < 0 || i >= text.len() {
        Seq::empty()
    } else if text[i] == 36u8 && i + 1 < text.len() && text[i + 1] == 36u8 {
        seq![36u8] + subst_out(text, env, i + 2)
    } else if text[i] == 36u8 && i + 1 < text.len() && text[i + 1] == 123u8 && close_from(
        text,
        i + 2,
    ) is Some {
        let c = close_from(text, i + 2)->Some_0;
        replacement(env, text.subrange(i + 2, c)) + subst_out(text, env, c + 1)
    } else {
        seq![text[i]] + subst_out(text, env, i + 1)
    }
}

#[via_fn]
proof fn subst_out_decreases(text: Seq<u8>, env: Seq<(Seq<u8>, Seq<u8>)>, i: int) {
    lemma_close_bounds(text, i + 2);
}

/// The names of the undefined variables without defaults, from position
/// `i` on, in order of occurrence.
pub open spec fn subst_missing(text: Seq<u8>, env: Seq<(Seq<u8>, Seq<u8>)>, i: int) -> Seq<Seq<u8>>
    decreases text.len() - i,
    via subst_missing_decreases
{
    if i < 0 || i >= text.len() {
        Seq::empty()
    } else if text[i] == 36u8 && i + 1 < text.len() && text[i + 1] == 36u8 {
        subst_missing(text, env, i + 2)
    } else if text[i] == 36u8 && i + 1 < text.len() && text[i + 1] == 123u8 && close_from(
        text,
        i + 2,
    ) is Some {
        let c = close_from(text, i + 2)->Some_0;
        let body = text.subrange(i + 2, c);
        if env_lookup(env, body_name(body)) is None && body_default(body) is None {
            seq![body_name(body)] + subst_missing(text, env, c + 1)
        } else {
            subst_missing(text, env, c + 1)
        }
    } else {
        subst_missing(text, env, i + 1)
    }
}

#[via_fn]
proof fn subst_missing_decreases(text: Seq<u8>, env: Seq<(Seq<u8>, Seq<u8>)>, i: int) {
    lemma_close_bounds(text, i + 2);
}

fn bytes_eq(a: &Vec<u8>, b: &Vec<u8>) -> (r: bool)
    ensures
        r == (a@ == b@),
{
    if a.len() != b.len() {
        proof {
            assert(a@.len() != b@.len());
        }
        return false;
    }
    let n = a.len();
    let mut i: usize = 0;
    while i < n
        invariant
            0 <= i <= n,
            n == a@.len(),
            n == b@.len(),
            forall|j: int| 0 <= j < i ==> a@[j] == b@[j],
        decreases n - i,
    {
        if a[i] != b[i] {
            return false;
        }
        i += 1;
    }
    proof {
        assert(a@ =~= b@);
    }
    true
}

fn lookup(env: &Vec<(Vec<u8>, Vec<u8>)>, name: &Vec<u8>) -> (r: Option<Vec<u8>>)
    ensures
        match r {
            Some(v) => env_lookup(env@.map_values(|e: (Vec<u8>, Vec<u8>)| (e.0@, e.1@)), name@)
                == Some(v@),
            None => env_lookup(env@.map_values(|e: (Vec<u8>, Vec<u8>)| (e.0@, e.1@)), name@)
                is None,
        },
{
    let ghost envv = env@.map_values(|e: (Vec<u8>, Vec<u8>)| (e.0@, e.1@));
    let n = env.len();
    let mut i: usize = 0;
    proof {
        assert(envv.skip(0) =~= envv);
    }
    while i < n
        invariant
            0 <= i <= n,
            n == env@.len(),
            envv == env@.map_values(|e: (Vec<u8>, Vec<u8>)| (e.0@, e.1@)),
            env_lookup(envv, name@) == env_lookup(envv.skip(i as int), name@),
        decreases n - i,
    {
        proof {
            assert(envv.skip(i as int)[0] == envv[i as int]);
            assert(envv.skip(i as int).drop_first() =~= envv.skip(i as int + 1));
        }
        if bytes_eq(&env[i].0, name) {
            let mut out: Vec<u8> = Vec::new();
            let m = env[i].1.len();
            let mut j: usize = 0;
            while j < m
                invariant
                    0 <= j <= m,
                    0 <= i < n,
                    n == env@.len(),
                    m == env@[i as int].1@.len(),
                    out@ =~= env@[i as int].1@.take(j as int),
                decreases m - j,
            {
                out.push(env[i].1[j]);
                proof {
                    assert(out@ =~= env@[i as int].1@.take(j as int + 1));
                }
                j += 1;
            }
            proof {
                assert(out@ =~= env@[i as int].1@);
                assert(envv[i as int].1 == env@[i as int].1@);
            }
            return Some(out);
        }
        i += 1;
    }
    proof {
        assert(envv.skip(n as int).len() == 0);
    }
    None
}

fn find_close(text: &Vec<u8>, j: usize) -> (r: Option<usize>)
    ensures
        match r {
            Some(c) => close_from(text@, j as int) == Some(c as int) && j <= c < text@.len(),
            None => close_from(text@, j as int) is None,
        },
{
    let n = text.len();
    let mut i: usize = j;
    while i < n
        invariant
            j <= i <= n || (j > n && i == j),
            n == text@.len(),
            close_from(text@, j as int) == close_from(text@, i as int),
        decreases n - i,
    {
        if text[i] == 125u8 {
            return Some(i);
        }
        i += 1;
    }
    None
}

fn find_dash(body: &Vec<u8>) -> (r: Option<usize>)
    ensures
        match r {
            Some(d) => dash_from(body@, 0) == Some(d as int) && d < body@.len(),
            None => dash_from(body@, 0) is None,
        },
{
    let n = body.len();
    let mut i: usize = 0;
    while i < n
        invariant
            0 <= i <= n,
            n == body@.len(),
            dash_from(body@, 0) == dash_from(body@, i as int),
        decreases n - i,
    {
        if body[i] == 45u8 {
            return Some(i);
        }
        i += 1;
    }
    None
}

fn copy_range(text: &Vec<u8>, from: usize, to: usize) -> (r: Vec<u8>)
    requires
        from <= to <= text@.len(),
    ensures
        r@ == text@.subrange(from as int, to as int),
{
    let mut r: Vec<u8> = Vec::new();
    let mut i: usize = from;
    proof {
        assert(r@ =~= text@.subrange(from as int, from as int));
    }
    while i < to
        invariant
            from <= i <= to,
            to <= text@.len(),
            r@ == text@.subrange(from as int, i as int),
        decreases to - i,
    {
        r.push(text[i]);
        proof {
            assert(r@ =~= text@.subrange(from as int, i as int + 1));
        }
        i += 1;
    }
    r
}

/// Substitute every variable reference in `text` against `env` in one
/// pass, returning the substituted text and the names of the undefined
/// variables that had no default.
#[verifier::loop_isolation(false)]
#[verifier::rlimit(100)]
pub fn substitute_variables(text: &Vec<u8>, env: &Vec<(Vec<u8>, Vec<u8>)>) -> (r: (
    Vec<u8>,
    Vec<Vec<u8>>,
))
    ensures
        r.0@ == subst_out(text@, env@.map_values(|e: (Vec<u8>, Vec<u8>)| (e.0@, e.1@)), 0),
        r.1@.map_values(|m: Vec<u8>| m@) == subst_missing(
            text@,
            env@.map_values(|e: (Vec<u8>, Vec<u8>)| (e.0@, e.1@)),
            0,
        ),
{
    let ghost envv = env@.map_values(|e: (Vec<u8>, Vec<u8>)| (e.0@, e.1@));
    let mut out: Vec<u8> = Vec::new();
    let mut missing: Vec<Vec<u8>> = Vec::new();
    let n = text.len();
    let mut i: usize = 0;
    while i < n
        invariant
            0 <= i <= n,
            n == text@.len(),
            subst_out(text@, envv, 0) == out@ + subst_out(text@, envv, i as int),
            subst_missing(text@, envv, 0) == missing@.map_values(|m: Vec<u8>| m@) + subst_missing(
                text@,
                envv,
                i as int,
            ),
        decreases n - i,
    {
        let ghost out0 = out@;
        let ghost missing0 = missing@.map_values(|m: Vec<u8>| m@);
        if text[i] == 36u8 && i + 1 < n && text[i + 1] == 36u8 {
            out.push(36u8);
            proof {
                assert(out@ =~= out0 + seq![36u8]);
                assert(out0 + (seq![36u8] + subst_out(text@, envv, i as int + 2)) =~= (out0
                    + seq![36u8]) + subst_out(text@, envv, i as int + 2));
            }
            i += 2;
        } else if text[i] == 36u8 && i + 1 < n && text[i + 1] == 123u8 && find_close(
            text,
            i + 2,
        ).is_some() {
            let c = find_close(text, i + 2).unwrap();
            let body = copy_range(text, i + 2, c);
            let ghost bodyv = text@.subrange(i as int + 2, c as int);
            let (name, default) = match find_dash(&body) {
                None => (body, None),
                Some(d) => {
                    if d > 0 && body[d - 1] == 58u8 {
                        let nm = copy_range(&body, 0, d - 1);
                        let df = copy_range(&body, d + 1, body.len());
                        proof {
                            assert(nm@ =~= body_name(bodyv));
                            assert(df@ =~= body_default(bodyv)->Some_0);
                        }
                        (nm, Some(df))
                    } else {
                        let nm = copy_range(&body, 0, d);
                        let df = copy_range(&body, d + 1, body.len());
                        proof {
                            assert(nm@ =~= body_name(bodyv));
                            assert(df@ =~= body_default(bodyv)->Some_0);
                        }
                        (nm, Some(df))
                    }
                },
            };
            let mut rep: Vec<u8> = match lookup(env, &name) {
                Some(v) => v,
                None => match default {
                    Some(d) => d,
                    None => {
                        missing.push(name);
                        Vec::new()
                    },
                },
            };
            proof {
                assert(rep@ == replacement(envv, bodyv) || (env_lookup(envv, body_name(bodyv))
                    is None && body_default(bodyv) is None && rep@ =~= Seq::<u8>::empty()));
                assert(rep@ == replacement(envv, bodyv));
            }
            out.append(&mut rep);
            proof {
                assert(out@ =~= out0 + replacement(envv, bodyv));
                assert(out0 + (replacement(envv, bodyv) + subst_out(text@, envv, c as int + 1))
                    =~= (out0 + replacement(envv, bodyv)) + subst_out(text@, envv, c as int + 1));
                assert(missing@.map_values(|m: Vec<u8>| m@) =~= if env_lookup(
                    envv,
                    body_name(bodyv),
                ) is None && body_default(bodyv) is None {
                    missing0 + seq![body_name(bodyv)]
                } else {
                    missing0
                });
                assert(missing0 + (seq![body_name(bodyv)] + subst_missing(
                    text@,
                    envv,
                    c as int + 1,
                )) =~= (missing0 + seq![body_name(bodyv)]) + subst_missing(
                    text@,
                    envv,
                    c as int + 1,
                ));
            }
            i = c + 1;
        } else {
            out.push(text[i]);
            proof {
                assert(out@ =~= out0 + seq![text@[i as int]]);
                assert(out0 + (seq![text@[i as int]] + subst_out(text@, envv, i as int + 1)) =~= (
                out0 + seq![text@[i as int]]) + subst_out(text@, envv, i as int + 1));
            }
            i += 1;
        }
    }
    proof {
        assert(subst_out(text@, envv, n as int) =~= Seq::<u8>::empty());
        assert(out@ + Seq::<u8>::empty() =~= out@);
        assert(subst_missing(text@, envv, n as int) =~= Seq::<Seq<u8>>::empty());
        assert(missing@.map_values(|m: Vec<u8>| m@) + Seq::<Seq<u8>>::empty() =~= missing@.map_values(
            |m: Vec<u8>| m@,
        ));
    }
    (out, missing)
}

} // verus!
