use vstd::prelude::*;

use crate::text::{append_chars, chars_of, decimal, push_decimal, string_from_chars};
use crate::value::{is_error, py_err_val, Value};

verus! {

/// Where a name bound at a call gets its value from: a positional argument,
/// the tuple of the positional arguments from an index on, a keyword
/// argument, the dictionary of the keyword arguments no parameter took, or
/// the parameter's default.
#[derive(Clone, Copy, PartialEq, Eq, Structural, Debug)]
pub enum Source {
    Arg(usize),
    Rest(usize),
    Kw(usize),
    KwRest,
    Default,
}

/// The bindings of a call, in the order they are made (a later binding of a
/// name replaces an earlier one), and the keyword arguments, by index, that
/// no parameter took.
#[derive(Clone, Debug, PartialEq)]
pub struct Binding {
    pub assigns: Vec<(String, Source)>,
    pub leftover: Vec<usize>,
}

pub open spec fn names(v: Seq<String>) -> Seq<Seq<char>> {
    v.map_values(|s: String| s@)
}

pub open spec fn assigns_view(v: Seq<(String, Source)>) -> Seq<(Seq<char>, Source)> {
    v.map_values(|p: (String, Source)| (p.0@, p.1))
}

/// The first `k` parameters, bound to the first `k` arguments.
pub open spec fn pos_assigns(params: Seq<Seq<char>>, k: int) -> Seq<(Seq<char>, Source)> {
    Seq::new(k as nat, |i: int| (params[i], Source::Arg(i as usize)))
}

/// The keyword arguments from `j` on: one that names a parameter binds it
/// (an `Err` with its name where the parameter is bound already); the others
/// are left over.
pub open spec fn kw_step(
    params: Seq<Seq<char>>,
    kws: Seq<Seq<char>>,
    j: int,
    bound: Seq<Seq<char>>,
    assigns: Seq<(Seq<char>, Source)>,
    left: Seq<usize>,
) -> Result<(Seq<Seq<char>>, Seq<(Seq<char>, Source)>, Seq<usize>), Seq<char>>
    decreases kws.len() - j,
{
    if j < 0 || j >= kws.len() {
        Ok((bound, assigns, left))
    } else if params.contains(kws[j]) {
        if bound.contains(kws[j]) {
            Err(kws[j])
        } else {
            kw_step(
                params,
                kws,
                j + 1,
                bound.push(kws[j]),
                assigns.push((kws[j], Source::Kw(j as usize))),
                left,
            )
        }
    } else {
        kw_step(params, kws, j + 1, bound, assigns, left.push(j as usize))
    }
}

/// The parameters from `i` on that are still unbound take their default (an
/// `Err` with the name of the first that has none).
pub open spec fn default_step(
    params: Seq<Seq<char>>,
    defaults: Seq<Seq<char>>,
    i: int,
    bound: Seq<Seq<char>>,
    assigns: Seq<(Seq<char>, Source)>,
) -> Result<Seq<(Seq<char>, Source)>, Seq<char>>
    decreases params.len() - i,
{
    if i < 0 || i >= params.len() {
        Ok(assigns)
    } else if bound.contains(params[i]) {
        default_step(params, defaults, i + 1, bound, assigns)
    } else if defaults.contains(params[i]) {
        default_step(params, defaults, i + 1, bound, assigns.push((params[i], Source::Default)))
    } else {
        Err(params[i])
    }
}

pub open spec fn too_many_msg(f: Seq<char>, np: nat, na: nat) -> Seq<char> {
    f + "() takes "@ + decimal(np) + " positional arguments but "@ + decimal(na)
        + " were given"@
}

pub open spec fn multiple_msg(f: Seq<char>, k: Seq<char>) -> Seq<char> {
    f + "() got multiple values for argument '"@ + k + "'"@
}

pub open spec fn unexpected_msg(f: Seq<char>, k: Seq<char>) -> Seq<char> {
    f + "() got an unexpected keyword argument '"@ + k + "'"@
}

pub open spec fn missing_msg(f: Seq<char>, p: Seq<char>) -> Seq<char> {
    f + "() missing required argument: '"@ + p + "'"@
}

/// How a call of the function `f` with parameters `params` (those named in
/// `defaults` have one), `*vararg`, `**kwarg`, `n` positional arguments and
/// keyword arguments named `kws` binds its names: the bindings and the
/// left-over keyword arguments, or the message of its `TypeError`.
pub open spec fn bind_spec(
    f: Seq<char>,
    params: Seq<Seq<char>>,
    defaults: Seq<Seq<char>>,
    vararg: Option<Seq<char>>,
    kwarg: Option<Seq<char>>,
    n: nat,
    kws: Seq<Seq<char>>,
) -> Result<(Seq<(Seq<char>, Source)>, Seq<usize>), Seq<char>> {
    let k: int = if n < params.len() {
        n as int
    } else {
        params.len() as int
    };
    let a1 = pos_assigns(params, k);
    let a2: Result<Seq<(Seq<char>, Source)>, Seq<char>> = match vararg {
        Some(v) => Ok(a1.push((v, Source::Rest(k as usize)))),
        None => if k < n {
            Err(too_many_msg(f, params.len(), n))
        } else {
            Ok(a1)
        },
    };
    match a2 {
        Err(m) => Err(m),
        Ok(a2) => match kw_step(params, kws, 0, params.take(k), a2, seq![]) {
            Err(name) => Err(multiple_msg(f, name)),
            Ok((b3, a3, left)) => {
                let a4: Result<Seq<(Seq<char>, Source)>, Seq<char>> = match kwarg {
                    Some(kn) => Ok(a3.push((kn, Source::KwRest))),
                    None => if left.len() > 0 {
                        Err(unexpected_msg(f, kws[left[0] as int]))
                    } else {
                        Ok(a3)
                    },
                };
                match a4 {
                    Err(m) => Err(m),
                    Ok(a4) => match default_step(params, defaults, 0, b3, a4) {
                        Err(p) => Err(missing_msg(f, p)),
                        Ok(a5) => Ok((a5, left)),
                    },
                }
            },
        },
    }
}

fn contains_name(v: &Vec<String>, s: &String) -> (b: bool)
    ensures
        b == names(v@).contains(s@),
{
    let mut i: usize = 0;
    while i < v.len()
        invariant
            i <= v@.len(),
            forall|j: int| 0 <= j < i ==> v@[j]@ != s@,
        decreases v@.len() - i,
    {
        if v[i] == *s {
            assert(names(v@)[i as int] == s@);
            return true;
        }
        i = i + 1;
    }
    proof {
        if names(v@).contains(s@) {
            let j = choose|j: int| 0 <= j < names(v@).len() && names(v@)[j] == s@;
            assert(v@[j]@ == s@);
        }
    }
    false
}

fn type_error(msg: Vec<char>) -> (e: Value)
    ensures
        is_error(e, "TypeError"@, msg@),
{
    let m = string_from_chars(msg.as_slice());
    py_err_val("TypeError", m.as_str())
}

/// Binds the names of a call of the function `f` (see `bind_spec`), or gives
/// its `TypeError`.
#[verifier::loop_isolation(false)]
pub fn bind_args(
    f: &str,
    params: &Vec<String>,
    defaults: &Vec<String>,
    vararg: &Option<String>,
    kwarg: &Option<String>,
    n: usize,
    kws: &Vec<String>,
) -> (r: Result<Binding, Value>)
    ensures
        match bind_spec(
            f@,
            names(params@),
            names(defaults@),
            match vararg {
                Some(v) => Some(v@),
                None => None,
            },
            match kwarg {
                Some(k) => Some(k@),
                None => None,
            },
            n as nat,
            names(kws@),
        ) {
            Ok((a, l)) => r matches Ok(b) && assigns_view(b.assigns@) == a && b.leftover@ == l,
            Err(m) => r matches Err(e) && is_error(e, "TypeError"@, m),
        },
{
    let ghost ps = names(params@);
    let ghost ks = names(kws@);
    let k: usize = if n < params.len() {
        n
    } else {
        params.len()
    };
    let mut assigns: Vec<(String, Source)> = Vec::new();
    let mut bound: Vec<String> = Vec::new();
    let mut i: usize = 0;
    while i < k
        invariant
            k <= params@.len(),
            i <= k,
            assigns_view(assigns@) == pos_assigns(ps, i as int),
            names(bound@) == ps.take(i as int),
        decreases k - i,
    {
        let ghost old_a = assigns@;
        let ghost old_b = bound@;
        assigns.push((params[i].clone(), Source::Arg(i)));
        bound.push(params[i].clone());
        proof {
            assert(assigns_view(assigns@) =~= assigns_view(old_a).push((ps[i as int], Source::Arg(i))));
            assert(pos_assigns(ps, i + 1) =~= pos_assigns(ps, i as int).push((ps[i as int], Source::Arg(i))));
            assert(names(bound@) =~= names(old_b).push(ps[i as int]));
            assert(ps.take(i + 1) =~= ps.take(i as int).push(ps[i as int]));
        }
        i = i + 1;
    }
    match vararg {
        Some(v) => {
            assigns.push((v.clone(), Source::Rest(k)));
            assert(assigns_view(assigns@) =~= pos_assigns(ps, k as int).push((v@, Source::Rest(k))));
        },
        None => if k < n {
            let mut m = chars_of(f);
            append_chars(&mut m, chars_of("() takes ").as_slice());
            push_decimal(&mut m, params.len() as u64);
            append_chars(&mut m, chars_of(" positional arguments but ").as_slice());
            push_decimal(&mut m, n as u64);
            append_chars(&mut m, chars_of(" were given").as_slice());
            assert(m@ =~= too_many_msg(f@, ps.len(), n as nat));
            return Err(type_error(m));
        },
    }
    let ghost a2 = assigns_view(assigns@);
    let mut left: Vec<usize> = Vec::new();
    let mut j: usize = 0;
    while j < kws.len()
        invariant
            j <= kws@.len(),
            ks == names(kws@),
            ps == names(params@),
            kw_step(ps, ks, 0, ps.take(k as int), a2, seq![]) == kw_step(
                ps,
                ks,
                j as int,
                names(bound@),
                assigns_view(assigns@),
                left@,
            ),
            forall|x: int| 0 <= x < left@.len() ==> left@[x] < j,
        decreases kws@.len() - j,
    {
        let ghost old_a = assigns@;
        let ghost old_b = bound@;
        let ghost old_l = left@;
        assert(ks[j as int] == kws@[j as int]@);
        if contains_name(params, &kws[j]) {
            if contains_name(&bound, &kws[j]) {
                let mut m = chars_of(f);
                append_chars(&mut m, chars_of("() got multiple values for argument '").as_slice());
                append_chars(&mut m, chars_of(kws[j].as_str()).as_slice());
                append_chars(&mut m, chars_of("'").as_slice());
                assert(m@ =~= multiple_msg(f@, ks[j as int]));
                return Err(type_error(m));
            }
            assigns.push((kws[j].clone(), Source::Kw(j)));
            bound.push(kws[j].clone());
            assert(names(bound@) =~= names(old_b).push(ks[j as int]));
            assert(assigns_view(assigns@) =~= assigns_view(old_a).push((ks[j as int], Source::Kw(j))));
        } else {
            left.push(j);
            assert(left@ =~= old_l.push(j));
        }
        j = j + 1;
    }
    match kwarg {
        Some(kn) => {
            let ghost old_a = assigns@;
            assigns.push((kn.clone(), Source::KwRest));
            assert(assigns_view(assigns@) =~= assigns_view(old_a).push((kn@, Source::KwRest)));
        },
        None => if left.len() > 0 {
            let mut m = chars_of(f);
            append_chars(&mut m, chars_of("() got an unexpected keyword argument '").as_slice());
            append_chars(&mut m, chars_of(kws[left[0]].as_str()).as_slice());
            append_chars(&mut m, chars_of("'").as_slice());
            assert(m@ =~= unexpected_msg(f@, ks[left@[0] as int]));
            return Err(type_error(m));
        },
    }
    let ghost a4 = assigns_view(assigns@);
    let ghost b3 = names(bound@);
    let mut i: usize = 0;
    while i < params.len()
        invariant
            i <= params@.len(),
            ps == names(params@),
            b3 == names(bound@),
            default_step(ps, names(defaults@), 0, b3, a4) == default_step(
                ps,
                names(defaults@),
                i as int,
                b3,
                assigns_view(assigns@),
            ),
        decreases params@.len() - i,
    {
        assert(ps[i as int] == params@[i as int]@);
        if !contains_name(&bound, &params[i]) {
            if contains_name(defaults, &params[i]) {
                let ghost old_a = assigns@;
                assigns.push((params[i].clone(), Source::Default));
                assert(assigns_view(assigns@) =~= assigns_view(old_a).push((ps[i as int], Source::Default)));
            } else {
                let mut m = chars_of(f);
                append_chars(&mut m, chars_of("() missing required argument: '").as_slice());
                append_chars(&mut m, chars_of(params[i].as_str()).as_slice());
                append_chars(&mut m, chars_of("'").as_slice());
                assert(m@ =~= missing_msg(f@, ps[i as int]));
                return Err(type_error(m));
            }
        }
        i = i + 1;
    }
    Ok(Binding { assigns, leftover: left })
}

/// Some binding in `a` is of the name `x`.
pub open spec fn binds(a: Seq<(Seq<char>, Source)>, x: Seq<char>) -> bool {
    exists|j: int| 0 <= j < a.len() && (#[trigger] a[j]).0 == x
}

/// `b` continues `a`.
pub open spec fn extends(a: Seq<(Seq<char>, Source)>, b: Seq<(Seq<char>, Source)>) -> bool {
    a.len() <= b.len() && forall|j: int| 0 <= j < a.len() ==> #[trigger] b[j] == a[j]
}

/// Every name in `bound` has a binding in `a`.
pub open spec fn covers(bound: Seq<Seq<char>>, a: Seq<(Seq<char>, Source)>) -> bool {
    forall|x: Seq<char>| #[trigger] bound.contains(x) ==> binds(a, x)
}

proof fn lemma_binds_extends(a: Seq<(Seq<char>, Source)>, b: Seq<(Seq<char>, Source)>, x: Seq<char>)
    requires
        binds(a, x),
        extends(a, b),
    ensures
        binds(b, x),
{
    let j = choose|j: int| 0 <= j < a.len() && (#[trigger] a[j]).0 == x;
    assert(b[j] == a[j]);
}

proof fn lemma_kw_covers(
    params: Seq<Seq<char>>,
    kws: Seq<Seq<char>>,
    j: int,
    bound: Seq<Seq<char>>,
    assigns: Seq<(Seq<char>, Source)>,
    left: Seq<usize>,
)
    requires
        covers(bound, assigns),
    ensures
        kw_step(params, kws, j, bound, assigns, left) matches Ok((b, a, l)) ==> covers(b, a)
            && extends(assigns, a),
    decreases kws.len() - j,
{
    if j < 0 || j >= kws.len() {
    } else if params.contains(kws[j]) {
        if !bound.contains(kws[j]) {
            let b2 = bound.push(kws[j]);
            let a2 = assigns.push((kws[j], Source::Kw(j as usize)));
            assert(extends(assigns, a2));
            assert forall|x: Seq<char>| #[trigger] b2.contains(x) implies binds(a2, x) by {
                if x == kws[j] {
                    assert(a2[assigns.len() as int].0 == x);
                } else {
                    let m = choose|m: int| 0 <= m < b2.len() && b2[m] == x;
                    assert(bound[m] == x);
                    assert(bound.contains(x));
                    lemma_binds_extends(assigns, a2, x);
                }
            }
            lemma_kw_covers(params, kws, j + 1, b2, a2, left);
        }
    } else {
        lemma_kw_covers(params, kws, j + 1, bound, assigns, left.push(j as usize));
    }
}

proof fn lemma_default_covers(
    params: Seq<Seq<char>>,
    defaults: Seq<Seq<char>>,
    i: int,
    bound: Seq<Seq<char>>,
    assigns: Seq<(Seq<char>, Source)>,
)
    requires
        0 <= i,
    ensures
        default_step(params, defaults, i, bound, assigns) matches Ok(a) ==> extends(assigns, a)
            && forall|m: int|
            i <= m < params.len() && !bound.contains(params[m]) ==> binds(a, #[trigger] params[m]),
    decreases params.len() - i,
{
    if i >= params.len() {
    } else if bound.contains(params[i]) {
        lemma_default_covers(params, defaults, i + 1, bound, assigns);
    } else if defaults.contains(params[i]) {
        let a2 = assigns.push((params[i], Source::Default));
        lemma_default_covers(params, defaults, i + 1, bound, a2);
        match default_step(params, defaults, i + 1, bound, a2) {
            Ok(a) => {
                assert(a2[assigns.len() as int].0 == params[i]);
                lemma_binds_extends(a2, a, params[i]);
                assert(extends(assigns, a)) by {
                    assert forall|j: int| 0 <= j < assigns.len() implies #[trigger] a[j] == assigns[j] by {
                        assert(a[j] == a2[j]);
                    }
                }
            },
            Err(_) => {},
        }
    }
}

/// A call that binds without error gives every parameter a value.
pub proof fn lemma_bind_covers_params(
    f: Seq<char>,
    params: Seq<Seq<char>>,
    defaults: Seq<Seq<char>>,
    vararg: Option<Seq<char>>,
    kwarg: Option<Seq<char>>,
    n: nat,
    kws: Seq<Seq<char>>,
)
    ensures
        bind_spec(f, params, defaults, vararg, kwarg, n, kws) matches Ok((a, l)) ==> forall|i: int|
            0 <= i < params.len() ==> binds(a, #[trigger] params[i]),
{
    let k: int = if n < params.len() {
        n as int
    } else {
        params.len() as int
    };
    let a1 = pos_assigns(params, k);
    let b0 = params.take(k);
    assert(covers(b0, a1)) by {
        assert forall|x: Seq<char>| #[trigger] b0.contains(x) implies binds(a1, x) by {
            let m = choose|m: int| 0 <= m < b0.len() && b0[m] == x;
            assert(a1[m].0 == x);
        }
    }
    let a2 = match vararg {
        Some(v) => a1.push((v, Source::Rest(k as usize))),
        None => a1,
    };
    assert(extends(a1, a2));
    assert(covers(b0, a2)) by {
        assert forall|x: Seq<char>| #[trigger] b0.contains(x) implies binds(a2, x) by {
            lemma_binds_extends(a1, a2, x);
        }
    }
    lemma_kw_covers(params, kws, 0, b0, a2, seq![]);
    match kw_step(params, kws, 0, b0, a2, seq![]) {
        Err(_) => {},
        Ok((b3, a3, left)) => {
            let a4 = match kwarg {
                Some(kn) => a3.push((kn, Source::KwRest)),
                None => a3,
            };
            assert(extends(a3, a4));
            lemma_default_covers(params, defaults, 0, b3, a4);
            match default_step(params, defaults, 0, b3, a4) {
                Err(_) => {},
                Ok(a5) => {
                    assert forall|i: int| 0 <= i < params.len() implies binds(a5, #[trigger] params[i]) by {
                        if b3.contains(params[i]) {
                            lemma_binds_extends(a3, a4, params[i]);
                            lemma_binds_extends(a4, a5, params[i]);
                        }
                    }
                },
            }
        },
    }
}

} // verus!
