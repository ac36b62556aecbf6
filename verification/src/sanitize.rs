//! Entry-name sanitisation: archives are untrusted input, and an entry name
//! must never escape the extraction root.

use vstd::prelude::*;

verus! {

/// Path separator bytes: archives may use `/` or `\` regardless of host.
pub open spec fn is_sep(b: u8) -> bool {
    b == 47 || b == 92
}

/// The parent-directory component `..`.
pub open spec fn dotdot() -> Seq<u8> {
    seq![46u8, 46u8]
}

/// The name split at separator bytes; there is always at least one
/// component, and adjacent separators yield empty components.
pub open spec fn split_comps(s: Seq<u8>) -> Seq<Seq<u8>>
    decreases s.len(),
{
    if s.len() == 0 {
        seq![Seq::<u8>::empty()]
    } else {
        let rest = split_comps(s.drop_last());
        if is_sep(s.last()) {
            rest.push(Seq::<u8>::empty())
        } else {
            rest.update(rest.len() - 1, rest.last().push(s.last()))
        }
    }
}

pub proof fn lemma_split_len(s: Seq<u8>)
    ensures
        split_comps(s).len() >= 1,
    decreases s.len(),
{
    if s.len() > 0 {
        lemma_split_len(s.drop_last());
    }
}

/// A component that survives normalisation: non-empty and not `.`.
pub open spec fn keep_comp(c: Seq<u8>) -> bool {
    c.len() > 0 && c != seq![46u8]
}

/// The components with empty and `.` components dropped.
pub open spec fn normalize(cs: Seq<Seq<u8>>) -> Seq<Seq<u8>>
    decreases cs.len(),
{
    if cs.len() == 0 {
        Seq::<Seq<u8>>::empty()
    } else {
        let rest = normalize(cs.drop_last());
        if keep_comp(cs.last()) {
            rest.push(cs.last())
        } else {
            rest
        }
    }
}

/// A name the sanitizer must reject: a NUL byte, a drive or volume colon,
/// an absolute root, or a parent-directory component at any position.
pub open spec fn unsafe_name(s: Seq<u8>) -> bool {
    ||| s.contains(0)
    ||| s.contains(58)
    ||| (s.len() > 0 && is_sep(s[0]))
    ||| (exists|i: int|
        0 <= i < split_comps(s).len() && #[trigger] split_comps(s)[i] == dotdot())
}

/// What sanitisation yields: `None` for an unsafe name, else the normalized
/// sequence of relative path components.
pub open spec fn sanitize_spec(s: Seq<u8>) -> Option<Seq<Seq<u8>>> {
    if unsafe_name(s) {
        None
    } else {
        Some(normalize(split_comps(s)))
    }
}

/// The views of a vector of byte vectors.
pub open spec fn comp_views(v: Seq<Vec<u8>>) -> Seq<Seq<u8>> {
    v.map_values(|x: Vec<u8>| x@)
}

pub proof fn lemma_comp_views_push(v: Seq<Vec<u8>>, x: Vec<u8>)
    ensures
        comp_views(v.push(x)) == comp_views(v).push(x@),
{
    assert(comp_views(v.push(x)) =~= comp_views(v).push(x@));
}

/// Maps an entry name to confined relative path components, or rejects it.
pub fn sanitize(name: &Vec<u8>) -> (r: Option<Vec<Vec<u8>>>)
    ensures
        match r {
            Some(c) => sanitize_spec(name@) == Some(comp_views(c@)),
            None => unsafe_name(name@),
        },
{
    let n = name.len();
    if n > 0 && (name[0] == 47 || name[0] == 92) {
        return None;
    }
    let mut i: usize = 0;
    while i < n
        invariant
            n == name.len(),
            i <= n,
            forall|j: int| 0 <= j < i ==> name@[j] != 0 && name@[j] != 58,
        decreases n - i,
    {
        let b = name[i];
        if b == 0 || b == 58 {
            proof {
                assert(name@[i as int] == b);
                assert(name@.contains(b));
            }
            return None;
        }
        i = i + 1;
    }
    proof {
        assert(!name@.contains(0));
        assert(!name@.contains(58));
    }

    let mut comps: Vec<Vec<u8>> = Vec::new();
    let mut cur: Vec<u8> = Vec::new();
    let mut i: usize = 0;
    while i < n
        invariant
            n == name.len(),
            i <= n,
            split_comps(name@.take(i as int)) == comp_views(comps@).push(cur@),
        decreases n - i,
    {
        let b = name[i];
        proof {
            assert(name@.take((i + 1) as int).drop_last() =~= name@.take(i as int));
            assert(name@.take((i + 1) as int).last() == name@[i as int]);
        }
        if b == 47 || b == 92 {
            let ghost oldcomps = comps@;
            let ghost oldcur = cur@;
            comps.push(cur);
            cur = Vec::new();
            proof {
                lemma_comp_views_push(oldcomps, comps@.last());
                assert(split_comps(name@.take((i + 1) as int)) =~= comp_views(comps@).push(
                    cur@,
                ));
            }
        } else {
            cur.push(b);
            proof {
                assert(split_comps(name@.take((i + 1) as int)) =~= comp_views(comps@).push(
                    cur@,
                ));
            }
        }
        i = i + 1;
    }
    proof {
        assert(name@.take(n as int) =~= name@);
    }
    let ghost precomps = comps@;
    comps.push(cur);
    proof {
        lemma_comp_views_push(precomps, comps@.last());
        assert(comp_views(comps@) == split_comps(name@));
    }

    let m = comps.len();
    let mut i: usize = 0;
    while i < m
        invariant
            m == comps.len(),
            i <= m,
            comp_views(comps@) == split_comps(name@),
            forall|j: int| 0 <= j < i ==> #[trigger] split_comps(name@)[j] != dotdot(),
        decreases m - i,
    {
        let c: &Vec<u8> = &comps[i];
        if c.len() == 2 && c[0] == 46 && c[1] == 46 {
            proof {
                assert(split_comps(name@)[i as int] =~= dotdot());
            }
            return None;
        }
        proof {
            assert(split_comps(name@)[i as int] != dotdot());
        }
        i = i + 1;
    }
    proof {
        assert(!unsafe_name(name@));
    }

    let mut out: Vec<Vec<u8>> = Vec::new();
    let mut i: usize = 0;
    while i < m
        invariant
            m == comps.len(),
            i <= m,
            comp_views(comps@) == split_comps(name@),
            comp_views(out@) == normalize(comp_views(comps@).take(i as int)),
        decreases m - i,
    {
        let c: &Vec<u8> = &comps[i];
        proof {
            assert(comp_views(comps@).take((i + 1) as int).drop_last() =~= comp_views(
                comps@,
            ).take(i as int));
            assert(comp_views(comps@).take((i + 1) as int).last() == comp_views(comps@)[
                i as int
            ]);
        }
        if c.len() > 0 && !(c.len() == 1 && c[0] == 46) {
            proof {
                assert(c@ != seq![46u8]);
                assert(keep_comp(comp_views(comps@)[i as int]));
            }
            let ghost oldout = out@;
            let copied = crate::le::copy_range(c, 0, c.len());
            proof {
                assert(copied@ =~= c@);
            }
            out.push(copied);
            proof {
                lemma_comp_views_push(oldout, out@.last());
                assert(comp_views(out@) == normalize(
                    comp_views(comps@).take((i + 1) as int),
                ));
            }
        } else {
            proof {
                if c@.len() == 1 {
                    assert(c@ =~= seq![46u8]);
                }
                assert(!keep_comp(comp_views(comps@)[i as int]));
            }
        }
        i = i + 1;
    }
    proof {
        assert(comp_views(comps@).take(m as int) =~= comp_views(comps@));
    }
    Some(out)
}

/// Law: the sanitizer rejects every name that embeds a NUL byte, a drive or
/// volume colon, an absolute root, or a parent-directory component.
pub proof fn lemma_sanitize_rejects(s: Seq<u8>)
    requires
        s.contains(0) || s.contains(58) || (s.len() > 0 && is_sep(s[0])) || (exists|i: int|
            0 <= i < split_comps(s).len() && #[trigger] split_comps(s)[i] == dotdot()),
    ensures
        sanitize_spec(s) is None,
{
}

/// Every byte of every split component occurs in the name and is not a
/// separator.
pub proof fn lemma_split_comp_bytes(s: Seq<u8>)
    ensures
        forall|i: int, k: int|
            0 <= i < split_comps(s).len() && 0 <= k < #[trigger] split_comps(s)[i].len()
                ==> !is_sep(#[trigger] split_comps(s)[i][k]) && s.contains(
                split_comps(s)[i][k],
            ),
    decreases s.len(),
{
    if s.len() > 0 {
        let t = s.drop_last();
        lemma_split_comp_bytes(t);
        assert forall|x: u8| t.contains(x) implies s.contains(x) by {
            let j = choose|j: int| 0 <= j < t.len() && t[j] == x;
            assert(s[j] == x);
        }
        assert(s.contains(s.last())) by {
            assert(s[s.len() - 1] == s.last());
        }
        lemma_split_len(t);
        assert forall|i: int, k: int|
            0 <= i < split_comps(s).len() && 0 <= k < #[trigger] split_comps(s)[i].len()
                implies !is_sep(#[trigger] split_comps(s)[i][k]) && s.contains(
            split_comps(s)[i][k],
        ) by {
            let rest = split_comps(t);
            if is_sep(s.last()) {
                if i < rest.len() {
                    assert(split_comps(s)[i] == rest[i]);
                } else {
                    assert(split_comps(s)[i] =~= Seq::<u8>::empty());
                }
            } else {
                if i == rest.len() - 1 {
                    assert(split_comps(s)[i] == rest[i].push(s.last()));
                    if k < rest[i].len() {
                        assert(split_comps(s)[i][k] == rest[i][k]);
                    } else {
                        assert(split_comps(s)[i][k] == s.last());
                    }
                } else {
                    assert(split_comps(s)[i] == rest[i]);
                }
            }
        }
    }
}

/// Each normalized component is one of the original components, and is kept
/// for a reason: non-empty and not `.`.
pub proof fn lemma_normalize_elems(cs: Seq<Seq<u8>>)
    ensures
        forall|i: int|
            0 <= i < normalize(cs).len() ==> keep_comp(#[trigger] normalize(cs)[i])
                && exists|j: int| 0 <= j < cs.len() && normalize(cs)[i] == #[trigger] cs[j],
    decreases cs.len(),
{
    if cs.len() > 0 {
        let t = cs.drop_last();
        lemma_normalize_elems(t);
        assert forall|i: int|
            0 <= i < normalize(cs).len() implies keep_comp(#[trigger] normalize(cs)[i])
            && exists|j: int| 0 <= j < cs.len() && normalize(cs)[i] == #[trigger] cs[j] by {
            if i < normalize(t).len() {
                assert(normalize(cs)[i] == normalize(t)[i]);
                let j = choose|j: int| 0 <= j < t.len() && normalize(t)[i] == t[j];
                assert(cs[j] == t[j]);
            } else {
                assert(normalize(cs)[i] == cs.last());
                assert(cs[cs.len() - 1] == cs.last());
            }
        }
    }
}

/// Law: an accepted name confines its entry under any extraction root. Each
/// resulting component is non-empty, is not `.` or `..`, and holds no
/// separator, NUL or colon byte; joining the components under a root keeps
/// every root component in place, so the joined path stays a descendant of
/// the root.
pub proof fn lemma_sanitize_confines(s: Seq<u8>, root: Seq<Seq<u8>>)
    requires
        sanitize_spec(s) is Some,
    ensures
        ({
            let c = sanitize_spec(s).unwrap();
            &&& forall|i: int|
                0 <= i < c.len() ==> keep_comp(#[trigger] c[i]) && c[i] != dotdot()
                    && forall|k: int|
                    0 <= k < c[i].len() ==> !is_sep(#[trigger] c[i][k]) && c[i][k] != 0
                        && c[i][k] != 58
            &&& (root + c).take(root.len() as int) == root
        }),
{
    let sc = split_comps(s);
    let c = sanitize_spec(s).unwrap();
    lemma_split_comp_bytes(s);
    lemma_normalize_elems(sc);
    assert forall|i: int|
        0 <= i < c.len() implies keep_comp(#[trigger] c[i]) && c[i] != dotdot() && forall|
        k: int,
    |
        0 <= k < c[i].len() ==> !is_sep(#[trigger] c[i][k]) && c[i][k] != 0 && c[i][k]
            != 58 by {
        let j = choose|j: int| 0 <= j < sc.len() && c[i] == sc[j];
        assert(sc[j] != dotdot());
        assert forall|k: int|
            0 <= k < c[i].len() implies !is_sep(#[trigger] c[i][k]) && c[i][k] != 0 && c[i][k]
                != 58 by {
            assert(sc[j][k] == c[i][k]);
            assert(!is_sep(sc[j][k]));
            assert(s.contains(sc[j][k]));
            assert(!s.contains(0));
            assert(!s.contains(58));
        }
    }
    assert((root + c).take(root.len() as int) =~= root);
}

} // verus!
