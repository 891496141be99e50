use vstd::prelude::*;

verus! {

/// The character sequences held by a sequence of strings, in order.
pub open spec fn views(s: Seq<String>) -> Seq<Seq<char>> {
    s.map_values(|x: String| x@)
}

/// The set of identifiers held by a vector of strings.
pub open spec fn id_set(v: Seq<String>) -> Set<Seq<char>> {
    views(v).to_set()
}

/// Index of the first string of `v` equal to `x`, if any.
pub fn position_of(v: &Vec<String>, x: &String) -> (r: Option<usize>)
    ensures
        match r {
            Some(j) => j < v.len() && v@[j as int]@ == x@,
            None => !id_set(v@).contains(x@),
        },
{
    let mut j: usize = 0;
    while j < v.len()
        invariant
            j <= v.len(),
            forall|k: int| 0 <= k < j ==> v@[k]@ != x@,
        decreases v.len() - j,
    {
        if v[j] == *x {
            return Some(j);
        }
        j += 1;
    }
    proof {
        assert forall|y: Seq<char>| id_set(v@).contains(y) implies y != x@ by {
            let k = choose|k: int| 0 <= k < views(v@).len() && views(v@)[k] == y;
            assert(v@[k]@ == y);
        }
    }
    None
}

/// Removing one entry of a duplicate-free sequence removes exactly its value from the set.
pub proof fn lemma_remove_from_set(s: Seq<Seq<char>>, j: int)
    requires
        0 <= j < s.len(),
        s.no_duplicates(),
    ensures
        s.remove(j).no_duplicates(),
        s.remove(j).to_set() == s.to_set().remove(s[j]),
{
    let t = s.remove(j);
    assert forall|a: int, b: int| 0 <= a < t.len() && 0 <= b < t.len() && a != b implies t[a]
        != t[b] by {
        let a2 = if a < j { a } else { a + 1 };
        let b2 = if b < j { b } else { b + 1 };
        assert(t[a] == s[a2] && t[b] == s[b2]);
    }
    assert forall|y: Seq<char>| t.to_set().contains(y) <==> s.to_set().remove(s[j]).contains(y) by {
        if t.to_set().contains(y) {
            let k = choose|k: int| 0 <= k < t.len() && t[k] == y;
            let k2 = if k < j { k } else { k + 1 };
            assert(s[k2] == y);
        }
        if s.to_set().remove(s[j]).contains(y) {
            let k = choose|k: int| 0 <= k < s.len() && s[k] == y;
            assert(k != j);
            let k2 = if k < j { k } else { k - 1 };
            assert(t[k2] == y);
        }
    }
    assert(t.to_set() =~= s.to_set().remove(s[j]));
}

/// The distinct identifiers of `v`, each once, in order of first occurrence.
pub fn unique_ids(v: &Vec<String>) -> (r: Vec<String>)
    ensures
        views(r@).no_duplicates(),
        id_set(r@) == id_set(v@),
{
    let mut out: Vec<String> = Vec::new();
    let mut i: usize = 0;
    while i < v.len()
        invariant
            i <= v.len(),
            views(out@).no_duplicates(),
            id_set(out@) == views(v@).subrange(0, i as int).to_set(),
        decreases v.len() - i,
    {
        let ghost before = out@;
        let ghost pre = views(v@).subrange(0, i as int);
        let ghost post = views(v@).subrange(0, i + 1);
        assert(post == pre.push(v@[i as int]@));
        proof {
            pre.lemma_push_to_set_commute(v@[i as int]@);
        }
        match position_of(&out, &v[i]) {
            Some(j) => {
                proof {
                    assert(views(out@)[j as int] == v@[i as int]@);
                    assert(id_set(out@).insert(v@[i as int]@) =~= id_set(out@));
                }
            },
            None => {
                out.push(v[i].clone());
                proof {
                    assert(views(out@) =~= views(before).push(v@[i as int]@));
                    views(before).lemma_push_to_set_commute(v@[i as int]@);
                }
            },
        }
        i += 1;
    }
    assert(views(v@).subrange(0, v.len() as int) =~= views(v@));
    out
}

/// A copy of `v`, string by string.
pub fn copy_ids(v: &Vec<String>) -> (r: Vec<String>)
    ensures
        views(r@) == views(v@),
{
    let mut out: Vec<String> = Vec::new();
    let mut i: usize = 0;
    while i < v.len()
        invariant
            i <= v.len(),
            views(out@) == views(v@).subrange(0, i as int),
        decreases v.len() - i,
    {
        let c = v[i].clone();
        assert(c@ == views(v@)[i as int]);
        let ghost before = out@;
        out.push(c);
        proof {
            assert(views(out@) =~= views(before).push(c@));
            assert(views(out@) =~= views(v@).subrange(0, i + 1));
        }
        i += 1;
    }
    assert(views(v@).subrange(0, v.len() as int) =~= views(v@));
    out
}

/// A vector of strings is empty exactly when its set of identifiers is.
pub proof fn lemma_id_set_empty(v: Seq<String>)
    ensures
        id_set(v).is_empty() <==> v.len() == 0,
{
    if v.len() > 0 {
        assert(views(v)[0] == v[0]@);
        assert(id_set(v).contains(v[0]@));
    } else {
        assert(id_set(v) =~= Set::empty());
    }
}

} // verus!
