//! Small verified helpers over strings and string vectors.

use vstd::prelude::*;

verus! {

/// Deep equality of two principal strings.
pub fn string_eq(a: &String, b: &String) -> (r: bool)
    ensures
        r == (a@ == b@),
{
    a.eq(b)
}

/// Whether `x` occurs in `v`, at the level of string contents.
pub fn vec_contains_string(v: &Vec<String>, x: &String) -> (r: bool)
    ensures
        r == v.deep_view().contains(x@),
{
    let mut i: usize = 0;
    while i < v.len()
        invariant
            0 <= i <= v.len(),
            forall|j: int| 0 <= j < i ==> v.deep_view()[j] != x@,
        decreases v.len() - i,
    {
        if string_eq(&v[i], x) {
            assert(v.deep_view()[i as int] == x@);
            return true;
        }
        i = i + 1;
    }
    assert(forall|j: int| 0 <= j < v.deep_view().len() ==> v.deep_view()[j] != x@);
    false
}

/// The sequence `s` with every occurrence of `v` dropped, order kept.
pub open spec fn seq_remove_val<A>(s: Seq<A>, v: A) -> Seq<A> {
    s.filter(|x: A| x != v)
}

/// What removing one value does to a duplicate-free sequence.
pub proof fn lemma_seq_remove_val<A>(s: Seq<A>, v: A)
    requires
        s.no_duplicates(),
    ensures
        seq_remove_val(s, v).no_duplicates(),
        forall|x: A| #[trigger]
            seq_remove_val(s, v).contains(x) <==> (s.contains(x) && x != v),
        seq_remove_val(s, v).to_set() == s.to_set().remove(v),
        s.contains(v) ==> seq_remove_val(s, v).len() == s.len() - 1,
        !s.contains(v) ==> seq_remove_val(s, v) == s,
    decreases s.len(),
{
    reveal_with_fuel(Seq::filter, 2);
    let f = seq_remove_val(s, v);
    if s.len() == 0 {
        assert(forall|x: A| !s.contains(x));
        assert(f.to_set() =~= s.to_set().remove(v));
    } else {
        let d = s.drop_last();
        let last = s.last();
        assert(d.no_duplicates());
        lemma_seq_remove_val(d, v);
        let fd = seq_remove_val(d, v);
        assert(f == if last != v {
            fd.push(last)
        } else {
            fd
        });
        assert(!d.contains(last));
        assert forall|x: A| #[trigger] s.contains(x) <==> (d.contains(x) || x == last) by {
            if s.contains(x) {
                let i = choose|i: int| 0 <= i < s.len() && s[i] == x;
                if i < s.len() - 1 {
                    assert(d[i] == x);
                    assert(d.contains(x));
                }
            }
            if d.contains(x) {
                let i = choose|i: int| 0 <= i < d.len() && d[i] == x;
                assert(s[i] == x);
                assert(s.contains(x));
            }
            if x == last {
                assert(s[s.len() - 1] == x);
                assert(s.contains(x));
            }
        }
        if last != v {
            assert(!fd.contains(last));
            assert forall|i: int, j: int| 0 <= i < j < f.len() implies f[i] != f[j] by {
                if j == f.len() - 1 {
                    assert(f[i] == fd[i]);
                    assert(fd.contains(fd[i]));
                }
            }
            assert(forall|x: A| #[trigger]
                f.contains(x) <==> (fd.contains(x) || x == last));
            if !s.contains(v) {
                assert(f =~= s);
            }
        }
        assert(f.to_set() =~= s.to_set().remove(v));
    }
}

/// Appending a fresh value keeps a sequence duplicate-free and adds exactly
/// that value to its set of elements.
pub proof fn lemma_seq_push_unique<A>(s: Seq<A>, v: A)
    requires
        s.no_duplicates(),
        !s.contains(v),
    ensures
        s.push(v).no_duplicates(),
        forall|x: A| #[trigger] s.push(v).contains(x) <==> (s.contains(x) || x == v),
        s.push(v).to_set() == s.to_set().insert(v),
{
    let p = s.push(v);
    assert forall|x: A| #[trigger] p.contains(x) <==> (s.contains(x) || x == v) by {
        if p.contains(x) {
            let i = choose|i: int| 0 <= i < p.len() && p[i] == x;
            if i < s.len() {
                assert(s[i] == x);
                assert(s.contains(x));
            }
        }
        if s.contains(x) {
            let i = choose|i: int| 0 <= i < s.len() && s[i] == x;
            assert(p[i] == x);
            assert(p.contains(x));
        }
        if x == v {
            assert(p[s.len() as int] == x);
            assert(p.contains(x));
        }
    }
    assert forall|i: int, j: int| 0 <= i < j < p.len() implies p[i] != p[j] by {
        if j == p.len() - 1 {
            assert(p[i] == s[i]);
            assert(s.contains(s[i]));
        }
    }
    assert(p.to_set() =~= s.to_set().insert(v));
}

/// Removes every occurrence of `x` from `v`, at the level of string
/// contents, keeping the order of the rest.
pub fn strings_remove(v: &Vec<String>, x: &String) -> (r: Vec<String>)
    ensures
        r.deep_view() == seq_remove_val(v.deep_view(), x@),
{
    let ghost orig: Seq<Seq<char>> = v.deep_view();
    let mut out: Vec<String> = Vec::new();
    let mut i: usize = 0;
    while i < v.len()
        invariant
            0 <= i <= v@.len(),
            orig == v.deep_view(),
            orig.len() == v@.len(),
            forall|j: int| 0 <= j < v@.len() ==> orig[j] == #[trigger] v@[j]@,
            out.deep_view() == seq_remove_val(orig.take(i as int), x@),
        decreases v@.len() - i,
    {
        proof {
            reveal_with_fuel(Seq::filter, 2);
            assert(orig.take(i + 1).drop_last() =~= orig.take(i as int));
            assert(orig.take(i + 1).last() == orig[i as int]);
        }
        if !string_eq(&v[i], x) {
            let ghost pre = out.deep_view();
            out.push(v[i].clone());
            proof {
                assert(out.deep_view() =~= pre.push(orig[i as int]));
            }
        }
        i = i + 1;
    }
    proof {
        assert(orig.take(orig.len() as int) =~= orig);
    }
    out
}

/// Clones a vector of strings, keeping its contents exactly.
pub fn clone_string_vec(v: &Vec<String>) -> (r: Vec<String>)
    ensures
        r.deep_view() == v.deep_view(),
        r@.len() == v@.len(),
        forall|j: int| 0 <= j < v@.len() ==> r@[j]@ == #[trigger] v@[j]@,
{
    let r = v.clone();
    proof {
        assert forall|j: int| 0 <= j < v@.len() implies r@[j]@ == #[trigger] v@[j]@ by {
            assert(cloned::<String>(v@[j], r@[j]));
        }
        assert(r.deep_view() =~= v.deep_view());
    }
    r
}

} // verus!
