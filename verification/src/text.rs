//! Helpers over owned strings and lists of owned strings: lookups by text,
//! removal of every copy of a text, and the spec functions that describe them.

use vstd::prelude::*;

verus! {

/// The character sequences of a list of strings, in order.
pub open spec fn texts(v: Seq<String>) -> Seq<Seq<char>> {
    Seq::new(v.len(), |i: int| v[i]@)
}

/// The characters of an optional string.
pub open spec fn opt_text(o: Option<String>) -> Option<Seq<char>> {
    match o {
        Some(s) => Some(s@),
        None => None,
    }
}

/// Whether no text occurs twice in the sequence.
pub open spec fn no_repeats(s: Seq<Seq<char>>) -> bool {
    forall|i: int, j: int| 0 <= i < j < s.len() ==> s[i] != s[j]
}

/// The index of the first occurrence of `t` in `s`, or -1 where it does not occur.
pub open spec fn first_index(s: Seq<Seq<char>>, t: Seq<char>) -> int
    decreases s.len(),
{
    if s.len() == 0 {
        -1
    } else if s[0] == t {
        0
    } else {
        let rest = first_index(s.drop_first(), t);
        if rest < 0 {
            -1
        } else {
            rest + 1
        }
    }
}

/// `s` with every occurrence of `t` taken out, the rest in order.
pub open spec fn without(s: Seq<Seq<char>>, t: Seq<char>) -> Seq<Seq<char>>
    decreases s.len(),
{
    if s.len() == 0 {
        s
    } else if s.last() == t {
        without(s.drop_last(), t)
    } else {
        without(s.drop_last(), t).push(s.last())
    }
}

/// `first_index` is the least index that holds `t`, and -1 exactly when there is none.
pub proof fn lemma_first_index(s: Seq<Seq<char>>, t: Seq<char>)
    ensures
        -1 <= first_index(s, t) < s.len(),
        first_index(s, t) == -1 <==> !s.contains(t),
        first_index(s, t) >= 0 ==> s[first_index(s, t)] == t,
        forall|j: int| 0 <= j < first_index(s, t) ==> s[j] != t,
        first_index(s, t) == -1 ==> forall|j: int| 0 <= j < s.len() ==> s[j] != t,
    decreases s.len(),
{
    if s.len() > 0 {
        lemma_first_index(s.drop_first(), t);
        if s[0] != t {
            if first_index(s.drop_first(), t) == -1 {
                assert forall|j: int| 0 <= j < s.len() implies s[j] != t by {
                    if j > 0 {
                        assert(s[j] == s.drop_first()[j - 1]);
                    }
                }
            } else {
                assert forall|j: int| 0 <= j < first_index(s, t) implies s[j] != t by {
                    if j > 0 {
                        assert(s[j] == s.drop_first()[j - 1]);
                    }
                }
                assert(s.contains(t)) by {
                    assert(s[first_index(s, t)] == s.drop_first()[first_index(s, t) - 1]);
                }
            }
        } else {
            assert(s.contains(t)) by { assert(s[0] == t); }
        }
    }
}

/// An index that holds `t` with none before it is `first_index`.
pub proof fn lemma_first_index_is(s: Seq<Seq<char>>, t: Seq<char>, i: int)
    requires
        0 <= i < s.len(),
        s[i] == t,
        forall|j: int| 0 <= j < i ==> s[j] != t,
    ensures
        first_index(s, t) == i,
{
    lemma_first_index(s, t);
    assert(s.contains(t));
}

/// What `without` keeps: exactly the elements other than `t`, in order.
pub proof fn lemma_without(s: Seq<Seq<char>>, t: Seq<char>)
    ensures
        !without(s, t).contains(t),
        forall|x: Seq<char>| x != t ==> (without(s, t).contains(x) <==> s.contains(x)),
        without(s, t).len() <= s.len(),
        !s.contains(t) ==> without(s, t) == s,
        no_repeats(s) ==> no_repeats(without(s, t)),
    decreases s.len(),
{
    if s.len() > 0 {
        let init = s.drop_last();
        let last = s.last();
        lemma_without(init, t);
        assert(s == init.push(last));
        let w = without(init, t);
        assert forall|x: Seq<char>| x != t implies (without(s, t).contains(x) <==> s.contains(x)) by {
            lemma_push_contains(init, last, x);
            lemma_push_contains(w, last, x);
        }
        if last != t {
            lemma_push_contains(w, last, t);
        }
        if !s.contains(t) {
            lemma_push_contains(init, last, t);
        }
        if no_repeats(s) && last != t {
            assert(no_repeats(init));
            assert forall|i: int, j: int| 0 <= i < j < w.push(last).len()
                implies w.push(last)[i] != w.push(last)[j] by {
                assert(w.push(last)[i] == w[i]);
                if j == w.len() {
                    assert(w.contains(w[i]));
                    assert(w[i] != t);
                    assert(init.contains(w[i]));
                    if w[i] == last {
                        let k = choose|k: int| 0 <= k < init.len() && init[k] == last;
                        assert(s[k] == init[k]);
                        assert(s[s.len() - 1] == last);
                        assert(false);
                    }
                } else {
                    assert(w.push(last)[j] == w[j]);
                }
            }
        }
    }
}

/// Copies a borrowed string into an owned one.
pub fn owned(s: &str) -> (r: String)
    ensures
        r@ == s@,
{
    s.to_owned()
}

/// Whether an owned string has the same characters as a borrowed one.
pub fn same_text(a: &String, b: &str) -> (r: bool)
    ensures
        r == (a@ == b@),
{
    let b_owned = owned(b);
    *a == b_owned
}

/// The index of the first string in `v` that reads `t`.
pub fn find_text(v: &Vec<String>, t: &str) -> (r: Option<usize>)
    ensures
        match r {
            Some(i) => i == first_index(texts(v@), t@),
            None => first_index(texts(v@), t@) == -1,
        },
{
    let mut i: usize = 0;
    while i < v.len()
        invariant
            i <= v.len(),
            forall|j: int| 0 <= j < i ==> texts(v@)[j] != t@,
        decreases v.len() - i,
    {
        if same_text(&v[i], t) {
            proof {
                lemma_first_index_is(texts(v@), t@, i as int);
            }
            return Some(i);
        }
        i = i + 1;
    }
    proof {
        lemma_first_index(texts(v@), t@);
        if texts(v@).contains(t@) {
            let k = choose|k: int| 0 <= k < texts(v@).len() && texts(v@)[k] == t@;
            assert(texts(v@)[k] != t@);
        }
    }
    None
}

/// Whether some string in `v` reads `t`.
pub fn contains_text(v: &Vec<String>, t: &str) -> (r: bool)
    ensures
        r == texts(v@).contains(t@),
{
    let found = find_text(v, t);
    proof {
        lemma_first_index(texts(v@), t@);
    }
    found.is_some()
}

/// Membership in a sequence grown by one element.
pub proof fn lemma_push_contains(s: Seq<Seq<char>>, y: Seq<char>, x: Seq<char>)
    ensures
        s.push(y).contains(x) <==> (s.contains(x) || x == y),
{
    if s.push(y).contains(x) && x != y {
        let k = choose|k: int| 0 <= k < s.push(y).len() && s.push(y)[k] == x;
        assert(s[k] == x);
    }
    if s.contains(x) {
        let k = choose|k: int| 0 <= k < s.len() && s[k] == x;
        assert(s.push(y)[k] == x);
    }
    if x == y {
        assert(s.push(y)[s.len() as int] == x);
    }
}

/// Takes every string that reads `t` out of `v`, keeping the others in order,
/// and says whether there was any.
pub fn remove_every(v: &mut Vec<String>, t: &str) -> (removed: bool)
    ensures
        texts(final(v)@) == without(texts(old(v)@), t@),
        removed == texts(old(v)@).contains(t@),
{
    let ghost before = texts(v@);
    let mut kept: Vec<String> = Vec::new();
    let mut removed = false;
    let mut i: usize = 0;
    while i < v.len()
        invariant
            i <= v.len(),
            texts(v@) == before,
            texts(kept@) == without(before.take(i as int), t@),
            removed == before.take(i as int).contains(t@),
        decreases v.len() - i,
    {
        let ghost prefix = before.take(i as int);
        assert(before.take(i + 1) == prefix.push(before[i as int]));
        proof {
            lemma_push_contains(prefix, before[i as int], t@);
        }
        assert(prefix.push(before[i as int]).drop_last() == prefix);
        if same_text(&v[i], t) {
            removed = true;
        } else {
            kept.push(v[i].clone());
            assert(texts(kept@) == without(before.take(i + 1), t@));
        }
        i = i + 1;
    }
    assert(before.take(v@.len() as int) == before);
    *v = kept;
    removed
}

} // verus!
