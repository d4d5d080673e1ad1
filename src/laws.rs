use vstd::prelude::*;

use crate::engine::{apply_all, replaced};
use crate::pattern::Item;

verus! {

/// How many non-overlapping occurrences of `from` a left-to-right scan of `s`
/// finds; an empty `from` is found nowhere.
pub open spec fn occurrences(s: Seq<char>, from: Seq<char>) -> nat
    decreases s.len(),
{
    if from.len() == 0 || s.len() < from.len() {
        0
    } else if s.subrange(0, from.len() as int) == from {
        1 + occurrences(s.subrange(from.len() as int, s.len() as int), from)
    } else {
        occurrences(s.drop_first(), from)
    }
}

/// Rules apply in sequence: running the rules `first` and then the rules
/// `second` gives the same text as running `first + second` at once.
pub proof fn lemma_apply_all_concat(s: Seq<char>, first: Seq<Item>, second: Seq<Item>)
    ensures
        apply_all(s, first + second) == apply_all(apply_all(s, first), second),
    decreases second.len(),
{
    if second.len() == 0 {
        assert(first + second =~= first);
    } else {
        assert((first + second).drop_last() =~= first + second.drop_last());
        assert((first + second).last() == second.last());
        lemma_apply_all_concat(s, first, second.drop_last());
    }
}

/// A text in which `from` does not occur is left as it is, whatever the bound.
pub proof fn lemma_no_occurrence_unchanged(
    s: Seq<char>,
    from: Seq<char>,
    to: Seq<char>,
    times: Option<usize>,
)
    requires
        occurrences(s, from) == 0,
    ensures
        replaced(s, from, to, times) == s,
    decreases s.len(),
{
    if from.len() == 0 || times == Some(0usize) || s.len() < from.len() {
    } else {
        lemma_no_occurrence_unchanged(s.drop_first(), from, to, times);
        assert(s =~= seq![s[0]] + s.drop_first());
    }
}

/// A bound at least as large as the number of occurrences is no bound: every
/// occurrence is replaced, and asking for more is not an error.
pub proof fn lemma_large_bound_replaces_all(s: Seq<char>, from: Seq<char>, to: Seq<char>, n: usize)
    requires
        occurrences(s, from) <= n,
    ensures
        replaced(s, from, to, Some(n)) == replaced(s, from, to, None),
    decreases s.len(),
{
    if n == 0 {
        lemma_no_occurrence_unchanged(s, from, to, None);
    } else if from.len() == 0 || s.len() < from.len() {
    } else if s.subrange(0, from.len() as int) == from {
        lemma_large_bound_replaces_all(
            s.subrange(from.len() as int, s.len() as int),
            from,
            to,
            (n - 1) as usize,
        );
    } else {
        lemma_large_bound_replaces_all(s.drop_first(), from, to, n);
    }
}

/// A bound of `n` replaces the first `n` occurrences and stops: the result is
/// a prefix of `s`, holding `min(n, occurrences)` of them, with every
/// occurrence in it replaced, followed by the rest of `s` untouched.
pub proof fn lemma_bounded_replaces_a_prefix(s: Seq<char>, from: Seq<char>, to: Seq<char>, n: usize) -> (k: int)
    ensures
        0 <= k <= s.len(),
        k == 0 || k >= from.len(),
        replaced(s, from, to, Some(n)) == replaced(s.take(k), from, to, None) + s.skip(k),
        occurrences(s.take(k), from) == if n <= occurrences(s, from) {
            n as nat
        } else {
            occurrences(s, from)
        },
    decreases s.len(),
{
    let fl = from.len() as int;
    if n == 0 || fl == 0 || s.len() < fl {
        assert(s.skip(0) =~= s);
        if fl > 0 && s.len() >= fl && n == 0 {
            assert(s.take(0).len() < fl);
        }
        0
    } else if s.subrange(0, fl) == from {
        let rest = s.subrange(fl, s.len() as int);
        let k1 = lemma_bounded_replaces_a_prefix(rest, from, to, (n - 1) as usize);
        let k = fl + k1;
        let pre = s.take(k);
        assert(pre.subrange(0, fl) =~= from);
        assert(pre.subrange(fl, pre.len() as int) =~= rest.take(k1));
        assert(s.skip(k) =~= rest.skip(k1));
        assert(replaced(s, from, to, Some(n)) == to + replaced(rest, from, to, Some((n - 1) as usize)));
        assert(replaced(pre, from, to, None) == to + replaced(rest.take(k1), from, to, None));
        assert(to + (replaced(rest.take(k1), from, to, None) + rest.skip(k1))
            =~= (to + replaced(rest.take(k1), from, to, None)) + rest.skip(k1));
        k
    } else {
        let tail = s.drop_first();
        let k1 = lemma_bounded_replaces_a_prefix(tail, from, to, n);
        if k1 == 0 {
            assert(s.skip(0) =~= s);
            assert(tail.skip(0) =~= tail);
            assert(s =~= seq![s[0]] + tail);
            0
        } else {
            let k = 1 + k1;
            let pre = s.take(k);
            assert(pre.subrange(0, fl) =~= s.subrange(0, fl));
            assert(pre.drop_first() =~= tail.take(k1));
            assert(s.skip(k) =~= tail.skip(k1));
            assert(pre[0] == s[0]);
            assert(replaced(pre, from, to, None) == seq![s[0]] + replaced(tail.take(k1), from, to, None));
            assert(seq![s[0]] + (replaced(tail.take(k1), from, to, None) + tail.skip(k1))
                =~= (seq![s[0]] + replaced(tail.take(k1), from, to, None)) + tail.skip(k1));
            k
        }
    }
}

/// An empty search text matches nowhere: the rule leaves the text unchanged.
pub proof fn lemma_empty_from_unchanged(s: Seq<char>, to: Seq<char>, times: Option<usize>)
    ensures
        replaced(s, Seq::empty(), to, times) == s,
{
}

} // verus!
