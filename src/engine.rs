use vstd::prelude::*;

use crate::pattern::Item;

verus! {

/// The bound left after one replacement: a bound of `n` becomes `n - 1`, and
/// no bound stays no bound.
pub open spec fn one_used(times: Option<usize>) -> Option<usize> {
    match times {
        Some(n) => Some((n - 1) as usize),
        None => None,
    }
}

/// `s` with the non-overlapping occurrences of `from` replaced by `to`, scanning
/// left to right, at most `n` of them when `times` is `Some(n)`. Text that was
/// put in by a replacement is never scanned again. An empty `from` matches
/// nowhere, so it leaves `s` as it is.
pub open spec fn replaced(
    s: Seq<char>,
    from: Seq<char>,
    to: Seq<char>,
    times: Option<usize>,
) -> Seq<char>
    decreases s.len(),
{
    if from.len() == 0 || times == Some(0usize) || s.len() < from.len() {
        s
    } else if s.subrange(0, from.len() as int) == from {
        to + replaced(s.subrange(from.len() as int, s.len() as int), from, to, one_used(times))
    } else {
        seq![s[0]] + replaced(s.drop_first(), from, to, times)
    }
}

/// Whether `from` occurs in `s` at position `i`.
fn matches_at(s: &Vec<char>, i: usize, from: &Vec<char>) -> (r: bool)
    requires
        i + from@.len() <= s@.len(),
    ensures
        r == (s@.subrange(i as int, i + from@.len()) == from@),
{
    let n = s.len();
    let mut j: usize = 0;
    while j < from.len()
        invariant
            n == s@.len(),
            j <= from@.len(),
            i + from@.len() <= s@.len(),
            s@.subrange(i as int, i + j) == from@.subrange(0, j as int),
        decreases from@.len() - j,
    {
        assert(i + j < s@.len());
        if s[i + j] != from[j] {
            assert(s@.subrange(i as int, i + from@.len())[j as int] != from@[j as int]);
            return false;
        }
        j = j + 1;
        assert(s@.subrange(i as int, i + j) =~= from@.subrange(0, j as int));
    }
    assert(from@.subrange(0, j as int) =~= from@);
    true
}

/// Appends the characters of `tail` to `out`.
fn push_all(out: &mut Vec<char>, tail: &Vec<char>)
    ensures
        final(out)@ == old(out)@ + tail@,
{
    let mut j: usize = 0;
    while j < tail.len()
        invariant
            j <= tail@.len(),
            out@ == old(out)@ + tail@.subrange(0, j as int),
        decreases tail@.len() - j,
    {
        out.push(tail[j]);
        j = j + 1;
        assert(out@ =~= old(out)@ + tail@.subrange(0, j as int));
    }
    assert(tail@.subrange(0, j as int) =~= tail@);
}

proof fn lemma_replaced_unchanged(s: Seq<char>, from: Seq<char>, to: Seq<char>, times: Option<usize>)
    requires
        from.len() == 0 || times == Some(0usize) || s.len() < from.len(),
    ensures
        replaced(s, from, to, times) == s,
{
}

/// The character-level replacement: the result is `replaced` of the inputs.
pub fn replace_chars(s: &Vec<char>, from: &Vec<char>, to: &Vec<char>, times: Option<usize>) -> (r:
    Vec<char>)
    ensures
        r@ == replaced(s@, from@, to@, times),
{
    let mut out: Vec<char> = Vec::new();
    let mut i: usize = 0;
    let mut left = times;
    assert(s@.subrange(0, s@.len() as int) =~= s@);
    while i < s.len()
        invariant
            i <= s@.len(),
            out@ + replaced(s@.subrange(i as int, s@.len() as int), from@, to@, left) == replaced(
                s@,
                from@,
                to@,
                times,
            ),
        decreases s@.len() - i,
    {
        let ghost rest = s@.subrange(i as int, s@.len() as int);
        let ghost old_out = out@;
        let ghost left0 = left;
        let fl = from.len();
        if fl > 0 && left != Some(0usize) && fl <= s.len() - i && matches_at(s, i, from) {
            assert(rest.subrange(0, fl as int) =~= s@.subrange(i as int, i + fl));
            assert(rest.subrange(fl as int, rest.len() as int) =~= s@.subrange(
                i + fl,
                s@.len() as int,
            ));
            push_all(&mut out, to);
            i = i + fl;
            left = match left {
                Some(n) => Some(n - 1),
                None => None,
            };
            assert(left == one_used(left0));
            let ghost tail = replaced(s@.subrange(i as int, s@.len() as int), from@, to@, left);
            assert(replaced(rest, from@, to@, left0) == to@ + tail);
            assert(out@ + tail =~= old_out + (to@ + tail));
        } else {
            let ghost c = s@[i as int];
            assert(rest.drop_first() =~= s@.subrange(i + 1, s@.len() as int));
            assert(rest[0] == c);
            proof {
                if fl > 0 && left != Some(0usize) && fl <= s.len() - i {
                    assert(rest.subrange(0, fl as int) =~= s@.subrange(i as int, i + fl));
                }
                if fl == 0 || left == Some(0usize) || fl > s.len() - i {
                    lemma_replaced_unchanged(rest, from@, to@, left);
                    lemma_replaced_unchanged(rest.drop_first(), from@, to@, left);
                    assert(rest =~= seq![c] + rest.drop_first());
                }
            }
            assert(replaced(rest, from@, to@, left) == seq![c] + replaced(
                rest.drop_first(),
                from@,
                to@,
                left,
            ));
            out.push(s[i]);
            i = i + 1;
            assert(out@ + replaced(rest.drop_first(), from@, to@, left) =~= old_out + (seq![c]
                + replaced(rest.drop_first(), from@, to@, left)));
        }
    }
    assert(out@ + replaced(s@.subrange(i as int, s@.len() as int), from@, to@, left) =~= out@);
    out
}

/// Relies on `String::push`: the string grows by the one character, at its end.
#[verifier::external_body]
fn push_char(s: &mut String, c: char)
    ensures
        final(s)@ == old(s)@.push(c),
{
    s.push(c)
}

/// The characters of `s`, in order.
fn chars_of(s: &str) -> (r: Vec<char>)
    ensures
        r@ == s@,
{
    let mut out: Vec<char> = Vec::new();
    for c in it: s.chars()
        invariant
            out@ == it.seq().take(it.index() as int),
    {
        out.push(c);
    }
    out
}

/// The string made of the characters of `v`, in order.
fn string_of(v: &Vec<char>) -> (r: String)
    ensures
        r@ == v@,
{
    let mut out = String::new();
    let mut j: usize = 0;
    while j < v.len()
        invariant
            j <= v@.len(),
            out@ == v@.take(j as int),
        decreases v@.len() - j,
    {
        push_char(&mut out, v[j]);
        j = j + 1;
        assert(out@ =~= v@.take(j as int));
    }
    assert(v@.take(j as int) =~= v@);
    out
}

/// `s` with the first `times` (or, with `None`, all) non-overlapping
/// occurrences of `from` replaced by `to`; an empty `from` changes nothing.
pub fn replace_str(s: &str, from: &str, to: &str, times: Option<usize>) -> (r: String)
    ensures
        r@ == replaced(s@, from@, to@, times),
{
    let cs = chars_of(s);
    let fs = chars_of(from);
    let ts = chars_of(to);
    let rs = replace_chars(&cs, &fs, &ts, times);
    string_of(&rs)
}

/// The text after one rule has been applied to `s`.
pub open spec fn apply_item(s: Seq<char>, p: Item) -> Seq<char> {
    replaced(s, p.from@, p.to@, p.times)
}

/// The text after every rule of `ps` has been applied to `s`, in order: rule
/// `k` works on the text that rules `0..k` left.
pub open spec fn apply_all(s: Seq<char>, ps: Seq<Item>) -> Seq<char>
    decreases ps.len(),
{
    if ps.len() == 0 {
        s
    } else {
        apply_item(apply_all(s, ps.drop_last()), ps.last())
    }
}

/// Rewrites `contents` in place by applying each rule of `patterns` in turn.
pub fn repler_replace(contents: &mut String, patterns: &Vec<Item>)
    ensures
        final(contents)@ == apply_all(old(contents)@, patterns@),
{
    let mut k: usize = 0;
    while k < patterns.len()
        invariant
            k <= patterns@.len(),
            contents@ == apply_all(old(contents)@, patterns@.take(k as int)),
        decreases patterns@.len() - k,
    {
        let p = &patterns[k];
        let next = replace_str(contents.as_str(), p.from.as_str(), p.to.as_str(), p.times);
        *contents = next;
        k = k + 1;
        assert(patterns@.take(k as int).drop_last() =~= patterns@.take(k - 1));
    }
    assert(patterns@.take(k as int) =~= patterns@);
}

} // verus!
