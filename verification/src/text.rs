//! Character-level search and replacement on strings, modelled as
//! sequences of `char`.

use vstd::prelude::*;

verus! {

/// `pat` occurs in `s` at position `i`.
pub open spec fn occurs_at(s: Seq<char>, pat: Seq<char>, i: int) -> bool {
    &&& 0 <= i
    &&& i + pat.len() <= s.len()
    &&& s.subrange(i, i + pat.len()) == pat
}

/// The first position at or after `from` where `pat` occurs in `s`.
pub open spec fn find_from(s: Seq<char>, pat: Seq<char>, from: int) -> Option<int>
    decreases s.len() - from,
{
    if occurs_at(s, pat, from) {
        Some(from)
    } else if from >= s.len() {
        None
    } else {
        find_from(s, pat, from + 1)
    }
}

/// The first position where `pat` occurs in `s` (`str::find`).
pub open spec fn find(s: Seq<char>, pat: Seq<char>) -> Option<int> {
    find_from(s, pat, 0)
}

/// `pat` occurs somewhere in `s` (`str::contains`).
pub open spec fn contains(s: Seq<char>, pat: Seq<char>) -> bool {
    find(s, pat) is Some
}

/// Every occurrence of `pat` in `s`, taken left to right without overlap,
/// replaced by `rep` (`str::replace`). An empty pattern matches before
/// every character and at the end.
pub open spec fn replace_all(s: Seq<char>, pat: Seq<char>, rep: Seq<char>) -> Seq<char>
    decreases s.len(),
{
    if pat.len() == 0 {
        if s.len() == 0 {
            rep
        } else {
            rep + seq![s[0]] + replace_all(s.drop_first(), pat, rep)
        }
    } else if s.len() == 0 {
        s
    } else if occurs_at(s, pat, 0) {
        rep + replace_all(s.skip(pat.len() as int), pat, rep)
    } else {
        seq![s[0]] + replace_all(s.drop_first(), pat, rep)
    }
}

/// What `find_from` returns: the least matching position at or after `from`.
pub proof fn lemma_find_from(s: Seq<char>, pat: Seq<char>, from: int)
    requires
        0 <= from,
    ensures
        find_from(s, pat, from) matches Some(k) ==> {
            &&& from <= k
            &&& occurs_at(s, pat, k)
            &&& forall|j: int| from <= j < k ==> !occurs_at(s, pat, j)
        },
        find_from(s, pat, from) is None ==> forall|j: int| from <= j ==> !occurs_at(s, pat, j),
    decreases s.len() - from,
{
    if occurs_at(s, pat, from) {
    } else if from >= s.len() {
        assert forall|j: int| from <= j implies !occurs_at(s, pat, j) by {
            if j > from {
                assert(j + pat.len() > s.len());
            }
        }
    } else {
        lemma_find_from(s, pat, from + 1);
    }
}

/// Replacing a pattern that does not occur leaves the text as it is.
pub proof fn law_replace_absent_is_identity(s: Seq<char>, pat: Seq<char>, rep: Seq<char>)
    requires
        pat.len() > 0,
        !contains(s, pat),
    ensures
        replace_all(s, pat, rep) == s,
    decreases s.len(),
{
    lemma_find_from(s, pat, 0);
    if s.len() > 0 {
        let rest = s.drop_first();
        assert(!occurs_at(s, pat, 0));
        assert forall|j: int| 0 <= j implies !occurs_at(rest, pat, j) by {
            if occurs_at(rest, pat, j) {
                assert(s.subrange(j + 1, j + 1 + pat.len()) =~= rest.subrange(j, j + pat.len()));
                assert(occurs_at(s, pat, j + 1));
            }
        }
        lemma_find_from(rest, pat, 0);
        law_replace_absent_is_identity(rest, pat, rep);
        assert(seq![s[0]] + rest =~= s);
    }
}

/// Replacing every occurrence of the one-character pattern `c` by a text
/// without `c` leaves no `c` at all.
pub proof fn law_replace_removes_char(s: Seq<char>, c: char, rep: Seq<char>)
    requires
        forall|i: int| 0 <= i < rep.len() ==> rep[i] != c,
    ensures
        forall|i: int| 0 <= i < replace_all(s, seq![c], rep).len() ==> replace_all(s, seq![c], rep)[i] != c,
    decreases s.len(),
{
    let pat = seq![c];
    if s.len() > 0 {
        let r = replace_all(s, pat, rep);
        if occurs_at(s, pat, 0) {
            law_replace_removes_char(s.skip(1), c, rep);
            assert(r == rep + replace_all(s.skip(1), pat, rep));
        } else {
            if s[0] == c {
                assert(s.subrange(0, 1) =~= pat);
            }
            law_replace_removes_char(s.drop_first(), c, rep);
            assert(r == seq![s[0]] + replace_all(s.drop_first(), pat, rep));
        }
    }
}

/// A one-character pattern occurs exactly where that character stands.
pub proof fn lemma_occurs_char(s: Seq<char>, c: char, j: int)
    ensures
        occurs_at(s, seq![c], j) <==> (0 <= j < s.len() && s[j] == c),
{
    if 0 <= j < s.len() {
        if s[j] == c {
            assert(s.subrange(j, j + 1) =~= seq![c]);
        } else if occurs_at(s, seq![c], j) {
            assert(s.subrange(j, j + 1)[0] == s[j]);
        }
    }
}

/// Occurrences in a suffix are occurrences in the whole, shifted.
pub proof fn lemma_occurs_skip(s: Seq<char>, pat: Seq<char>, n: int, j: int)
    requires
        0 <= n <= s.len(),
        0 <= j,
    ensures
        occurs_at(s.skip(n), pat, j) == occurs_at(s, pat, j + n),
{
    if j + pat.len() <= s.len() - n {
        assert(s.skip(n).subrange(j, j + pat.len()) =~= s.subrange(j + n, j + n + pat.len()));
    }
}

/// `find` gives the first occurrence.
pub proof fn lemma_find_at(s: Seq<char>, pat: Seq<char>, k: int)
    requires
        occurs_at(s, pat, k),
        forall|j: int| 0 <= j < k ==> !occurs_at(s, pat, j),
    ensures
        find(s, pat) == Some(k),
{
    lemma_find_from(s, pat, 0);
}

/// A pattern whose first character does not appear in `s` does not occur in
/// it.
pub proof fn lemma_absent(s: Seq<char>, pat: Seq<char>)
    requires
        pat.len() > 0,
        forall|i: int| 0 <= i < s.len() ==> s[i] != pat[0],
    ensures
        find(s, pat) is None,
        !contains(s, pat),
{
    lemma_find_from(s, pat, 0);
    if let Some(k) = find(s, pat) {
        assert(s.subrange(k, k + pat.len())[0] == s[k]);
    }
}

/// Replacement works piece by piece where no occurrence spans the joint of
/// the two pieces.
pub proof fn lemma_replace_concat(a: Seq<char>, b: Seq<char>, pat: Seq<char>, rep: Seq<char>)
    requires
        pat.len() > 0,
        forall|j: int| 0 <= j < a.len() < j + pat.len() ==> !occurs_at(a + b, pat, j),
    ensures
        replace_all(a + b, pat, rep) == replace_all(a, pat, rep) + replace_all(b, pat, rep),
    decreases a.len(),
{
    let s = a + b;
    let plen = pat.len() as int;
    if a.len() == 0 {
        assert(s =~= b);
        assert(replace_all(a, pat, rep) + replace_all(b, pat, rep) =~= replace_all(b, pat, rep));
    } else if occurs_at(s, pat, 0) {
        assert(plen <= a.len());
        assert(a.subrange(0, plen) =~= s.subrange(0, plen));
        let a2 = a.skip(plen);
        assert(s.skip(plen) =~= a2 + b);
        assert forall|j: int| 0 <= j < a2.len() < j + plen implies !occurs_at(a2 + b, pat, j) by {
            lemma_occurs_skip(s, pat, plen, j);
        }
        lemma_replace_concat(a2, b, pat, rep);
        assert(rep + (replace_all(a2, pat, rep) + replace_all(b, pat, rep)) =~= (rep + replace_all(
            a2,
            pat,
            rep,
        )) + replace_all(b, pat, rep));
    } else {
        if plen <= a.len() {
            assert(a.subrange(0, plen) =~= s.subrange(0, plen));
        }
        let a2 = a.drop_first();
        assert(s.drop_first() =~= a2 + b);
        assert forall|j: int| 0 <= j < a2.len() < j + plen implies !occurs_at(a2 + b, pat, j) by {
            lemma_occurs_skip(s, pat, 1, j);
            assert(s.skip(1) =~= a2 + b);
        }
        lemma_replace_concat(a2, b, pat, rep);
        assert(seq![a[0]] + (replace_all(a2, pat, rep) + replace_all(b, pat, rep)) =~= (seq![a[0]]
            + replace_all(a2, pat, rep)) + replace_all(b, pat, rep));
    }
}

/// Replacing a one-character pattern works piece by piece.
pub proof fn lemma_replace_char_concat(a: Seq<char>, b: Seq<char>, c: char, rep: Seq<char>)
    ensures
        replace_all(a + b, seq![c], rep) == replace_all(a, seq![c], rep) + replace_all(b, seq![c], rep),
{
    lemma_replace_concat(a, b, seq![c], rep);
}

/// A text without the character `c` is left as it is by replacing `c`.
pub proof fn lemma_replace_char_absent(s: Seq<char>, c: char, rep: Seq<char>)
    requires
        forall|i: int| 0 <= i < s.len() ==> s[i] != c,
    ensures
        replace_all(s, seq![c], rep) == s,
{
    lemma_absent(s, seq![c]);
    law_replace_absent_is_identity(s, seq![c], rep);
}

/// Replacing `c` in the text made of `c` alone gives the replacement.
pub proof fn lemma_replace_char_self(c: char, rep: Seq<char>)
    ensures
        replace_all(seq![c], seq![c], rep) == rep,
{
    let s = seq![c];
    assert(s.subrange(0, 1) =~= seq![c]);
    assert(s.skip(1) =~= Seq::<char>::empty());
    assert(occurs_at(s, seq![c], 0));
    assert(replace_all(Seq::<char>::empty(), seq![c], rep) == Seq::<char>::empty());
    assert(replace_all(s, seq![c], rep) == rep + replace_all(s.skip(1), seq![c], rep));
    assert(rep + Seq::<char>::empty() =~= rep);
}

/// A pattern placed in a text is contained in it.
pub proof fn lemma_contains_middle(a: Seq<char>, pat: Seq<char>, b: Seq<char>)
    ensures
        contains(a + pat + b, pat),
{
    let s = a + pat + b;
    assert(s.subrange(a.len() as int, a.len() + pat.len() as int) =~= pat);
    assert(occurs_at(s, pat, a.len() as int));
    lemma_find_from(s, pat, 0);
}

/// Chars view of a string: copies `s` into a vector of its characters.
pub fn chars_of(s: &str) -> (res: Vec<char>)
    ensures
        res@ == s@,
{
    let mut res: Vec<char> = Vec::new();
    for c in it: s.chars()
        invariant
            res@ == it.history(),
    {
        res.push(c);
    }
    res
}

/// Appends the characters of `src` to `dst`.
pub fn push_all(dst: &mut Vec<char>, src: &Vec<char>)
    ensures
        final(dst)@ == old(dst)@ + src@,
{
    let ghost start = dst@;
    for i in 0..src.len()
        invariant
            dst@ == start + src@.take(i as int),
    {
        dst.push(src[i]);
        assert(src@.take(i + 1) == src@.take(i as int).push(src@[i as int]));
    }
    assert(src@.take(src.len() as int) == src@);
}

/// The characters of `v` from position `from` up to `to`.
pub fn sub_chars(v: &Vec<char>, from: usize, to: usize) -> (res: Vec<char>)
    requires
        from <= to <= v@.len(),
    ensures
        res@ == v@.subrange(from as int, to as int),
{
    let mut res: Vec<char> = Vec::new();
    let mut i = from;
    while i < to
        invariant
            from <= i <= to <= v@.len(),
            res@ == v@.subrange(from as int, i as int),
        decreases to - i,
    {
        res.push(v[i]);
        assert(v@.subrange(from as int, i + 1) == v@.subrange(from as int, i as int).push(v@[i as int]));
        i = i + 1;
    }
    res
}

/// Whether `pat` occurs in `s` at position `i`.
pub fn matches_at(s: &Vec<char>, pat: &Vec<char>, i: usize) -> (res: bool)
    ensures
        res == occurs_at(s@, pat@, i as int),
{
    if i > s.len() || pat.len() > s.len() - i {
        return false;
    }
    let mut j: usize = 0;
    while j < pat.len()
        invariant
            i + pat.len() <= s.len(),
            j <= pat.len(),
            forall|k: int| 0 <= k < j ==> s@[i + k] == pat@[k],
        decreases pat.len() - j,
    {
        if s[i + j] != pat[j] {
            assert(s@.subrange(i as int, i + pat.len())[j as int] != pat@[j as int]);
            return false;
        }
        j = j + 1;
    }
    assert(s@.subrange(i as int, i + pat.len()) =~= pat@);
    true
}

/// The first position where `pat` occurs in `s`.
pub fn find_chars(s: &Vec<char>, pat: &Vec<char>) -> (res: Option<usize>)
    ensures
        match res {
            Some(k) => find(s@, pat@) == Some(k as int),
            None => find(s@, pat@) is None,
        },
{
    let mut i: usize = 0;
    loop
        invariant
            i <= s.len(),
            find(s@, pat@) == find_from(s@, pat@, i as int),
        decreases s.len() - i,
    {
        if matches_at(s, pat, i) {
            return Some(i);
        }
        if i >= s.len() {
            return None;
        }
        i = i + 1;
    }
}

/// Whether `pat` occurs anywhere in `s`.
pub fn contains_chars(s: &Vec<char>, pat: &Vec<char>) -> (res: bool)
    ensures
        res == contains(s@, pat@),
{
    find_chars(s, pat).is_some()
}

/// `s` with every occurrence of `pat` replaced by `rep`.
pub fn replace_chars(s: &Vec<char>, pat: &Vec<char>, rep: &Vec<char>) -> (res: Vec<char>)
    ensures
        res@ == replace_all(s@, pat@, rep@),
{
    let n = s.len();
    let plen = pat.len();
    let mut out: Vec<char> = Vec::new();
    let mut i: usize = 0;
    assert(s@.skip(0) == s@);
    while i < n
        invariant
            n == s@.len(),
            plen == pat@.len(),
            i <= n,
            out@ + replace_all(s@.skip(i as int), pat@, rep@) == replace_all(s@, pat@, rep@),
        decreases n - i,
    {
        let ghost rest = s@.skip(i as int);
        assert(rest.drop_first() == s@.skip(i + 1));
        if plen == 0 {
            push_all(&mut out, rep);
            out.push(s[i]);
            i = i + 1;
        } else if matches_at(s, pat, i) {
            assert(rest.subrange(0, plen as int) == s@.subrange(i as int, i + plen));
            assert(rest.skip(plen as int) == s@.skip(i + plen));
            push_all(&mut out, rep);
            i = i + plen;
        } else {
            if plen <= n - i {
                assert(rest.subrange(0, plen as int) == s@.subrange(i as int, i + plen));
            }
            out.push(s[i]);
            i = i + 1;
        }
    }
    if plen == 0 {
        push_all(&mut out, rep);
    }
    assert(s@.skip(n as int) == Seq::<char>::empty());
    out
}

/// Builds a string from its characters.
#[verifier::external_body]
pub(crate) fn string_from_chars(v: &Vec<char>) -> (res: String)
    ensures
        res@ == v@,
{
    v.iter().collect()
}

/// `s` with every occurrence of `from` replaced by `to` (`str::replace`).
pub fn replace(s: &str, from: &str, to: &str) -> (res: String)
    ensures
        res@ == replace_all(s@, from@, to@),
{
    let r = replace_chars(&chars_of(s), &chars_of(from), &chars_of(to));
    string_from_chars(&r)
}

} // verus!
