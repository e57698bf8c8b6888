//! Placeholder substitution on byte strings.
use vstd::prelude::*;

verus! {

/// `pat` occurs in `s` at position `i`.
pub open spec fn occurs_at(s: Seq<u8>, pat: Seq<u8>, i: int) -> bool {
    0 <= i && i + pat.len() <= s.len() && s.subrange(i, i + pat.len()) == pat
}

/// `pat` occurs somewhere in `s`.
pub open spec fn contains_spec(s: Seq<u8>, pat: Seq<u8>) -> bool {
    exists|i: int| occurs_at(s, pat, i)
}

/// A byte that continues a UTF-8 character rather than starting one.
pub open spec fn is_continuation(b: u8) -> bool {
    0x80 <= b <= 0xbf
}

/// `rep` at every character boundary of `s`: before each byte that starts a
/// character, and at the end.
pub open spec fn insert_at_boundaries(s: Seq<u8>, rep: Seq<u8>) -> Seq<u8>
    decreases s.len(),
{
    if s.len() == 0 {
        rep
    } else if is_continuation(s[0]) {
        seq![s[0]] + insert_at_boundaries(s.subrange(1, s.len() as int), rep)
    } else {
        rep + seq![s[0]] + insert_at_boundaries(s.subrange(1, s.len() as int), rep)
    }
}

/// Every non-overlapping occurrence of `pat`, scanning left to right,
/// replaced by `rep`. The empty pattern occurs at every character boundary.
pub open spec fn replace_all(s: Seq<u8>, pat: Seq<u8>, rep: Seq<u8>) -> Seq<u8>
    decreases s.len(),
{
    if pat.len() == 0 {
        insert_at_boundaries(s, rep)
    } else if s.len() < pat.len() {
        s
    } else if s.subrange(0, pat.len() as int) == pat {
        rep + replace_all(s.subrange(pat.len() as int, s.len() as int), pat, rep)
    } else {
        seq![s[0]] + replace_all(s.subrange(1, s.len() as int), pat, rep)
    }
}

pub open spec fn pairs_view(reps: Seq<(Vec<u8>, Vec<u8>)>) -> Seq<(Seq<u8>, Seq<u8>)> {
    reps.map_values(|r: (Vec<u8>, Vec<u8>)| (r.0@, r.1@))
}

/// The path after each (placeholder, replacement) pair is applied in order,
/// and whether any pair matched. An empty placeholder occurs in every path.
pub open spec fn rewrite(s: Seq<u8>, reps: Seq<(Seq<u8>, Seq<u8>)>) -> (Seq<u8>, bool)
    decreases reps.len(),
{
    if reps.len() == 0 {
        (s, false)
    } else {
        let prev = rewrite(s, reps.drop_last());
        let (pat, rep) = reps.last();
        if contains_spec(prev.0, pat) {
            (replace_all(prev.0, pat, rep), true)
        } else {
            prev
        }
    }
}

/// The rewritten path, present only where some placeholder occurred.
pub open spec fn replaced_path(s: Seq<u8>, reps: Seq<(Seq<u8>, Seq<u8>)>) -> Option<Seq<u8>> {
    let r = rewrite(s, reps);
    if r.1 {
        Some(r.0)
    } else {
        None
    }
}

/// A fresh vector holding the bytes of `s`.
pub fn copy_bytes(s: &[u8]) -> (r: Vec<u8>)
    ensures
        r@ == s@,
{
    let mut out: Vec<u8> = Vec::new();
    let mut i: usize = 0;
    while i < s.len()
        invariant
            i <= s@.len(),
            out@ == s@.subrange(0, i as int),
        decreases s@.len() - i,
    {
        out.push(s[i]);
        i = i + 1;
        assert(out@ =~= s@.subrange(0, i as int));
    }
    assert(s@.subrange(0, i as int) =~= s@);
    out
}

/// Whether `pat` occurs in `s` at `i`.
fn matches_at(s: &[u8], pat: &[u8], i: usize) -> (r: bool)
    ensures
        r == occurs_at(s@, pat@, i as int),
{
    if i > s.len() || pat.len() > s.len() - i {
        return false;
    }
    let mut j: usize = 0;
    while j < pat.len()
        invariant
            i + pat@.len() <= s@.len(),
            s@.len() <= usize::MAX,
            j <= pat@.len(),
            forall|k: int| 0 <= k < j ==> s@[i + k] == pat@[k],
        decreases pat@.len() - j,
    {
        if s[i + j] != pat[j] {
            assert(s@.subrange(i as int, i + pat@.len())[j as int] != pat@[j as int]);
            return false;
        }
        j = j + 1;
    }
    assert(s@.subrange(i as int, i + pat@.len()) =~= pat@);
    true
}

/// Whether `pat` occurs anywhere in `s`.
pub fn contains_bytes(s: &[u8], pat: &[u8]) -> (r: bool)
    ensures
        r == contains_spec(s@, pat@),
{
    if pat.len() > s.len() {
        return false;
    }
    if pat.len() == 0 {
        assert(s@.subrange(0, 0) =~= pat@);
        assert(occurs_at(s@, pat@, 0));
        return true;
    }
    let mut i: usize = 0;
    while i <= s.len() - pat.len()
        invariant
            0 < pat@.len() <= s@.len(),
            s@.len() <= usize::MAX,
            i <= s@.len() - pat@.len() + 1,
            forall|k: int| 0 <= k < i ==> !occurs_at(s@, pat@, k),
        decreases s@.len() - pat@.len() + 1 - i,
    {
        if matches_at(s, pat, i) {
            return true;
        }
        i = i + 1;
    }
    assert forall|k: int| !occurs_at(s@, pat@, k) by {
        if 0 <= k < i {
        }
    }
    false
}

proof fn lemma_replace_all_step(s: Seq<u8>, pat: Seq<u8>, rep: Seq<u8>, i: int)
    requires
        pat.len() > 0,
        0 <= i <= s.len(),
    ensures
        i + pat.len() <= s.len() && occurs_at(s, pat, i) ==> replace_all(
            s.subrange(i, s.len() as int),
            pat,
            rep,
        ) == rep + replace_all(s.subrange(i + pat.len(), s.len() as int), pat, rep),
        i + pat.len() <= s.len() && !occurs_at(s, pat, i) ==> replace_all(
            s.subrange(i, s.len() as int),
            pat,
            rep,
        ) == seq![s[i]] + replace_all(s.subrange(i + 1, s.len() as int), pat, rep),
        i + pat.len() > s.len() ==> replace_all(s.subrange(i, s.len() as int), pat, rep)
            == s.subrange(i, s.len() as int),
{
    let t = s.subrange(i, s.len() as int);
    if i + pat.len() <= s.len() {
        assert(t.subrange(0, pat.len() as int) =~= s.subrange(i, i + pat.len()));
        assert(t.subrange(pat.len() as int, t.len() as int) =~= s.subrange(
            i + pat.len(),
            s.len() as int,
        ));
        assert(t.subrange(1, t.len() as int) =~= s.subrange(i + 1, s.len() as int));
    }
}

/// Appends the bytes of `s`.
pub(crate) fn push_all(out: &mut Vec<u8>, s: &[u8])
    ensures
        final(out)@ == old(out)@ + s@,
{
    let ghost o0 = out@;
    let mut i: usize = 0;
    while i < s.len()
        invariant
            i <= s@.len(),
            out@ == o0 + s@.subrange(0, i as int),
        decreases s@.len() - i,
    {
        out.push(s[i]);
        i = i + 1;
        assert(out@ =~= o0 + s@.subrange(0, i as int));
    }
    assert(s@.subrange(0, i as int) =~= s@);
}

/// `rep` inserted at every character boundary of `s`.
fn insert_bytes(s: &[u8], rep: &[u8]) -> (r: Vec<u8>)
    ensures
        r@ == insert_at_boundaries(s@, rep@),
{
    let mut out: Vec<u8> = Vec::new();
    let mut i: usize = 0;
    assert(s@.subrange(0, s@.len() as int) =~= s@);
    while i < s.len()
        invariant
            i <= s@.len(),
            out@ + insert_at_boundaries(s@.subrange(i as int, s@.len() as int), rep@)
                == insert_at_boundaries(s@, rep@),
        decreases s@.len() - i,
    {
        let ghost t = s@.subrange(i as int, s@.len() as int);
        let ghost o0 = out@;
        assert(t.subrange(1, t.len() as int) =~= s@.subrange(i + 1, s@.len() as int));
        assert(t[0] == s@[i as int]);
        if !(0x80 <= s[i] && s[i] <= 0xbf) {
            push_all(&mut out, rep);
        }
        out.push(s[i]);
        proof {
            let rest = insert_at_boundaries(s@.subrange(i + 1, s@.len() as int), rep@);
            if is_continuation(s@[i as int]) {
                assert(out@ + rest =~= o0 + (seq![s@[i as int]] + rest));
            } else {
                assert(out@ + rest =~= o0 + (rep@ + seq![s@[i as int]] + rest));
            }
        }
        i = i + 1;
    }
    let ghost e = s@.subrange(i as int, s@.len() as int);
    assert(e =~= Seq::<u8>::empty());
    push_all(&mut out, rep);
    out
}

/// `s` with every occurrence of `pat` replaced by `rep`; an empty `pat`
/// puts `rep` at every character boundary.
pub fn replace_bytes(s: &[u8], pat: &[u8], rep: &[u8]) -> (r: Vec<u8>)
    ensures
        r@ == replace_all(s@, pat@, rep@),
{
    if pat.len() == 0 {
        return insert_bytes(s, rep);
    }
    let mut out: Vec<u8> = Vec::new();
    let mut i: usize = 0;
    assert(s@.subrange(0, s@.len() as int) =~= s@);
    while i < s.len()
        invariant
            pat@.len() > 0,
            i <= s@.len(),
            out@ + replace_all(s@.subrange(i as int, s@.len() as int), pat@, rep@) == replace_all(
                s@,
                pat@,
                rep@,
            ),
        decreases s@.len() - i,
    {
        proof {
            lemma_replace_all_step(s@, pat@, rep@, i as int);
        }
        if pat.len() <= s.len() - i && matches_at(s, pat, i) {
            let mut j: usize = 0;
            let ghost o0 = out@;
            while j < rep.len()
                invariant
                    j <= rep@.len(),
                    out@ == o0 + rep@.subrange(0, j as int),
                decreases rep@.len() - j,
            {
                out.push(rep[j]);
                j = j + 1;
                assert(out@ =~= o0 + rep@.subrange(0, j as int));
            }
            assert(rep@.subrange(0, j as int) =~= rep@);
            assert(out@ + replace_all(s@.subrange(i + pat@.len(), s@.len() as int), pat@, rep@)
                =~= o0 + (rep@ + replace_all(
                s@.subrange(i + pat@.len(), s@.len() as int),
                pat@,
                rep@,
            )));
            i = i + pat.len();
        } else if pat.len() <= s.len() - i {
            let ghost o0 = out@;
            out.push(s[i]);
            assert(out@ + replace_all(s@.subrange(i + 1, s@.len() as int), pat@, rep@) =~= o0 + (
            seq![s@[i as int]] + replace_all(s@.subrange(i + 1, s@.len() as int), pat@, rep@)));
            i = i + 1;
        } else {
            let ghost o0 = out@;
            let ghost i0 = i;
            while i < s.len()
                invariant
                    i0 <= i <= s@.len(),
                    out@ == o0 + s@.subrange(i0 as int, i as int),
                decreases s@.len() - i,
            {
                out.push(s[i]);
                i = i + 1;
                assert(out@ =~= o0 + s@.subrange(i0 as int, i as int));
            }
            assert(s@.subrange(i as int, s@.len() as int) =~= Seq::<u8>::empty());
            assert(replace_all(Seq::<u8>::empty(), pat@, rep@) == Seq::<u8>::empty());
            assert(out@ + replace_all(s@.subrange(i as int, s@.len() as int), pat@, rep@)
                =~= o0 + s@.subrange(i0 as int, s@.len() as int));
        }
    }
    assert(s@.subrange(i as int, s@.len() as int) =~= Seq::<u8>::empty());
    assert(replace_all(Seq::<u8>::empty(), pat@, rep@) == Seq::<u8>::empty());
    assert(out@ + Seq::<u8>::empty() =~= out@);
    out
}

/// Applies each (placeholder, replacement) pair in order; `Some` with the
/// new path when at least one placeholder occurred, `None` otherwise.
pub fn find_and_replace_placeholders(current_path: &[u8], replacements: &Vec<(Vec<u8>, Vec<u8>)>) -> (r:
    Option<Vec<u8>>)
    ensures
        match r {
            Some(v) => replaced_path(current_path@, pairs_view(replacements@)) == Some(v@),
            None => replaced_path(current_path@, pairs_view(replacements@)) is None,
        },
{
    let mut new_path: Vec<u8> = copy_bytes(current_path);
    let mut modified = false;
    let mut k: usize = 0;
    while k < replacements.len()
        invariant
            k <= replacements@.len(),
            (new_path@, modified) == rewrite(
                current_path@,
                pairs_view(replacements@.subrange(0, k as int)),
            ),
        decreases replacements@.len() - k,
    {
        let pair = &replacements[k];
        proof {
            assert(pairs_view(replacements@.subrange(0, k + 1)).drop_last() =~= pairs_view(
                replacements@.subrange(0, k as int),
            ));
        }
        if contains_bytes(new_path.as_slice(), pair.0.as_slice()) {
            new_path = replace_bytes(new_path.as_slice(), pair.0.as_slice(), pair.1.as_slice());
            modified = true;
        }
        k = k + 1;
    }
    assert(replacements@.subrange(0, k as int) =~= replacements@);
    if modified {
        Some(new_path)
    } else {
        None
    }
}

} // verus!
