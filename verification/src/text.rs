//! Character-level text operations: the model of `split`, `join`, `replace`
//! and prefixes over `Seq<char>`, and verified executable versions over
//! `Vec<char>` / `&str`.
use vstd::prelude::*;

verus! {

/// `pat` occurs in `s` starting at index `i`.
pub open spec fn occurs_at(s: Seq<char>, pat: Seq<char>, i: int) -> bool {
    &&& 0 <= i
    &&& i + pat.len() <= s.len()
    &&& s.subrange(i, i + pat.len()) == pat
}

/// `p` is a prefix of `s`.
pub open spec fn has_prefix(s: Seq<char>, p: Seq<char>) -> bool {
    occurs_at(s, p, 0)
}

/// The leftmost index at which `pat` occurs in `s`, if any.
pub open spec fn first_occurrence(s: Seq<char>, pat: Seq<char>) -> Option<int>
    decreases s.len(),
{
    if pat.len() > s.len() {
        None
    } else if s.take(pat.len() as int) == pat {
        Some(0)
    } else if s.len() == 0 {
        None
    } else {
        match first_occurrence(s.drop_first(), pat) {
            Some(i) => Some(i + 1),
            None => None,
        }
    }
}

/// The pieces of `s` between the non-overlapping, leftmost-first occurrences
/// of the non-empty separator `sep` (what `str::split` yields).
pub open spec fn split_on(s: Seq<char>, sep: Seq<char>) -> Seq<Seq<char>>
    decreases s.len(),
{
    match first_occurrence(s, sep) {
        Some(i) => if sep.len() > 0 && 0 <= i && i + sep.len() <= s.len() {
            seq![s.take(i)] + split_on(s.skip(i + sep.len()), sep)
        } else {
            seq![s]
        },
        None => seq![s],
    }
}

/// The pieces joined, with `sep` between consecutive pieces.
pub open spec fn join_with(parts: Seq<Seq<char>>, sep: Seq<char>) -> Seq<char>
    decreases parts.len(),
{
    if parts.len() == 0 {
        seq![]
    } else if parts.len() == 1 {
        parts[0]
    } else {
        parts[0] + sep + join_with(parts.drop_first(), sep)
    }
}

/// Every occurrence of the non-empty `pat` replaced by `rep`, scanning left to
/// right without overlaps (what `str::replace` computes).
pub open spec fn replace_all(s: Seq<char>, pat: Seq<char>, rep: Seq<char>) -> Seq<char> {
    join_with(split_on(s, pat), rep)
}

/// `s` split at its first occurrence of `c` (what `str::split_once` returns).
pub open spec fn split_once(s: Seq<char>, c: char) -> Option<(Seq<char>, Seq<char>)> {
    match first_occurrence(s, seq![c]) {
        Some(i) => Some((s.take(i), s.skip(i + 1))),
        None => None,
    }
}

pub proof fn lemma_first_occurrence(s: Seq<char>, pat: Seq<char>)
    ensures
        match first_occurrence(s, pat) {
            Some(i) => occurs_at(s, pat, i) && forall|j: int|
                0 <= j < i ==> !#[trigger] occurs_at(s, pat, j),
            None => forall|j: int| !#[trigger] occurs_at(s, pat, j),
        },
    decreases s.len(),
{
    if pat.len() > s.len() {
    } else if s.take(pat.len() as int) == pat {
        assert(s.subrange(0, pat.len() as int) == s.take(pat.len() as int));
    } else if s.len() == 0 {
        assert forall|j: int| !#[trigger] occurs_at(s, pat, j) by {
            if occurs_at(s, pat, j) {
                assert(j == 0);
                assert(s.subrange(0, pat.len() as int) == s.take(pat.len() as int));
            }
        }
    } else {
        let t = s.drop_first();
        lemma_first_occurrence(t, pat);
        assert forall|j: int| 0 <= j implies (#[trigger] occurs_at(t, pat, j) <==> occurs_at(s, pat, j + 1)) by {
            if j + 1 + pat.len() <= s.len() {
                assert(s.subrange(j + 1, j + 1 + pat.len()) == t.subrange(j, j + pat.len()));
            }
        }
        assert(!occurs_at(s, pat, 0)) by {
            assert(s.subrange(0, pat.len() as int) == s.take(pat.len() as int));
        }
        match first_occurrence(t, pat) {
            Some(i) => {
                assert(occurs_at(t, pat, i));
                assert(occurs_at(s, pat, i + 1));
                assert forall|j: int| 0 <= j < i + 1 implies !#[trigger] occurs_at(s, pat, j) by {
                    if j >= 1 {
                        assert(!occurs_at(t, pat, j - 1));
                    }
                }
            },
            None => {
                assert forall|j: int| !#[trigger] occurs_at(s, pat, j) by {
                    if j >= 1 {
                        assert(!occurs_at(t, pat, j - 1));
                    }
                }
            },
        }
    }
}

/// `split_on` yields at least one piece.
pub proof fn lemma_split_on_nonempty(s: Seq<char>, sep: Seq<char>)
    ensures
        split_on(s, sep).len() >= 1,
    decreases s.len(),
{
    match first_occurrence(s, sep) {
        Some(i) => if sep.len() > 0 && 0 <= i && i + sep.len() <= s.len() {
            lemma_split_on_nonempty(s.skip(i + sep.len()), sep);
        },
        None => {},
    }
}

/// Joining the pieces of a split with the separator gives back the text.
pub proof fn lemma_join_split(s: Seq<char>, sep: Seq<char>)
    requires
        sep.len() > 0,
    ensures
        join_with(split_on(s, sep), sep) == s,
    decreases s.len(),
{
    lemma_first_occurrence(s, sep);
    match first_occurrence(s, sep) {
        Some(i) => {
            let rest = s.skip(i + sep.len());
            lemma_join_split(rest, sep);
            lemma_split_on_nonempty(rest, sep);
            let parts = split_on(s, sep);
            assert(parts.drop_first() == split_on(rest, sep));
            assert(s == s.take(i) + sep + rest) by {
                assert(s.subrange(i, i + sep.len()) == sep);
            }
        },
        None => {},
    }
}

/// The text after the first separator is the join of all pieces but the first.
pub proof fn lemma_split_tail(s: Seq<char>, sep: Seq<char>)
    requires
        sep.len() > 0,
        split_on(s, sep).len() > 1,
    ensures
        first_occurrence(s, sep) is Some,
        split_on(s, sep)[0] == s.take(first_occurrence(s, sep)->0),
        join_with(split_on(s, sep).drop_first(), sep) == s.skip(
            first_occurrence(s, sep)->0 + sep.len(),
        ),
{
    lemma_first_occurrence(s, sep);
    match first_occurrence(s, sep) {
        Some(i) => {
            let rest = s.skip(i + sep.len());
            lemma_join_split(rest, sep);
            assert(split_on(s, sep).drop_first() == split_on(rest, sep));
        },
        None => {},
    }
}

/// Trusted: `String::push` appends `c` to `s`.
#[verifier::external_body]
pub(crate) fn push_char(s: &mut String, c: char)
    ensures
        final(s)@ == old(s)@.push(c),
{
    s.push(c)
}

/// The characters of `s`.
pub fn chars_of(s: &str) -> (v: Vec<char>)
    ensures
        v@ == s@,
{
    let n = s.unicode_len();
    let mut v: Vec<char> = Vec::new();
    let mut i: usize = 0;
    while i < n
        invariant
            n == s@.len(),
            i <= n,
            v@ == s@.take(i as int),
        decreases n - i,
    {
        v.push(s.get_char(i));
        i += 1;
        assert(v@ == s@.take(i as int));
    }
    assert(s@.take(n as int) == s@);
    v
}

/// The characters `v[lo..hi]` as a `String`.
pub fn string_of(v: &[char], lo: usize, hi: usize) -> (s: String)
    requires
        lo <= hi <= v@.len(),
    ensures
        s@ == v@.subrange(lo as int, hi as int),
{
    let mut s = String::new();
    let mut i = lo;
    while i < hi
        invariant
            lo <= i <= hi,
            hi <= v@.len(),
            s@ == v@.subrange(lo as int, i as int),
        decreases hi - i,
    {
        push_char(&mut s, v[i]);
        i += 1;
        assert(s@ == v@.subrange(lo as int, i as int));
    }
    s
}

/// The characters `v[lo..hi]` as a vector.
pub fn chars_between(v: &[char], lo: usize, hi: usize) -> (r: Vec<char>)
    requires
        lo <= hi <= v@.len(),
    ensures
        r@ == v@.subrange(lo as int, hi as int),
{
    let mut r: Vec<char> = Vec::new();
    let mut i = lo;
    while i < hi
        invariant
            lo <= i <= hi,
            hi <= v@.len(),
            r@ == v@.subrange(lo as int, i as int),
        decreases hi - i,
    {
        r.push(v[i]);
        i += 1;
        assert(r@ == v@.subrange(lo as int, i as int));
    }
    r
}

/// Whether `pat` occurs in `v` at index `i`.
pub fn occurs_at_exec(v: &[char], pat: &[char], i: usize) -> (b: bool)
    ensures
        b == occurs_at(v@, pat@, i as int),
{
    if i > v.len() || pat.len() > v.len() - i {
        return false;
    }
    let mut k: usize = 0;
    while k < pat.len()
        invariant
            i + pat.len() <= v.len(),
            k <= pat@.len(),
            forall|m: int| 0 <= m < k ==> v@[i + m] == pat@[m],
        decreases pat@.len() - k,
    {
        if v[i + k] != pat[k] {
            assert(v@.subrange(i as int, i + pat@.len())[k as int] != pat@[k as int]);
            return false;
        }
        k += 1;
    }
    assert(v@.subrange(i as int, i + pat@.len()) == pat@);
    true
}

/// Whether `v` starts with `p`.
pub fn starts_with(v: &[char], p: &[char]) -> (b: bool)
    ensures
        b == has_prefix(v@, p@),
{
    occurs_at_exec(v, p, 0)
}

/// Whether `v` holds exactly the characters of `lit`.
pub fn equals_str(v: &[char], lit: &str) -> (b: bool)
    ensures
        b == (v@ == lit@),
{
    let w = chars_of(lit);
    if v.len() != w.len() {
        return false;
    }
    let b = occurs_at_exec(v, w.as_slice(), 0);
    assert(v@.subrange(0, w@.len() as int) == v@);
    b
}

/// The leftmost occurrence of `pat` in `v` at or after `from`.
pub fn find_from(v: &[char], pat: &[char], from: usize) -> (r: Option<usize>)
    requires
        from <= v@.len(),
    ensures
        match r {
            Some(i) => from <= i && occurs_at(v@, pat@, i as int) && forall|j: int|
                from <= j < i ==> !#[trigger] occurs_at(v@, pat@, j),
            None => forall|j: int| from <= j ==> !#[trigger] occurs_at(v@, pat@, j),
        },
{
    let mut i = from;
    loop
        invariant
            from <= i <= v@.len(),
            forall|j: int| from <= j < i ==> !#[trigger] occurs_at(v@, pat@, j),
        decreases v@.len() - i,
    {
        if occurs_at_exec(v, pat, i) {
            return Some(i);
        }
        if i == v.len() {
            assert forall|j: int| from <= j implies !#[trigger] occurs_at(v@, pat@, j) by {
                if j > i {
                    assert(j + pat@.len() > v@.len());
                }
            }
            return None;
        }
        i += 1;
    }
}

/// Relates a leftmost occurrence found from position `from` to the model.
pub proof fn lemma_first_occurrence_skip(s: Seq<char>, pat: Seq<char>, from: int, i: Option<int>)
    requires
        0 <= from <= s.len(),
        match i {
            Some(k) => from <= k && occurs_at(s, pat, k) && forall|j: int|
                from <= j < k ==> !#[trigger] occurs_at(s, pat, j),
            None => forall|j: int| from <= j ==> !#[trigger] occurs_at(s, pat, j),
        },
    ensures
        first_occurrence(s.skip(from), pat) == match i {
            Some(k) => Some(k - from),
            None => None::<int>,
        },
{
    let t = s.skip(from);
    lemma_first_occurrence(t, pat);
    assert forall|j: int| 0 <= j implies (#[trigger] occurs_at(t, pat, j) <==> occurs_at(s, pat, j + from)) by {
        if j + pat.len() <= t.len() {
            assert(t.subrange(j, j + pat.len()) == s.subrange(j + from, j + from + pat.len()));
        }
    }
    match first_occurrence(t, pat) {
        Some(m) => {
            assert(occurs_at(s, pat, m + from));
            match i {
                Some(k) => {
                    if k - from < m {
                        assert(occurs_at(t, pat, k - from));
                    }
                    if m + from < k {
                        assert(!occurs_at(s, pat, m + from));
                    }
                },
                None => {},
            }
        },
        None => {
            match i {
                Some(k) => {
                    assert(occurs_at(t, pat, k - from));
                },
                None => {},
            }
        },
    }
}

/// `v` split at the first occurrence of `c` (`str::split_once`).
pub fn split_once_chars(v: &[char], c: char) -> (r: Option<(Vec<char>, Vec<char>)>)
    ensures
        match r {
            Some((a, b)) => split_once(v@, c) == Some((a@, b@)),
            None => split_once(v@, c) is None,
        },
{
    let pat = vec![c];
    let found = find_from(v, pat.as_slice(), 0);
    proof {
        lemma_first_occurrence_skip(v@, pat@, 0, match found {
            Some(k) => Some(k as int),
            None => None,
        });
        assert(v@.skip(0) == v@);
        assert(pat@ == seq![c]);
    }
    match found {
        Some(k) => {
            assert(occurs_at(v@, pat@, k as int));
            assert(pat@.len() == 1);
            assert(k + 1 <= v.len());
            let a = chars_between(v, 0, k);
            let b = chars_between(v, k + 1, v.len());
            assert(a@ == v@.take(k as int));
            assert(b@ == v@.skip(k + 1));
            Some((a, b))
        },
        None => None,
    }
}

/// The pieces of `v` between occurrences of the non-empty `sep` (`str::split`).
pub fn split_chars(v: &[char], sep: &[char]) -> (parts: Vec<Vec<char>>)
    requires
        sep@.len() > 0,
    ensures
        parts@.map_values(|p: Vec<char>| p@) == split_on(v@, sep@),
{
    let mut parts: Vec<Vec<char>> = Vec::new();
    let mut start: usize = 0;
    assert(v@.skip(0) == v@);
    assert(parts@.map_values(|p: Vec<char>| p@) =~= Seq::<Seq<char>>::empty());
    loop
        invariant
            sep@.len() > 0,
            start <= v@.len(),
            parts@.map_values(|p: Vec<char>| p@) + split_on(v@.skip(start as int), sep@)
                == split_on(v@, sep@),
        decreases v@.len() - start,
    {
        let found = find_from(v, sep, start);
        proof {
            lemma_first_occurrence_skip(v@, sep@, start as int, match found {
                Some(k) => Some(k as int),
                None => None,
            });
        }
        let ghost rest = v@.skip(start as int);
        match found {
            Some(k) => {
                assert(occurs_at(v@, sep@, k as int));
                assert(k + sep.len() <= v.len());
                let piece = chars_between(v, start, k);
                let ghost old_parts = parts@.map_values(|p: Vec<char>| p@);
                parts.push(piece);
                proof {
                    let next = v@.skip((k + sep@.len()) as int);
                    assert(rest.take(k - start) == v@.subrange(start as int, k as int));
                    assert(rest.skip(k - start + sep@.len()) == next);
                    assert(split_on(rest, sep@) == seq![rest.take(k - start)] + split_on(
                        next,
                        sep@,
                    ));
                    assert(parts@.map_values(|p: Vec<char>| p@) == old_parts.push(
                        v@.subrange(start as int, k as int),
                    ));
                    assert(parts@.map_values(|p: Vec<char>| p@) + split_on(next, sep@)
                        =~= old_parts + split_on(rest, sep@));
                }
                start = k + sep.len();
            },
            None => {
                let piece = chars_between(v, start, v.len());
                let ghost old_parts = parts@.map_values(|p: Vec<char>| p@);
                parts.push(piece);
                proof {
                    assert(rest == v@.subrange(start as int, v@.len() as int));
                    assert(split_on(rest, sep@) == seq![rest]);
                    assert(parts@.map_values(|p: Vec<char>| p@) =~= old_parts + split_on(
                        rest,
                        sep@,
                    ));
                }
                return parts;
            },
        }
    }
}

/// The pieces joined with `sep` between them (`[T]::join`).
pub fn join_chars(parts: &[Vec<char>], sep: &[char]) -> (r: Vec<char>)
    ensures
        r@ == join_with(parts@.map_values(|p: Vec<char>| p@), sep@),
{
    let ghost ps = parts@.map_values(|p: Vec<char>| p@);
    let n = parts.len();
    if n == 0 {
        return Vec::new();
    }
    // Built from the back: `acc` holds the join of `parts[i..]`.
    let last = &parts[n - 1];
    let mut acc: Vec<char> = chars_between(last.as_slice(), 0, last.len());
    let mut i: usize = n - 1;
    assert(ps.skip(i as int).len() == 1);
    assert(acc@ == join_with(ps.skip(i as int), sep@)) by {
        assert(last@.subrange(0, last@.len() as int) == last@);
    }
    while i > 0
        invariant
            n == parts@.len(),
            ps == parts@.map_values(|p: Vec<char>| p@),
            0 <= i < n,
            acc@ == join_with(ps.skip(i as int), sep@),
        decreases i,
    {
        let prev = &parts[i - 1];
        let mut next: Vec<char> = chars_between(prev.as_slice(), 0, prev.len());
        let mut k: usize = 0;
        let ghost base = next@;
        while k < sep.len()
            invariant
                k <= sep@.len(),
                next@ == base + sep@.take(k as int),
            decreases sep@.len() - k,
        {
            next.push(sep[k]);
            k += 1;
            assert(next@ == base + sep@.take(k as int));
        }
        let mut m: usize = 0;
        let ghost base2 = next@;
        while m < acc.len()
            invariant
                m <= acc@.len(),
                next@ == base2 + acc@.take(m as int),
            decreases acc@.len() - m,
        {
            next.push(acc[m]);
            m += 1;
            assert(next@ == base2 + acc@.take(m as int));
        }
        proof {
            assert(sep@.take(sep@.len() as int) == sep@);
            assert(acc@.take(acc@.len() as int) == acc@);
            assert(prev@.subrange(0, prev@.len() as int) == prev@);
            let t = ps.skip(i - 1);
            assert(t.drop_first() == ps.skip(i as int));
            assert(t[0] == prev@);
        }
        acc = next;
        i -= 1;
    }
    assert(ps.skip(0) == ps);
    acc
}

/// `v` with every occurrence of the non-empty `pat` replaced by `rep`
/// (`str::replace`).
pub fn replace_chars(v: &[char], pat: &[char], rep: &[char]) -> (r: Vec<char>)
    requires
        pat@.len() > 0,
    ensures
        r@ == replace_all(v@, pat@, rep@),
{
    let parts = split_chars(v, pat);
    join_chars(parts.as_slice(), rep)
}

} // verus!
