//! Character-level text utilities: trimming, splitting, joining,
//! substring search and replacement.
//!
//! Queries travel through the pipeline as `String` values; the stages
//! operate on their `Vec<char>` form so that every transformation can be
//! stated over `Seq<char>` views.

use vstd::prelude::*;

verus! {

/// Whitespace as this library understands it: the ASCII whitespace
/// characters.
pub open spec fn is_space(c: char) -> bool {
    c == ' ' || c == '\t' || c == '\n' || c == '\r' || c == '\u{b}' || c == '\u{c}'
}

/// `s` with leading whitespace removed.
pub open spec fn trim_start_spec(s: Seq<char>) -> Seq<char>
    decreases s.len(),
{
    if s.len() > 0 && is_space(s[0]) {
        trim_start_spec(s.drop_first())
    } else {
        s
    }
}

/// `s` with trailing whitespace removed.
pub open spec fn trim_end_spec(s: Seq<char>) -> Seq<char>
    decreases s.len(),
{
    if s.len() > 0 && is_space(s[s.len() - 1]) {
        trim_end_spec(s.drop_last())
    } else {
        s
    }
}

/// `s` with leading and trailing whitespace removed.
pub open spec fn trim_spec(s: Seq<char>) -> Seq<char> {
    trim_end_spec(trim_start_spec(s))
}

/// `p` is a prefix of `s`.
pub open spec fn starts_with_spec(s: Seq<char>, p: Seq<char>) -> bool {
    p.len() <= s.len() && s.subrange(0, p.len() as int) == p
}

/// `p` occurs in `s` at position `i`.
pub open spec fn match_at(s: Seq<char>, i: int, p: Seq<char>) -> bool {
    0 <= i && i + p.len() <= s.len() && s.subrange(i, i + p.len()) == p
}

/// `p` occurs somewhere in `s`.
pub open spec fn contains_spec(s: Seq<char>, p: Seq<char>) -> bool {
    exists|i: int| match_at(s, i, p)
}

/// The fields of `s` separated by `sep`; always at least one field, and
/// empty fields are kept, as `str::split` does.
pub open spec fn split_spec(s: Seq<char>, sep: char) -> Seq<Seq<char>>
    decreases s.len(),
{
    if s.len() == 0 {
        seq![Seq::<char>::empty()]
    } else if s[0] == sep {
        seq![Seq::<char>::empty()] + split_spec(s.drop_first(), sep)
    } else {
        let rest = split_spec(s.drop_first(), sep);
        rest.update(0, seq![s[0]] + rest[0])
    }
}

/// The parts joined with `sep` between consecutive parts.
pub open spec fn join_spec(parts: Seq<Seq<char>>, sep: Seq<char>) -> Seq<char>
    decreases parts.len(),
{
    if parts.len() == 0 {
        Seq::<char>::empty()
    } else if parts.len() == 1 {
        parts[0]
    } else {
        parts[0] + sep + join_spec(parts.drop_first(), sep)
    }
}

/// `s` with every occurrence of `pat` replaced by `rep`, scanning left to
/// right without overlap, as `str::replace` does. The empty pattern
/// replaces nothing.
pub open spec fn replace_spec(s: Seq<char>, pat: Seq<char>, rep: Seq<char>) -> Seq<char>
    decreases s.len(),
{
    if pat.len() == 0 || s.len() == 0 {
        s
    } else if starts_with_spec(s, pat) {
        rep + replace_spec(s.skip(pat.len() as int), pat, rep)
    } else {
        seq![s[0]] + replace_spec(s.drop_first(), pat, rep)
    }
}

/// The characters of `s`, in order.
pub fn chars_of(s: &str) -> (r: Vec<char>)
    ensures
        r@ == s@,
{
    let n = s.unicode_len();
    let mut r: Vec<char> = Vec::new();
    let mut i: usize = 0;
    while i < n
        invariant
            i <= n,
            n == s@.len(),
            r@ =~= s@.subrange(0, i as int),
        decreases n - i,
    {
        r.push(s.get_char(i));
        i += 1;
    }
    proof {
        assert(r@ =~= s@);
    }
    r
}

/// Relies on `String`'s `FromIterator` over `char`: the string made of
/// exactly those characters, in order.
#[verifier::external_body]
pub fn string_of(v: &Vec<char>) -> (r: String)
    ensures
        r@ == v@,
{
    v.iter().collect()
}

/// What `str::to_lowercase` returns: it depends on the characters alone.
pub uninterp spec fn lower_of(s: Seq<char>) -> Seq<char>;

/// Relies on `str::to_lowercase`: the lowercase form of the text, a
/// function of the characters alone; an empty string stays empty.
#[verifier::external_body]
pub fn lowercase(s: &str) -> (r: String)
    ensures
        r@ == lower_of(s@),
        s@.len() == 0 ==> r@.len() == 0,
{
    s.to_lowercase()
}

/// Whether `c` is whitespace.
pub fn is_space_exec(c: char) -> (r: bool)
    ensures
        r == is_space(c),
{
    c == ' ' || c == '\t' || c == '\n' || c == '\r' || c == '\u{b}' || c == '\u{c}'
}

proof fn lemma_trim_start_skip(s: Seq<char>, i: int)
    requires
        0 <= i <= s.len(),
        forall|k: int| 0 <= k < i ==> is_space(s[k]),
        i < s.len() ==> !is_space(s[i]),
    ensures
        trim_start_spec(s) == s.skip(i),
    decreases i,
{
    if i == 0 {
        if s.len() > 0 && is_space(s[0]) {
            assert(false);
        }
        assert(s.skip(0) =~= s);
    } else {
        assert(is_space(s[0]));
        lemma_trim_start_skip(s.drop_first(), i - 1);
        assert(s.drop_first().skip(i - 1) =~= s.skip(i));
    }
}

proof fn lemma_trim_end_take(s: Seq<char>, j: int)
    requires
        0 <= j <= s.len(),
        forall|k: int| j <= k < s.len() ==> is_space(s[k]),
        j > 0 ==> !is_space(s[j - 1]),
    ensures
        trim_end_spec(s) == s.take(j),
    decreases s.len() - j,
{
    if j == s.len() {
        if s.len() > 0 && is_space(s[s.len() - 1]) {
            assert(false);
        }
        assert(s.take(j) =~= s);
    } else {
        assert(is_space(s[s.len() - 1]));
        lemma_trim_end_take(s.drop_last(), j);
        assert(s.drop_last().take(j) =~= s.take(j));
    }
}

/// `v` with leading and trailing whitespace removed.
pub fn trim(v: &Vec<char>) -> (r: Vec<char>)
    ensures
        r@ == trim_spec(v@),
{
    let n = v.len();
    let mut i: usize = 0;
    while i < n && is_space_exec(v[i])
        invariant
            i <= n,
            n == v@.len(),
            forall|k: int| 0 <= k < i ==> is_space(v@[k]),
        decreases n - i,
    {
        i += 1;
    }
    proof {
        lemma_trim_start_skip(v@, i as int);
    }
    let mut j: usize = n;
    while j > i && is_space_exec(v[j - 1])
        invariant
            i <= j <= n,
            n == v@.len(),
            forall|k: int| j <= k < n ==> is_space(v@[k]),
            trim_start_spec(v@) == v@.skip(i as int),
            i < n ==> !is_space(v@[i as int]),
        decreases j,
    {
        j -= 1;
    }
    let mut r: Vec<char> = Vec::new();
    let mut k: usize = i;
    while k < j
        invariant
            i <= k <= j <= n,
            n == v@.len(),
            r@ =~= v@.subrange(i as int, k as int),
        decreases j - k,
    {
        r.push(v[k]);
        k += 1;
    }
    proof {
        let s = trim_start_spec(v@);
        assert(s =~= v@.skip(i as int));
        if j == i {
            lemma_trim_end_take(s, 0);
        } else {
            assert(!is_space(v@[j - 1]));
            assert(forall|k2: int| (j - i) <= k2 < s.len() ==> is_space(#[trigger] s[k2]));
            lemma_trim_end_take(s, j - i);
        }
        assert(r@ =~= s.take(j - i));
    }
    r
}

/// Whether `p` is a prefix of `v`.
pub fn starts_with(v: &Vec<char>, p: &Vec<char>) -> (r: bool)
    ensures
        r == starts_with_spec(v@, p@),
{
    if p.len() > v.len() {
        return false;
    }
    let mut k: usize = 0;
    while k < p.len()
        invariant
            k <= p@.len() <= v@.len(),
            forall|t: int| 0 <= t < k ==> v@[t] == p@[t],
        decreases p@.len() - k,
    {
        if v[k] != p[k] {
            proof {
                assert(v@.subrange(0, p@.len() as int)[k as int] != p@[k as int]);
            }
            return false;
        }
        k += 1;
    }
    proof {
        assert(v@.subrange(0, p@.len() as int) =~= p@);
    }
    true
}

/// Whether `p` occurs in `v` at position `i`.
pub fn matches_at(v: &Vec<char>, i: usize, p: &Vec<char>) -> (r: bool)
    requires
        i <= v@.len(),
    ensures
        r == match_at(v@, i as int, p@),
{
    let n = v.len();
    let m = p.len();
    if m > n - i {
        return false;
    }
    let mut k: usize = 0;
    while k < m
        invariant
            k <= m,
            m == p@.len(),
            n == v@.len(),
            i + m <= n,
            forall|t: int| 0 <= t < k ==> v@[i + t] == p@[t],
        decreases m - k,
    {
        if v[i + k] != p[k] {
            proof {
                assert(v@.subrange(i as int, i + p@.len())[k as int] != p@[k as int]);
            }
            return false;
        }
        k += 1;
    }
    proof {
        assert(v@.subrange(i as int, i + p@.len()) =~= p@);
    }
    true
}

/// The views of a sequence of character vectors.
pub open spec fn seq_views(v: Seq<Vec<char>>) -> Seq<Seq<char>> {
    Seq::new(v.len(), |i: int| v[i]@)
}

/// Append all of `src` to `dst`.
pub fn push_all(dst: &mut Vec<char>, src: &Vec<char>)
    ensures
        final(dst)@ == old(dst)@ + src@,
{
    let m = src.len();
    let mut k: usize = 0;
    while k < m
        invariant
            k <= m,
            m == src@.len(),
            dst@ =~= old(dst)@ + src@.subrange(0, k as int),
        decreases m - k,
    {
        dst.push(src[k]);
        k += 1;
    }
    proof {
        assert(dst@ =~= old(dst)@ + src@);
    }
}

/// The fields of `v` separated by `sep`.
pub fn split_char(v: &Vec<char>, sep: char) -> (r: Vec<Vec<char>>)
    ensures
        seq_views(r@) == split_spec(v@, sep),
        r@.len() > 0,
{
    let n = v.len();
    let mut acc: Vec<Vec<char>> = Vec::new();
    acc.push(Vec::new());
    proof {
        assert(v@.skip(n as int) =~= Seq::<char>::empty());
        assert(seq_views(acc@) =~= split_spec(v@.skip(n as int), sep));
    }
    let mut i: usize = n;
    while i > 0
        invariant
            i <= n,
            n == v@.len(),
            acc@.len() > 0,
            seq_views(acc@) == split_spec(v@.skip(i as int), sep),
        decreases i,
    {
        i -= 1;
        let c = v[i];
        let ghost s = v@.skip(i as int);
        proof {
            assert(s.len() > 0);
            assert(s[0] == c);
            assert(s.drop_first() =~= v@.skip(i as int + 1));
        }
        if c == sep {
            acc.insert(0, Vec::new());
            proof {
                assert(seq_views(acc@) =~= seq![Seq::<char>::empty()] + split_spec(
                    v@.skip(i as int + 1),
                    sep,
                ));
            }
        } else {
            let mut f = acc.remove(0);
            f.insert(0, c);
            acc.insert(0, f);
            proof {
                let rest = split_spec(v@.skip(i as int + 1), sep);
                assert(f@ =~= seq![c] + rest[0]);
                assert(seq_views(acc@) =~= rest.update(0, seq![c] + rest[0]));
            }
        }
        proof {
            assert(seq_views(acc@) =~= split_spec(v@.skip(i as int), sep));
        }
    }
    proof {
        assert(v@.skip(0) =~= v@);
    }
    acc
}

/// The parts joined with `sep` between consecutive parts.
pub fn join_parts(parts: &Vec<Vec<char>>, sep: &Vec<char>) -> (r: Vec<char>)
    ensures
        r@ == join_spec(seq_views(parts@), sep@),
{
    let n = parts.len();
    if n == 0 {
        let r: Vec<char> = Vec::new();
        return r;
    }
    let mut acc: Vec<char> = Vec::new();
    push_all(&mut acc, &parts[n - 1]);
    proof {
        assert(seq_views(parts@).skip(n - 1) =~= seq![parts@[n - 1]@]);
        assert(acc@ =~= join_spec(seq_views(parts@).skip(n - 1), sep@));
    }
    let mut i: usize = n - 1;
    while i > 0
        invariant
            i < n,
            n == parts@.len(),
            acc@ == join_spec(seq_views(parts@).skip(i as int), sep@),
        decreases i,
    {
        i -= 1;
        let mut next: Vec<char> = Vec::new();
        push_all(&mut next, &parts[i]);
        push_all(&mut next, sep);
        push_all(&mut next, &acc);
        proof {
            let pv = seq_views(parts@);
            assert(pv.skip(i as int).len() >= 2);
            assert(pv.skip(i as int)[0] == parts@[i as int]@);
            assert(pv.skip(i as int).drop_first() =~= pv.skip(i as int + 1));
            assert(next@ =~= pv.skip(i as int)[0] + sep@ + join_spec(pv.skip(i as int + 1), sep@));
        }
        acc = next;
    }
    proof {
        assert(seq_views(parts@).skip(0) =~= seq_views(parts@));
    }
    acc
}

/// `v` with every occurrence of `pat` replaced by `rep`.
pub fn replace_all(v: &Vec<char>, pat: &Vec<char>, rep: &Vec<char>) -> (r: Vec<char>)
    requires
        pat@.len() > 0,
    ensures
        r@ == replace_spec(v@, pat@, rep@),
{
    let n = v.len();
    let m = pat.len();
    let mut out: Vec<char> = Vec::new();
    let mut i: usize = 0;
    proof {
        assert(v@.skip(0) =~= v@);
    }
    while i < n
        invariant
            i <= n,
            n == v@.len(),
            m == pat@.len(),
            m > 0,
            out@ + replace_spec(v@.skip(i as int), pat@, rep@) == replace_spec(v@, pat@, rep@),
        decreases n - i,
    {
        let ghost s = v@.skip(i as int);
        proof {
            assert(s.len() > 0);
        }
        if matches_at(v, i, pat) {
            push_all(&mut out, rep);
            proof {
                assert(s.subrange(0, m as int) =~= v@.subrange(i as int, i as int + m));
                assert(starts_with_spec(s, pat@));
                assert(s.skip(m as int) =~= v@.skip(i as int + m));
                assert(out@ + replace_spec(v@.skip(i as int + m), pat@, rep@) =~= replace_spec(
                    v@,
                    pat@,
                    rep@,
                ));
            }
            i += m;
        } else {
            out.push(v[i]);
            proof {
                if starts_with_spec(s, pat@) {
                    assert(s.subrange(0, m as int) =~= v@.subrange(i as int, i as int + m));
                    assert(match_at(v@, i as int, pat@));
                }
                assert(s[0] == v@[i as int]);
                assert(s.drop_first() =~= v@.skip(i as int + 1));
                assert(out@ + replace_spec(v@.skip(i as int + 1), pat@, rep@) =~= replace_spec(
                    v@,
                    pat@,
                    rep@,
                ));
            }
            i += 1;
        }
    }
    proof {
        assert(v@.skip(n as int) =~= Seq::<char>::empty());
        assert(out@ =~= replace_spec(v@, pat@, rep@));
    }
    out
}

/// The least position where `pat` occurs in `v`, if it occurs at all.
pub fn find_first(v: &Vec<char>, pat: &Vec<char>) -> (r: Option<usize>)
    ensures
        match r {
            Some(i) => match_at(v@, i as int, pat@) && forall|j: int|
                0 <= j < i ==> !match_at(v@, j, pat@),
            None => !contains_spec(v@, pat@),
        },
{
    let n = v.len();
    if pat.len() == 0 {
        proof {
            assert(v@.subrange(0, 0) =~= pat@);
        }
        return Some(0);
    }
    let mut i: usize = 0;
    while i < n
        invariant
            i <= n,
            n == v@.len(),
            forall|j: int| 0 <= j < i ==> !match_at(v@, j, pat@),
        decreases n - i,
    {
        if matches_at(v, i, pat) {
            return Some(i);
        }
        i += 1;
    }
    proof {
        assert forall|j: int| !match_at(v@, j, pat@) by {
            if match_at(v@, j, pat@) {
                assert(0 <= j < n);
            }
        }
    }
    None
}

/// Whether `a` and `b` hold the same characters.
pub fn eq_chars(a: &Vec<char>, b: &Vec<char>) -> (r: bool)
    ensures
        r == (a@ == b@),
{
    let n = a.len();
    if n != b.len() {
        proof {
            assert(a@.len() != b@.len());
        }
        return false;
    }
    let mut i: usize = 0;
    while i < n
        invariant
            i <= n,
            n == a@.len() == b@.len(),
            forall|k: int| 0 <= k < i ==> a@[k] == b@[k],
        decreases n - i,
    {
        if a[i] != b[i] {
            return false;
        }
        i += 1;
    }
    proof {
        assert(a@ =~= b@);
    }
    true
}

/// Whether `pat` occurs anywhere in `v`.
pub fn contains_sub(v: &Vec<char>, pat: &Vec<char>) -> (r: bool)
    ensures
        r == contains_spec(v@, pat@),
{
    match find_first(v, pat) {
        Some(_) => true,
        None => false,
    }
}

} // verus!
