//! The sanitizer stage: normalizes a query before the inner stages see
//! it.
//!
//! The query is trimmed; a leading block comment (when the first
//! character is `/`) is dropped up to and including the first `*/`;
//! every line is trimmed and lines starting with `--` or `#` are
//! dropped; and the literal `@@language` is replaced by `'english'`.

use vstd::prelude::*;

use crate::error::QueryError;
use crate::executor::QueryExecutor;
use crate::text::{
    chars_of, contains_spec, find_first, join_parts, join_spec, match_at, replace_all,
    replace_spec, seq_views, split_char, split_spec, starts_with, starts_with_spec, string_of,
    trim, trim_spec,
};

verus! {

/// What follows the first occurrence of `p` in `s`; empty when `p` does
/// not occur.
pub open spec fn after_first(s: Seq<char>, p: Seq<char>) -> Seq<char>
    decreases s.len(),
{
    if s.len() == 0 {
        Seq::<char>::empty()
    } else if starts_with_spec(s, p) {
        s.skip(p.len() as int)
    } else {
        after_first(s.drop_first(), p)
    }
}

/// A trimmed query with its leading block comment dropped: everything up
/// to and including the first `*/` goes, and an unterminated comment
/// swallows the whole text. Texts not beginning with `/` are untouched.
pub open spec fn drop_comment(s: Seq<char>) -> Seq<char> {
    if s.len() > 0 && s[0] == '/' {
        after_first(s, "*/"@)
    } else {
        s
    }
}

/// Whether a trimmed line survives: it must not start with `--` or `#`.
pub open spec fn line_kept(t: Seq<char>) -> bool {
    !starts_with_spec(t, "--"@) && !starts_with_spec(t, "#"@)
}

/// Each line trimmed, and the trimmed lines starting with `--` or `#`
/// dropped.
pub open spec fn clean_lines(ls: Seq<Seq<char>>) -> Seq<Seq<char>>
    decreases ls.len(),
{
    if ls.len() == 0 {
        Seq::<Seq<char>>::empty()
    } else {
        let t = trim_spec(ls[0]);
        let rest = clean_lines(ls.drop_first());
        if line_kept(t) {
            seq![t] + rest
        } else {
            rest
        }
    }
}

/// The sanitized form of a query.
pub open spec fn sanitize_spec(q: Seq<char>) -> Seq<char> {
    let t = trim_spec(drop_comment(trim_spec(q)));
    let joined = join_spec(clean_lines(split_spec(t, '\n')), "\n"@);
    replace_spec(joined, "@@language"@, "'english'"@)
}

/// When `p` first occurs at `i`, what follows the first occurrence is
/// everything after position `i + p.len()`.
proof fn lemma_after_first_at(s: Seq<char>, p: Seq<char>, i: int)
    requires
        p.len() > 0,
        match_at(s, i, p),
        forall|j: int| 0 <= j < i ==> !match_at(s, j, p),
    ensures
        after_first(s, p) == s.skip(i + p.len()),
    decreases i,
{
    assert(s.len() > 0);
    if i == 0 {
        assert(s.subrange(0, p.len() as int) == p);
        assert(starts_with_spec(s, p));
    } else {
        if starts_with_spec(s, p) {
            assert(match_at(s, 0, p));
        }
        assert forall|j: int| 0 <= j < i - 1 implies !match_at(s.drop_first(), j, p) by {
            if match_at(s.drop_first(), j, p) {
                assert(s.drop_first().subrange(j, j + p.len()) =~= s.subrange(
                    j + 1,
                    j + 1 + p.len(),
                ));
                assert(match_at(s, j + 1, p));
            }
        }
        assert(s.drop_first().subrange(i - 1, i - 1 + p.len()) =~= s.subrange(i, i + p.len()));
        assert(match_at(s.drop_first(), i - 1, p));
        lemma_after_first_at(s.drop_first(), p, i - 1);
        assert(s.drop_first().skip(i - 1 + p.len()) =~= s.skip(i + p.len()));
    }
}

/// When `p` does not occur in `s`, nothing follows its first occurrence.
proof fn lemma_after_first_none(s: Seq<char>, p: Seq<char>)
    requires
        p.len() > 0,
        !contains_spec(s, p),
    ensures
        after_first(s, p) == Seq::<char>::empty(),
    decreases s.len(),
{
    if s.len() > 0 {
        if starts_with_spec(s, p) {
            assert(match_at(s, 0, p));
        }
        assert forall|j: int| !match_at(s.drop_first(), j, p) by {
            if match_at(s.drop_first(), j, p) {
                assert(s.drop_first().subrange(j, j + p.len()) =~= s.subrange(
                    j + 1,
                    j + 1 + p.len(),
                ));
                assert(match_at(s, j + 1, p));
            }
        }
        lemma_after_first_none(s.drop_first(), p);
    }
}

/// The sanitized form of a query, as `sanitize_spec` states it.
pub fn sanitize_text(query: &str) -> (out: String)
    ensures
        out@ == sanitize_spec(query@),
{
    let qv = chars_of(query);
    let t1 = trim(&qv);
    let closer = chars_of("*/");
    let t2 = if t1.len() > 0 && t1[0] == '/' {
        match find_first(&t1, &closer) {
            Some(i) => {
                proof {
                    assert(closer@.len() == 2) by {
                        reveal_strlit("*/");
                    }
                    lemma_after_first_at(t1@, closer@, i as int);
                    assert(i + 2 <= t1@.len());
                }
                let n1 = t1.len();
                let mut rest: Vec<char> = Vec::new();
                let mut k: usize = i + 2;
                while k < n1
                    invariant
                        i + 2 <= k <= n1,
                        n1 == t1@.len(),
                        rest@ =~= t1@.subrange(i + 2, k as int),
                    decreases n1 - k,
                {
                    rest.push(t1[k]);
                    k += 1;
                }
                proof {
                    assert(rest@ =~= t1@.skip(i + 2));
                    assert(rest@ =~= drop_comment(t1@));
                }
                rest
            },
            None => {
                proof {
                    assert(closer@.len() == 2) by {
                        reveal_strlit("*/");
                    }
                    lemma_after_first_none(t1@, closer@);
                }
                Vec::new()
            },
        }
    } else {
        proof {
            assert(t1@ =~= drop_comment(t1@));
        }
        t1
    };
    let t3 = trim(&t2);
    let lines = split_char(&t3, '\n');
    let n = lines.len();
    let mut kept: Vec<Vec<char>> = Vec::new();
    let dash_dash = chars_of("--");
    let hash = chars_of("#");
    proof {
        assert(seq_views(lines@).skip(n as int) =~= Seq::<Seq<char>>::empty());
        assert(seq_views(kept@) =~= clean_lines(seq_views(lines@).skip(n as int)));
    }
    let mut i: usize = n;
    while i > 0
        invariant
            i <= n,
            n == lines@.len(),
            dash_dash@ == "--"@,
            hash@ == "#"@,
            seq_views(kept@) == clean_lines(seq_views(lines@).skip(i as int)),
        decreases i,
    {
        i -= 1;
        let t = trim(&lines[i]);
        let ghost ls = seq_views(lines@).skip(i as int);
        proof {
            assert(ls[0] == lines@[i as int]@);
            assert(ls.drop_first() =~= seq_views(lines@).skip(i as int + 1));
        }
        if !starts_with(&t, &dash_dash) && !starts_with(&t, &hash) {
            kept.insert(0, t);
            proof {
                assert(seq_views(kept@) =~= seq![trim_spec(ls[0])] + clean_lines(ls.drop_first()));
            }
        }
        proof {
            assert(seq_views(kept@) =~= clean_lines(seq_views(lines@).skip(i as int)));
        }
    }
    proof {
        assert(seq_views(lines@).skip(0) =~= seq_views(lines@));
    }
    let newline = chars_of("\n");
    let joined = join_parts(&kept, &newline);
    let pat = chars_of("@@language");
    let rep = chars_of("'english'");
    proof {
        assert(pat@.len() == 10) by {
            reveal_strlit("@@language");
        }
    }
    let replaced = replace_all(&joined, &pat, &rep);
    string_of(&replaced)
}

/// The sanitizer stage, owning the next stage.
pub struct QuerySanitizer<T> {
    /// The next stage.
    pub inner: T,
    /// The queries this stage has been asked.
    pub asked: Ghost<Seq<Seq<char>>>,
}

impl<T> QuerySanitizer<T> {
    /// A sanitizer in front of `executor`.
    pub fn new(executor: T) -> (r: Self)
        ensures
            r.inner == executor,
            r.asked@ == Seq::<Seq<char>>::empty(),
    {
        QuerySanitizer { inner: executor, asked: Ghost(Seq::empty()) }
    }
}

impl<T: QueryExecutor> QueryExecutor for QuerySanitizer<T> {
    type Out = T::Out;

    open spec fn log(&self) -> Seq<Seq<char>> {
        self.asked@
    }

    /// The inner stage sees exactly the sanitized query, once.
    open spec fn query_ens(
        pre: Self,
        post: Self,
        q: Seq<char>,
        r: Result<Option<T::Out>, QueryError>,
    ) -> bool {
        &&& post.inner.log() == pre.inner.log().push(sanitize_spec(q))
        &&& T::query_ens(pre.inner, post.inner, sanitize_spec(q), r)
    }

    fn query(&mut self, query: &str) -> (r: Result<Option<T::Out>, QueryError>) {
        proof {
            self.asked@ = self.asked@.push(query@);
        }
        let out = sanitize_text(query);
        self.inner.query(out.as_str())
    }
}

} // verus!
