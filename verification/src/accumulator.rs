//! The session accumulator stage.
//!
//! Clients configure their session with `SET` statements, but the remote
//! task service is stateless between tasks. The accumulator captures
//! every statement whose lower-cased text starts with `set` (answering
//! it with no result), deduplicates them on exact text, and prepends
//! them, `;`-joined and in first-seen order, to the next substantive
//! query.

use vstd::prelude::*;

use crate::error::QueryError;
use crate::executor::{deep_of, QueryExecutor};
use crate::text::{
    chars_of, join_parts, join_spec, lower_of, lowercase, push_all, seq_views, starts_with,
    starts_with_spec, string_of,
};

verus! {

#[verifier::external_type_specification]
#[verifier::external_body]
#[verifier::reject_recursive_types(T)]
#[verifier::reject_recursive_types(S)]
pub struct ExLinkedHashSet<T, S>(ritelinked::LinkedHashSet<T, S>);

#[verifier::external_type_specification]
#[verifier::external_body]
pub struct ExDefaultHashBuilder(ritelinked::DefaultHashBuilder);

/// What the set holds, in insertion order.
pub uninterp spec fn lhs_elems(s: ritelinked::LinkedHashSet<String>) -> Seq<Seq<char>>;

/// Relies on `ritelinked::LinkedHashSet::new`: the new set is empty.
#[verifier::external_body]
fn lhs_new() -> (r: ritelinked::LinkedHashSet<String>)
    ensures
        lhs_elems(r) == Seq::<Seq<char>>::empty(),
{
    ritelinked::LinkedHashSet::new()
}

/// Relies on `ritelinked::LinkedHashSet::replace`: a value already in
/// the set keeps its place in the insertion order; a new value goes to
/// the back.
#[verifier::external_body]
fn lhs_add(s: &mut ritelinked::LinkedHashSet<String>, q: &str)
    ensures
        lhs_elems(*final (s)) == if lhs_elems(*old(s)).contains(q@) {
            lhs_elems(*old(s))
        } else {
            lhs_elems(*old(s)).push(q@)
        },
{
    s.replace(q.to_string());
}

/// Relies on `ritelinked::LinkedHashSet::is_empty`.
#[verifier::external_body]
fn lhs_is_empty(s: &ritelinked::LinkedHashSet<String>) -> (r: bool)
    ensures
        r == (lhs_elems(*s).len() == 0),
{
    s.is_empty()
}

/// Relies on `ritelinked::LinkedHashSet::iter`: the elements come out in
/// insertion order.
#[verifier::external_body]
fn lhs_items(s: &ritelinked::LinkedHashSet<String>) -> (r: Vec<String>)
    ensures
        deep_of(r@) == lhs_elems(*s),
{
    s.iter().cloned().collect()
}

/// The text the inner stage sees for a substantive query `q` when the
/// accumulated statements are `acc`: the statements joined by `;` and a
/// line break, then `q`.
pub open spec fn replay_spec(acc: Seq<Seq<char>>, q: Seq<char>) -> Seq<char> {
    join_spec(acc, ";\n"@) + ";\n"@ + q
}

/// What the accumulator holds after seeing a `set` statement `q`.
pub open spec fn acc_insert(acc: Seq<Seq<char>>, q: Seq<char>) -> Seq<Seq<char>> {
    if acc.contains(q) {
        acc
    } else {
        acc.push(q)
    }
}

/// The accumulator stage, owning the next stage.
pub struct QueryAccumulator<T> {
    /// The next stage.
    pub executor: T,
    /// The captured `set` statements, first-seen order, exact-text
    /// deduplicated.
    pub acc: ritelinked::LinkedHashSet<String>,
    /// The queries this stage has been asked.
    pub asked: Ghost<Seq<Seq<char>>>,
}

impl<T> QueryAccumulator<T> {
    /// An accumulator in front of `executor`, with nothing captured yet.
    pub fn new(executor: T) -> (r: Self)
        ensures
            r.executor == executor,
            lhs_elems(r.acc) == Seq::<Seq<char>>::empty(),
            r.asked@ == Seq::<Seq<char>>::empty(),
    {
        QueryAccumulator { executor, acc: lhs_new(), asked: Ghost(Seq::empty()) }
    }
}

impl<T: QueryExecutor> QueryExecutor for QueryAccumulator<T> {
    type Out = T::Out;

    open spec fn log(&self) -> Seq<Seq<char>> {
        self.asked@
    }

    /// A `set` statement is captured (once, in first-seen order) and
    /// answered with no result; a substantive query reaches the inner
    /// stage exactly once, prefixed by the captured statements when
    /// there are any.
    open spec fn query_ens(
        pre: Self,
        post: Self,
        q: Seq<char>,
        r: Result<Option<T::Out>, QueryError>,
    ) -> bool {
        if starts_with_spec(lower_of(q), "set"@) {
            &&& post.executor == pre.executor
            &&& lhs_elems(post.acc) == acc_insert(lhs_elems(pre.acc), q)
            &&& r matches Ok(None)
        } else if lhs_elems(pre.acc).len() == 0 {
            &&& lhs_elems(post.acc) == lhs_elems(pre.acc)
            &&& post.executor.log() == pre.executor.log().push(q)
            &&& T::query_ens(pre.executor, post.executor, q, r)
        } else {
            &&& lhs_elems(post.acc) == lhs_elems(pre.acc)
            &&& post.executor.log() == pre.executor.log().push(
                replay_spec(lhs_elems(pre.acc), q),
            )
            &&& T::query_ens(pre.executor, post.executor, replay_spec(lhs_elems(pre.acc), q), r)
        }
    }

    fn query(&mut self, query: &str) -> (r: Result<Option<T::Out>, QueryError>) {
        proof {
            self.asked@ = self.asked@.push(query@);
        }
        match fold_query(&mut self.acc, query) {
            None => Ok(None),
            Some(text) => self.executor.query(text.as_str()),
        }
    }
}

/// Fold one query into the accumulated session state: a `set` statement
/// is captured and nothing is forwarded; anything else yields the text
/// to forward, with the captured statements replayed in front when there
/// are any.
pub fn fold_query(acc: &mut ritelinked::LinkedHashSet<String>, query: &str) -> (r: Option<String>)
    ensures
        if starts_with_spec(lower_of(query@), "set"@) {
            &&& lhs_elems(*final (acc)) == acc_insert(lhs_elems(*old(acc)), query@)
            &&& r is None
        } else {
            &&& lhs_elems(*final (acc)) == lhs_elems(*old(acc))
            &&& r matches Some(t) && t@ == (if lhs_elems(*old(acc)).len() == 0 {
                query@
            } else {
                replay_spec(lhs_elems(*old(acc)), query@)
            })
        },
{
    let lower = lowercase(query);
    let lv = chars_of(lower.as_str());
    let set_kw = chars_of("set");
    if starts_with(&lv, &set_kw) {
        lhs_add(acc, query);
        return None;
    }
    if lhs_is_empty(acc) {
        return Some(query.to_owned());
    }
    let items = lhs_items(acc);
    let m = items.len();
    let mut parts: Vec<Vec<char>> = Vec::new();
    let mut i: usize = 0;
    proof {
        assert(seq_views(parts@) =~= deep_of(items@).take(0));
    }
    while i < m
        invariant
            i <= m,
            m == items@.len(),
            parts@.len() == i,
            seq_views(parts@) == deep_of(items@).take(i as int),
        decreases m - i,
    {
        let ghost old_parts = parts@;
        let item = chars_of(items[i].as_str());
        proof {
            assert(item@ == deep_of(items@)[i as int]);
        }
        parts.push(item);
        proof {
            assert(seq_views(parts@).len() == i + 1);
            assert forall|k: int| 0 <= k < i + 1 implies seq_views(parts@)[k] == deep_of(
                items@,
            ).take(i + 1)[k] by {
                if k < i {
                    assert(seq_views(parts@)[k] == parts@[k]@);
                    assert(parts@[k] == old_parts[k]);
                    assert(seq_views(old_parts)[k] == deep_of(items@).take(i as int)[k]);
                } else {
                    assert(seq_views(parts@)[k] == parts@[k]@);
                }
            }
            assert(seq_views(parts@) =~= deep_of(items@).take(i + 1));
        }
        i += 1;
    }
    proof {
        assert(deep_of(items@).take(m as int) =~= deep_of(items@));
    }
    let sep = chars_of(";\n");
    let mut text = join_parts(&parts, &sep);
    push_all(&mut text, &sep);
    let qv = chars_of(query);
    push_all(&mut text, &qv);
    let out = string_of(&text);
    proof {
        assert(out@ == replay_spec(lhs_elems(*acc), query@));
    }
    Some(out)
}

} // verus!
