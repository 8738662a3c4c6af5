//! Helpers behind the MySQL wire front-end: the type-tag mapping, the
//! prepared-statement table, and positional-parameter substitution. The
//! socket handling and the binary encoding live outside this crate and
//! call into these.

use vstd::prelude::*;

use crate::text::{chars_of, push_all, string_of};
use crate::value::Column;

verus! {

/// The MySQL wire column type codes the proxy emits.
#[derive(Clone, Copy, Debug, PartialEq, Eq, Structural)]
pub enum MySqlType {
    LongLong,
    VarString,
    Tiny,
    Datetime,
    Long,
    Wire,
    Enumeration,
    NewDecimal,
    Date,
    Blob,
    Double,
    Time,
    Timestamp,
    Int24,
    Float,
    MediumBlob,
    Year,
    Bit,
}

/// The wire type for a column's textual type tag: untyped, textual and
/// unknown tags ship as the plain string type.
pub open spec fn spec_mysql_type(ty: Option<Seq<char>>) -> MySqlType {
    match ty {
        None => MySqlType::Wire,
        Some(t) => {
            if t == "bigint"@ {
                MySqlType::LongLong
            } else if t == "varchar"@ {
                MySqlType::VarString
            } else if t == "tinyint"@ {
                MySqlType::Tiny
            } else if t == "datetime"@ {
                MySqlType::Datetime
            } else if t == "int"@ || t == "mediumint"@ {
                MySqlType::Long
            } else if t == "enum"@ {
                MySqlType::Enumeration
            } else if t == "decimal"@ {
                MySqlType::NewDecimal
            } else if t == "date"@ {
                MySqlType::Date
            } else if t == "binary"@ || t == "blob"@ || t == "varbinary"@ {
                MySqlType::Blob
            } else if t == "double"@ {
                MySqlType::Double
            } else if t == "time"@ {
                MySqlType::Time
            } else if t == "timestamp"@ {
                MySqlType::Timestamp
            } else if t == "smallint"@ {
                MySqlType::Int24
            } else if t == "float"@ {
                MySqlType::Float
            } else if t == "mediumblob"@ {
                MySqlType::MediumBlob
            } else if t == "year"@ {
                MySqlType::Year
            } else if t == "bit"@ {
                MySqlType::Bit
            } else {
                MySqlType::Wire
            }
        },
    }
}

/// Whether `s` holds exactly the text `lit`.
fn tag_is(s: &String, lit: &str) -> (r: bool)
    ensures
        r == (s@ == lit@),
{
    let a = chars_of(s.as_str());
    let b = chars_of(lit);
    crate::text::eq_chars(&a, &b)
}

/// The wire type code of a column, from its type tag.
pub fn mysql_type_of(column: &Column) -> (r: MySqlType)
    ensures
        r == spec_mysql_type(crate::data_type::opt_view(column.ty)),
{
    match &column.ty {
        None => MySqlType::Wire,
        Some(t) => {
            if tag_is(t, "bigint") {
                MySqlType::LongLong
            } else if tag_is(t, "varchar") {
                MySqlType::VarString
            } else if tag_is(t, "tinyint") {
                MySqlType::Tiny
            } else if tag_is(t, "datetime") {
                MySqlType::Datetime
            } else if tag_is(t, "int") || tag_is(t, "mediumint") {
                MySqlType::Long
            } else if tag_is(t, "enum") {
                MySqlType::Enumeration
            } else if tag_is(t, "decimal") {
                MySqlType::NewDecimal
            } else if tag_is(t, "date") {
                MySqlType::Date
            } else if tag_is(t, "binary") || tag_is(t, "blob") || tag_is(t, "varbinary") {
                MySqlType::Blob
            } else if tag_is(t, "double") {
                MySqlType::Double
            } else if tag_is(t, "time") {
                MySqlType::Time
            } else if tag_is(t, "timestamp") {
                MySqlType::Timestamp
            } else if tag_is(t, "smallint") {
                MySqlType::Int24
            } else if tag_is(t, "float") {
                MySqlType::Float
            } else if tag_is(t, "mediumblob") {
                MySqlType::MediumBlob
            } else if tag_is(t, "year") {
                MySqlType::Year
            } else if tag_is(t, "bit") {
                MySqlType::Bit
            } else {
                MySqlType::Wire
            }
        },
    }
}

/// How many times `c` occurs in `s`.
pub open spec fn count_char(s: Seq<char>, c: char) -> int
    decreases s.len(),
{
    if s.len() == 0 {
        0
    } else {
        count_char(s.drop_first(), c) + if s[0] == c {
            1int
        } else {
            0int
        }
    }
}

/// The number of `?` placeholders in a prepared statement's text; the
/// front-end announces one nominally-textual parameter for each.
pub fn count_placeholders(q: &str) -> (r: usize)
    ensures
        r == count_char(q@, '?'),
{
    let v = chars_of(q);
    let n = v.len();
    let mut count: usize = 0;
    let mut i: usize = n;
    proof {
        assert(v@.skip(n as int) =~= Seq::<char>::empty());
    }
    while i > 0
        invariant
            i <= n,
            n == v@.len(),
            count <= n - i,
            count == count_char(v@.skip(i as int), '?'),
        decreases i,
    {
        i -= 1;
        proof {
            assert(v@.skip(i as int)[0] == v@[i as int]);
            assert(v@.skip(i as int).drop_first() =~= v@.skip(i as int + 1));
        }
        if v[i] == '?' {
            count += 1;
        }
    }
    proof {
        assert(v@.skip(0) =~= v@);
    }
    count
}

/// `s` with its first occurrence of `c` replaced by `rep`; without an
/// occurrence, `s` itself.
pub open spec fn replace_first_spec(s: Seq<char>, c: char, rep: Seq<char>) -> Seq<char>
    decreases s.len(),
{
    if s.len() == 0 {
        s
    } else if s[0] == c {
        rep + s.drop_first()
    } else {
        seq![s[0]] + replace_first_spec(s.drop_first(), c, rep)
    }
}

/// `v` with its first `?` replaced by `rep`.
fn replace_first_placeholder(v: &Vec<char>, rep: &Vec<char>) -> (r: Vec<char>)
    ensures
        r@ == replace_first_spec(v@, '?', rep@),
{
    let n = v.len();
    let mut out: Vec<char> = Vec::new();
    let mut i: usize = 0;
    while i < n
        invariant
            i <= n,
            n == v@.len(),
            out@ =~= v@.subrange(0, i as int),
            forall|k: int| 0 <= k < i ==> v@[k] != '?',
        decreases n - i,
    {
        if v[i] == '?' {
            push_all(&mut out, rep);
            let mut k: usize = i + 1;
            while k < n
                invariant
                    i + 1 <= k <= n,
                    n == v@.len(),
                    out@ =~= v@.subrange(0, i as int) + rep@ + v@.subrange(i as int + 1, k as int),
                decreases n - k,
            {
                out.push(v[k]);
                k += 1;
            }
            proof {
                lemma_replace_first_at(v@, i as int, rep@);
                assert(out@ =~= v@.subrange(0, i as int) + rep@ + v@.skip(i as int + 1));
            }
            return out;
        }
        out.push(v[i]);
        i += 1;
    }
    proof {
        lemma_replace_first_none(v@);
        assert(out@ =~= v@);
    }
    out
}

/// When the first `?` sits at `i`, the replacement splices `rep` there.
proof fn lemma_replace_first_at(s: Seq<char>, i: int, rep: Seq<char>)
    requires
        0 <= i < s.len(),
        s[i] == '?',
        forall|k: int| 0 <= k < i ==> s[k] != '?',
    ensures
        replace_first_spec(s, '?', rep) == s.subrange(0, i) + rep + s.skip(i + 1),
    decreases i,
{
    if i == 0 {
        assert(s.subrange(0, 0) + rep + s.skip(1) =~= rep + s.drop_first());
    } else {
        lemma_replace_first_at(s.drop_first(), i - 1, rep);
        assert(s.drop_first().subrange(0, i - 1) =~= s.subrange(1, i));
        assert(s.drop_first().skip(i) =~= s.skip(i + 1));
        assert(seq![s[0]] + (s.subrange(1, i) + rep + s.skip(i + 1)) =~= s.subrange(0, i) + rep
            + s.skip(i + 1));
    }
}

/// Without a `?`, the replacement changes nothing.
proof fn lemma_replace_first_none(s: Seq<char>)
    requires
        forall|k: int| 0 <= k < s.len() ==> s[k] != '?',
    ensures
        replace_first_spec(s, '?', Seq::<char>::empty()) == s,
        forall|rep: Seq<char>| #[trigger] replace_first_spec(s, '?', rep) == s,
    decreases s.len(),
{
    if s.len() > 0 {
        lemma_replace_first_none(s.drop_first());
        assert forall|rep: Seq<char>| #[trigger] replace_first_spec(s, '?', rep) == s by {
            assert(replace_first_spec(s.drop_first(), '?', rep) == s.drop_first());
            assert(replace_first_spec(s, '?', rep) == seq![s[0]] + replace_first_spec(
                s.drop_first(),
                '?',
                rep,
            ));
            assert(seq![s[0]] + s.drop_first() =~= s);
        }
    }
}

/// The statement text with each positional parameter, in order, textually
/// substituted for the next `?`.
pub open spec fn substitute_spec(q: Seq<char>, params: Seq<Seq<char>>) -> Seq<char>
    decreases params.len(),
{
    if params.len() == 0 {
        q
    } else {
        substitute_spec(replace_first_spec(q, '?', params[0]), params.drop_first())
    }
}

/// The statement text with the rendered parameters substituted, one `?`
/// at a time, left to right.
pub fn substitute_params(q: &str, params: &Vec<String>) -> (r: String)
    ensures
        r@ == substitute_spec(q@, crate::executor::deep_of(params@)),
{
    let ghost pv = crate::executor::deep_of(params@);
    let mut text = chars_of(q);
    let n = params.len();
    let mut i: usize = 0;
    proof {
        assert(pv.skip(0) =~= pv);
    }
    while i < n
        invariant
            i <= n,
            n == params@.len(),
            pv == crate::executor::deep_of(params@),
            substitute_spec(text@, pv.skip(i as int)) == substitute_spec(q@, pv),
        decreases n - i,
    {
        let rep = chars_of(params[i].as_str());
        proof {
            assert(pv.skip(i as int)[0] == pv[i as int]);
            assert(pv.skip(i as int).drop_first() =~= pv.skip(i as int + 1));
        }
        text = replace_first_placeholder(&text, &rep);
        i += 1;
    }
    proof {
        assert(pv.skip(n as int) =~= Seq::<Seq<char>>::empty());
    }
    string_of(&text)
}

/// A value quoted for embedding in SQL text.
pub fn escaped(value: &str) -> (r: String)
    ensures
        r@ == seq!['\''] + value@ + seq!['\''],
{
    let mut out: Vec<char> = Vec::new();
    out.push('\'');
    let inner = chars_of(value);
    push_all(&mut out, &inner);
    out.push('\'');
    proof {
        assert(out@ =~= seq!['\''] + value@ + seq!['\'']);
    }
    string_of(&out)
}

/// The per-connection prepared-statement table: a statement's id is its
/// position, and closing an id removes that position, shifting the ids
/// of the statements prepared after it.
pub struct PreparedStatements {
    /// The statements, in preparation order.
    pub statements: Vec<String>,
}

impl PreparedStatements {
    /// An empty table.
    pub fn new() -> (r: Self)
        ensures
            r.statements@.len() == 0,
    {
        PreparedStatements { statements: Vec::new() }
    }

    /// Add a statement; its id is the prior length.
    pub fn add(&mut self, query: String) -> (id: usize)
        ensures
            final (self).statements@ == old(self).statements@.push(query),
            id == old(self).statements@.len(),
    {
        let id = self.statements.len();
        self.statements.push(query);
        id
    }

    /// The statement with this id, if the id is live.
    pub fn get(&self, id: usize) -> (r: Option<&String>)
        ensures
            match r {
                Some(q) => id < self.statements@.len() && *q == self.statements@[id as int],
                None => id >= self.statements@.len(),
            },
    {
        if id < self.statements.len() {
            Some(&self.statements[id])
        } else {
            None
        }
    }

    /// Remove the entry at `id`; later statements shift down.
    pub fn close(&mut self, id: usize)
        requires
            id < old(self).statements@.len(),
        ensures
            final (self).statements@ == old(self).statements@.remove(id as int),
    {
        self.statements.remove(id);
    }
}

} // verus!
