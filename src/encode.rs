//! Logical types, their storage types, and the literal encoding of cells.
use vstd::prelude::*;
use crate::text::push_char;

verus! {

/// The logical type of a column, as the columnar source declares it.
#[derive(Debug, Clone, Copy, PartialEq, Eq, Structural)]
pub enum LogicalType {
    Boolean,
    Int8,
    Int16,
    Int32,
    Int64,
    UInt8,
    UInt16,
    UInt32,
    UInt64,
    Float32,
    Float64,
    Utf8,
    Date,
    Datetime,
    Duration,
    Time,
    Binary,
    List,
    Null,
}

/// The column type of the relational destination.
#[derive(Debug, Clone, Copy, PartialEq, Eq, Structural)]
pub enum StorageType {
    Bool,
    Int,
    Float,
    Varchar,
}

/// The storage type of a logical type; `None` where no mapping exists.
pub open spec fn storage_of(t: LogicalType) -> Option<StorageType> {
    match t {
        LogicalType::Boolean => Option::Some(StorageType::Bool),
        LogicalType::Int8 | LogicalType::Int16 | LogicalType::Int32 | LogicalType::Int64
        | LogicalType::UInt8 | LogicalType::UInt16 | LogicalType::UInt32
        | LogicalType::UInt64 => Option::Some(StorageType::Int),
        LogicalType::Float32 | LogicalType::Float64 => Option::Some(StorageType::Float),
        LogicalType::Utf8 => Option::Some(StorageType::Varchar),
        _ => Option::None,
    }
}

/// Maps a logical type to its storage type.
pub fn storage_type(t: LogicalType) -> (r: Option<StorageType>)
    ensures
        r == storage_of(t),
{
    match t {
        LogicalType::Boolean => Option::Some(StorageType::Bool),
        LogicalType::Int8 | LogicalType::Int16 | LogicalType::Int32 | LogicalType::Int64
        | LogicalType::UInt8 | LogicalType::UInt16 | LogicalType::UInt32
        | LogicalType::UInt64 => Option::Some(StorageType::Int),
        LogicalType::Float32 | LogicalType::Float64 => Option::Some(StorageType::Float),
        LogicalType::Utf8 => Option::Some(StorageType::Varchar),
        _ => Option::None,
    }
}

pub open spec fn storage_name(s: StorageType) -> Seq<char> {
    match s {
        StorageType::Bool => "BOOL"@,
        StorageType::Int => "INT"@,
        StorageType::Float => "FLOAT"@,
        StorageType::Varchar => "VARCHAR"@,
    }
}

impl StorageType {
    /// The name of the storage type in a table definition.
    pub fn name(&self) -> (r: &'static str)
        ensures
            r@ == storage_name(*self),
    {
        match self {
            StorageType::Bool => "BOOL",
            StorageType::Int => "INT",
            StorageType::Float => "FLOAT",
            StorageType::Varchar => "VARCHAR",
        }
    }
}

/// One cell of a column. A floating-point cell carries the canonical decimal
/// text of its number; temporal cells carry their raw day, microsecond or
/// nanosecond count.
#[derive(Debug, Clone, PartialEq, Eq)]
pub enum Value {
    Null,
    Boolean(bool),
    Int(i64),
    UInt(u64),
    Float(String),
    Text(String),
    Date(i32),
    Datetime(i64),
    Duration(i64),
    Time(i64),
    Binary(Vec<u8>),
}

/// How one character is written inside a literal delimited by `q`: the
/// delimiter itself is doubled.
pub open spec fn escape_char(c: char, q: char) -> Seq<char> {
    if c == q { seq![q, q] } else { seq![c] }
}

/// The body of a literal delimited by `q`.
pub open spec fn escape(s: Seq<char>, q: char) -> Seq<char>
    decreases s.len(),
{
    if s.len() == 0 {
        Seq::empty()
    } else {
        escape_char(s[0], q) + escape(s.drop_first(), q)
    }
}

/// A literal delimited by `q`: the delimiter, the escaped text, the delimiter.
pub open spec fn quoted(s: Seq<char>, q: char) -> Seq<char> {
    seq![q] + escape(s, q) + seq![q]
}

/// Reads the body of a literal delimited by `q` back into its text; `None`
/// where a lone delimiter stands in it.
pub open spec fn unescape(t: Seq<char>, q: char) -> Option<Seq<char>>
    decreases t.len(),
{
    if t.len() == 0 {
        Option::Some(Seq::empty())
    } else if t[0] == q {
        if t.len() >= 2 && t[1] == q {
            match unescape(t.subrange(2, t.len() as int), q) {
                Option::Some(r) => Option::Some(seq![q] + r),
                Option::None => Option::None,
            }
        } else {
            Option::None
        }
    } else {
        match unescape(t.drop_first(), q) {
            Option::Some(r) => Option::Some(seq![t[0]] + r),
            Option::None => Option::None,
        }
    }
}

/// Reads a whole literal delimited by `q` back into its text.
pub open spec fn unquote(t: Seq<char>, q: char) -> Option<Seq<char>> {
    if t.len() >= 2 && t[0] == q && t[t.len() - 1] == q {
        unescape(t.subrange(1, t.len() - 1), q)
    } else {
        Option::None
    }
}

/// Reading an escaped body back gives the text.
pub proof fn lemma_unescape_escape(s: Seq<char>, q: char)
    ensures
        unescape(escape(s, q), q) == Option::Some(s),
    decreases s.len(),
{
    if s.len() > 0 {
        lemma_unescape_escape(s.drop_first(), q);
        let e = escape(s, q);
        let rest = escape(s.drop_first(), q);
        if s[0] == q {
            assert(e.subrange(2, e.len() as int) =~= rest);
            assert(seq![q] + s.drop_first() =~= s);
        } else {
            assert(e.drop_first() =~= rest);
            assert(seq![s[0]] + s.drop_first() =~= s);
        }
    } else {
        assert(escape(s, q) =~= Seq::<char>::empty());
        assert(s =~= Seq::<char>::empty());
    }
}

/// Quoting is lossless: reading a quoted literal back gives the same
/// text, whatever delimiters the text holds.
pub proof fn lemma_quote_round_trip(s: Seq<char>, q: char)
    ensures
        unquote(quoted(s, q), q) == Option::Some(s),
{
    let t = quoted(s, q);
    assert(t.subrange(1, t.len() - 1) =~= escape(s, q));
    lemma_unescape_escape(s, q);
}

/// Appends the literal of `s` delimited by `q`.
pub fn push_quoted(out: &mut String, s: &str, q: char)
    ensures
        final(out)@ == old(out)@ + quoted(s@, q),
{
    let n = s.unicode_len();
    push_char(out, q);
    let ghost start = out@;
    let mut i: usize = 0;
    assert(s@.skip(0) =~= s@);
    while i < n
        invariant
            n == s@.len(),
            i <= n,
            out@ + escape(s@.skip(i as int), q) == start + escape(s@, q),
        decreases n - i,
    {
        let c = s.get_char(i);
        proof {
            assert(s@.skip(i as int).drop_first() =~= s@.skip(i + 1));
        }
        if c == q {
            push_char(out, q);
        }
        push_char(out, c);
        i = i + 1;
        proof {
            assert(out@ + escape(s@.skip(i as int), q) =~= start + escape(s@, q));
        }
    }
    proof {
        assert(escape(s@.skip(n as int), q) =~= Seq::<char>::empty());
        assert(out@ =~= start + escape(s@, q));
    }
    push_char(out, q);
    assert(out@ =~= old(out)@ + quoted(s@, q));
}

/// The text literal of `s`: single-quoted, each single quote doubled.
pub fn quote_text(s: &str) -> (r: String)
    ensures
        r@ == quoted(s@, '\''),
{
    let mut r = String::new();
    push_quoted(&mut r, s, '\'');
    assert(r@ =~= quoted(s@, '\''));
    r
}

/// The identifier literal of `s`: double-quoted, each double quote doubled.
pub fn quote_ident(s: &str) -> (r: String)
    ensures
        r@ == quoted(s@, '"'),
{
    let mut r = String::new();
    push_quoted(&mut r, s, '"');
    assert(r@ =~= quoted(s@, '"'));
    r
}

/// Reads a literal delimited by `q` back into its text; `None` when `t` is
/// not such a literal.
pub fn parse_quoted(t: &str, q: char) -> (r: Option<String>)
    ensures
        match r {
            Option::Some(v) => unquote(t@, q) == Option::Some(v@),
            Option::None => unquote(t@, q).is_none(),
        },
{
    let n = t.unicode_len();
    if n < 2 || t.get_char(0) != q || t.get_char(n - 1) != q {
        return Option::None;
    }
    let ghost body = t@.subrange(1, n - 1);
    let mut out = String::new();
    let mut i: usize = 1;
    while i < n - 1
        invariant
            n == t@.len(),
            n >= 2,
            1 <= i <= n - 1,
            body == t@.subrange(1, n - 1),
            unescape(body, q) == match unescape(t@.subrange(i as int, n - 1), q) {
                Option::Some(r) => Option::Some(out@ + r),
                Option::None => Option::None,
            },
        decreases n - i,
    {
        let ghost rest = t@.subrange(i as int, n - 1);
        let c = t.get_char(i);
        if c == q {
            if i + 1 < n - 1 && t.get_char(i + 1) == q {
                proof {
                    assert(rest.subrange(2, rest.len() as int) =~= t@.subrange(i + 2, n - 1));
                }
                push_char(&mut out, q);
                i = i + 2;
                proof {
                    let ghost o = out@;
                    match unescape(t@.subrange(i as int, n - 1), q) {
                        Option::Some(r) => {
                            assert(o.drop_last() + (seq![q] + r) =~= o + r);
                        },
                        Option::None => {},
                    }
                }
            } else {
                return Option::None;
            }
        } else {
            proof {
                assert(rest.drop_first() =~= t@.subrange(i + 1, n - 1));
            }
            push_char(&mut out, c);
            i = i + 1;
            proof {
                let ghost o = out@;
                match unescape(t@.subrange(i as int, n - 1), q) {
                    Option::Some(r) => {
                        assert(o.drop_last() + (seq![c] + r) =~= o + r);
                    },
                    Option::None => {},
                }
            }
        }
    }
    proof {
        assert(t@.subrange(i as int, n - 1) =~= Seq::<char>::empty());
        assert(out@ + Seq::<char>::empty() =~= out@);
    }
    Option::Some(out)
}

} // verus!
