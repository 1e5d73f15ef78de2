//! Summary of the differences between two databases.
use vstd::prelude::*;
use crate::text::{nat_text, push_nat};

verus! {

/// Row counts that a database diff reports: changed, inserted, deleted and
/// unchanged rows.
#[derive(Debug, Clone, Copy, PartialEq, Eq, Structural)]
pub struct Sqldiff {
    pub changes: usize,
    pub inserts: usize,
    pub deletes: usize,
    pub unchanged: usize,
}

impl Sqldiff {
    /// The empty diff.
    pub fn empty() -> (r: Sqldiff)
        ensures
            r.changes == 0 && r.inserts == 0 && r.deletes == 0 && r.unchanged == 0,
    {
        Sqldiff { changes: 0, inserts: 0, deletes: 0, unchanged: 0 }
    }

    /// Two databases are equal when no row was changed, inserted or deleted.
    pub fn equal(&self) -> (r: bool)
        ensures
            r == (self.changes == 0 && self.inserts == 0 && self.deletes == 0),
    {
        self.changes == 0 && self.inserts == 0 && self.deletes == 0
    }
}

pub open spec fn is_ws(c: char) -> bool {
    c == ' ' || c == '\t' || c == '\n' || c == '\r'
}

pub open spec fn is_digit(c: char) -> bool {
    '0' <= c && c <= '9'
}

pub open spec fn digit_value(c: char) -> nat {
    if c == '1' { 1 } else if c == '2' { 2 } else if c == '3' { 3 } else if c == '4' { 4 }
    else if c == '5' { 5 } else if c == '6' { 6 } else if c == '7' { 7 } else if c == '8' { 8 }
    else if c == '9' { 9 } else { 0 }
}

/// The first index from `i` on that holds no whitespace.
pub open spec fn skip_ws(s: Seq<char>, i: int) -> int
    decreases s.len() - i,
{
    if 0 <= i < s.len() && is_ws(s[i]) { skip_ws(s, i + 1) } else { i }
}

/// The first index from `i` on that holds no digit.
pub open spec fn skip_digits(s: Seq<char>, i: int) -> int
    decreases s.len() - i,
{
    if 0 <= i < s.len() && is_digit(s[i]) { skip_digits(s, i + 1) } else { i }
}

/// The first index from `i` on that holds `c`, or the length.
pub open spec fn find(s: Seq<char>, c: char, i: int) -> int
    decreases s.len() - i,
{
    if 0 <= i < s.len() && s[i] != c { find(s, c, i + 1) } else { i }
}

/// The number that the digits `s[i..j]` write.
pub open spec fn digits_value(s: Seq<char>, i: int, j: int) -> nat
    decreases j - i,
{
    if j <= i { 0 } else { digits_value(s, i, j - 1) * 10 + digit_value(s[j - 1]) }
}

/// The count of the field that starts at `a` and ends at `e`: its first
/// word, which must be all digits and fit in `usize`.
pub open spec fn field_count(s: Seq<char>, a: int, e: int) -> Option<nat> {
    let i = skip_ws(s, a);
    let j = skip_digits(s, i);
    if i < j && (j == e || (j < s.len() && is_ws(s[j]))) && digits_value(s, i, j) <= usize::MAX {
        Option::Some(digits_value(s, i, j))
    } else {
        Option::None
    }
}

/// What a one-line diff summary `<table>: <n> changes, <n> inserts,
/// <n> deletes, <n> unchanged` states; blank text is the empty diff.
pub open spec fn summary(s: Seq<char>) -> Option<(nat, nat, nat, nat)> {
    if skip_ws(s, 0) == s.len() {
        Option::Some((0, 0, 0, 0))
    } else {
        let c = find(s, ':', 0);
        let e1 = find(s, ',', c + 1);
        let e2 = find(s, ',', e1 + 1);
        let e3 = find(s, ',', e2 + 1);
        let e4 = find(s, ',', e3 + 1);
        if c < s.len() && e1 < s.len() && e2 < s.len() && e3 < s.len() && e4 == s.len() {
            match (field_count(s, c + 1, e1), field_count(s, e1 + 1, e2), field_count(s, e2 + 1, e3), field_count(s, e3 + 1, e4)) {
                (Option::Some(a), Option::Some(b), Option::Some(d), Option::Some(u)) => Option::Some((a, b, d, u)),
                _ => Option::None,
            }
        } else {
            Option::None
        }
    }
}

fn scan_ws(s: &str, n: usize, i: usize) -> (r: usize)
    requires
        n == s@.len(),
        i <= n,
    ensures
        r as int == skip_ws(s@, i as int),
        i <= r <= n,
{
    let mut k = i;
    while k < n && is_ws_char(s.get_char(k))
        invariant
            n == s@.len(),
            i <= k <= n,
            skip_ws(s@, k as int) == skip_ws(s@, i as int),
        decreases n - k,
    {
        k = k + 1;
    }
    k
}

fn is_ws_char(c: char) -> (r: bool)
    ensures
        r == is_ws(c),
{
    c == ' ' || c == '\t' || c == '\n' || c == '\r'
}

fn find_char(s: &str, n: usize, c: char, i: usize) -> (r: usize)
    requires
        n == s@.len(),
        i <= n,
    ensures
        r as int == find(s@, c, i as int),
        i <= r <= n,
{
    let mut k = i;
    while k < n && s.get_char(k) != c
        invariant
            n == s@.len(),
            i <= k <= n,
            find(s@, c, k as int) == find(s@, c, i as int),
        decreases n - k,
    {
        k = k + 1;
    }
    k
}

fn digit_of(c: char) -> (r: usize)
    ensures
        r == digit_value(c),
{
    if c == '1' { 1 } else if c == '2' { 2 } else if c == '3' { 3 } else if c == '4' { 4 }
    else if c == '5' { 5 } else if c == '6' { 6 } else if c == '7' { 7 } else if c == '8' { 8 }
    else if c == '9' { 9 } else { 0 }
}

fn parse_field(s: &str, n: usize, a: usize, e: usize) -> (r: Option<usize>)
    requires
        n == s@.len(),
        a <= e <= n,
    ensures
        match r {
            Option::Some(v) => field_count(s@, a as int, e as int) == Option::Some(v as nat),
            Option::None => field_count(s@, a as int, e as int).is_none(),
        },
{
    let i = scan_ws(s, n, a);
    let mut j = i;
    let mut v: usize = 0;
    let mut over = false;
    while j < n && '0' <= s.get_char(j) && s.get_char(j) <= '9'
        invariant
            n == s@.len(),
            i <= j <= n,
            skip_digits(s@, j as int) == skip_digits(s@, i as int),
            !over ==> v as nat == digits_value(s@, i as int, j as int),
            over ==> digits_value(s@, i as int, j as int) > usize::MAX,
        decreases n - j,
    {
        let d = digit_of(s.get_char(j));
        if !over {
            if v > (usize::MAX - d) / 10 {
                over = true;
            } else {
                v = v * 10 + d;
            }
        }
        j = j + 1;
    }
    assert(skip_digits(s@, j as int) == j as int);
    assert(skip_digits(s@, i as int) == j as int);
    if i < j && (j == e || (j < n && is_ws_char(s.get_char(j)))) && !over {
        Option::Some(v)
    } else {
        Option::None
    }
}

/// `[<changes>~ <inserts>+ <deletes>- <unchanged>=]`.
pub open spec fn diff_text(d: Sqldiff) -> Seq<char> {
    "["@ + nat_text(d.changes as nat) + "~ "@ + nat_text(d.inserts as nat) + "+ "@ + nat_text(
        d.deletes as nat,
    ) + "- "@ + nat_text(d.unchanged as nat) + "=]"@
}

impl Sqldiff {
    /// The diff as text: `[<changes>~ <inserts>+ <deletes>- <unchanged>=]`.
    pub fn to_text(&self) -> (r: String)
        ensures
            r@ == diff_text(*self),
    {
        let mut s = String::from_str("[");
        push_nat(&mut s, self.changes as u64);
        s.append("~ ");
        push_nat(&mut s, self.inserts as u64);
        s.append("+ ");
        push_nat(&mut s, self.deletes as u64);
        s.append("- ");
        push_nat(&mut s, self.unchanged as u64);
        s.append("=]");
        s
    }

    /// Reads a one-line diff summary such as `t: 1 changes, 0 inserts,
    /// 2 deletes, 7 unchanged`; blank text is the empty diff. `None` when
    /// the text has another shape.
    pub fn parse(s: &str) -> (r: Option<Sqldiff>)
        ensures
            match r {
                Option::Some(d) => summary(s@) == Option::Some(
                    (d.changes as nat, d.inserts as nat, d.deletes as nat, d.unchanged as nat),
                ),
                Option::None => summary(s@).is_none(),
            },
    {
        let n = s.unicode_len();
        if scan_ws(s, n, 0) == n {
            return Option::Some(Sqldiff::empty());
        }
        let c = find_char(s, n, ':', 0);
        if c == n {
            return Option::None;
        }
        let e1 = find_char(s, n, ',', c + 1);
        if e1 == n {
            return Option::None;
        }
        let e2 = find_char(s, n, ',', e1 + 1);
        if e2 == n {
            return Option::None;
        }
        let e3 = find_char(s, n, ',', e2 + 1);
        if e3 == n {
            return Option::None;
        }
        let e4 = find_char(s, n, ',', e3 + 1);
        if e4 != n {
            return Option::None;
        }
        let a = parse_field(s, n, c + 1, e1);
        let b = parse_field(s, n, e1 + 1, e2);
        let d = parse_field(s, n, e2 + 1, e3);
        let u = parse_field(s, n, e3 + 1, e4);
        match (a, b, d, u) {
            (Option::Some(a), Option::Some(b), Option::Some(d), Option::Some(u)) => Option::Some(
                Sqldiff { changes: a, inserts: b, deletes: d, unchanged: u },
            ),
            _ => Option::None,
        }
    }
}

} // verus!
