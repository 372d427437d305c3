//! Recognition of IP address literals.
//!
//! The grammar is the textual representation of addresses: dotted decimal for
//! IPv4, and for IPv6 colon-separated groups with at most one `::` and an
//! optional dotted decimal tail.

use crate::text;
use vstd::prelude::*;

verus! {

/// A decimal digit.
pub open spec fn is_decimal_digit(c: char) -> bool {
    '0' <= c && c <= '9'
}

/// A hexadecimal digit in either case.
pub open spec fn is_hex_digit(c: char) -> bool {
    is_decimal_digit(c) || ('a' <= c && c <= 'f') || ('A' <= c && c <= 'F')
}

/// The number that decimal digits stand for.
pub open spec fn decimal_value(p: Seq<char>) -> int
    decreases p.len(),
{
    if p.len() == 0 {
        0
    } else {
        decimal_value(p.drop_last()) * 10 + (p.last() as int - '0' as int)
    }
}

/// One to three decimal digits for a number below 256, without a leading zero.
pub open spec fn is_octet(p: Seq<char>) -> bool {
    &&& 1 <= p.len() <= 3
    &&& forall|i: int| 0 <= i < p.len() ==> is_decimal_digit(#[trigger] p[i])
    &&& p.len() > 1 ==> p[0] != '0'
    &&& decimal_value(p) <= 255
}

/// Four octets with dots between them.
pub open spec fn is_ipv4(s: Seq<char>) -> bool {
    let parts = text::split_on(s, '.');
    &&& parts.len() == 4
    &&& forall|i: int| 0 <= i < 4 ==> is_octet(#[trigger] parts[i])
}

/// One to four hexadecimal digits.
pub open spec fn is_group(p: Seq<char>) -> bool {
    &&& 1 <= p.len() <= 4
    &&& forall|i: int| 0 <= i < p.len() ==> is_hex_digit(#[trigger] p[i])
}

/// Whether every piece is a group.
pub open spec fn all_groups(parts: Seq<Seq<char>>) -> bool {
    forall|i: int| 0 <= i < parts.len() ==> is_group(#[trigger] parts[i])
}

/// How many 16-bit groups a run of colon-separated groups stands for. A dotted
/// decimal tail, where one is permitted, stands for two.
pub open spec fn run_width(s: Seq<char>, dotted_tail: bool) -> Option<int> {
    let parts = text::split_on(s, ':');
    if s.len() == 0 {
        Some(0)
    } else if all_groups(parts) {
        Some(parts.len() as int)
    } else if dotted_tail && all_groups(parts.drop_last()) && is_ipv4(parts.last()) {
        Some(parts.len() as int + 1)
    } else {
        None
    }
}

/// Whether `s` is an address whose `::` stands at index `at`: it replaces at
/// least one group, and no dotted decimal part precedes it.
pub open spec fn compressed_at(s: Seq<char>, at: int) -> bool {
    &&& 0 <= at <= s.len() - 2
    &&& s[at] == ':'
    &&& s[at + 1] == ':'
    &&& run_width(s.take(at), false) matches Some(left)
    &&& run_width(s.skip(at + 2), true) matches Some(right)
    &&& left + right <= 7
}

/// Eight groups, or fewer with one `::` in the place of the missing ones.
pub open spec fn is_ipv6(s: Seq<char>) -> bool {
    run_width(s, true) == Some(8int) || exists|at: int| compressed_at(s, at)
}

/// An IPv4 or IPv6 address.
pub open spec fn is_ip(s: Seq<char>) -> bool {
    is_ipv4(s) || is_ipv6(s)
}

fn octet(p: &Vec<char>) -> (r: bool)
    ensures
        r == is_octet(p@),
{
    let n: usize = p.len();
    if n < 1 || n > 3 {
        return false;
    }
    let mut value: u32 = 0;
    let mut i: usize = 0;
    while i < n
        invariant
            n == p@.len(),
            n <= 3,
            i <= n,
            forall|k: int| 0 <= k < i ==> is_decimal_digit(#[trigger] p@[k]),
            value == decimal_value(p@.take(i as int)),
            i == 0 ==> value == 0,
            i == 1 ==> value <= 9,
            i == 2 ==> value <= 99,
            i == 3 ==> value <= 999,
        decreases n - i,
    {
        let c = p[i];
        if c < '0' || c > '9' {
            assert(!is_decimal_digit(p@[i as int]));
            return false;
        }
        assert(p@.take(i + 1).drop_last() =~= p@.take(i as int));
        value = value * 10 + (c as u32 - '0' as u32);
        i += 1;
    }
    assert(p@.take(n as int) =~= p@);
    if n > 1 && p[0] == '0' {
        return false;
    }
    value <= 255
}

fn dotted_decimal(s: &Vec<char>) -> (r: bool)
    ensures
        r == is_ipv4(s@),
{
    let parts = text::split_char(s, '.');
    let ghost model = text::split_on(s@, '.');
    assert(parts@.len() == model.len());
    if parts.len() != 4 {
        return false;
    }
    let mut i: usize = 0;
    while i < 4
        invariant
            i <= 4,
            parts@.len() == 4,
            text::pieces_view(parts@) == model,
            model == text::split_on(s@, '.'),
            forall|k: int| 0 <= k < i ==> is_octet(#[trigger] model[k]),
        decreases 4 - i,
    {
        assert(model[i as int] == parts@[i as int]@);
        if !octet(&parts[i]) {
            return false;
        }
        i += 1;
    }
    true
}

fn hex_group(p: &Vec<char>) -> (r: bool)
    ensures
        r == is_group(p@),
{
    let n: usize = p.len();
    if n < 1 || n > 4 {
        return false;
    }
    let mut i: usize = 0;
    while i < n
        invariant
            n == p@.len(),
            i <= n,
            forall|k: int| 0 <= k < i ==> is_hex_digit(#[trigger] p@[k]),
        decreases n - i,
    {
        let c = p[i];
        let hex = ('0' <= c && c <= '9') || ('a' <= c && c <= 'f') || ('A' <= c && c <= 'F');
        if !hex {
            assert(!is_hex_digit(p@[i as int]));
            return false;
        }
        i += 1;
    }
    true
}

/// The width of a run, where it fits the eight groups of an address.
fn width_of(s: &Vec<char>, dotted_tail: bool) -> (r: Option<usize>)
    ensures
        match r {
            Some(w) => w <= 8 && run_width(s@, dotted_tail) == Some(w as int),
            None => run_width(s@, dotted_tail) matches Some(w) ==> w > 8,
        },
{
    if s.len() == 0 {
        return Some(0);
    }
    let parts = text::split_char(s, ':');
    let ghost model = text::split_on(s@, ':');
    proof {
        text::lemma_split_on_nonempty(s@, ':');
    }
    assert(parts@.len() == model.len());
    let n: usize = parts.len();
    if n > 8 {
        return None;
    }
    let mut i: usize = 0;
    while i < n - 1
        invariant
            0 < n <= 8,
            i <= n - 1,
            n == parts@.len(),
            text::pieces_view(parts@) == model,
            forall|k: int| 0 <= k < i ==> is_group(#[trigger] model[k]),
            s@.len() > 0,
            model == text::split_on(s@, ':'),
        decreases n - i,
    {
        assert(model[i as int] == parts@[i as int]@);
        if !hex_group(&parts[i]) {
            assert(!all_groups(model));
            assert(model.drop_last()[i as int] == model[i as int]);
            assert(!all_groups(model.drop_last()));
            return None;
        }
        i += 1;
    }
    assert(model[n - 1] == parts@[n - 1]@);
    assert(forall|k: int| 0 <= k < n - 1 ==> model.drop_last()[k] == model[k]);
    if hex_group(&parts[n - 1]) {
        assert(all_groups(model));
        return Some(n);
    }
    assert(!all_groups(model));
    if dotted_tail && dotted_decimal(&parts[n - 1]) {
        if n == 8 {
            return None;
        }
        return Some(n + 1);
    }
    None
}

/// The characters from index `from` up to `to`.
fn slice(s: &Vec<char>, from: usize, to: usize) -> (r: Vec<char>)
    requires
        from <= to <= s@.len(),
    ensures
        r@ == s@.subrange(from as int, to as int),
{
    let mut out: Vec<char> = Vec::new();
    let mut i: usize = from;
    while i < to
        invariant
            from <= i <= to <= s@.len(),
            out@ =~= s@.subrange(from as int, i as int),
        decreases to - i,
    {
        out.push(s[i]);
        i += 1;
    }
    out
}

fn colon_groups(s: &Vec<char>) -> (r: bool)
    ensures
        r == is_ipv6(s@),
{
    match width_of(s, true) {
        Some(w) => {
            if w == 8 {
                return true;
            }
        },
        None => {},
    }
    let n: usize = s.len();
    let mut at: usize = 0;
    while at < n && n - at >= 2
        invariant
            n == s@.len(),
            at <= n,
            forall|k: int| 0 <= k < at ==> !compressed_at(s@, k),
        decreases n - at,
    {
        if s[at] == ':' && s[at + 1] == ':' {
            let left = slice(s, 0, at);
            let right = slice(s, at + 2, n);
            assert(left@ =~= s@.take(at as int));
            assert(right@ =~= s@.skip(at + 2));
            match (width_of(&left, false), width_of(&right, true)) {
                (Some(l), Some(r)) => {
                    if l + r <= 7 {
                        assert(compressed_at(s@, at as int));
                        return true;
                    }
                },
                _ => {},
            }
        }
        at += 1;
    }
    false
}

/// Whether a text is an IP address literal.
pub fn is_ip_literal(s: &str) -> (r: bool)
    ensures
        r == is_ip(s@),
{
    let chars = text::to_chars(s);
    dotted_decimal(&chars) || colon_groups(&chars)
}

} // verus!
