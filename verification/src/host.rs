//! Host names: which hosts a suffix pattern covers, and which suffix to suggest
//! for a host.

use crate::ip_literal;
use crate::text;
use vstd::prelude::*;

verus! {

/// Whether a lowercased host is the pattern itself or lies below it.
pub open spec fn covers(pattern: Seq<char>, lower: Seq<char>) -> bool {
    lower == pattern || (seq!['.'] + pattern).is_suffix_of(lower)
}

/// Whether a lowercased host is the pattern itself or lies below it.
pub fn is_covered(pattern: &str, lower: &str) -> (r: bool)
    ensures
        r == covers(pattern@, lower@),
        r && lower@ != pattern@ ==> lower@.len() > pattern@.len() && lower@[lower@.len()
            - pattern@.len() - 1] == '.',
{
    if text::same_text(lower, pattern) {
        return true;
    }
    let mut dotted = String::new();
    dotted.push('.');
    dotted.append(pattern);
    assert(dotted@ =~= seq!['.'] + pattern@);
    proof {
        if dotted@.is_suffix_of(lower@) {
            let tail = lower@.subrange(lower@.len() - dotted@.len(), lower@.len() as int);
            assert(tail == dotted@);
            assert(tail[0] == dotted@[0]);
        }
    }
    text::ends_with(lower, dotted.as_str())
}

/// The name of a host as the suggestion reads it: trimmed, without leading
/// dots, lowercased.
pub open spec fn hint_name(host: Seq<char>) -> Seq<char> {
    text::lowercase(text::strip_start(text::trimmed(host), '.'))
}

/// The labels of a name, outside the brackets of an IPv6 address.
pub open spec fn hint_labels(name: Seq<char>) -> Seq<Seq<char>> {
    text::labels(text::strip_end(text::strip_start(name, '['), ']'))
}

/// The suffix suggested for a host. An IP literal is its own suffix; a name of
/// more than two labels loses the leftmost one.
pub open spec fn suffix_hint(host: Seq<char>) -> Seq<char> {
    let name = hint_name(host);
    if ip_literal::is_ip(name) {
        name
    } else if hint_labels(name).len() <= 2 {
        text::joined(hint_labels(name), '.')
    } else {
        text::joined(hint_labels(name).skip(1), '.')
    }
}

/// Produce a suffix suggestion for "allow permanently by suffix". Strips the
/// leftmost label if the host looks like a subdomain (more than two labels).
/// This is a UX heuristic, not a security boundary: the user can pick
/// "host only" if they prefer.
pub fn registered_suffix_hint(host: &str) -> (r: String)
    ensures
        r@ == suffix_hint(host@),
{
    let trimmed = text::trim(host);
    let name = text::trim_start_char(trimmed.as_str(), '.').as_str().to_lowercase();
    if ip_literal::is_ip_literal(name.as_str()) {
        return name;
    }
    let open = text::trim_start_char(name.as_str(), '[');
    let bare = text::trim_end_char(open.as_str(), ']');
    let labels = text::split_labels(bare.as_str());
    assert(text::pieces_view(labels@).len() == labels@.len());
    if labels.len() <= 2 {
        assert(text::pieces_view(labels@).skip(0) =~= text::pieces_view(labels@));
        return text::join_from(&labels, 0, '.');
    }
    text::join_from(&labels, 1, '.')
}

} // verus!
