//! Laws of suffix suggestions.

use crate::host;
use crate::ip_literal;
use crate::text;
use crate::text_laws;
use vstd::prelude::*;

verus! {

/// Whether dots stand only between labels, and no label is empty.
pub open spec fn has_full_labels(s: Seq<char>) -> bool {
    &&& s.len() > 0
    &&& forall|i: int|
        0 <= i < s.len() && #[trigger] s[i] == '.' ==> 0 < i < s.len() - 1 && s[i + 1] != '.'
}

/// A host name: white space does not surround it, it begins with no dot, and its
/// lowercase form has full labels and stands in no brackets.
pub open spec fn is_host_name(host: Seq<char>) -> bool {
    let name = text::lowercase(host);
    &&& host.len() > 0
    &&& text_laws::is_trim(host)
    &&& host[0] != '.'
    &&& has_full_labels(name)
    &&& name.first() != '['
    &&& name.last() != ']'
}

/// An ordinary host name: ASCII, without white space or brackets, and with no
/// empty label.
pub open spec fn is_plain_host(s: Seq<char>) -> bool {
    &&& text_laws::is_ascii(s)
    &&& has_full_labels(s)
    &&& forall|i: int|
        0 <= i < s.len() ==> !text::white_space(#[trigger] s[i]) && s[i] != '[' && s[i] != ']'
}

/// The pieces of the first `n` characters are full, but for a last one behind a
/// dot.
proof fn lemma_full_pieces(s: Seq<char>, n: int)
    requires
        has_full_labels(s),
        0 <= n <= s.len(),
    ensures
        text::split_on(s.take(n), '.').len() > 0,
        forall|k: int|
            0 <= k < text::split_on(s.take(n), '.').len() - 1 ==> (#[trigger] text::split_on(
                s.take(n),
                '.',
            )[k]).len() > 0,
        text::split_on(s.take(n), '.').last().len() == 0 <==> n == 0 || s[n - 1] == '.',
    decreases n,
{
    if n > 0 {
        lemma_full_pieces(s, n - 1);
        assert(s.take(n).drop_last() =~= s.take(n - 1));
        assert(s.take(n).last() == s[n - 1]);
        let before = text::split_on(s.take(n - 1), '.');
        let after = text::split_on(s.take(n), '.');
        if s[n - 1] == '.' {
            assert(n - 1 > 0);
            assert(s[n - 2] != '.') by {
                if s[n - 2] == '.' {
                    assert(s[n - 2 + 1] != '.');
                }
            }
            assert(after == before.push(Seq::<char>::empty()));
            assert forall|k: int| 0 <= k < after.len() - 1 implies (#[trigger] after[k]).len() > 0 by {
                assert(after[k] == before[k]);
            }
        } else {
            assert forall|k: int| 0 <= k < after.len() - 1 implies (#[trigger] after[k]).len() > 0 by {
                assert(after[k] == before[k]);
            }
        }
    }
}

/// Where every piece is full, the labels are the pieces.
proof fn lemma_all_labels(pieces: Seq<Seq<char>>)
    requires
        forall|k: int| 0 <= k < pieces.len() ==> (#[trigger] pieces[k]).len() > 0,
    ensures
        pieces.filter(text::is_label()) == pieces,
    decreases pieces.len(),
{
    reveal(Seq::filter);
    if pieces.len() > 0 {
        let front = pieces.drop_last();
        assert forall|k: int| 0 <= k < front.len() implies (#[trigger] front[k]).len() > 0 by {
            assert(front[k] == pieces[k]);
        }
        lemma_all_labels(front);
        assert(pieces.last() == pieces[pieces.len() - 1]);
        assert(front.push(pieces.last()) =~= pieces);
    }
}

/// The labels of a name with full labels are its pieces between the dots.
proof fn lemma_labels_of_full_name(s: Seq<char>)
    requires
        has_full_labels(s),
    ensures
        text::labels(s) == text::split_on(s, '.'),
        forall|k: int|
            0 <= k < text::split_on(s, '.').len() ==> (#[trigger] text::split_on(s, '.')[k]).len() > 0,
{
    lemma_full_pieces(s, s.len() as int);
    assert(s.take(s.len() as int) =~= s);
    let pieces = text::split_on(s, '.');
    assert(s[s.len() - 1] != '.');
    assert forall|k: int| 0 <= k < pieces.len() implies (#[trigger] pieces[k]).len() > 0 by {
        if k == pieces.len() - 1 {
            assert(pieces[k] == pieces.last());
        }
    }
    lemma_all_labels(pieces);
}

/// The lowercase form of an ordinary host name is an ordinary host name.
proof fn lemma_plain_lowercase(host: Seq<char>)
    requires
        is_plain_host(host),
    ensures
        is_plain_host(text::lowercase(host)),
        text::lowercase(text::lowercase(host)) == text::lowercase(host),
{
    let name = text::lowercase(host);
    text_laws::lemma_lowercase_ascii(host);
    text_laws::law_lowercase_is_idempotent(host);
    assert forall|i: int| 0 <= i < name.len() implies {
        &&& !text::white_space(#[trigger] name[i])
        &&& name[i] != '['
        &&& name[i] != ']'
        &&& (name[i] == '.' <==> host[i] == '.')
    } by {
        assert(name[i] == text::ascii_lower_char(host[i]));
        assert(!text::white_space(host[i]));
        assert('\0' <= host[i] && host[i] <= '\u{7f}');
    }
    assert forall|i: int| 0 <= i < name.len() && #[trigger] name[i] == '.' implies 0 < i < name.len()
        - 1 && name[i + 1] != '.' by {
        assert(host[i] == '.');
        assert(host[i + 1] != '.');
        assert(name[i + 1] == text::ascii_lower_char(host[i + 1]));
        assert(!text::white_space(name[i + 1]));
    }
}

/// An ordinary host name is already normalized but for its case, and begins
/// with no dot.
proof fn lemma_plain_is_normalized(name: Seq<char>)
    requires
        is_plain_host(name),
        text::lowercase(name) == name,
    ensures
        text::trimmed(name) == name,
        text::normalized(name) == name,
        text::strip_start(name, '.') == name,
{
    assert(!text::white_space(name[0]));
    assert(!text::white_space(name[name.len() - 1]));
    text_laws::law_trimming_is_idempotent(name);
    assert(name[0] != '.');
}

/// What an ordinary name ends with behind one of its dots is an ordinary name.
proof fn lemma_plain_tail(name: Seq<char>, dot: int)
    requires
        is_plain_host(name),
        text::lowercase(name) == name,
        0 <= dot < name.len(),
        name[dot] == '.',
    ensures
        is_plain_host(name.skip(dot + 1)),
        text::lowercase(name.skip(dot + 1)) == name.skip(dot + 1),
{
    let tail = name.skip(dot + 1);
    assert(tail =~= name.subrange(dot + 1, name.len() as int));
    text_laws::lemma_ascii_part(name, dot + 1, name.len() as int);
    assert forall|i: int| 0 <= i < tail.len() implies {
        &&& !text::white_space(#[trigger] tail[i])
        &&& tail[i] != '['
        &&& tail[i] != ']'
    } by {
        assert(tail[i] == name[dot + 1 + i]);
        assert(!text::white_space(name[dot + 1 + i]));
    }
    lemma_full_tail(name, dot);
    text_laws::lemma_lowercase_ascii(tail);
    text_laws::lemma_lowercase_ascii(name);
    assert forall|i: int| 0 <= i < tail.len() implies text::lowercase(tail)[i] == tail[i] by {
        assert(text::lowercase(name)[dot + 1 + i] == text::ascii_lower_char(name[dot + 1 + i]));
    }
    assert(text::lowercase(tail) =~= tail);
}

/// The pieces of ASCII text are ASCII.
proof fn lemma_ascii_pieces(s: Seq<char>, sep: char)
    requires
        text_laws::is_ascii(s),
    ensures
        forall|k: int|
            0 <= k < text::split_on(s, sep).len() ==> text_laws::is_ascii(
                #[trigger] text::split_on(s, sep)[k],
            ),
    decreases s.len(),
{
    if s.len() > 0 {
        let front = s.drop_last();
        assert('\0' <= s[s.len() - 1] && s[s.len() - 1] <= '\u{7f}');
        assert(front =~= s.subrange(0, s.len() - 1));
        text_laws::lemma_ascii_part(s, 0, s.len() - 1);
        lemma_ascii_pieces(front, sep);
        text::lemma_split_on_nonempty(front, sep);
        let before = text::split_on(front, sep);
        let pieces = text::split_on(s, sep);
        assert(text_laws::is_ascii(before[before.len() - 1]));
        assert forall|k: int| 0 <= k < pieces.len() implies text_laws::is_ascii(
            #[trigger] pieces[k],
        ) by {
            if k < pieces.len() - 1 {
                assert(pieces[k] == before[k]);
            }
        }
    }
}

/// ASCII pieces are joined to ASCII text.
proof fn lemma_ascii_joined(pieces: Seq<Seq<char>>)
    requires
        forall|k: int| 0 <= k < pieces.len() ==> text_laws::is_ascii(#[trigger] pieces[k]),
    ensures
        text_laws::is_ascii(text::joined(pieces, '.')),
    decreases pieces.len(),
{
    if pieces.len() > 0 {
        let front = pieces.drop_last();
        assert forall|k: int| 0 <= k < front.len() implies text_laws::is_ascii(
            #[trigger] front[k],
        ) by {
            assert(front[k] == pieces[k]);
        }
        lemma_ascii_joined(front);
        assert(pieces.last() == pieces[pieces.len() - 1]);
        assert(text_laws::is_ascii(pieces.last()));
    }
}

/// The suffix suggested for an ASCII host is ASCII.
pub proof fn lemma_suffix_hint_is_ascii(host: Seq<char>)
    requires
        text_laws::is_ascii(host),
    ensures
        text_laws::is_ascii(host::suffix_hint(host)),
{
    let trimmed = text::trimmed(host);
    text_laws::lemma_trimmed_part(host);
    let (from, to) = choose|from: int, to: int|
        0 <= from <= to <= host.len() && trimmed == #[trigger] host.subrange(from, to);
    text_laws::lemma_ascii_part(host, from, to);
    lemma_ascii_stripped(trimmed, '.');
    text_laws::lemma_lowercase_ascii(text::strip_start(trimmed, '.'));
    let name = host::hint_name(host);
    lemma_ascii_stripped(name, '[');
    let inner = text::strip_start(name, '[');
    lemma_ascii_stripped(inner, ']');
    let bare = text::strip_end(inner, ']');
    lemma_ascii_pieces(bare, '.');
    let pieces = text::split_on(bare, '.');
    let labels = host::hint_labels(name);
    assert forall|k: int| 0 <= k < labels.len() implies text_laws::is_ascii(
        #[trigger] labels[k],
    ) by {
        assert(labels.contains(labels[k]));
        pieces.lemma_filter_contains_rev(text::is_label(), labels[k]);
        let m = choose|m: int| 0 <= m < pieces.len() && pieces[m] == labels[k];
        assert(text_laws::is_ascii(pieces[m]));
    }
    lemma_ascii_joined(labels);
    if labels.len() > 2 {
        let rest = labels.skip(1);
        assert forall|k: int| 0 <= k < rest.len() implies text_laws::is_ascii(
            #[trigger] rest[k],
        ) by {
            assert(rest[k] == labels[k + 1]);
        }
        lemma_ascii_joined(rest);
    }
}

/// ASCII text stays ASCII without a run of a character at either end.
proof fn lemma_ascii_stripped(s: Seq<char>, c: char)
    requires
        text_laws::is_ascii(s),
    ensures
        text_laws::is_ascii(text::strip_start(s, c)),
        text_laws::is_ascii(text::strip_end(s, c)),
    decreases s.len(),
{
    if s.len() > 0 {
        text_laws::lemma_ascii_part(s, 1, s.len() as int);
        text_laws::lemma_ascii_part(s, 0, s.len() - 1);
        assert(s.drop_first() =~= s.subrange(1, s.len() as int));
        assert(s.drop_last() =~= s.subrange(0, s.len() - 1));
        lemma_ascii_stripped(s.drop_first(), c);
        lemma_ascii_stripped(s.drop_last(), c);
    }
}

/// What a name with full labels ends with behind one of its dots has full labels.
proof fn lemma_full_tail(name: Seq<char>, dot: int)
    requires
        has_full_labels(name),
        0 <= dot < name.len(),
        name[dot] == '.',
    ensures
        has_full_labels(name.skip(dot + 1)),
{
    let tail = name.skip(dot + 1);
    assert forall|i: int| 0 <= i < tail.len() && #[trigger] tail[i] == '.' implies 0 < i < tail.len()
        - 1 && tail[i + 1] != '.' by {
        assert(name[dot + 1 + i] == '.');
        assert(name[dot + 1] != '.');
        assert(name[dot + 1 + i + 1] != '.');
    }
}

/// The suffix suggested for a host name covers the host, and has full labels
/// itself.
pub proof fn law_suffix_hint_covers_host(host: Seq<char>)
    requires
        is_host_name(host),
    ensures
        host::covers(host::suffix_hint(host), text::lowercase(host)),
        has_full_labels(host::suffix_hint(host)),
        text::strip_start(host::suffix_hint(host), '.') == host::suffix_hint(host),
{
    let name = text::lowercase(host);
    text_laws::law_trimming_is_idempotent(host);
    assert(host::hint_name(host) == name);
    if !ip_literal::is_ip(name) {
        assert(text::strip_start(name, '[') == name);
        assert(text::strip_end(name, ']') == name);
        lemma_labels_of_full_name(name);
        let pieces = text::split_on(name, '.');
        text_laws::law_split_and_join(name, '.');
        if pieces.len() > 2 {
            text_laws::lemma_joined_first(pieces, '.');
            let dot = pieces[0].len() as int;
            let tail = text::joined(pieces.skip(1), '.');
            assert(name == pieces[0].push('.') + tail);
            assert(name[dot] == '.');
            assert(name.skip(dot + 1) =~= tail);
            lemma_full_tail(name, dot);
            assert(name.subrange(dot, name.len() as int) =~= seq!['.'] + tail);
        }
    }
    assert(host::suffix_hint(host)[0] != '.');
}

/// An ordinary host name is a host name. The suffix suggested for it is an
/// ordinary name too, and is stored as it stands.
pub proof fn law_plain_suffix_hint_is_normalized(host: Seq<char>)
    requires
        is_plain_host(host),
    ensures
        is_host_name(host),
        is_plain_host(host::suffix_hint(host)),
        text::normalized(host::suffix_hint(host)) == host::suffix_hint(host),
{
    let name = text::lowercase(host);
    assert(!text::white_space(host[0]));
    assert(!text::white_space(host[host.len() - 1]));
    assert(host[0] != '.');
    text_laws::law_trimming_is_idempotent(host);
    assert(host::hint_name(host) == name);
    lemma_plain_lowercase(host);
    assert(!text::white_space(name[0]));
    assert(!text::white_space(name[name.len() - 1]));
    lemma_plain_is_normalized(name);
    if !ip_literal::is_ip(name) {
        assert(text::strip_start(name, '[') == name);
        assert(text::strip_end(name, ']') == name);
        lemma_labels_of_full_name(name);
        let pieces = text::split_on(name, '.');
        text_laws::law_split_and_join(name, '.');
        if pieces.len() > 2 {
            text_laws::lemma_joined_first(pieces, '.');
            let dot = pieces[0].len() as int;
            let tail = text::joined(pieces.skip(1), '.');
            assert(name == pieces[0].push('.') + tail);
            assert(name[dot] == '.');
            assert(name.skip(dot + 1) =~= tail);
            lemma_plain_tail(name, dot);
            lemma_plain_is_normalized(tail);
        }
    }
}

// ---------------------------------------------------------------------------
// What is covered and what is suggested
// ---------------------------------------------------------------------------

/// A pattern covers itself and the names that end with it behind a dot, and
/// nothing else.
pub proof fn law_pattern_covers_behind_a_dot(pattern: Seq<char>, lower: Seq<char>)
    ensures
        host::covers(pattern, lower) <==> lower == pattern || {
            &&& lower.len() > pattern.len()
            &&& lower[lower.len() - pattern.len() - 1] == '.'
            &&& forall|i: int|
                0 <= i < pattern.len() ==> lower[lower.len() - pattern.len() + i]
                    == #[trigger] pattern[i]
        },
{
    let n = lower.len() - pattern.len();
    let dotted = seq!['.'] + pattern;
    if host::covers(pattern, lower) && lower != pattern {
        let tail = lower.subrange(lower.len() - dotted.len(), lower.len() as int);
        assert(tail == dotted);
        assert(tail[0] == dotted[0]);
        assert forall|i: int| 0 <= i < pattern.len() implies lower[n + i] == #[trigger] pattern[i] by {
            assert(tail[i + 1] == dotted[i + 1]);
        }
    }
    if lower.len() > pattern.len() && lower[n - 1] == '.' && (forall|i: int|
        0 <= i < pattern.len() ==> lower[n + i] == #[trigger] pattern[i]) {
        let tail = lower.subrange(lower.len() - dotted.len(), lower.len() as int);
        assert forall|i: int| 0 <= i < dotted.len() implies #[trigger] tail[i] == dotted[i] by {
            if i > 0 {
                assert(lower[n + (i - 1)] == pattern[i - 1]);
            }
        }
        assert(tail =~= dotted);
    }
}

/// Whether `i` is where the first dot of a name stands.
pub open spec fn is_first_dot(name: Seq<char>, i: int) -> bool {
    &&& 0 <= i < name.len()
    &&& name[i] == '.'
    &&& forall|j: int| 0 <= j < i ==> #[trigger] name[j] != '.'
}

/// The suffix suggested for a host name that is no IP literal and holds two dots
/// or more is the lowercased name behind its first dot; with fewer dots, and for
/// an IP literal, it is the lowercased name itself.
pub proof fn law_suffix_hint_drops_the_first_label(host: Seq<char>, dot: int)
    requires
        is_host_name(host),
    ensures
        ip_literal::is_ip(text::lowercase(host)) ==> host::suffix_hint(host) == text::lowercase(host),
        ({
            let name = text::lowercase(host);
            &&& !ip_literal::is_ip(name)
            &&& is_first_dot(name, dot)
            &&& name.skip(dot + 1).contains('.')
        }) ==> host::suffix_hint(host) == text::lowercase(host).skip(dot + 1),
        (!text::lowercase(host).contains('.') || (is_first_dot(text::lowercase(host), dot)
            && !text::lowercase(host).skip(dot + 1).contains('.'))) ==> host::suffix_hint(host)
            == text::lowercase(host),
{
    let name = text::lowercase(host);
    text_laws::law_trimming_is_idempotent(host);
    assert(host::hint_name(host) == name);
    if !ip_literal::is_ip(name) {
        assert(text::strip_start(name, '[') == name);
        assert(text::strip_end(name, ']') == name);
        lemma_labels_of_full_name(name);
        text_laws::law_split_and_join(name, '.');
        if !name.contains('.') {
            text_laws::law_unseparated_text_is_one_piece(name, '.');
        }
        if is_first_dot(name, dot) {
            let first = name.take(dot);
            let rest = name.skip(dot + 1);
            assert(name =~= first.push('.') + rest);
            assert(!first.contains('.')) by {
                if first.contains('.') {
                    let k = choose|k: int| 0 <= k < first.len() && first[k] == '.';
                    assert(name[k] == '.');
                }
            }
            text_laws::law_unseparated_text_is_one_piece(first, '.');
            text_laws::law_splitting_at_a_separator(first, rest, '.');
            text_laws::law_split_and_join(rest, '.');
            let pieces = seq![first] + text::split_on(rest, '.');
            assert(pieces.skip(1) =~= text::split_on(rest, '.'));
            if rest.contains('.') {
                lemma_dotted_has_pieces(rest);
            } else {
                text_laws::law_unseparated_text_is_one_piece(rest, '.');
            }
        }
    }
}

/// A text with a dot has two pieces or more.
proof fn lemma_dotted_has_pieces(s: Seq<char>)
    requires
        s.contains('.'),
    ensures
        text::split_on(s, '.').len() >= 2,
{
    let k = choose|k: int| 0 <= k < s.len() && s[k] == '.';
    let a = s.take(k);
    let b = s.skip(k + 1);
    assert(s =~= a.push('.') + b);
    text_laws::law_splitting_at_a_separator(a, b, '.');
    text::lemma_split_on_nonempty(a, '.');
    text::lemma_split_on_nonempty(b, '.');
}

/// White space around a host and dots before it do not change the suggestion.
pub proof fn law_suffix_hint_ignores_surroundings(
    before: Seq<char>,
    dots: Seq<char>,
    core: Seq<char>,
    after: Seq<char>,
)
    requires
        text_laws::is_blank(before),
        text_laws::is_blank(after),
        text_laws::is_run(dots, '.'),
        core.len() > 0,
        core[0] != '.',
        !text::white_space(core[0]),
        !text::white_space(core[core.len() - 1]),
    ensures
        host::suffix_hint(before + (dots + core) + after) == host::suffix_hint(core),
{
    let inner = dots + core;
    if dots.len() > 0 {
        assert(dots[0] == '.');
    }
    assert(inner[inner.len() - 1] == core[core.len() - 1]);
    assert(!text::white_space(inner[0]));
    text_laws::law_trimming_leaves_the_core(before, inner, after);
    text_laws::law_stripping_start_leaves_the_rest(dots, core, '.');
    let none = Seq::<char>::empty();
    assert(none + core + none =~= core);
    text_laws::law_trimming_leaves_the_core(none, core, none);
    assert(none + core =~= core);
    text_laws::law_stripping_start_leaves_the_rest(none, core, '.');
}

/// The suggestion for a name that is no IP literal keeps its labels but for the
/// first of three or more; empty labels do not count, nor do brackets around it.
pub proof fn law_suffix_hint_keeps_the_last_labels(
    host: Seq<char>,
    open: Seq<char>,
    bare: Seq<char>,
    close: Seq<char>,
)
    requires
        host.len() > 0,
        text_laws::is_trim(host),
        host[0] != '.',
        text::lowercase(host) == open + bare + close,
        text_laws::is_run(open, '['),
        text_laws::is_run(close, ']'),
        bare.len() > 0,
        bare[0] != '[',
        bare[bare.len() - 1] != ']',
        !ip_literal::is_ip(text::lowercase(host)),
    ensures
        text::labels(bare).len() > 2 ==> host::suffix_hint(host) == text::joined(
            text::labels(bare).skip(1),
            '.',
        ),
        text::labels(bare).len() <= 2 ==> host::suffix_hint(host) == text::joined(
            text::labels(bare),
            '.',
        ),
{
    let name = text::lowercase(host);
    text_laws::law_trimming_is_idempotent(host);
    assert(host::hint_name(host) == name);
    let rest = bare + close;
    assert(name =~= open + rest);
    assert(rest[0] == bare[0]);
    text_laws::law_stripping_start_leaves_the_rest(open, rest, '[');
    text_laws::law_stripping_end_leaves_the_rest(bare, close, ']');
}

// ---------------------------------------------------------------------------
// IP literals
// ---------------------------------------------------------------------------

/// Octets are the numbers up to 255 in decimal.
proof fn lemma_octet_of_number(n: nat)
    requires
        n <= 255,
    ensures
        ip_literal::is_octet(text::decimal(n)),
        !text::decimal(n).contains('.'),
        !text::decimal(n).contains(':'),
{
    text_laws::law_decimal_stands_for_number(n);
    reveal_with_fuel(text::decimal, 4);
    let d = text::decimal(n);
    lemma_same_number(d);
    assert forall|i: int| 0 <= i < d.len() implies ip_literal::is_decimal_digit(#[trigger] d[i]) by {
        assert(48 <= (d[i] as int) && (d[i] as int) <= 57);
    }
    if d.contains('.') {
        let k = choose|k: int| 0 <= k < d.len() && d[k] == '.';
        assert(48 <= (d[k] as int));
    }
    if d.contains(':') {
        let k = choose|k: int| 0 <= k < d.len() && d[k] == ':';
        assert((d[k] as int) <= 57);
    }
}

proof fn lemma_same_number(p: Seq<char>)
    ensures
        ip_literal::decimal_value(p) == text_laws::number(p),
    decreases p.len(),
{
    if p.len() > 0 {
        lemma_same_number(p.drop_last());
    }
}

/// The number of an octet, written in decimal, is the octet.
proof fn lemma_number_of_octet(p: Seq<char>) -> (n: nat)
    requires
        ip_literal::is_octet(p),
    ensures
        n <= 255,
        text::decimal(n) == p,
{
    reveal_with_fuel(text::decimal, 4);
    reveal_with_fuel(ip_literal::decimal_value, 4);
    assert(ip_literal::is_decimal_digit(p[0]));
    let a = p[0] as int - 48;
    if p.len() == 1 {
        assert(p.drop_last() =~= Seq::<char>::empty());
        let n = a as nat;
        assert(text::decimal(n) =~= p);
        n
    } else if p.len() == 2 {
        assert(ip_literal::is_decimal_digit(p[1]));
        let b = p[1] as int - 48;
        assert(p.drop_last().drop_last() =~= Seq::<char>::empty());
        assert(p.drop_last().last() == p[0]);
        let n = (a * 10 + b) as nat;
        assert(n / 10 == a && n % 10 == b);
        assert(text::decimal(n) =~= p);
        n
    } else {
        assert(ip_literal::is_decimal_digit(p[1]));
        assert(ip_literal::is_decimal_digit(p[2]));
        let b = p[1] as int - 48;
        let c = p[2] as int - 48;
        assert(p.drop_last().drop_last().drop_last() =~= Seq::<char>::empty());
        assert(p.drop_last().drop_last().last() == p[0]);
        assert(p.drop_last().last() == p[1]);
        let n = (a * 100 + b * 10 + c) as nat;
        assert(n / 10 == a * 10 + b && n % 10 == c);
        assert((a * 10 + b) / 10 == a && (a * 10 + b) % 10 == b);
        assert(text::decimal(n) =~= p);
        n
    }
}

/// Four numbers in decimal with dots between them.
pub open spec fn dotted(a: nat, b: nat, c: nat, d: nat) -> Seq<char> {
    text::decimal(a) + seq!['.'] + text::decimal(b) + seq!['.'] + text::decimal(c) + seq!['.']
        + text::decimal(d)
}

/// Four numbers up to 255 in decimal with dots between them are an IPv4 address.
pub proof fn law_dotted_numbers_are_ipv4(a: nat, b: nat, c: nat, d: nat)
    requires
        a <= 255,
        b <= 255,
        c <= 255,
        d <= 255,
    ensures
        ip_literal::is_ipv4(dotted(a, b, c, d)),
        ip_literal::is_ip(dotted(a, b, c, d)),
{
    lemma_octet_of_number(a);
    lemma_octet_of_number(b);
    lemma_octet_of_number(c);
    lemma_octet_of_number(d);
    let pieces = seq![text::decimal(a), text::decimal(b), text::decimal(c), text::decimal(d)];
    assert forall|i: int| 0 <= i < pieces.len() implies !(#[trigger] pieces[i]).contains('.') by {
    }
    text_laws::law_join_and_split(pieces, '.');
    reveal_with_fuel(text::joined, 5);
    assert(pieces.drop_last().drop_last().drop_last() =~= seq![text::decimal(a)]);
    assert(pieces.drop_last().drop_last().last() == text::decimal(b));
    assert(pieces.drop_last().last() == text::decimal(c));
    assert(text::joined(pieces, '.') =~= dotted(a, b, c, d));
}

/// An IPv4 address is four numbers up to 255 in decimal with dots between them.
pub proof fn law_ipv4_is_dotted_numbers(s: Seq<char>) -> (n: (nat, nat, nat, nat))
    requires
        ip_literal::is_ipv4(s),
    ensures
        n.0 <= 255,
        n.1 <= 255,
        n.2 <= 255,
        n.3 <= 255,
        s == dotted(n.0, n.1, n.2, n.3),
{
    let parts = text::split_on(s, '.');
    text_laws::law_split_and_join(s, '.');
    assert(ip_literal::is_octet(parts[0]));
    assert(ip_literal::is_octet(parts[1]));
    assert(ip_literal::is_octet(parts[2]));
    assert(ip_literal::is_octet(parts[3]));
    let a = lemma_number_of_octet(parts[0]);
    let b = lemma_number_of_octet(parts[1]);
    let c = lemma_number_of_octet(parts[2]);
    let d = lemma_number_of_octet(parts[3]);
    reveal_with_fuel(text::joined, 5);
    assert(parts.drop_last().drop_last().drop_last() =~= seq![parts[0]]);
    assert(parts.drop_last().drop_last().last() == parts[1]);
    assert(parts.drop_last().last() == parts[2]);
    assert(text::joined(parts, '.') =~= dotted(a, b, c, d));
    (a, b, c, d)
}

/// Whether a text is one to four hexadecimal digits.
pub open spec fn is_hex_word(p: Seq<char>) -> bool {
    &&& 1 <= p.len() <= 4
    &&& forall|i: int|
        0 <= i < p.len() ==> ('0' <= #[trigger] p[i] && p[i] <= '9') || ('a' <= p[i] && p[i] <= 'f')
            || ('A' <= p[i] && p[i] <= 'F')
}

/// Whether pieces are the groups of an IPv6 address, the last one an IPv4 address
/// where so said.
pub open spec fn are_words(pieces: Seq<Seq<char>>, dotted_tail: bool) -> bool {
    if dotted_tail {
        &&& pieces.len() > 0
        &&& forall|i: int| 0 <= i < pieces.len() - 1 ==> is_hex_word(#[trigger] pieces[i])
        &&& ip_literal::is_ipv4(pieces[pieces.len() - 1])
    } else {
        forall|i: int| 0 <= i < pieces.len() ==> is_hex_word(#[trigger] pieces[i])
    }
}

/// How many groups pieces stand for: an IPv4 address for two.
pub open spec fn word_count(pieces: Seq<Seq<char>>, dotted_tail: bool) -> int {
    if dotted_tail {
        pieces.len() as int + 1
    } else {
        pieces.len() as int
    }
}

proof fn lemma_word_has_no_mark(p: Seq<char>)
    requires
        is_hex_word(p),
    ensures
        !p.contains(':'),
        !p.contains('.'),
        ip_literal::is_group(p),
{
    assert forall|i: int| 0 <= i < p.len() implies ip_literal::is_hex_digit(#[trigger] p[i])
        && p[i] != ':' && p[i] != '.' by {
        assert(('0' <= p[i] && p[i] <= '9') || ('a' <= p[i] && p[i] <= 'f') || ('A' <= p[i] && p[i]
            <= 'F'));
    }
    if p.contains(':') {
        let k = choose|k: int| 0 <= k < p.len() && p[k] == ':';
        assert(ip_literal::is_hex_digit(p[k]));
    }
    if p.contains('.') {
        let k = choose|k: int| 0 <= k < p.len() && p[k] == '.';
        assert(ip_literal::is_hex_digit(p[k]));
    }
}

proof fn lemma_group_is_word(p: Seq<char>)
    requires
        ip_literal::is_group(p),
    ensures
        is_hex_word(p),
{
    assert forall|i: int| 0 <= i < p.len() implies ('0' <= #[trigger] p[i] && p[i] <= '9') || ('a'
        <= p[i] && p[i] <= 'f') || ('A' <= p[i] && p[i] <= 'F') by {
        assert(ip_literal::is_hex_digit(p[i]));
    }
}

proof fn lemma_ipv4_has_no_colon(s: Seq<char>)
    requires
        ip_literal::is_ipv4(s),
    ensures
        !s.contains(':'),
        !ip_literal::is_group(s),
        s.len() > 0,
{
    let (a, b, c, d) = law_ipv4_is_dotted_numbers(s);
    lemma_octet_of_number(a);
    lemma_octet_of_number(b);
    lemma_octet_of_number(c);
    lemma_octet_of_number(d);
    let da = text::decimal(a);
    let db = text::decimal(b);
    let dc = text::decimal(c);
    let dd = text::decimal(d);
    assert(s[da.len() as int] == '.');
    if ip_literal::is_group(s) {
        assert(ip_literal::is_hex_digit(s[da.len() as int]));
    }
    if s.contains(':') {
        let k = choose|k: int| 0 <= k < s.len() && s[k] == ':';
        let i1 = da.len() + 1;
        let i2 = i1 + db.len() + 1;
        let i3 = i2 + dc.len() + 1;
        if k < da.len() {
            assert(da[k] == ':');
        } else if i1 <= k < i1 + db.len() {
            assert(db[k - i1] == ':');
        } else if i2 <= k < i2 + dc.len() {
            assert(dc[k - i2] == ':');
        } else if k >= i3 {
            assert(dd[k - i3] == ':');
        }
    }
}

/// The width of joined groups is how many they stand for.
proof fn lemma_width_of_words(pieces: Seq<Seq<char>>, dotted_tail: bool, may_be_dotted: bool)
    requires
        are_words(pieces, dotted_tail),
        dotted_tail ==> may_be_dotted,
    ensures
        ip_literal::run_width(text::joined(pieces, ':'), may_be_dotted) == Some(
            word_count(pieces, dotted_tail),
        ),
{
    let s = text::joined(pieces, ':');
    if pieces.len() > 0 {
        let n = pieces.len() - 1;
        assert forall|i: int| 0 <= i < pieces.len() implies !(#[trigger] pieces[i]).contains(':')
            && pieces[i].len() > 0 by {
            if dotted_tail && i == n {
                lemma_ipv4_has_no_colon(pieces[i]);
            } else {
                lemma_word_has_no_mark(pieces[i]);
            }
        }
        text_laws::law_join_and_split(pieces, ':');
        assert(s.len() > 0) by {
            assert(pieces[n].len() > 0);
            if pieces.len() > 1 {
                assert(s == text::joined(pieces.drop_last(), ':').push(':') + pieces.last());
            }
        }
        assert forall|i: int| 0 <= i < pieces.len() && !(dotted_tail && i == n) implies ip_literal::is_group(
            #[trigger] pieces[i],
        ) by {
            lemma_word_has_no_mark(pieces[i]);
        }
        if dotted_tail {
            lemma_ipv4_has_no_colon(pieces[n]);
            assert(!ip_literal::is_group(pieces[n]));
            assert(!ip_literal::all_groups(pieces));
            assert(ip_literal::all_groups(pieces.drop_last())) by {
                assert forall|i: int| 0 <= i < n implies ip_literal::is_group(
                    #[trigger] pieces.drop_last()[i],
                ) by {
                    assert(pieces.drop_last()[i] == pieces[i]);
                }
            }
        } else {
            assert(ip_literal::all_groups(pieces));
        }
    }
}

/// A run with a width is made of groups.
proof fn lemma_words_of_width(s: Seq<char>, may_be_dotted: bool) -> (r: (Seq<Seq<char>>, bool))
    requires
        ip_literal::run_width(s, may_be_dotted) is Some,
    ensures
        are_words(r.0, r.1),
        r.1 ==> may_be_dotted,
        s == text::joined(r.0, ':'),
        ip_literal::run_width(s, may_be_dotted) == Some(word_count(r.0, r.1)),
{
    let parts = text::split_on(s, ':');
    text_laws::law_split_and_join(s, ':');
    text::lemma_split_on_nonempty(s, ':');
    if s.len() == 0 {
        assert(s =~= text::joined(Seq::<Seq<char>>::empty(), ':'));
        (Seq::empty(), false)
    } else if ip_literal::all_groups(parts) {
        assert forall|i: int| 0 <= i < parts.len() implies is_hex_word(#[trigger] parts[i]) by {
            lemma_group_is_word(parts[i]);
        }
        (parts, false)
    } else {
        assert forall|i: int| 0 <= i < parts.len() - 1 implies is_hex_word(#[trigger] parts[i]) by {
            assert(parts.drop_last()[i] == parts[i]);
            lemma_group_is_word(parts[i]);
        }
        (parts, true)
    }
}

/// Eight groups with colons between them are an IPv6 address, and so are fewer
/// with a double colon in the place of one or more.
pub proof fn law_words_are_ipv6(
    left: Seq<Seq<char>>,
    right: Seq<Seq<char>>,
    dotted_tail: bool,
)
    requires
        are_words(left, false),
        are_words(right, dotted_tail),
    ensures
        word_count(right, dotted_tail) == 8 ==> ip_literal::is_ip(text::joined(right, ':')),
        left.len() + word_count(right, dotted_tail) <= 7 ==> ip_literal::is_ip(
            text::joined(left, ':') + seq![':', ':'] + text::joined(right, ':'),
        ),
{
    lemma_width_of_words(left, false, false);
    lemma_width_of_words(right, dotted_tail, true);
    let l = text::joined(left, ':');
    let r = text::joined(right, ':');
    let s = l + seq![':', ':'] + r;
    let at = l.len() as int;
    assert(s.take(at) =~= l);
    assert(s.skip(at + 2) =~= r);
    if left.len() + word_count(right, dotted_tail) <= 7 {
        assert(ip_literal::compressed_at(s, at));
    }
}

/// An IP literal that is not four numbers with dots between them is eight groups
/// with colons between them, or fewer with one double colon in the place of one
/// or more.
pub proof fn law_ipv6_is_words(s: Seq<char>) -> (r: (
    bool,
    Seq<Seq<char>>,
    Seq<Seq<char>>,
    bool,
))
    requires
        ip_literal::is_ip(s),
        !ip_literal::is_ipv4(s),
    ensures
        are_words(r.1, false),
        are_words(r.2, r.3),
        r.0 ==> s == text::joined(r.1, ':') + seq![':', ':'] + text::joined(r.2, ':') && r.1.len()
            + word_count(r.2, r.3) <= 7,
        !r.0 ==> s == text::joined(r.2, ':') && word_count(r.2, r.3) == 8,
{
    if ip_literal::run_width(s, true) == Some(8int) {
        let (pieces, tail) = lemma_words_of_width(s, true);
        (false, Seq::empty(), pieces, tail)
    } else {
        let at = choose|at: int| ip_literal::compressed_at(s, at);
        assert(ip_literal::compressed_at(s, at));
        let (left, left_tail) = lemma_words_of_width(s.take(at), false);
        let (right, tail) = lemma_words_of_width(s.skip(at + 2), true);
        assert(s =~= s.take(at) + seq![':', ':'] + s.skip(at + 2));
        (true, left, right, tail)
    }
}

/// The name that a suggestion reads is the host without white space around it and
/// without the dots that begin it, lowercased.
pub proof fn law_hint_reads_the_bare_name(
    before: Seq<char>,
    dots: Seq<char>,
    core: Seq<char>,
    after: Seq<char>,
)
    requires
        text_laws::is_blank(before),
        text_laws::is_blank(after),
        text_laws::is_run(dots, '.'),
        core.len() > 0 ==> core[0] != '.' && !text::white_space(core[core.len() - 1]),
        core.len() > 0 && dots.len() == 0 ==> !text::white_space(core[0]),
    ensures
        host::hint_name(before + (dots + core) + after) == text::lowercase(core),
{
    let inner = dots + core;
    if dots.len() > 0 {
        assert(dots[0] == '.');
        assert(dots[dots.len() - 1] == '.');
    }
    if core.len() > 0 {
        assert(inner[inner.len() - 1] == core[core.len() - 1]);
    }
    text_laws::law_trimming_leaves_the_core(before, inner, after);
    text_laws::law_stripping_start_leaves_the_rest(dots, core, '.');
}

/// The suggestion for a name: an IP literal is its own; of any other, the
/// brackets around it are dropped, and so is the first of more than two labels.
pub proof fn law_suffix_hint_of_a_name(
    host: Seq<char>,
    open: Seq<char>,
    bare: Seq<char>,
    close: Seq<char>,
)
    requires
        host::hint_name(host) == open + bare + close,
        text_laws::is_run(open, '['),
        text_laws::is_run(close, ']'),
        bare.len() > 0 ==> bare[0] != '[' && bare[bare.len() - 1] != ']',
    ensures
        ip_literal::is_ip(open + bare + close) ==> host::suffix_hint(host) == open + bare + close,
        !ip_literal::is_ip(open + bare + close) && text::labels(bare).len() > 2 ==> host::suffix_hint(
            host,
        ) == text::joined(text::labels(bare).skip(1), '.'),
        !ip_literal::is_ip(open + bare + close) && text::labels(bare).len() <= 2 ==> host::suffix_hint(
            host,
        ) == text::joined(text::labels(bare), '.'),
{
    let name = host::hint_name(host);
    let rest = bare + close;
    assert(name =~= open + rest);
    if rest.len() > 0 {
        if bare.len() > 0 {
            assert(rest[0] == bare[0]);
        } else {
            assert(rest[0] == close[0]);
        }
    }
    text_laws::law_stripping_start_leaves_the_rest(open, rest, '[');
    text_laws::law_stripping_end_leaves_the_rest(bare, close, ']');
}

} // verus!
