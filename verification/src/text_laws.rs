//! Facts about trimming, case and splitting.

use crate::text;
use vstd::prelude::*;

verus! {

/// Whether a text holds ASCII characters only.
pub open spec fn is_ascii(s: Seq<char>) -> bool {
    vstd::utf8::is_ascii_chars(s)
}

/// Lowercasing ASCII text keeps its length and leaves it ASCII.
pub proof fn lemma_lowercase_ascii(s: Seq<char>)
    requires
        is_ascii(s),
    ensures
        text::lowercase(s).len() == s.len(),
        is_ascii(text::lowercase(s)),
        forall|i: int| 0 <= i < s.len() ==> #[trigger] text::lowercase(s)[i] == text::ascii_lower_char(s[i]),
{
    assert forall|i: int| 0 <= i < s.len() implies '\0' <= #[trigger] text::lowercase(s)[i]
        && text::lowercase(s)[i] <= '\u{7f}' by {
        assert('\0' <= s[i] && s[i] <= '\u{7f}');
    }
}

/// Lowercasing ASCII text twice is lowercasing it once.
pub proof fn law_lowercase_is_idempotent(s: Seq<char>)
    requires
        is_ascii(s),
    ensures
        text::lowercase(text::lowercase(s)) == text::lowercase(s),
{
    lemma_lowercase_ascii(s);
    lemma_lowercase_ascii(text::lowercase(s));
    assert(text::lowercase(text::lowercase(s)) =~= text::lowercase(s));
}

/// A part of ASCII text is ASCII.
pub proof fn lemma_ascii_part(s: Seq<char>, from: int, to: int)
    requires
        is_ascii(s),
        0 <= from <= to <= s.len(),
    ensures
        is_ascii(s.subrange(from, to)),
{
    assert forall|i: int| 0 <= i < s.subrange(from, to).len() implies '\0' <= #[trigger] s.subrange(
        from,
        to,
    )[i] && s.subrange(from, to)[i] <= '\u{7f}' by {
        assert('\0' <= s[from + i] && s[from + i] <= '\u{7f}');
    }
}

/// Whether white space neither begins nor ends a text.
pub open spec fn is_trim(s: Seq<char>) -> bool {
    s.len() > 0 ==> !text::white_space(s.first()) && !text::white_space(s.last())
}

/// What trimming leaves is a part of the text that no white space surrounds.
pub proof fn lemma_trim_start_part(s: Seq<char>)
    ensures
        exists|k: int| 0 <= k <= s.len() && text::trim_start(s) == #[trigger] s.skip(k),
        text::trim_start(s).len() > 0 ==> !text::white_space(text::trim_start(s).first()),
        text::trim_start(s).len() > 0 ==> text::trim_start(s).last() == s.last(),
    decreases s.len(),
{
    if s.len() > 0 && text::white_space(s.first()) {
        let rest = s.drop_first();
        lemma_trim_start_part(rest);
        let k = choose|k: int| 0 <= k <= rest.len() && text::trim_start(rest) == #[trigger] rest.skip(k);
        assert(rest.skip(k) =~= s.skip(k + 1));
    } else {
        assert(s.skip(0) =~= s);
    }
}

/// What trimming at the end leaves begins the text and does not end in white
/// space.
pub proof fn lemma_trim_end_part(s: Seq<char>)
    ensures
        exists|k: int| 0 <= k <= s.len() && text::trim_end(s) == #[trigger] s.take(k),
        text::trim_end(s).len() > 0 ==> !text::white_space(text::trim_end(s).last()),
        text::trim_end(s).len() > 0 ==> text::trim_end(s).first() == s.first(),
    decreases s.len(),
{
    if s.len() > 0 && text::white_space(s.last()) {
        let rest = s.drop_last();
        lemma_trim_end_part(rest);
        let k = choose|k: int| 0 <= k <= rest.len() && text::trim_end(rest) == #[trigger] rest.take(k);
        assert(rest.take(k) =~= s.take(k));
    } else {
        assert(s.take(s.len() as int) =~= s);
    }
}

/// Trimming leaves a part of the text that no white space surrounds.
pub proof fn lemma_trimmed_part(s: Seq<char>)
    ensures
        is_trim(text::trimmed(s)),
        exists|from: int, to: int|
            0 <= from <= to <= s.len() && text::trimmed(s) == #[trigger] s.subrange(from, to),
{
    let t = text::trim_start(s);
    lemma_trim_start_part(s);
    lemma_trim_end_part(t);
    let i = choose|k: int| 0 <= k <= s.len() && t == #[trigger] s.skip(k);
    let j = choose|k: int| 0 <= k <= t.len() && text::trim_end(t) == #[trigger] t.take(k);
    assert(s.skip(i).take(j) =~= s.subrange(i, i + j));
}

/// Trimming leaves alone what no white space surrounds, and so trimming twice
/// is trimming once.
pub proof fn law_trimming_is_idempotent(s: Seq<char>)
    ensures
        is_trim(s) <==> text::trimmed(s) == s,
        text::trimmed(text::trimmed(s)) == text::trimmed(s),
{
    lemma_trimmed_part(s);
    let t = text::trimmed(s);
    if is_trim(t) {
        assert(text::trim_start(t) == t);
        assert(text::trim_end(t) == t);
    }
    if is_trim(s) {
        assert(text::trim_start(s) == s);
        assert(text::trim_end(s) == s);
    }
}

/// What is left without a leading run of a character is how the text ends, and
/// does not begin with it.
pub proof fn lemma_strip_start_part(s: Seq<char>, c: char)
    ensures
        exists|k: int| 0 <= k <= s.len() && text::strip_start(s, c) == #[trigger] s.skip(k),
        text::strip_start(s, c).len() > 0 ==> text::strip_start(s, c).first() != c,
        text::strip_start(s, c).len() > 0 ==> text::strip_start(s, c).last() == s.last(),
    decreases s.len(),
{
    if s.len() > 0 && s.first() == c {
        let rest = s.drop_first();
        lemma_strip_start_part(rest, c);
        let k = choose|k: int| 0 <= k <= rest.len() && text::strip_start(rest, c) == #[trigger] rest.skip(k);
        assert(rest.skip(k) =~= s.skip(k + 1));
    } else {
        assert(s.skip(0) =~= s);
    }
}

/// Stripping a leading run again changes nothing.
pub proof fn lemma_strip_start_again(s: Seq<char>, c: char)
    ensures
        text::strip_start(text::strip_start(s, c), c) == text::strip_start(s, c),
{
    lemma_strip_start_part(s, c);
}

/// Lowercasing ASCII text keeps white space where it is, and nothing else
/// becomes white space.
pub proof fn lemma_lowercase_keeps_trim(s: Seq<char>)
    requires
        is_ascii(s),
    ensures
        is_trim(text::lowercase(s)) == is_trim(s),
{
    lemma_lowercase_ascii(s);
    if s.len() > 0 {
        assert('\0' <= s[0] && s[0] <= '\u{7f}');
        assert('\0' <= s[s.len() - 1] && s[s.len() - 1] <= '\u{7f}');
        assert(text::lowercase(s)[0] == text::ascii_lower_char(s[0]));
        assert(text::lowercase(s)[s.len() - 1] == text::ascii_lower_char(s[s.len() - 1]));
    }
}

/// Normalizing an ASCII host twice is normalizing it once.
pub proof fn law_normalizing_is_idempotent(host: Seq<char>)
    requires
        is_ascii(host),
    ensures
        is_ascii(text::normalized(host)),
        is_trim(text::normalized(host)),
        text::normalized(text::normalized(host)) == text::normalized(host),
{
    let t = text::trimmed(host);
    lemma_trimmed_part(host);
    let (from, to) = choose|from: int, to: int|
        0 <= from <= to <= host.len() && t == #[trigger] host.subrange(from, to);
    lemma_ascii_part(host, from, to);
    lemma_lowercase_ascii(t);
    lemma_lowercase_keeps_trim(t);
    law_trimming_is_idempotent(text::lowercase(t));
    law_lowercase_is_idempotent(t);
}

/// Lowercasing leaves a normalized ASCII host as it is.
pub proof fn lemma_normalized_ascii(host: Seq<char>)
    requires
        is_ascii(host),
    ensures
        text::lowercase(text::normalized(host)) == text::normalized(host),
{
    let t = text::trimmed(host);
    lemma_trimmed_part(host);
    let (from, to) = choose|from: int, to: int|
        0 <= from <= to <= host.len() && t == #[trigger] host.subrange(from, to);
    lemma_ascii_part(host, from, to);
    law_lowercase_is_idempotent(t);
}

// ---------------------------------------------------------------------------
// Splitting
// ---------------------------------------------------------------------------

/// Joining the pieces of a text gives the text back.
pub proof fn law_split_and_join(s: Seq<char>, sep: char)
    ensures
        text::joined(text::split_on(s, sep), sep) == s,
    decreases s.len(),
{
    let pieces = text::split_on(s, sep);
    if s.len() == 0 {
        assert(text::joined(pieces, sep) =~= s);
    } else {
        let front = s.drop_last();
        let before = text::split_on(front, sep);
        law_split_and_join(front, sep);
        text::lemma_split_on_nonempty(front, sep);
        if s.last() == sep {
            assert(pieces.drop_last() =~= before);
            assert(text::joined(pieces, sep) =~= front.push(sep) + Seq::<char>::empty());
            assert(s =~= front.push(sep));
        } else {
            let n = before.len() - 1;
            assert(pieces.drop_last() =~= before.drop_last());
            assert(pieces.last() == before.last().push(s.last()));
            if n == 0 {
                assert(pieces[0] == before[0].push(s.last()));
                assert(text::joined(before, sep) == before[0]);
                assert(s =~= front.push(s.last()));
            } else {
                assert(text::joined(before, sep) == text::joined(before.drop_last(), sep).push(sep)
                    + before.last());
                assert(text::joined(pieces, sep) == text::joined(before.drop_last(), sep).push(sep)
                    + before.last().push(s.last()));
                assert(s =~= front.push(s.last()));
                assert(text::joined(pieces, sep) =~= s);
            }
        }
    }
}

/// The first piece, the separator, and the rest make up what is joined.
pub proof fn lemma_joined_first(pieces: Seq<Seq<char>>, sep: char)
    requires
        pieces.len() >= 2,
    ensures
        text::joined(pieces, sep) == pieces[0].push(sep) + text::joined(pieces.skip(1), sep),
    decreases pieces.len(),
{
    let front = pieces.drop_last();
    let rest = pieces.skip(1);
    assert(rest.drop_last() =~= front.skip(1));
    assert(rest.last() == pieces.last());
    if pieces.len() == 2 {
        assert(front.len() == 1);
        assert(text::joined(front, sep) == pieces[0]);
        assert(text::joined(rest, sep) == pieces[1]);
    } else {
        lemma_joined_first(front, sep);
        assert(front[0] == pieces[0]);
        assert(text::joined(pieces, sep) =~= pieces[0].push(sep) + (text::joined(
            front.skip(1),
            sep,
        ).push(sep) + pieces.last()));
    }
}

// ---------------------------------------------------------------------------
// What the operations leave
// ---------------------------------------------------------------------------

/// Whether a text is white space throughout.
pub open spec fn is_blank(s: Seq<char>) -> bool {
    forall|i: int| 0 <= i < s.len() ==> text::white_space(#[trigger] s[i])
}

/// Whether a text is a run of one character.
pub open spec fn is_run(s: Seq<char>, c: char) -> bool {
    forall|i: int| 0 <= i < s.len() ==> #[trigger] s[i] == c
}

proof fn lemma_trim_start_of(before: Seq<char>, rest: Seq<char>)
    requires
        is_blank(before),
        rest.len() > 0 ==> !text::white_space(rest[0]),
    ensures
        text::trim_start(before + rest) == rest,
    decreases before.len(),
{
    let s = before + rest;
    if before.len() == 0 {
        assert(s =~= rest);
    } else {
        assert(text::white_space(before[0]));
        assert(s.drop_first() =~= before.drop_first() + rest);
        lemma_trim_start_of(before.drop_first(), rest);
    }
}

proof fn lemma_trim_end_of(rest: Seq<char>, after: Seq<char>)
    requires
        is_blank(after),
        rest.len() > 0 ==> !text::white_space(rest[rest.len() - 1]),
    ensures
        text::trim_end(rest + after) == rest,
    decreases after.len(),
{
    let s = rest + after;
    if after.len() == 0 {
        assert(s =~= rest);
    } else {
        assert(text::white_space(after[after.len() - 1]));
        assert(s.drop_last() =~= rest + after.drop_last());
        lemma_trim_end_of(rest, after.drop_last());
    }
}

/// Trimming takes the white space off both ends and nothing else: of white
/// space, a text that it does not surround, and white space, the text is left.
pub proof fn law_trimming_leaves_the_core(before: Seq<char>, core: Seq<char>, after: Seq<char>)
    requires
        is_blank(before),
        is_blank(after),
        core.len() > 0 ==> !text::white_space(core[0]) && !text::white_space(core[core.len() - 1]),
    ensures
        text::trimmed(before + core + after) == core,
{
    if core.len() == 0 {
        let s = before + core + after;
        assert forall|i: int| 0 <= i < s.len() implies text::white_space(#[trigger] s[i]) by {
            if i >= before.len() {
                assert(s[i] == after[i - before.len()]);
            } else {
                assert(s[i] == before[i]);
            }
        }
        assert(s =~= s + Seq::<char>::empty());
        lemma_trim_start_of(s, Seq::empty());
        assert(text::trimmed(s) =~= core);
    } else {
        let rest = core + after;
        assert(before + core + after =~= before + rest);
        assert(rest[0] == core[0]);
        lemma_trim_start_of(before, rest);
        lemma_trim_end_of(core, after);
    }
}

/// A run of a character at the beginning goes, and nothing else.
pub proof fn law_stripping_start_leaves_the_rest(run: Seq<char>, rest: Seq<char>, c: char)
    requires
        is_run(run, c),
        rest.len() > 0 ==> rest[0] != c,
    ensures
        text::strip_start(run + rest, c) == rest,
    decreases run.len(),
{
    let s = run + rest;
    if run.len() == 0 {
        assert(s =~= rest);
    } else {
        assert(run[0] == c);
        assert(s.drop_first() =~= run.drop_first() + rest);
        law_stripping_start_leaves_the_rest(run.drop_first(), rest, c);
    }
}

/// A run of a character at the end goes, and nothing else.
pub proof fn law_stripping_end_leaves_the_rest(rest: Seq<char>, run: Seq<char>, c: char)
    requires
        is_run(run, c),
        rest.len() > 0 ==> rest[rest.len() - 1] != c,
    ensures
        text::strip_end(rest + run, c) == rest,
    decreases run.len(),
{
    let s = rest + run;
    if run.len() == 0 {
        assert(s =~= rest);
    } else {
        assert(run[run.len() - 1] == c);
        assert(s.drop_last() =~= rest + run.drop_last());
        law_stripping_end_leaves_the_rest(rest, run.drop_last(), c);
    }
}

/// ASCII lowercase moves the letters `A` to `Z` up by 32 and leaves every other
/// character where it is.
pub proof fn law_ascii_lowercase_moves_letters(s: Seq<char>, i: int)
    requires
        0 <= i < s.len(),
    ensures
        text::ascii_lowercase(s).len() == s.len(),
        65 <= (s[i] as int) && (s[i] as int) <= 90 ==> text::ascii_lowercase(s)[i] as int == s[i] as int
            + 32,
        (s[i] as int) < 65 || (s[i] as int) > 90 ==> text::ascii_lowercase(s)[i] == s[i],
        vstd::utf8::is_ascii_chars(s) ==> text::lowercase(s) == text::ascii_lowercase(s),
        !vstd::utf8::is_ascii_chars(s) ==> text::lowercase(s) == text::unicode_lowercase(s),
{
}

/// Normalizing takes white space off both ends and lowercases what is left.
pub proof fn law_normalizing_lowercases_the_core(
    before: Seq<char>,
    core: Seq<char>,
    after: Seq<char>,
)
    requires
        is_blank(before),
        is_blank(after),
        core.len() > 0 ==> !text::white_space(core[0]) && !text::white_space(core[core.len() - 1]),
    ensures
        text::normalized(before + core + after) == text::lowercase(core),
{
    law_trimming_leaves_the_core(before, core, after);
}

/// A text without the separator is one piece.
pub proof fn law_unseparated_text_is_one_piece(s: Seq<char>, sep: char)
    requires
        !s.contains(sep),
    ensures
        text::split_on(s, sep) == seq![s],
    decreases s.len(),
{
    if s.len() == 0 {
        assert(s =~= Seq::<char>::empty());
    } else {
        let front = s.drop_last();
        assert(!front.contains(sep)) by {
            if front.contains(sep) {
                let k = choose|k: int| 0 <= k < front.len() && front[k] == sep;
                assert(s[k] == sep);
            }
        }
        law_unseparated_text_is_one_piece(front, sep);
        assert(s[s.len() - 1] != sep);
        assert(front.push(s.last()) =~= s);
        assert(text::split_on(s, sep) =~= seq![s]);
    }
}

/// The pieces of two texts with the separator between them are those of the one
/// and then those of the other.
pub proof fn law_splitting_at_a_separator(a: Seq<char>, b: Seq<char>, sep: char)
    ensures
        text::split_on(a.push(sep) + b, sep) == text::split_on(a, sep) + text::split_on(b, sep),
    decreases b.len(),
{
    let s = a.push(sep) + b;
    let left = text::split_on(a, sep);
    let right = text::split_on(b, sep);
    if b.len() == 0 {
        assert(s =~= a.push(sep));
        assert(s.drop_last() =~= a);
        assert(text::split_on(s, sep) =~= left + right);
    } else {
        let front = b.drop_last();
        law_splitting_at_a_separator(a, front, sep);
        text::lemma_split_on_nonempty(front, sep);
        assert(s.drop_last() =~= a.push(sep) + front);
        assert(s.last() == b.last());
        let before = text::split_on(front, sep);
        assert((left + before).last() == before.last());
        assert((left + before).drop_last() =~= left + before.drop_last());
        assert(text::split_on(s, sep) =~= left + right);
    }
}

/// The labels of a name without dots are the name, or none where it is empty.
pub proof fn law_labels_of_undotted_name(s: Seq<char>)
    requires
        !s.contains('.'),
    ensures
        text::labels(s) == if s.len() == 0 {
            Seq::<Seq<char>>::empty()
        } else {
            seq![s]
        },
{
    reveal(Seq::filter);
    law_unseparated_text_is_one_piece(s, '.');
    let one = seq![s];
    assert(one.drop_last() =~= Seq::<Seq<char>>::empty());
    assert(one.drop_last().filter(text::is_label()) =~= Seq::<Seq<char>>::empty());
    assert(text::labels(s) =~= if s.len() == 0 {
        Seq::<Seq<char>>::empty()
    } else {
        one
    });
}

/// The labels of two names with a dot between them are those of the one and
/// then those of the other.
pub proof fn law_labels_at_a_dot(a: Seq<char>, b: Seq<char>)
    ensures
        text::labels(a.push('.') + b) == text::labels(a) + text::labels(b),
{
    law_splitting_at_a_separator(a, b, '.');
    Seq::filter_distributes_over_add(
        text::split_on(a, '.'),
        text::split_on(b, '.'),
        text::is_label(),
    );
}

/// One piece joins to itself, and two lists of pieces to what they join to with
/// the separator between.
pub proof fn law_joining(a: Seq<Seq<char>>, b: Seq<Seq<char>>, piece: Seq<char>, sep: char)
    requires
        a.len() > 0,
        b.len() > 0,
    ensures
        text::joined(seq![piece], sep) == piece,
        text::joined(a + b, sep) == text::joined(a, sep).push(sep) + text::joined(b, sep),
    decreases b.len(),
{
    let all = a + b;
    if b.len() == 1 {
        assert(all.drop_last() =~= a);
        assert(all.last() == b[0]);
        assert(text::joined(b, sep) == b[0]);
    } else {
        law_joining(a, b.drop_last(), piece, sep);
        assert(all.drop_last() =~= a + b.drop_last());
        assert(all.last() == b.last());
        assert(text::joined(all, sep) =~= text::joined(a, sep).push(sep) + text::joined(b, sep));
    }
}

/// Pieces without the separator are what their join splits into.
pub proof fn law_join_and_split(pieces: Seq<Seq<char>>, sep: char)
    requires
        pieces.len() > 0,
        forall|i: int| 0 <= i < pieces.len() ==> !(#[trigger] pieces[i]).contains(sep),
    ensures
        text::split_on(text::joined(pieces, sep), sep) == pieces,
    decreases pieces.len(),
{
    if pieces.len() == 1 {
        law_unseparated_text_is_one_piece(pieces[0], sep);
        assert(pieces =~= seq![pieces[0]]);
    } else {
        let front = pieces.drop_last();
        assert forall|i: int| 0 <= i < front.len() implies !(#[trigger] front[i]).contains(sep) by {
            assert(front[i] == pieces[i]);
        }
        law_join_and_split(front, sep);
        let last = pieces[pieces.len() - 1];
        law_unseparated_text_is_one_piece(last, sep);
        law_splitting_at_a_separator(text::joined(front, sep), last, sep);
        assert(pieces =~= front + seq![last]);
    }
}

/// What stands between two texts is found in the three together.
pub proof fn law_substring_is_found(before: Seq<char>, part: Seq<char>, after: Seq<char>)
    ensures
        text::has_substring(before + part + after, part),
{
    let s = before + part + after;
    let at = before.len() as int;
    assert(s.subrange(at, at + part.len()) =~= part);
    assert(text::occurs_at(s, part, at));
}

/// Where a text is found in another, that one is made of what stands before it,
/// the text, and what stands after it.
pub proof fn law_found_substring_is_there(s: Seq<char>, part: Seq<char>) -> (around: (
    Seq<char>,
    Seq<char>,
))
    requires
        text::has_substring(s, part),
    ensures
        s == around.0 + part + around.1,
{
    let at = choose|at: int| text::occurs_at(s, part, at);
    assert(text::occurs_at(s, part, at));
    let before = s.take(at);
    let after = s.skip(at + part.len());
    assert(s =~= before + s.subrange(at, at + part.len()) + after);
    (before, after)
}

/// Texts are ordered by the first character in which they differ, and one that
/// begins another comes before it.
pub proof fn law_order_is_lexicographic(
    common: Seq<char>,
    a: Seq<char>,
    b: Seq<char>,
)
    requires
        a.len() > 0 && b.len() > 0 ==> a[0] != b[0],
    ensures
        text::text_le(common + a, common + b) <==> a.len() == 0 || (b.len() > 0 && a[0] < b[0]),
    decreases common.len(),
{
    let x = common + a;
    let y = common + b;
    if common.len() == 0 {
        assert(x =~= a);
        assert(y =~= b);
    } else {
        assert(x.drop_first() =~= common.drop_first() + a);
        assert(y.drop_first() =~= common.drop_first() + b);
        law_order_is_lexicographic(common.drop_first(), a, b);
    }
}

/// The number that decimal digits stand for.
pub open spec fn number(digits: Seq<char>) -> int
    decreases digits.len(),
{
    if digits.len() == 0 {
        0
    } else {
        number(digits.drop_last()) * 10 + (digits.last() as int - 48)
    }
}

/// A number in decimal is made of digits, stands for the number, and begins with
/// no zero but where it is zero.
pub proof fn law_decimal_stands_for_number(n: nat)
    ensures
        text::decimal(n).len() > 0,
        forall|i: int|
            0 <= i < text::decimal(n).len() ==> 48 <= (#[trigger] text::decimal(n)[i]) as int
                && text::decimal(n)[i] as int <= 57,
        number(text::decimal(n)) == n,
        n > 0 ==> text::decimal(n)[0] as int != 48,
    decreases n,
{
    let d = text::decimal(n);
    reveal_with_fuel(number, 2);
    if n < 10 {
        assert(d.drop_last() =~= Seq::<char>::empty());
    } else {
        law_decimal_stands_for_number(n / 10);
        let front = text::decimal(n / 10);
        assert(d.drop_last() =~= front);
        assert forall|i: int| 0 <= i < d.len() implies 48 <= (#[trigger] d[i]) as int && d[i] as int
            <= 57 by {
            if i < front.len() {
                assert(d[i] == front[i]);
            }
        }
        assert(d[0] == front[0]);
    }
}

/// The last line is what follows the last line break; one more at the very end
/// changes nothing.
pub proof fn law_last_line_follows_the_break(before: Seq<char>, line: Seq<char>)
    requires
        !line.contains('\n'),
    ensures
        text::last_line(line) == line,
        text::last_line(line.push('\n')) == line,
        line.len() > 0 ==> text::last_line(before.push('\n') + line) == line,
        text::last_line((before.push('\n') + line).push('\n')) == line,
{
    law_unseparated_text_is_one_piece(line, '\n');
    law_splitting_at_a_separator(before, line, '\n');
    let s = before.push('\n') + line;
    assert(line.push('\n').drop_last() =~= line);
    assert(s.push('\n').drop_last() =~= s);
    let pieces = text::split_on(before, '\n') + seq![line];
    assert(pieces.last() == line);
    if line.len() > 0 {
        assert(line[line.len() - 1] != '\n');
        assert(s.last() == line[line.len() - 1]);
    }
}

/// The texts of a list stand in its order.
pub proof fn law_texts_keep_their_order(list: Seq<String>, pieces: Seq<Vec<char>>, i: int)
    ensures
        text::texts(list).len() == list.len(),
        0 <= i < list.len() ==> text::texts(list)[i] == list[i]@,
        text::pieces_view(pieces).len() == pieces.len(),
        0 <= i < pieces.len() ==> text::pieces_view(pieces)[i] == pieces[i]@,
{
}

} // verus!
