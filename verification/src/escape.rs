//! Escaping of text inside the string literals of dialog scripts.

use crate::text;
use vstd::prelude::*;

verus! {

/// How one character stands in an AppleScript string: a backslash before a
/// backslash or a quote, a space in the place of a line break.
pub open spec fn applescript_char(c: char) -> Seq<char> {
    if c == '\\' || c == '"' {
        seq!['\\', c]
    } else if c == '\n' {
        seq![' ']
    } else {
        seq![c]
    }
}

/// How one character stands in a double-quoted PowerShell string: a backtick
/// before a backtick, a quote or a dollar sign, a space in the place of a line
/// break.
pub open spec fn powershell_char(c: char) -> Seq<char> {
    if c == '`' || c == '"' || c == '$' {
        seq!['`', c]
    } else if c == '\n' {
        seq![' ']
    } else {
        seq![c]
    }
}

/// How a text stands in an AppleScript string.
pub open spec fn applescript_escaped(s: Seq<char>) -> Seq<char>
    decreases s.len(),
{
    if s.len() == 0 {
        Seq::empty()
    } else {
        applescript_escaped(s.drop_last()) + applescript_char(s.last())
    }
}

/// How a text stands in a double-quoted PowerShell string.
pub open spec fn powershell_escaped(s: Seq<char>) -> Seq<char>
    decreases s.len(),
{
    if s.len() == 0 {
        Seq::empty()
    } else {
        powershell_escaped(s.drop_last()) + powershell_char(s.last())
    }
}

/// Escapes text for an AppleScript string.
pub fn escape_applescript(s: &str) -> (r: String)
    ensures
        r@ == applescript_escaped(s@),
{
    let chars = text::to_chars(s);
    let mut out = String::new();
    let mut i: usize = 0;
    while i < chars.len()
        invariant
            chars@ == s@,
            i <= chars@.len(),
            out@ == applescript_escaped(s@.take(i as int)),
        decreases chars@.len() - i,
    {
        let c = chars[i];
        let ghost before = out@;
        if c == '\n' {
            out.push(' ');
        } else {
            if c == '\\' || c == '"' {
                out.push('\\');
            }
            out.push(c);
        }
        assert(out@ =~= before + applescript_char(c));
        assert(s@.take(i + 1).drop_last() =~= s@.take(i as int));
        assert(s@.take(i + 1).last() == c);
        i += 1;
    }
    assert(s@.take(s@.len() as int) =~= s@);
    out
}

/// Escapes text for a double-quoted PowerShell string.
pub fn powershell_escape(s: &str) -> (r: String)
    ensures
        r@ == powershell_escaped(s@),
{
    let chars = text::to_chars(s);
    let mut out = String::new();
    let mut i: usize = 0;
    while i < chars.len()
        invariant
            chars@ == s@,
            i <= chars@.len(),
            out@ == powershell_escaped(s@.take(i as int)),
        decreases chars@.len() - i,
    {
        let c = chars[i];
        let ghost before = out@;
        if c == '\n' {
            out.push(' ');
        } else {
            if c == '`' || c == '"' || c == '$' {
                out.push('`');
            }
            out.push(c);
        }
        assert(out@ =~= before + powershell_char(c));
        assert(s@.take(i + 1).drop_last() =~= s@.take(i as int));
        assert(s@.take(i + 1).last() == c);
        i += 1;
    }
    assert(s@.take(s@.len() as int) =~= s@);
    out
}

// ---------------------------------------------------------------------------
// Laws
// ---------------------------------------------------------------------------

/// What a string literal says in which `mark` makes the next character stand for
/// itself.
pub open spec fn unescaped(s: Seq<char>, mark: char) -> Seq<char>
    decreases s.len(),
{
    if s.len() == 0 {
        Seq::empty()
    } else if s.len() >= 2 && s[0] == mark {
        seq![s[1]] + unescaped(s.skip(2), mark)
    } else {
        seq![s[0]] + unescaped(s.skip(1), mark)
    }
}

/// A text with its line breaks turned into spaces.
pub open spec fn without_breaks(s: Seq<char>) -> Seq<char> {
    s.map_values(|c: char| if c == '\n' { ' ' } else { c })
}

/// Whether nothing in a string literal means anything but itself: every special
/// character stands behind a mark, and so does every mark that is meant.
pub open spec fn is_inert(s: Seq<char>, mark: char, special: spec_fn(char) -> bool) -> bool
    decreases s.len(),
{
    if s.len() == 0 {
        true
    } else if s[0] == mark {
        s.len() >= 2 && is_inert(s.skip(2), mark, special)
    } else {
        !special(s[0]) && is_inert(s.skip(1), mark, special)
    }
}

/// What ends an AppleScript string.
pub open spec fn applescript_special() -> spec_fn(char) -> bool {
    |c: char| c == '"'
}

/// What ends a double-quoted PowerShell string, or begins a variable in it.
pub open spec fn powershell_special() -> spec_fn(char) -> bool {
    |c: char| c == '"' || c == '$'
}

proof fn lemma_applescript_first(s: Seq<char>)
    requires
        s.len() > 0,
    ensures
        applescript_escaped(s) == applescript_char(s.first()) + applescript_escaped(s.drop_first()),
    decreases s.len(),
{
    if s.len() == 1 {
        assert(s.drop_last() =~= Seq::<char>::empty());
        assert(s.drop_first() =~= Seq::<char>::empty());
        assert(applescript_escaped(s) =~= applescript_char(s.first()) + applescript_escaped(
            s.drop_first(),
        ));
    } else {
        lemma_applescript_first(s.drop_last());
        assert(s.drop_last().drop_first() =~= s.drop_first().drop_last());
        assert(applescript_escaped(s) =~= applescript_char(s.first()) + applescript_escaped(
            s.drop_first(),
        ));
    }
}

proof fn lemma_powershell_first(s: Seq<char>)
    requires
        s.len() > 0,
    ensures
        powershell_escaped(s) == powershell_char(s.first()) + powershell_escaped(s.drop_first()),
    decreases s.len(),
{
    if s.len() == 1 {
        assert(s.drop_last() =~= Seq::<char>::empty());
        assert(s.drop_first() =~= Seq::<char>::empty());
        assert(powershell_escaped(s) =~= powershell_char(s.first()) + powershell_escaped(
            s.drop_first(),
        ));
    } else {
        lemma_powershell_first(s.drop_last());
        assert(s.drop_last().drop_first() =~= s.drop_first().drop_last());
        assert(powershell_escaped(s) =~= powershell_char(s.first()) + powershell_escaped(
            s.drop_first(),
        ));
    }
}

/// An escaped AppleScript text says what was escaped, but for line breaks, which
/// become spaces, and does not end the string that it stands in.
pub proof fn law_applescript_escape_keeps_text(s: Seq<char>)
    ensures
        unescaped(applescript_escaped(s), '\\') == without_breaks(s),
        !applescript_escaped(s).contains('\n'),
        is_inert(applescript_escaped(s), '\\', applescript_special()),
    decreases s.len(),
{
    if s.len() > 0 {
        let c = s.first();
        let rest = s.drop_first();
        let e = applescript_escaped(s);
        lemma_applescript_first(s);
        law_applescript_escape_keeps_text(rest);
        if c == '\\' || c == '"' {
            assert(e.skip(2) =~= applescript_escaped(rest));
        } else {
            assert(e.skip(1) =~= applescript_escaped(rest));
        }
        assert(without_breaks(s) =~= seq![without_breaks(s)[0]] + without_breaks(rest));
        assert(unescaped(e, '\\') =~= without_breaks(s));
        if e.contains('\n') {
            let i = choose|i: int| 0 <= i < e.len() && e[i] == '\n';
            let n = applescript_char(c).len() as int;
            if i >= n {
                assert(applescript_escaped(rest)[i - n] == '\n');
            }
            assert(false);
        }
    } else {
        assert(unescaped(applescript_escaped(s), '\\') =~= without_breaks(s));
    }
}

/// An escaped PowerShell text says what was escaped, but for line breaks, which
/// become spaces, and neither ends the string that it stands in nor begins a
/// variable.
pub proof fn law_powershell_escape_keeps_text(s: Seq<char>)
    ensures
        unescaped(powershell_escaped(s), '`') == without_breaks(s),
        !powershell_escaped(s).contains('\n'),
        is_inert(powershell_escaped(s), '`', powershell_special()),
    decreases s.len(),
{
    if s.len() > 0 {
        let c = s.first();
        let rest = s.drop_first();
        let e = powershell_escaped(s);
        lemma_powershell_first(s);
        law_powershell_escape_keeps_text(rest);
        if c == '`' || c == '"' || c == '$' {
            assert(e.skip(2) =~= powershell_escaped(rest));
        } else {
            assert(e.skip(1) =~= powershell_escaped(rest));
        }
        assert(without_breaks(s) =~= seq![without_breaks(s)[0]] + without_breaks(rest));
        assert(unescaped(e, '`') =~= without_breaks(s));
        if e.contains('\n') {
            let i = choose|i: int| 0 <= i < e.len() && e[i] == '\n';
            let n = powershell_char(c).len() as int;
            if i >= n {
                assert(powershell_escaped(rest)[i - n] == '\n');
            }
            assert(false);
        }
    } else {
        assert(unescaped(powershell_escaped(s), '`') =~= without_breaks(s));
    }
}

/// Escaping goes character by character. In an AppleScript string a backslash
/// stands before a backslash and a quote, a space in the place of a line break,
/// and every other character is left as it is.
pub proof fn law_applescript_escape_by_character(a: Seq<char>, b: Seq<char>, c: char)
    ensures
        applescript_escaped(a + b) == applescript_escaped(a) + applescript_escaped(b),
        c == '\\' || c == '"' ==> applescript_escaped(seq![c]) == seq!['\\', c],
        c == '\n' ==> applescript_escaped(seq![c]) == seq![' '],
        c != '\\' && c != '"' && c != '\n' ==> applescript_escaped(seq![c]) == seq![c],
    decreases b.len(),
{
    let one = seq![c];
    assert(one.drop_last() =~= Seq::<char>::empty());
    assert(applescript_escaped(one.drop_last()) =~= Seq::<char>::empty());
    assert(applescript_escaped(one) =~= applescript_char(c));
    let s = a + b;
    if b.len() == 0 {
        assert(s =~= a);
        assert(applescript_escaped(b) =~= Seq::<char>::empty());
        assert(applescript_escaped(s) =~= applescript_escaped(a) + applescript_escaped(b));
    } else {
        law_applescript_escape_by_character(a, b.drop_last(), c);
        assert(s.drop_last() =~= a + b.drop_last());
        assert(applescript_escaped(s) =~= applescript_escaped(a) + applescript_escaped(b));
    }
}

/// Escaping goes character by character. In a double-quoted PowerShell string a
/// backtick stands before a backtick, a quote and a dollar sign, a space in the
/// place of a line break, and every other character is left as it is.
pub proof fn law_powershell_escape_by_character(a: Seq<char>, b: Seq<char>, c: char)
    ensures
        powershell_escaped(a + b) == powershell_escaped(a) + powershell_escaped(b),
        c == '`' || c == '"' || c == '$' ==> powershell_escaped(seq![c]) == seq!['`', c],
        c == '\n' ==> powershell_escaped(seq![c]) == seq![' '],
        c != '`' && c != '"' && c != '$' && c != '\n' ==> powershell_escaped(seq![c]) == seq![c],
    decreases b.len(),
{
    let one = seq![c];
    assert(one.drop_last() =~= Seq::<char>::empty());
    assert(powershell_escaped(one.drop_last()) =~= Seq::<char>::empty());
    assert(powershell_escaped(one) =~= powershell_char(c));
    let s = a + b;
    if b.len() == 0 {
        assert(s =~= a);
        assert(powershell_escaped(b) =~= Seq::<char>::empty());
        assert(powershell_escaped(s) =~= powershell_escaped(a) + powershell_escaped(b));
    } else {
        law_powershell_escape_by_character(a, b.drop_last(), c);
        assert(s.drop_last() =~= a + b.drop_last());
        assert(powershell_escaped(s) =~= powershell_escaped(a) + powershell_escaped(b));
    }
}

} // verus!
