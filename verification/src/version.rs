//! The version that a build calls itself.

use crate::text;
use crate::text_laws;
use vstd::prelude::*;

verus! {

/// The version that a tag names: the text without white space around it and
/// without the `v`s at its beginning. A blank text names none.
pub open spec fn tagged_version(tag: Option<Seq<char>>) -> Option<Seq<char>> {
    match tag {
        Some(tag) => if text::trimmed(tag).len() == 0 {
            None
        } else {
            Some(text::strip_start(text::trimmed(tag), 'v'))
        },
        None => None,
    }
}

/// The version of a build: what the release names, else what the checkout
/// describes, else `dev`.
pub open spec fn build_version_of(
    release: Option<Seq<char>>,
    described: Option<Seq<char>>,
) -> Seq<char> {
    match tagged_version(release) {
        Some(version) => version,
        None => match tagged_version(described) {
            Some(version) => version,
            None => "dev"@,
        },
    }
}

/// The text of an optional tag.
pub open spec fn tag_text(tag: Option<&str>) -> Option<Seq<char>> {
    match tag {
        Some(tag) => Some(tag@),
        None => None,
    }
}

/// The version that a tag names, where it names one.
#[must_use]
pub fn version_of_tag(tag: Option<&str>) -> (r: Option<String>)
    ensures
        match r {
            Some(version) => tagged_version(tag_text(tag)) == Some(version@),
            None => tagged_version(tag_text(tag)) is None,
        },
{
    match tag {
        Some(tag) => {
            let name = text::trim(tag);
            if name.as_str().unicode_len() == 0 {
                None
            } else {
                Some(text::trim_start_char(name.as_str(), 'v'))
            }
        },
        None => None,
    }
}

/// The version of a build. `release` is the variable `NONO_VERSION`, where it is
/// set to text; `described` is what `git describe --tags --always` printed,
/// where it succeeded.
#[must_use]
pub fn build_version(release: Option<&str>, described: Option<&str>) -> (r: String)
    ensures
        r@ == build_version_of(tag_text(release), tag_text(described)),
{
    match version_of_tag(release) {
        Some(version) => version,
        None => match version_of_tag(described) {
            Some(version) => version,
            None => "dev".to_owned(),
        },
    }
}

/// What the release names is the version of the build, whatever the checkout
/// describes.
pub proof fn law_release_wins(
    release: Option<Seq<char>>,
    one: Option<Seq<char>>,
    other: Option<Seq<char>>,
)
    requires
        tagged_version(release) is Some,
    ensures
        build_version_of(release, one) == build_version_of(release, other),
{
}

/// A tag with a name between white space, behind any number of `v`s, names that
/// version; white space alone names none. The release comes before the checkout,
/// and without either the version is `dev`.
pub proof fn law_version_of_a_tag(
    before: Seq<char>,
    marks: Seq<char>,
    name: Seq<char>,
    after: Seq<char>,
    other: Option<Seq<char>>,
)
    requires
        text_laws::is_blank(before),
        text_laws::is_blank(after),
        text_laws::is_run(marks, 'v'),
        name.len() > 0,
        name[0] != 'v',
        !text::white_space(name[0]),
        !text::white_space(name[name.len() - 1]),
    ensures
        tagged_version(Some(before + (marks + name) + after)) == Some(name),
        tagged_version(Some(before)) is None,
        tagged_version(None) is None,
        build_version_of(Some(before + (marks + name) + after), other) == name,
        build_version_of(Some(before), Some(before + (marks + name) + after)) == name,
        build_version_of(None, Some(before + (marks + name) + after)) == name,
        build_version_of(None, None) == "dev"@,
        build_version_of(Some(before), Some(after)) == "dev"@,
        build_version_of(None, Some(after)) == "dev"@,
        marks.len() > 0 ==> tagged_version(Some(before + marks + after)) == Some(Seq::<char>::empty()),
{
    let tag = marks + name;
    if marks.len() > 0 {
        assert(marks[0] == 'v');
    }
    assert(!text::white_space(tag[0]));
    assert(tag[tag.len() - 1] == name[name.len() - 1]);
    text_laws::law_trimming_leaves_the_core(before, tag, after);
    text_laws::law_stripping_start_leaves_the_rest(marks, name, 'v');
    let none = Seq::<char>::empty();
    text_laws::law_trimming_leaves_the_core(before, none, none);
    assert(before + none + none =~= before);
    text_laws::law_trimming_leaves_the_core(after, none, none);
    assert(after + none + none =~= after);
    if marks.len() > 0 {
        assert(marks[marks.len() - 1] == 'v');
        text_laws::law_trimming_leaves_the_core(before, marks, after);
        text_laws::law_stripping_start_leaves_the_rest(marks, none, 'v');
        assert(marks + none =~= marks);
    }
}

} // verus!
