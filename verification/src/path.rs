//! What a route's path becomes on the client side: the path the generated
//! function calls, and the name of the file the function is written to.

use convert_case::{Case, Casing};
use vstd::prelude::*;
use vstd::string::*;

use crate::text::{
    join, join_spec, lemma_join_split, lemma_split_join, split, split_spec, texts,
};

verus! {

/// Whether a path segment is a dynamic one, written `:name`.
pub open spec fn is_dynamic(segment: Seq<char>) -> bool {
    segment.len() > 0 && segment[0] == ':'
}

/// The segment without its marker: `:id` gives `id`, any other segment stays.
pub open spec fn bare_segment(segment: Seq<char>) -> Seq<char> {
    if is_dynamic(segment) {
        segment.skip(1)
    } else {
        segment
    }
}

/// The segment as the client writes it: `:id` gives `{id}`, any other
/// segment stays.
pub open spec fn brace_segment(segment: Seq<char>) -> Seq<char> {
    if is_dynamic(segment) {
        seq!['{'] + segment.skip(1) + seq!['}']
    } else {
        segment
    }
}

/// The path a generated function calls: the route's path with every dynamic
/// segment in braces.
pub open spec fn ts_path_spec(path: Seq<char>) -> Seq<char> {
    join_spec(split_spec(path, '/').map_values(|s: Seq<char>| brace_segment(s)), seq!['/'])
}

/// A path without dynamic segments is called as it is written.
pub proof fn lemma_ts_path_plain(path: Seq<char>)
    requires
        forall|k: int|
            0 <= k < split_spec(path, '/').len() ==> !is_dynamic(#[trigger] split_spec(path, '/')[k]),
    ensures
        ts_path_spec(path) == path,
{
    let segments = split_spec(path, '/');
    lemma_join_split(path, '/');
    assert(segments.map_values(|s: Seq<char>| brace_segment(s)) =~= segments);
}

/// The path a generated function calls has the segments of the route's
/// path, each dynamic one in braces and every other one as it is.
pub proof fn lemma_ts_path_segments(path: Seq<char>)
    ensures
        split_spec(ts_path_spec(path), '/') == split_spec(path, '/').map_values(
            |s: Seq<char>| brace_segment(s),
        ),
{
    let segments = split_spec(path, '/');
    let braced = segments.map_values(|s: Seq<char>| brace_segment(s));
    lemma_join_split(path, '/');
    assert forall|k: int| 0 <= k < braced.len() implies !(#[trigger] braced[k]).contains('/') by {
        let segment = segments[k];
        assert(!segment.contains('/'));
        if braced[k].contains('/') {
            let j = choose|j: int| 0 <= j < braced[k].len() && braced[k][j] == '/';
            if is_dynamic(segment) {
                assert(0 < j < segment.len());
                assert(braced[k][j] == segment[j]);
            }
            assert(segment[j] == '/');
        }
    }
    lemma_split_join(braced, '/');
}

/// The segments of the path without their markers, joined by underscores.
pub open spec fn file_stem_spec(path: Seq<char>) -> Seq<char> {
    join_spec(split_spec(path, '/').map_values(|s: Seq<char>| bare_segment(s)), seq!['_'])
}

/// What `to_case(Case::Camel)` of `convert_case` makes of a text: its words,
/// the first in lower case and each further one capitalised, with nothing
/// between them.
pub uninterp spec fn camel_case(s: Seq<char>) -> Seq<char>;

/// The file name for a converted stem: the stem itself, or `root` where
/// nothing is left of it.
pub open spec fn name_or_root(converted: Seq<char>) -> Seq<char> {
    if converted.len() == 0 {
        "root"@
    } else {
        converted
    }
}

/// The name of the file a route's module is written to.
pub open spec fn file_name_spec(path: Seq<char>) -> Seq<char> {
    name_or_root(camel_case(file_stem_spec(path)))
}

/// Calls `Casing::to_case` of `convert_case` with `Case::Camel`. The contract
/// only gives the result its name: the conversion is a function of the text
/// alone.
#[verifier::external_body]
fn to_camel_case(s: &str) -> (converted: String)
    ensures
        converted@ == camel_case(s@),
{
    s.to_case(Case::Camel)
}

/// Whether `segment` starts with the marker of a dynamic segment.
fn starts_dynamic(segment: &str) -> (b: bool)
    ensures
        b == is_dynamic(segment@),
{
    segment.unicode_len() > 0 && segment.get_char(0) == ':'
}

/// The segment without its marker.
fn bare(segment: &str) -> (s: &str)
    ensures
        s@ == bare_segment(segment@),
{
    if starts_dynamic(segment) {
        segment.substring_char(1, segment.unicode_len())
    } else {
        segment
    }
}

/// The segment as the client writes it.
fn brace(segment: &str) -> (s: String)
    ensures
        s@ == brace_segment(segment@),
{
    if starts_dynamic(segment) {
        let mut s = String::new();
        s.push('{');
        s.append(segment.substring_char(1, segment.unicode_len()));
        s.push('}');
        assert(s@ =~= seq!['{'] + segment@.skip(1) + seq!['}']);
        s
    } else {
        String::from_str(segment)
    }
}

/// The path with every `:name` segment turned into `{name}`.
pub fn ts_path(path: &str) -> (client_path: String)
    ensures
        client_path@ == ts_path_spec(path@),
{
    let segments = split(path, '/');
    let mut braced: Vec<String> = Vec::new();
    let mut i: usize = 0;
    while i < segments.len()
        invariant
            i <= segments.len(),
            braced@.len() == i,
            forall|k: int| 0 <= k < i ==> braced@[k]@ == brace_segment(segments@[k]@),
        decreases segments.len() - i,
    {
        braced.push(brace(segments[i].as_str()));
        i = i + 1;
    }
    proof {
        reveal_strlit("/");
        assert("/"@ =~= seq!['/']);
        assert(texts(braced@) =~= texts(segments@).map_values(|s: Seq<char>| brace_segment(s)));
    }
    join(&braced, "/")
}

/// The segments of the path without their markers, joined by underscores.
pub fn file_stem(path: &str) -> (stem: String)
    ensures
        stem@ == file_stem_spec(path@),
{
    let segments = split(path, '/');
    let mut names: Vec<String> = Vec::new();
    let mut i: usize = 0;
    while i < segments.len()
        invariant
            i <= segments.len(),
            names@.len() == i,
            forall|k: int| 0 <= k < i ==> names@[k]@ == bare_segment(segments@[k]@),
        decreases segments.len() - i,
    {
        names.push(String::from_str(bare(segments[i].as_str())));
        i = i + 1;
    }
    proof {
        reveal_strlit("_");
        assert("_"@ =~= seq!['_']);
        assert(texts(names@) =~= texts(segments@).map_values(|s: Seq<char>| bare_segment(s)));
    }
    join(&names, "_")
}

/// The file name for a converted stem: `root` where the stem is empty.
pub fn file_name_or_root(converted: String) -> (name: String)
    ensures
        name@ == name_or_root(converted@),
{
    if converted.as_str().unicode_len() == 0 {
        String::from_str("root")
    } else {
        converted
    }
}

/// The name of the file a route's module is written to: the stem of its
/// path in camel case, or `root` for a path without names.
pub fn ts_file_name(path: &str) -> (name: String)
    ensures
        name@ == file_name_spec(path@),
{
    let stem = file_stem(path);
    file_name_or_root(to_camel_case(stem.as_str()))
}

} // verus!
