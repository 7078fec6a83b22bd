//! Names on disk: the filename validator shared by every upload path, the asset
//! kind derived from an extension, and the folder slug derived from a project name.

use vstd::prelude::*;
use crate::text::{chars_of, string_of, ends_with_ci, ends_with_ci_exec};

verus! {

/// A character that may never appear in a stored file name.
pub open spec fn is_forbidden_name_char(c: char) -> bool {
    c == '/' || c == '\\' || c == '\0'
}

/// Whether `s` holds two consecutive dots.
pub open spec fn has_parent_ref(s: Seq<char>) -> bool {
    exists|i: int| 0 <= i < s.len() - 1 && s[i] == '.' && #[trigger] s[i + 1] == '.'
}

/// A file name that is non-empty, cannot traverse upwards and holds no separator or null.
pub open spec fn is_safe_file_name(s: Seq<char>) -> bool {
    &&& s.len() > 0
    &&& !has_parent_ref(s)
    &&& forall|i: int| 0 <= i < s.len() ==> !is_forbidden_name_char(#[trigger] s[i])
}

/// The name itself when it is safe to store, `None` otherwise.
pub fn sanitize_filename(name: &str) -> (r: Option<String>)
    ensures
        r is Some <==> is_safe_file_name(name@),
        r matches Some(n) ==> n@ == name@,
{
    let cs = chars_of(name);
    if cs.len() == 0 {
        return None;
    }
    let mut i: usize = 0;
    while i < cs.len()
        invariant
            cs@ == name@,
            i <= cs@.len(),
            forall|j: int| 0 <= j < i ==> !is_forbidden_name_char(#[trigger] cs@[j]),
            forall|j: int| 0 <= j < i as int - 1 ==> !(cs@[j] == '.' && #[trigger] cs@[j + 1] == '.'),
        decreases cs@.len() - i,
    {
        let c = cs[i];
        if c == '/' || c == '\\' || c == '\0' {
            return None;
        }
        if i > 0 && c == '.' && cs[i - 1] == '.' {
            assert(has_parent_ref(name@)) by {
                assert(cs@[(i - 1) as int + 1] == '.');
            }
            return None;
        }
        i = i + 1;
    }
    assert(!has_parent_ref(name@)) by {
        if has_parent_ref(name@) {
            let k = choose|k: int| 0 <= k < name@.len() - 1 && name@[k] == '.' && #[trigger] name@[k + 1] == '.';
            assert(!(cs@[k] == '.' && cs@[k + 1] == '.'));
        }
    }
    Some(string_of(&cs))
}

/// The kind of an asset, decided by its file extension.
#[derive(PartialEq, Eq, Structural, Clone, Copy, Debug)]
pub enum AssetKind {
    Image,
    Model,
    Other,
}

pub open spec fn is_image_name(s: Seq<char>) -> bool {
    ends_with_ci(s, seq!['.', 'p', 'n', 'g']) || ends_with_ci(s, seq!['.', 'j', 'p', 'g'])
        || ends_with_ci(s, seq!['.', 'j', 'p', 'e', 'g']) || ends_with_ci(s, seq!['.', 'w', 'e', 'b', 'p'])
}

pub open spec fn is_model_name(s: Seq<char>) -> bool {
    ends_with_ci(s, seq!['.', 's', 't', 'l']) || ends_with_ci(s, seq!['.', 'o', 'b', 'j'])
        || ends_with_ci(s, seq!['.', '3', 'm', 'f']) || ends_with_ci(s, seq!['.', 'f', 'b', 'x'])
        || ends_with_ci(s, seq!['.', 'g', 'l', 'b']) || ends_with_ci(s, seq!['.', 'g', 'l', 't', 'f'])
}

/// Extensions are compared without regard to ASCII case; images win over models.
pub open spec fn kind_of(s: Seq<char>) -> AssetKind {
    if is_image_name(s) {
        AssetKind::Image
    } else if is_model_name(s) {
        AssetKind::Model
    } else {
        AssetKind::Other
    }
}

pub open spec fn kind_label(k: AssetKind) -> Seq<char> {
    match k {
        AssetKind::Image => seq!['i', 'm', 'a', 'g', 'e'],
        AssetKind::Model => seq!['m', 'o', 'd', 'e', 'l'],
        AssetKind::Other => seq!['o', 't', 'h', 'e', 'r'],
    }
}

impl AssetKind {
    /// The name under which the kind is stored.
    pub fn as_str(&self) -> (r: &'static str)
        ensures
            r@ == kind_label(*self),
    {
        match self {
            AssetKind::Image => {
                proof { reveal_strlit("image"); }
                "image"
            },
            AssetKind::Model => {
                proof { reveal_strlit("model"); }
                "model"
            },
            AssetKind::Other => {
                proof { reveal_strlit("other"); }
                "other"
            },
        }
    }
}

/// The kind of the file called `filename`.
pub fn asset_kind(filename: &str) -> (r: AssetKind)
    ensures
        r == kind_of(filename@),
{
    let cs = chars_of(filename);
    proof {
        reveal_strlit(".png"); reveal_strlit(".jpg"); reveal_strlit(".jpeg"); reveal_strlit(".webp");
        reveal_strlit(".stl"); reveal_strlit(".obj"); reveal_strlit(".3mf"); reveal_strlit(".fbx");
        reveal_strlit(".glb"); reveal_strlit(".gltf");
    }
    if ends_with_ci_exec(&cs, ".png") || ends_with_ci_exec(&cs, ".jpg")
        || ends_with_ci_exec(&cs, ".jpeg") || ends_with_ci_exec(&cs, ".webp") {
        AssetKind::Image
    } else if ends_with_ci_exec(&cs, ".stl") || ends_with_ci_exec(&cs, ".obj")
        || ends_with_ci_exec(&cs, ".3mf") || ends_with_ci_exec(&cs, ".fbx")
        || ends_with_ci_exec(&cs, ".glb") || ends_with_ci_exec(&cs, ".gltf") {
        AssetKind::Model
    } else {
        AssetKind::Other
    }
}

/// The stored kind name (`image`, `model` or `other`) of the file called `filename`.
pub fn extract_kind(filename: &str) -> (r: &'static str)
    ensures
        r@ == kind_label(kind_of(filename@)),
{
    asset_kind(filename).as_str()
}

/// Unicode's `White_Space` characters.
pub open spec fn is_white_space(c: char) -> bool {
    ('\u{9}' <= c <= '\u{d}') || c == ' ' || c == '\u{85}' || c == '\u{a0}' || c == '\u{1680}'
        || ('\u{2000}' <= c <= '\u{200a}') || c == '\u{2028}' || c == '\u{2029}' || c == '\u{202f}'
        || c == '\u{205f}' || c == '\u{3000}'
}

fn is_white_space_exec(c: char) -> (r: bool)
    ensures
        r == is_white_space(c),
{
    ('\u{9}' <= c && c <= '\u{d}') || c == ' ' || c == '\u{85}' || c == '\u{a0}' || c == '\u{1680}'
        || ('\u{2000}' <= c && c <= '\u{200a}') || c == '\u{2028}' || c == '\u{2029}'
        || c == '\u{202f}' || c == '\u{205f}' || c == '\u{3000}'
}

/// The characters stripped at both ends: white space, or hyphens.
pub open spec fn strips(white: bool, c: char) -> bool {
    if white { is_white_space(c) } else { c == '-' }
}

fn strips_exec(white: bool, c: char) -> (r: bool)
    ensures
        r == strips(white, c),
{
    if white {
        is_white_space_exec(c)
    } else {
        c == '-'
    }
}

pub open spec fn drop_leading(s: Seq<char>, white: bool) -> Seq<char>
    decreases s.len(),
{
    if s.len() > 0 && strips(white, s[0]) {
        drop_leading(s.drop_first(), white)
    } else {
        s
    }
}

pub open spec fn drop_trailing(s: Seq<char>, white: bool) -> Seq<char>
    decreases s.len(),
{
    if s.len() > 0 && strips(white, s.last()) {
        drop_trailing(s.drop_last(), white)
    } else {
        s
    }
}

/// `s` without the stripped characters at either end.
pub open spec fn strip_both(s: Seq<char>, white: bool) -> Seq<char> {
    drop_trailing(drop_leading(s, white), white)
}

fn strip_both_exec(cs: &Vec<char>, white: bool) -> (r: Vec<char>)
    ensures
        r@ == strip_both(cs@, white),
{
    let n: usize = cs.len();
    let mut i: usize = 0;
    assert(cs@.subrange(0, n as int) =~= cs@);
    while i < n && strips_exec(white, cs[i])
        invariant
            n == cs@.len(),
            i <= n,
            drop_leading(cs@, white) == drop_leading(cs@.subrange(i as int, n as int), white),
        decreases n - i,
    {
        assert(cs@.subrange(i as int, n as int).drop_first() =~= cs@.subrange(i + 1, n as int));
        i = i + 1;
    }
    assert(drop_leading(cs@, white) == cs@.subrange(i as int, n as int));
    let mut e: usize = n;
    while e > i && strips_exec(white, cs[e - 1])
        invariant
            n == cs@.len(),
            i <= e <= n,
            drop_trailing(cs@.subrange(i as int, n as int), white)
                == drop_trailing(cs@.subrange(i as int, e as int), white),
        decreases e - i,
    {
        assert(cs@.subrange(i as int, e as int).drop_last() =~= cs@.subrange(i as int, e - 1));
        e = e - 1;
    }
    assert(drop_trailing(cs@.subrange(i as int, e as int), white) == cs@.subrange(i as int, e as int));
    let mut out: Vec<char> = Vec::new();
    let mut k: usize = i;
    while k < e
        invariant
            n == cs@.len(),
            i <= k <= e <= n,
            out@ == cs@.subrange(i as int, k as int),
        decreases e - k,
    {
        out.push(cs[k]);
        assert(out@ =~= cs@.subrange(i as int, k + 1));
        k = k + 1;
    }
    out
}

/// `s` without white space at either end.
pub fn trim_white(s: &str) -> (r: String)
    ensures
        r@ == strip_both(s@, true),
{
    let cs = chars_of(s);
    let t = strip_both_exec(&cs, true);
    string_of(&t)
}

/// The Unicode lowercase mapping of a string, as `str::to_lowercase` computes it.
pub uninterp spec fn lowercase_of(s: Seq<char>) -> Seq<char>;

/// Relies on `str::to_lowercase`: the result depends on the characters alone.
#[verifier::external_body]
fn lowercase(s: &str) -> (r: String)
    ensures
        r@ == lowercase_of(s@),
{
    s.to_lowercase()
}

/// A character that a folder slug replaces with a hyphen.
pub open spec fn is_slug_separator(c: char) -> bool {
    is_white_space(c) || c == '/' || c == '\\' || c == '.' || c == '\0'
}

pub open spec fn hyphenate(s: Seq<char>) -> Seq<char> {
    s.map_values(|c: char| if is_slug_separator(c) { '-' } else { c })
}

/// The slug of an already trimmed and lower-cased name: separators become hyphens,
/// and hyphens at either end go.
pub open spec fn slug_of_lowered(s: Seq<char>) -> Seq<char> {
    strip_both(hyphenate(s), false)
}

/// The folder slug of a project name.
pub open spec fn slug_of(name: Seq<char>) -> Seq<char> {
    slug_of_lowered(lowercase_of(strip_both(name, true)))
}

/// The slug of a name that has already been trimmed and lower-cased.
pub fn slug_from_lowered(lowered: &str) -> (r: String)
    ensures
        r@ == slug_of_lowered(lowered@),
{
    let cs = chars_of(lowered);
    let mut h: Vec<char> = Vec::new();
    let mut i: usize = 0;
    while i < cs.len()
        invariant
            cs@ == lowered@,
            i <= cs@.len(),
            h@ == hyphenate(cs@.subrange(0, i as int)),
        decreases cs@.len() - i,
    {
        let c = cs[i];
        let sep = is_white_space_exec(c) || c == '/' || c == '\\' || c == '.' || c == '\0';
        h.push(if sep { '-' } else { c });
        assert(h@ =~= hyphenate(cs@.subrange(0, i + 1)));
        i = i + 1;
    }
    assert(cs@.subrange(0, cs@.len() as int) =~= cs@);
    let t = strip_both_exec(&h, false);
    string_of(&t)
}

/// The folder slug of a project name: trimmed, lower-cased, with white space, path
/// separators, dots and nulls turned into hyphens and no hyphen at either end.
pub fn slugify_string(input: &str) -> (r: String)
    ensures
        r@ == slug_of(input@),
{
    let trimmed = trim_white(input);
    let lowered = lowercase(trimmed.as_str());
    slug_from_lowered(lowered.as_str())
}

} // verus!
