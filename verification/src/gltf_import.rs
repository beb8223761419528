//! glTF import: the external files a document depends on (the URIs of its
//! buffers and images, resolved against the document's directory, without
//! embedded `data:` URIs, sorted by path order with equal paths listed once),
//! and the interpolation modes of imported animation samplers.

use vstd::prelude::*;
use crate::chars::{is_unicode_whitespace, is_whitespace_char, trim, trim_end, trim_start};
use crate::pixels::{distinct_sorted_sources, present_sources, strictly_sorted};
use std::path::Path;

verus! {

/// Interpolation mode declared by a glTF animation sampler.
#[derive(Clone, Copy, Debug, PartialEq, Eq, Structural)]
pub enum GltfAnimationInterpolation {
    /// Linear vector interpolation or spherical rotation interpolation.
    Linear,
    /// Hold the previous keyframe value.
    Step,
    /// Cubic spline sampler, imported as a declared mode.
    CubicSpline,
}

#[verifier::external_type_specification]
#[verifier::external_body]
pub struct ExGltfDocument(gltf::Document);

/// The URI of each buffer of a document, in document order (`None` for a
/// buffer stored in the binary chunk).
pub uninterp spec fn document_buffer_uris(document: gltf::Document) -> Seq<Option<Seq<char>>>;

/// For each image of a document's JSON, in document order: whether it names a
/// buffer view, and its `uri` property if it has one.
pub uninterp spec fn document_image_entries(document: gltf::Document) -> Seq<(bool, Option<Seq<char>>)>;

/// The parent directory of a path, as `Path::parent` gives it.
pub uninterp spec fn parent_of_path(path: Seq<char>) -> Option<Seq<char>>;

/// Whether a path is absolute, as `Path::is_absolute` says.
pub uninterp spec fn is_absolute_path(path: Seq<char>) -> bool;

/// `path` joined onto `base`, as `Path::join` gives it.
pub uninterp spec fn joined_path(base: Seq<char>, path: Seq<char>) -> Seq<char>;

/// Whether path `a` orders before path `b` in the order of `Path`.
pub uninterp spec fn path_precedes(a: Seq<char>, b: Seq<char>) -> bool;

/// Whether `a` and `b` are the same path (`Path` equality, component-wise).
pub uninterp spec fn same_path(a: Seq<char>, b: Seq<char>) -> bool;

/// Optional texts read through their views.
pub open spec fn optional_texts(v: Seq<Option<String>>) -> Seq<Option<Seq<char>>> {
    v.map_values(
        |o: Option<String>|
            match o {
                Some(s) => Some(s@),
                None => None,
            },
    )
}

/// Texts read through their views.
pub open spec fn texts(v: Seq<String>) -> Seq<Seq<char>> {
    v.map_values(|s: String| s@)
}

/// Calls `gltf::Document::buffers` and reads each buffer's source; the result
/// is named by `document_buffer_uris`.
#[verifier::external_body]
fn buffer_uris(document: &gltf::Document) -> (r: Vec<Option<String>>)
    ensures
        optional_texts(r@) == document_buffer_uris(*document),
{
    let mut uris = Vec::new();
    for buffer in document.buffers() {
        uris.push(match buffer.source() {
            gltf::buffer::Source::Uri(uri) => Some(uri.to_string()),
            gltf::buffer::Source::Bin => None,
        });
    }
    uris
}

/// Image entries read through their views.
pub open spec fn image_entries_view(v: Seq<(bool, Option<String>)>) -> Seq<(bool, Option<Seq<char>>)> {
    v.map_values(
        |e: (bool, Option<String>)|
            (
                e.0,
                match e.1 {
                    Some(s) => Some(s@),
                    None => None,
                },
            ),
    )
}

/// Reads, through `gltf::Document::as_json`, each image's `bufferView` (whether
/// it is set) and `uri` fields, without looking anything up; the result is
/// named by `document_image_entries`.
#[verifier::external_body]
fn image_entries(document: &gltf::Document) -> (r: Vec<(bool, Option<String>)>)
    ensures
        image_entries_view(r@) == document_image_entries(*document),
{
    let mut entries = Vec::new();
    for image in document.as_json().images.iter() {
        entries.push((image.buffer_view.is_some(), image.uri.clone()));
    }
    entries
}

/// Calls `Path::parent`; the result is named by `parent_of_path`.
#[verifier::external_body]
fn path_parent(path: &str) -> (r: Option<String>)
    ensures
        match r {
            Some(p) => parent_of_path(path@) == Some(p@),
            None => parent_of_path(path@) is None,
        },
{
    match Path::new(path).parent() {
        Some(parent) => Some(parent.to_string_lossy().into_owned()),
        None => None,
    }
}

/// Calls `Path::is_absolute`; the result is named by `is_absolute_path`.
#[verifier::external_body]
fn path_is_absolute(path: &str) -> (r: bool)
    ensures
        r == is_absolute_path(path@),
{
    Path::new(path).is_absolute()
}

/// Calls `Path::join`; the result is named by `joined_path`.
#[verifier::external_body]
fn path_join(base: &str, path: &str) -> (r: String)
    ensures
        r@ == joined_path(base@, path@),
{
    Path::new(base).join(path).to_string_lossy().into_owned()
}

/// Calls `<Path as PartialOrd>::lt`; the result is named by `path_precedes`.
/// `Path` implements `Ord`, a strict total order whose equal elements are the
/// `==` ones: so `lt` is asymmetric, and of two paths that are not equal one
/// orders first.
#[verifier::external_body]
fn path_less(a: &str, b: &str) -> (r: bool)
    ensures
        r == path_precedes(a@, b@),
        r ==> !path_precedes(b@, a@) && !same_path(a@, b@),
        !r ==> path_precedes(b@, a@) || same_path(a@, b@),
{
    Path::new(a) < Path::new(b)
}

/// Two paths relate by `same_path` to exactly the same paths.
pub open spec fn same_path_class(a: Seq<char>, b: Seq<char>) -> bool {
    forall|c: Seq<char>| #![trigger same_path(a, c)] #![trigger same_path(b, c)] same_path(a, c) == same_path(b, c)
}

/// Calls `<Path as PartialEq>::eq`; the result is named by `same_path`. `Path`
/// implements `Eq`, an equivalence: so the result is symmetric, equal texts are
/// the same path, and two paths found equal are equal to the same paths.
#[verifier::external_body]
fn path_eq(a: &str, b: &str) -> (r: bool)
    ensures
        r == same_path(a@, b@),
        r == same_path(b@, a@),
        a@ == b@ ==> r,
        r ==> same_path_class(a@, b@),
{
    Path::new(a) == Path::new(b)
}

/// The file URI of an image: its `uri` when it is not stored in a buffer view;
/// `None` for an image in a buffer view or without a `uri`.
pub open spec fn image_file_uri(entry: (bool, Option<Seq<char>>)) -> Option<Seq<char>> {
    if entry.0 {
        None
    } else {
        entry.1
    }
}

/// The file URIs of images, in order.
pub open spec fn image_file_uris(entries: Seq<(bool, Option<Seq<char>>)>) -> Seq<Option<Seq<char>>> {
    entries.map_values(|e: (bool, Option<Seq<char>>)| image_file_uri(e))
}

/// An optional text read through its view.
pub open spec fn optional_text(o: Option<&str>) -> Option<Seq<char>> {
    match o {
        Some(t) => Some(t@),
        None => None,
    }
}

/// The file URI of each image entry (see `image_file_uri`).
pub fn image_file_uri_list(entries: &Vec<(bool, Option<String>)>) -> (r: Vec<Option<String>>)
    ensures
        optional_texts(r@) == image_file_uris(image_entries_view(entries@)),
{
    let mut out: Vec<Option<String>> = Vec::new();
    let mut i: usize = 0;
    while i < entries.len()
        invariant
            i <= entries@.len(),
            optional_texts(out@) == image_file_uris(image_entries_view(entries@)).take(i as int),
        decreases entries@.len() - i,
    {
        let entry = &entries[i];
        let uri: Option<String> = if entry.0 {
            None
        } else {
            match &entry.1 {
                Some(u) => Some(u.clone()),
                None => None,
            }
        };
        proof {
            assert(image_entries_view(entries@)[i as int] == (
                entry.0,
                match entry.1 {
                    Some(t) => Some(t@),
                    None => None,
                },
            ));
        }
        let ghost before = out@;
        out.push(uri);
        assert(optional_texts(out@) =~= optional_texts(before).push(
            image_file_uri(image_entries_view(entries@)[i as int]),
        ));
        assert(image_file_uris(image_entries_view(entries@)).take(i as int + 1) =~= image_file_uris(
            image_entries_view(entries@),
        ).take(i as int).push(image_file_uri(image_entries_view(entries@)[i as int])));
        i = i + 1;
    }
    assert(image_file_uris(image_entries_view(entries@)).take(entries@.len() as int) =~= image_file_uris(
        image_entries_view(entries@),
    ));
    out
}

/// `data:` as text.
pub open spec fn data_scheme() -> Seq<char> {
    seq!['d', 'a', 't', 'a', ':']
}

/// A URI names an external file: it is not blank and not a `data:` URI.
pub open spec fn is_external_uri(uri: Seq<char>) -> bool {
    trim(uri).len() > 0 && !(uri.len() >= 5 && uri.take(5) == data_scheme())
}

/// The path of a referenced file: absolute URIs as they are, relative ones
/// joined onto the document's directory when it has one.
pub open spec fn resolved_uri(base: Option<Seq<char>>, uri: Seq<char>) -> Option<Seq<char>> {
    if !is_external_uri(uri) {
        None
    } else if is_absolute_path(uri) {
        Some(uri)
    } else {
        match base {
            Some(b) => Some(joined_path(b, uri)),
            None => Some(uri),
        }
    }
}

proof fn lemma_trim_start_empty(s: Seq<char>)
    ensures
        (trim_start(s).len() == 0) == (forall|j: int| 0 <= j < s.len() ==> is_unicode_whitespace(#[trigger] s[j])),
    decreases s.len(),
{
    if s.len() > 0 {
        lemma_trim_start_empty(s.drop_first());
        if is_unicode_whitespace(s[0]) {
            assert forall|j: int| 0 <= j < s.len() && (forall|k: int| 0 <= k < s.drop_first().len() ==> is_unicode_whitespace(#[trigger] s.drop_first()[k])) implies is_unicode_whitespace(#[trigger] s[j]) by {
                if j > 0 {
                    assert(s[j] == s.drop_first()[j - 1]);
                }
            }
            if !(forall|k: int| 0 <= k < s.drop_first().len() ==> is_unicode_whitespace(#[trigger] s.drop_first()[k])) {
                let k = choose|k: int| 0 <= k < s.drop_first().len() && !is_unicode_whitespace(#[trigger] s.drop_first()[k]);
                assert(s[k + 1] == s.drop_first()[k]);
            }
        }
    }
}

/// Whether a text is empty once whitespace is trimmed.
fn is_blank(s: &str) -> (r: bool)
    ensures
        r == (trim(s@).len() == 0),
{
    proof {
        lemma_trim_start_empty(s@);
        lemma_trim_start_shape(s@);
        let t = trim_start(s@);
        if t.len() > 0 {
            lemma_trim_end_keeps_first(t);
        } else {
            assert(trim_end(t) == t);
        }
    }
    let n = s.unicode_len();
    let mut i: usize = 0;
    while i < n
        invariant
            i <= n,
            n == s@.len(),
            forall|j: int| 0 <= j < i ==> is_unicode_whitespace(#[trigger] s@[j]),
            (trim(s@).len() == 0) == (forall|j: int| 0 <= j < s@.len() ==> is_unicode_whitespace(#[trigger] s@[j])),
        decreases n - i,
    {
        if !is_whitespace_char(s.get_char(i)) {
            return false;
        }
        i = i + 1;
    }
    true
}

proof fn lemma_trim_start_shape(s: Seq<char>)
    ensures
        trim_start(s).len() > 0 ==> !is_unicode_whitespace(trim_start(s)[0]),
    decreases s.len(),
{
    if s.len() > 0 && is_unicode_whitespace(s[0]) {
        lemma_trim_start_shape(s.drop_first());
    }
}

proof fn lemma_trim_end_keeps_first(t: Seq<char>)
    requires
        t.len() > 0,
        !is_unicode_whitespace(t[0]),
    ensures
        trim_end(t).len() > 0,
    decreases t.len(),
{
    if is_unicode_whitespace(t.last()) {
        assert(t.len() > 1);
        assert(t.drop_last()[0] == t[0]);
        lemma_trim_end_keeps_first(t.drop_last());
    }
}

/// Whether a URI starts with `data:`.
fn has_data_scheme(uri: &str) -> (r: bool)
    ensures
        r == (uri@.len() >= 5 && uri@.take(5) == data_scheme()),
{
    if uri.unicode_len() < 5 {
        return false;
    }
    let r = uri.get_char(0) == 'd' && uri.get_char(1) == 'a' && uri.get_char(2) == 't' && uri.get_char(3)
        == 'a' && uri.get_char(4) == ':';
    proof {
        if r {
            assert(uri@.take(5) =~= data_scheme());
        } else {
            if uri@.take(5) == data_scheme() {
                assert(uri@.take(5)[0] == 'd');
                assert(uri@.take(5)[1] == 'a');
                assert(uri@.take(5)[2] == 't');
                assert(uri@.take(5)[3] == 'a');
                assert(uri@.take(5)[4] == ':');
            }
        }
    }
    r
}

/// Resolves one buffer or image URI against the document's directory; blank
/// and `data:` URIs name no file.
pub fn resolve_gltf_uri(base: Option<&str>, uri: &str) -> (r: Option<String>)
    ensures
        match r {
            Some(p) => resolved_uri(
                match base {
                    Some(b) => Some(b@),
                    None => None,
                },
                uri@,
            ) == Some(p@),
            None => resolved_uri(
                match base {
                    Some(b) => Some(b@),
                    None => None,
                },
                uri@,
            ) is None,
        },
{
    if is_blank(uri) || has_data_scheme(uri) {
        return None;
    }
    if path_is_absolute(uri) {
        Some(uri.to_string())
    } else {
        match base {
            Some(b) => Some(path_join(b, uri)),
            None => Some(uri.to_string()),
        }
    }
}

/// Some entry of `r` is `x` or the same path as `x`.
pub open spec fn covered_by(x: Seq<char>, r: Seq<Seq<char>>) -> bool {
    exists|k: int| 0 <= k < r.len() && (x == #[trigger] r[k] || same_path(x, r[k]))
}

/// `r` lists the paths of `paths` in path order, each at most once: adjacent
/// entries are strictly ordered, no two are the same path, every input is the
/// same path as (or equal to) some entry, and every entry is one of the inputs.
pub open spec fn sorted_unique_paths(paths: Seq<Seq<char>>, r: Seq<Seq<char>>) -> bool {
    &&& forall|k: int| 0 <= k < r.len() - 1 ==> path_precedes(#[trigger] r[k], r[k + 1])
    &&& forall|k1: int, k2: int| 0 <= k1 < k2 < r.len() ==> !same_path(#[trigger] r[k1], #[trigger] r[k2])
    &&& forall|i: int| 0 <= i < paths.len() ==> covered_by(#[trigger] paths[i], r)
    &&& forall|k: int| 0 <= k < r.len() ==> paths.contains(#[trigger] r[k])
}

proof fn lemma_skip_same_path(a: Seq<Seq<char>>, os: Seq<Seq<char>>, pv: Seq<char>, q: int)
    requires
        sorted_unique_paths(a, os),
        0 <= q < os.len(),
        same_path(pv, os[q]),
    ensures
        sorted_unique_paths(a.push(pv), os),
{
    let b = a.push(pv);
    assert forall|j: int| 0 <= j < b.len() implies covered_by(#[trigger] b[j], os) by {
        if j == a.len() {
            assert(same_path(b[j], os[q]));
        } else {
            assert(b[j] == a[j]);
        }
    }
    assert forall|k: int| 0 <= k < os.len() implies b.contains(#[trigger] os[k]) by {
        let j = choose|j: int| 0 <= j < a.len() && a[j] == os[k];
        assert(b[j] == a[j]);
    }
}

/// `ns` is `os` with `pv` inserted at `pos`.
pub open spec fn inserted_at(os: Seq<Seq<char>>, pv: Seq<char>, pos: int, ns: Seq<Seq<char>>) -> bool {
    &&& ns.len() == os.len() + 1
    &&& forall|k: int|
        0 <= k < ns.len() ==> #[trigger] ns[k] == (if k < pos {
            os[k]
        } else if k == pos {
            pv
        } else {
            os[k - 1]
        })
}

proof fn lemma_insert_adjacent(os: Seq<Seq<char>>, pv: Seq<char>, pos: int, ns: Seq<Seq<char>>)
    requires
        inserted_at(os, pv, pos, ns),
        forall|k: int| 0 <= k < os.len() - 1 ==> path_precedes(#[trigger] os[k], os[k + 1]),
        0 <= pos <= os.len(),
        forall|t: int| 0 <= t < pos ==> path_precedes(#[trigger] os[t], pv),
        pos < os.len() ==> path_precedes(pv, os[pos]),
    ensures
        forall|k: int| 0 <= k < ns.len() - 1 ==> path_precedes(#[trigger] ns[k], ns[k + 1]),
{
    assert forall|k: int| 0 <= k < ns.len() - 1 implies path_precedes(#[trigger] ns[k], ns[k + 1]) by {
        assert(ns[k + 1] == (if k + 1 < pos {
            os[k + 1]
        } else if k + 1 == pos {
            pv
        } else {
            os[k]
        }));
        if k + 1 < pos {
            assert(path_precedes(os[k], os[k + 1]));
        } else if k + 1 == pos {
            assert(path_precedes(os[k], pv));
        } else if k > pos {
            assert(path_precedes(os[k - 1], os[k]));
        }
    }
}

proof fn lemma_insert_distinct(os: Seq<Seq<char>>, pv: Seq<char>, pos: int, ns: Seq<Seq<char>>)
    requires
        inserted_at(os, pv, pos, ns),
        forall|k1: int, k2: int| 0 <= k1 < k2 < os.len() ==> !same_path(#[trigger] os[k1], #[trigger] os[k2]),
        0 <= pos <= os.len(),
        forall|t: int| 0 <= t < os.len() ==> !same_path(pv, #[trigger] os[t]),
        forall|t: int| 0 <= t < os.len() ==> !same_path(#[trigger] os[t], pv),
    ensures
        forall|k1: int, k2: int| 0 <= k1 < k2 < ns.len() ==> !same_path(#[trigger] ns[k1], #[trigger] ns[k2]),
{
    assert forall|k1: int, k2: int| 0 <= k1 < k2 < ns.len() implies !same_path(#[trigger] ns[k1], #[trigger] ns[k2]) by {
        let o1 = if k1 < pos { k1 } else { k1 - 1 };
        let o2 = if k2 < pos { k2 } else { k2 - 1 };
        if k1 == pos {
            assert(ns[k2] == os[o2]);
        } else if k2 == pos {
            assert(ns[k1] == os[o1]);
        } else {
            assert(ns[k1] == os[o1] && ns[k2] == os[o2]);
            assert(o1 < o2);
        }
    }
}

proof fn lemma_insert_cover(a: Seq<Seq<char>>, os: Seq<Seq<char>>, pv: Seq<char>, pos: int)
    requires
        forall|i: int| 0 <= i < a.len() ==> covered_by(#[trigger] a[i], os),
        forall|k: int| 0 <= k < os.len() ==> a.contains(#[trigger] os[k]),
        0 <= pos <= os.len(),
    ensures
        forall|i: int| 0 <= i < a.push(pv).len() ==> covered_by(#[trigger] a.push(pv)[i], os.insert(pos, pv)),
        forall|k: int| 0 <= k < os.insert(pos, pv).len() ==> a.push(pv).contains(#[trigger] os.insert(pos, pv)[k]),
{
    let b = a.push(pv);
    let ns = os.insert(pos, pv);
    assert forall|j: int| 0 <= j < b.len() implies covered_by(#[trigger] b[j], ns) by {
        if j == a.len() {
            assert(ns[pos] == pv);
        } else {
            assert(b[j] == a[j]);
            assert(covered_by(a[j], os));
            let k = choose|k: int| 0 <= k < os.len() && (a[j] == #[trigger] os[k] || same_path(a[j], os[k]));
            if k < pos {
                assert(ns[k] == os[k]);
            } else {
                assert(ns[k + 1] == os[k]);
            }
        }
    }
    assert forall|k: int| 0 <= k < ns.len() implies b.contains(#[trigger] ns[k]) by {
        if k == pos {
            assert(b[a.len() as int] == ns[k]);
        } else {
            let o = if k < pos { k } else { k - 1 };
            assert(ns[k] == os[o]);
            assert(a.contains(os[o]));
            let j = choose|j: int| 0 <= j < a.len() && a[j] == os[o];
            assert(b[j] == a[j]);
        }
    }
}

proof fn lemma_insert_new_path(a: Seq<Seq<char>>, os: Seq<Seq<char>>, pv: Seq<char>, pos: int)
    requires
        sorted_unique_paths(a, os),
        0 <= pos <= os.len(),
        forall|t: int| 0 <= t < os.len() ==> !same_path(pv, #[trigger] os[t]),
        forall|t: int| 0 <= t < os.len() ==> !same_path(#[trigger] os[t], pv),
        forall|t: int| 0 <= t < pos ==> path_precedes(#[trigger] os[t], pv),
        pos < os.len() ==> path_precedes(pv, os[pos]),
    ensures
        sorted_unique_paths(a.push(pv), os.insert(pos, pv)),
{
    let ns = os.insert(pos, pv);
    assert(inserted_at(os, pv, pos, ns));
    lemma_insert_adjacent(os, pv, pos, ns);
    lemma_insert_distinct(os, pv, pos, ns);
    lemma_insert_cover(a, os, pv, pos);
}

/// `x` is one of the first `n` paths, and no path given before it is the same path.
pub open spec fn first_given_within(paths: Seq<Seq<char>>, x: Seq<char>, n: int) -> bool {
    exists|i: int|
        0 <= i < n && i < paths.len() && #[trigger] paths[i] == x && forall|j: int|
            0 <= j < i ==> !same_path(#[trigger] paths[j], x)
}

/// Every entry of `r` is the first given of its group of equal paths.
pub open spec fn keeps_first_given(paths: Seq<Seq<char>>, r: Seq<Seq<char>>) -> bool {
    forall|k: int| 0 <= k < r.len() ==> first_given_within(paths, #[trigger] r[k], paths.len() as int)
}

/// Every one of the first `n` paths is an entry of `r` or in the same class as one.
spec fn class_covered(paths: Seq<Seq<char>>, r: Seq<Seq<char>>, n: int) -> bool {
    forall|j: int|
        0 <= j < n ==> exists|k: int|
            0 <= k < r.len() && (#[trigger] paths[j] == #[trigger] r[k] || same_path_class(paths[j], r[k]))
}

proof fn lemma_skip_first_given(ps: Seq<Seq<char>>, os: Seq<Seq<char>>, pv: Seq<char>, q: int, i: int)
    requires
        0 <= i < ps.len(),
        ps[i] == pv,
        0 <= q < os.len(),
        same_path_class(pv, os[q]),
        class_covered(ps, os, i),
        forall|k: int| 0 <= k < os.len() ==> first_given_within(ps, #[trigger] os[k], i),
    ensures
        class_covered(ps, os, i + 1),
        forall|k: int| 0 <= k < os.len() ==> first_given_within(ps, #[trigger] os[k], i + 1),
{
    assert forall|j: int| 0 <= j < i + 1 implies exists|k: int|
        0 <= k < os.len() && (#[trigger] ps[j] == #[trigger] os[k] || same_path_class(ps[j], os[k])) by {
        if j == i {
            assert(ps[j] == pv);
            assert(same_path_class(ps[j], os[q]));
        }
    }
    assert forall|k: int| 0 <= k < os.len() implies first_given_within(ps, #[trigger] os[k], i + 1) by {
        assert(first_given_within(ps, os[k], i));
    }
}

proof fn lemma_insert_first_given(ps: Seq<Seq<char>>, os: Seq<Seq<char>>, pv: Seq<char>, pos: int, i: int)
    requires
        0 <= i < ps.len(),
        ps[i] == pv,
        0 <= pos <= os.len(),
        forall|t: int| 0 <= t < os.len() ==> !same_path(#[trigger] os[t], pv),
        class_covered(ps, os, i),
        forall|k: int| 0 <= k < os.len() ==> first_given_within(ps, #[trigger] os[k], i),
    ensures
        class_covered(ps, os.insert(pos, pv), i + 1),
        forall|k: int| 0 <= k < os.insert(pos, pv).len() ==> first_given_within(ps, #[trigger] os.insert(pos, pv)[k], i + 1),
{
    let ns = os.insert(pos, pv);
    assert forall|j: int| 0 <= j < i implies !same_path(#[trigger] ps[j], pv) by {
        let k = choose|k: int| 0 <= k < os.len() && (#[trigger] ps[j] == #[trigger] os[k] || same_path_class(ps[j], os[k]));
        assert(!same_path(os[k], pv));
        if ps[j] != os[k] {
            assert(same_path(ps[j], pv) == same_path(os[k], pv));
        }
    }
    assert(first_given_within(ps, pv, i + 1)) by {
        assert(ps[i] == pv);
    }
    assert forall|j: int| 0 <= j < i + 1 implies exists|k: int|
        0 <= k < ns.len() && (#[trigger] ps[j] == #[trigger] ns[k] || same_path_class(ps[j], ns[k])) by {
        if j == i {
            assert(ns[pos] == pv);
            assert(ps[j] == ns[pos]);
        } else {
            let k = choose|k: int| 0 <= k < os.len() && (#[trigger] ps[j] == #[trigger] os[k] || same_path_class(ps[j], os[k]));
            if k < pos {
                assert(ns[k] == os[k]);
            } else {
                assert(ns[k + 1] == os[k]);
            }
        }
    }
    assert forall|k: int| 0 <= k < ns.len() implies first_given_within(ps, #[trigger] ns[k], i + 1) by {
        if k == pos {
            assert(ns[k] == pv);
        } else {
            let o = if k < pos { k } else { k - 1 };
            assert(ns[k] == os[o]);
            assert(first_given_within(ps, os[o], i));
        }
    }
}

/// Sorts paths by path order and keeps one of each group of equal paths (the
/// first given), as sorting and then removing repeats does.
pub fn sort_unique_paths(paths: Vec<String>) -> (r: Vec<String>)
    ensures
        sorted_unique_paths(texts(paths@), texts(r@)),
        keeps_first_given(texts(paths@), texts(r@)),
{
    let ghost ps = texts(paths@);
    let mut out: Vec<String> = Vec::new();
    let mut i: usize = 0;
    assert(ps.take(0) =~= Seq::<Seq<char>>::empty());
    assert(texts(out@) =~= Seq::<Seq<char>>::empty());
    while i < paths.len()
        invariant
            i <= paths@.len(),
            ps == texts(paths@),
            sorted_unique_paths(ps.take(i as int), texts(out@)),
            class_covered(ps, texts(out@), i as int),
            forall|k: int| 0 <= k < out@.len() ==> first_given_within(ps, #[trigger] texts(out@)[k], i as int),
        decreases paths@.len() - i,
    {
        let p = &paths[i];
        let ghost pv = p@;
        let ghost os = texts(out@);
        assert(ps.take(i + 1) =~= ps.take(i as int).push(pv));
        let mut q: usize = 0;
        let mut duplicate = false;
        while q < out.len()
            invariant_except_break
                q <= out@.len(),
                !duplicate,
                forall|t: int| 0 <= t < q ==> !same_path(pv, #[trigger] os[t]) && !same_path(os[t], pv),
            invariant
                os == texts(out@),
                pv == p@,
            ensures
                duplicate ==> q < out@.len() && same_path(pv, os[q as int]) && same_path_class(pv, os[q as int]),
                !duplicate ==> q == out@.len() && forall|t: int|
                    0 <= t < out@.len() ==> !same_path(pv, #[trigger] os[t]) && !same_path(os[t], pv),
            decreases out@.len() - q,
        {
            assert(os[q as int] == out@[q as int]@);
            if path_eq(p.as_str(), out[q].as_str()) {
                duplicate = true;
                break;
            }
            q = q + 1;
        }
        if duplicate {
            proof {
                lemma_skip_same_path(ps.take(i as int), os, pv, q as int);
                lemma_skip_first_given(ps, os, pv, q as int, i as int);
            }
        } else {
            let mut pos: usize = 0;
            while pos < out.len()
                invariant_except_break
                    pos <= out@.len(),
                    forall|t: int| 0 <= t < pos ==> path_precedes(#[trigger] os[t], pv),
                invariant
                    os == texts(out@),
                    pv == p@,
                    forall|t: int| 0 <= t < out@.len() ==> !same_path(pv, #[trigger] os[t]) && !same_path(os[t], pv),
                ensures
                    pos <= out@.len(),
                    forall|t: int| 0 <= t < pos ==> path_precedes(#[trigger] os[t], pv),
                    pos < out@.len() ==> path_precedes(pv, os[pos as int]),
                decreases out@.len() - pos,
            {
                assert(os[pos as int] == out@[pos as int]@);
                if path_less(p.as_str(), out[pos].as_str()) {
                    break;
                }
                assert(!same_path(pv, os[pos as int]));
                pos = pos + 1;
            }
            let copy = p.clone();
            proof {
                lemma_insert_new_path(ps.take(i as int), os, pv, pos as int);
                lemma_insert_first_given(ps, os, pv, pos as int, i as int);
            }
            out.insert(pos, copy);
            assert(texts(out@) =~= os.insert(pos as int, pv));
        }
        i = i + 1;
    }
    assert(ps.take(paths@.len() as int) =~= ps);
    out
}

/// The resolved paths of the buffer URIs, then the image URIs, of a document.
pub open spec fn dependency_candidates(
    base: Option<Seq<char>>,
    buffers: Seq<Option<Seq<char>>>,
    images: Seq<Option<Seq<char>>>,
) -> Seq<Seq<char>> {
    resolved_paths(base, buffers + images)
}

/// The resolved paths of the URIs that name external files, in order.
pub open spec fn resolved_paths(base: Option<Seq<char>>, uris: Seq<Option<Seq<char>>>) -> Seq<Seq<char>>
    decreases uris.len(),
{
    if uris.len() == 0 {
        Seq::empty()
    } else {
        let rest = resolved_paths(base, uris.drop_last());
        match uris.last() {
            Some(uri) => match resolved_uri(base, uri) {
                Some(p) => rest.push(p),
                None => rest,
            },
            None => rest,
        }
    }
}

fn collect_resolved(base: Option<&str>, uris: &Vec<Option<String>>, out: &mut Vec<String>)
    ensures
        texts(final(out)@) == texts(old(out)@) + resolved_paths(
            match base {
                Some(b) => Some(b@),
                None => None,
            },
            optional_texts(uris@),
        ),
{
    let ghost bv = match base {
        Some(b) => Some(b@),
        None => None,
    };
    let ghost start = texts(out@);
    let ghost us = optional_texts(uris@);
    let mut i: usize = 0;
    assert(us.take(0) =~= Seq::<Option<Seq<char>>>::empty());
    assert(texts(out@) =~= start + resolved_paths(bv, us.take(0)));
    while i < uris.len()
        invariant
            i <= uris@.len(),
            us == optional_texts(uris@),
            bv == (match base {
                Some(b) => Some(b@),
                None => None,
            }),
            texts(out@) == start + resolved_paths(bv, us.take(i as int)),
        decreases uris@.len() - i,
    {
        assert(us.take(i + 1).drop_last() =~= us.take(i as int));
        assert(us.take(i + 1).last() == us[i as int]);
        match &uris[i] {
            Some(uri) => {
                assert(us[i as int] == Some(uri@));
                match resolve_gltf_uri(base, uri.as_str()) {
                    Some(p) => {
                        let ghost before = texts(out@);
                        let ghost pv = p@;
                        out.push(p);
                        assert(texts(out@) =~= before.push(pv));
                        assert(texts(out@) =~= start + resolved_paths(bv, us.take(i + 1)));
                    },
                    None => {},
                }
            },
            None => {
                assert(us[i as int] is None);
            },
        }
        i = i + 1;
    }
    assert(us.take(uris@.len() as int) =~= us);
}

proof fn lemma_resolved_paths_append(base: Option<Seq<char>>, a: Seq<Option<Seq<char>>>, b: Seq<Option<Seq<char>>>)
    ensures
        resolved_paths(base, a + b) == resolved_paths(base, a) + resolved_paths(base, b),
    decreases b.len(),
{
    if b.len() == 0 {
        assert(a + b =~= a);
        assert(resolved_paths(base, a) + resolved_paths(base, b) =~= resolved_paths(base, a));
    } else {
        assert((a + b).drop_last() =~= a + b.drop_last());
        assert((a + b).last() == b.last());
        lemma_resolved_paths_append(base, a, b.drop_last());
        match b.last() {
            Some(uri) => match resolved_uri(base, uri) {
                Some(p) => {
                    assert(resolved_paths(base, a) + resolved_paths(base, b.drop_last()).push(p) =~= (
                    resolved_paths(base, a) + resolved_paths(base, b.drop_last())).push(p));
                },
                None => {},
            },
            None => {},
        }
    }
}

/// The external files named by a document's buffer URIs and image entries,
/// resolved against `base` (the document's directory, if it has one): blank and
/// `data:` URIs and images stored in buffer views are left out, and the paths
/// are sorted by path order with equal paths listed once.
pub fn gltf_dependency_paths(
    base: Option<&str>,
    buffers: &Vec<Option<String>>,
    images: &Vec<(bool, Option<String>)>,
) -> (r: Vec<String>)
    ensures
        sorted_unique_paths(
            dependency_candidates(
                optional_text(base),
                optional_texts(buffers@),
                image_file_uris(image_entries_view(images@)),
            ),
            texts(r@),
        ),
        keeps_first_given(
            dependency_candidates(
                optional_text(base),
                optional_texts(buffers@),
                image_file_uris(image_entries_view(images@)),
            ),
            texts(r@),
        ),
{
    let image_uris = image_file_uri_list(images);
    let mut candidates: Vec<String> = Vec::new();
    assert(texts(candidates@) =~= Seq::<Seq<char>>::empty());
    collect_resolved(base, buffers, &mut candidates);
    collect_resolved(base, &image_uris, &mut candidates);
    proof {
        lemma_resolved_paths_append(
            optional_text(base),
            optional_texts(buffers@),
            image_file_uris(image_entries_view(images@)),
        );
    }
    sort_unique_paths(candidates)
}

/// The external files a glTF document at `path` references: the buffer and
/// image URIs, resolved against the document's directory, blank and `data:`
/// URIs and images without a file URI left out, sorted by path order with
/// equal paths listed once.
pub fn gltf_document_dependencies(path: &str, document: &gltf::Document) -> (r: Vec<String>)
    ensures
        sorted_unique_paths(
            dependency_candidates(
                parent_of_path(path@),
                document_buffer_uris(*document),
                image_file_uris(document_image_entries(*document)),
            ),
            texts(r@),
        ),
        keeps_first_given(
            dependency_candidates(
                parent_of_path(path@),
                document_buffer_uris(*document),
                image_file_uris(document_image_entries(*document)),
            ),
            texts(r@),
        ),
{
    let base = path_parent(path);
    let base_ref: Option<&str> = match &base {
        Some(b) => Some(b.as_str()),
        None => None,
    };
    let buffers = buffer_uris(document);
    let images = image_entries(document);
    gltf_dependency_paths(base_ref, &buffers, &images)
}

/// For each material of a document's JSON, in document order, the texture
/// index of its metallic-roughness texture, if it has one.
pub uninterp spec fn document_material_metallic_roughness_textures(document: gltf::Document) -> Seq<Option<usize>>;

/// For each texture of a document's JSON, in document order, the index of its
/// source image.
pub uninterp spec fn document_texture_sources(document: gltf::Document) -> Seq<usize>;

/// Reads, through `gltf::Document::as_json`, each material's
/// `pbrMetallicRoughness.metallicRoughnessTexture.index` field, without
/// looking the texture up; the result is named by
/// `document_material_metallic_roughness_textures`.
#[verifier::external_body]
fn material_metallic_roughness_textures(document: &gltf::Document) -> (r: Vec<Option<usize>>)
    ensures
        r@ == document_material_metallic_roughness_textures(*document),
{
    let mut textures = Vec::new();
    for material in document.as_json().materials.iter() {
        textures.push(material.pbr_metallic_roughness.metallic_roughness_texture.as_ref().map(|info| info.index.value()));
    }
    textures
}

/// Reads, through `gltf::Document::as_json`, each texture's `source` field,
/// without looking the image up; the result is named by
/// `document_texture_sources`.
#[verifier::external_body]
fn texture_sources(document: &gltf::Document) -> (r: Vec<usize>)
    ensures
        r@ == document_texture_sources(*document),
{
    let mut sources = Vec::new();
    for texture in document.as_json().textures.iter() {
        sources.push(texture.source.value());
    }
    sources
}

/// The image behind a material's metallic-roughness texture: the texture's
/// source image, when the texture index names a texture and its source names
/// one of the `image_count` images; otherwise none.
pub open spec fn metallic_roughness_image(texture: Option<usize>, sources: Seq<usize>, image_count: nat) -> Option<usize> {
    match texture {
        Some(t) => if t < sources.len() && sources[t as int] < image_count {
            Some(sources[t as int])
        } else {
            None
        },
        None => None,
    }
}

/// The metallic-roughness image of each material, in order.
pub open spec fn metallic_roughness_images_of(
    textures: Seq<Option<usize>>,
    sources: Seq<usize>,
    image_count: nat,
) -> Seq<Option<usize>> {
    textures.map_values(|t: Option<usize>| metallic_roughness_image(t, sources, image_count))
}

/// Follows each material's metallic-roughness texture index to the texture's
/// source image, checking both indices (see `metallic_roughness_image`).
pub fn metallic_roughness_image_indices(
    material_textures: &[Option<usize>],
    texture_sources: &[usize],
    image_count: usize,
) -> (r: Vec<Option<usize>>)
    ensures
        r@ == metallic_roughness_images_of(material_textures@, texture_sources@, image_count as nat),
{
    let mut out: Vec<Option<usize>> = Vec::new();
    let mut i: usize = 0;
    while i < material_textures.len()
        invariant
            i <= material_textures@.len(),
            out@ == metallic_roughness_images_of(material_textures@, texture_sources@, image_count as nat).take(
                i as int,
            ),
        decreases material_textures@.len() - i,
    {
        let image: Option<usize> = match material_textures[i] {
            Some(t) => if t < texture_sources.len() && texture_sources[t] < image_count {
                Some(texture_sources[t])
            } else {
                None
            },
            None => None,
        };
        out.push(image);
        assert(out@ =~= metallic_roughness_images_of(material_textures@, texture_sources@, image_count as nat).take(
            i as int + 1,
        ));
        i = i + 1;
    }
    assert(metallic_roughness_images_of(material_textures@, texture_sources@, image_count as nat).take(
        material_textures@.len() as int,
    ) =~= metallic_roughness_images_of(material_textures@, texture_sources@, image_count as nat));
    out
}

/// The metallic-roughness image of each material of a document, in material
/// order, with both indices checked against the document's textures and images.
pub open spec fn document_metallic_roughness_images(document: gltf::Document) -> Seq<Option<usize>> {
    metallic_roughness_images_of(
        document_material_metallic_roughness_textures(document),
        document_texture_sources(document),
        document_image_entries(document).len(),
    )
}

/// The images of a document that materials use as packed metallic-roughness
/// maps, each once, ascending.
pub fn gltf_metallic_roughness_image_sources(document: &gltf::Document) -> (r: Vec<usize>)
    ensures
        strictly_sorted(r@),
        r@.to_set() == present_sources(document_metallic_roughness_images(*document)),
{
    let textures = material_metallic_roughness_textures(document);
    let sources = texture_sources(document);
    let images = image_entries(document);
    assert(images@.len() == document_image_entries(*document).len());
    let per_material = metallic_roughness_image_indices(textures.as_slice(), sources.as_slice(), images.len());
    distinct_sorted_sources(per_material.as_slice())
}

} // verus!
