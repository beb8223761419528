//! Conversion of imported image pixel data to 8-bit RGBA, and derivation of
//! separate metallic and roughness maps from a packed metallic-roughness map.

use vstd::prelude::*;

verus! {

/// Pixel layout of an imported image (mirrors the glTF importer's formats).
#[derive(Clone, Copy, Debug, PartialEq, Eq, Structural)]
pub enum GltfImageFormat {
    R8,
    R8G8,
    R8G8B8,
    R8G8B8A8,
    R16,
    R16G16,
    R16G16B16,
    R16G16B16A16,
    R32G32B32FLOAT,
    R32G32B32A32FLOAT,
}

/// Channel `k` (0..4) of RGBA pixel `p` expanded from 8-bit data with `c` channels:
/// missing colour channels repeat the first channel, missing alpha is opaque.
pub open spec fn expand_u8_channel(pixels: Seq<u8>, c: int, p: int, k: int) -> u8 {
    if k < c {
        pixels[p * c + k]
    } else if k == 3 {
        255u8
    } else {
        pixels[p * c]
    }
}

/// An 8-bit value from a little-endian 16-bit value, scaled by 255/65535 and rounded down.
pub open spec fn narrow_u16(lo: u8, hi: u8) -> u8 {
    ((lo + 256 * hi) / 257) as u8
}

/// A 16-bit channel is read little-endian (low byte first) and narrowed to its
/// high byte, one less when the low byte is below the high byte: the result is
/// the largest 8-bit value whose 16-bit widening (`v * 257`) does not exceed
/// the channel. Full-scale values stay full-scale.
pub proof fn lemma_narrow_u16_keeps_high_byte(lo: u8, hi: u8)
    ensures
        narrow_u16(lo, hi) == (if lo >= hi { hi } else { (hi - 1) as u8 }),
        narrow_u16(lo, hi) * 257 <= lo + 256 * hi < (narrow_u16(lo, hi) + 1) * 257,
        narrow_u16(hi, hi) == hi,
{
    let v: int = lo + 256 * hi;
    if lo >= hi {
        assert(257 * hi <= v < 257 * (hi + 1)) by (nonlinear_arith)
            requires
                v == lo + 256 * hi,
                lo >= hi,
                lo < 256,
        ;
        assert(v / 257 == hi) by (nonlinear_arith)
            requires
                257 * hi <= v < 257 * (hi + 1),
        ;
    } else {
        assert(257 * (hi - 1) <= v < 257 * hi) by (nonlinear_arith)
            requires
                v == lo + 256 * hi,
                lo < hi,
                lo >= 0,
        ;
        assert(v / 257 == hi - 1) by (nonlinear_arith)
            requires
                257 * (hi - 1) <= v < 257 * hi,
        ;
    }
    let hv: int = hi + 256 * hi;
    assert(hv / 257 == hi) by (nonlinear_arith)
        requires
            hv == hi + 256 * hi,
    ;
}

/// Each colour channel of a 16-bit pixel present in the data is the channel's
/// high byte (the second byte of its little-endian pair), less one when its low
/// byte is below it.
pub proof fn lemma_u16_channel_from_pair(pixels: Seq<u8>, c: int, p: int, k: int)
    requires
        0 <= k < c,
    ensures
        ({
            let lo = pixels[p * (2 * c) + 2 * k];
            let hi = pixels[p * (2 * c) + 2 * k + 1];
            expand_u16_channel(pixels, c, p, k) == (if lo >= hi { hi } else { (hi - 1) as u8 })
        }),
{
    lemma_narrow_u16_keeps_high_byte(pixels[p * (2 * c) + 2 * k], pixels[p * (2 * c) + 2 * k + 1]);
}

/// Channel `k` (0..4) of RGBA pixel `p` expanded from 16-bit little-endian data with `c` channels.
pub open spec fn expand_u16_channel(pixels: Seq<u8>, c: int, p: int, k: int) -> u8 {
    if k < c {
        narrow_u16(pixels[p * (2 * c) + 2 * k], pixels[p * (2 * c) + 2 * k + 1])
    } else if k == 3 {
        255u8
    } else {
        narrow_u16(pixels[p * (2 * c)], pixels[p * (2 * c) + 1])
    }
}

/// `r` holds one RGBA pixel per whole `chunk`-byte group of the input, each channel given by `f`.
pub open spec fn rgba_per_chunk(r: Seq<u8>, n: int, f: spec_fn(int, int) -> u8) -> bool {
    &&& r.len() == 4 * n
    &&& forall|p: int, k: int| 0 <= p < n && 0 <= k < 4 ==> #[trigger] r[4 * p + k] == f(p, k)
}

proof fn lemma_chunk_in_bounds(p: int, n: int, c: int, len: int)
    requires
        0 <= p < n,
        n == len / c,
        c > 0,
        len >= 0,
    ensures
        p * c + c <= len,
        0 <= p * c,
{
    assert(p * c + c <= n * c) by (nonlinear_arith)
        requires
            p < n,
            c > 0,
    ;
    assert(n * c <= len) by (nonlinear_arith)
        requires
            n == len / c,
            c > 0,
            len >= 0,
    ;
    assert(0 <= p * c) by (nonlinear_arith)
        requires
            p >= 0,
            c > 0,
    ;
}

/// Expands 8-bit pixels with `channels` channels to RGBA.
pub fn expand_u8_pixels(pixels: &[u8], channels: usize) -> (r: Vec<u8>)
    requires
        channels > 0,
    ensures
        rgba_per_chunk(
            r@,
            (pixels@.len() as int) / channels as int,
            |p: int, k: int| expand_u8_channel(pixels@, channels as int, p, k),
        ),
{
    let len = pixels.len();
    let n = len / channels;
    let mut rgba: Vec<u8> = Vec::new();
    let mut p: usize = 0;
    while p < n
        invariant
            channels > 0,
            n == (pixels@.len() as int) / channels as int,
            len == pixels@.len(),
            p <= n,
            rgba@.len() == 4 * p,
            forall|q: int, k: int|
                0 <= q < p && 0 <= k < 4 ==> #[trigger] rgba@[4 * q + k] == expand_u8_channel(
                    pixels@,
                    channels as int,
                    q,
                    k,
                ),
        decreases n - p,
    {
        proof {
            lemma_chunk_in_bounds(p as int, n as int, channels as int, pixels@.len() as int);
        }
        let base = p * channels;
        let first = pixels[base];
        let g = if channels > 1 { pixels[base + 1] } else { first };
        let b = if channels > 2 { pixels[base + 2] } else { first };
        let a = if channels > 3 { pixels[base + 3] } else { 255u8 };
        rgba.push(first);
        rgba.push(g);
        rgba.push(b);
        rgba.push(a);
        assert forall|q: int, k: int| 0 <= q < p + 1 && 0 <= k < 4 implies #[trigger] rgba@[4 * q + k]
            == expand_u8_channel(pixels@, channels as int, q, k) by {
            if q == p {
                assert(p * channels + 0 == base);
            }
        }
        p = p + 1;
    }
    rgba
}

/// Expands 16-bit little-endian pixels with `channels` channels to 8-bit RGBA.
pub fn expand_u16_pixels(pixels: &[u8], channels: usize) -> (r: Vec<u8>)
    requires
        channels > 0,
        2 * channels <= usize::MAX,
    ensures
        rgba_per_chunk(
            r@,
            (pixels@.len() as int) / (2 * channels as int),
            |p: int, k: int| expand_u16_channel(pixels@, channels as int, p, k),
        ),
{
    let stride = channels * 2;
    let len = pixels.len();
    let n = len / stride;
    let mut rgba: Vec<u8> = Vec::new();
    let mut p: usize = 0;
    while p < n
        invariant
            channels > 0,
            stride == 2 * channels,
            n == (pixels@.len() as int) / stride as int,
            len == pixels@.len(),
            p <= n,
            rgba@.len() == 4 * p,
            forall|q: int, k: int|
                0 <= q < p && 0 <= k < 4 ==> #[trigger] rgba@[4 * q + k] == expand_u16_channel(
                    pixels@,
                    channels as int,
                    q,
                    k,
                ),
        decreases n - p,
    {
        proof {
            lemma_chunk_in_bounds(p as int, n as int, stride as int, pixels@.len() as int);
        }
        let base = p * stride;
        let mut k: usize = 0;
        let ghost before = rgba@;
        while k < 4
            invariant
                k <= 4,
                channels > 0,
                stride == 2 * channels,
                base == p * stride,
                base + stride <= pixels@.len(),
                len == pixels@.len(),
                rgba@.len() == 4 * p + k,
                rgba@.subrange(0, 4 * p as int) == before,
                forall|j: int| 0 <= j < k ==> #[trigger] rgba@[4 * p + j] == expand_u16_channel(
                    pixels@,
                    channels as int,
                    p as int,
                    j,
                ),
            decreases 4 - k,
        {
            let value: u8 = if k < channels {
                let lo = pixels[base + 2 * k] as u32;
                let hi = pixels[base + 2 * k + 1] as u32;
                ((lo + 256 * hi) / 257) as u8
            } else if k == 3 {
                255u8
            } else {
                let lo = pixels[base] as u32;
                let hi = pixels[base + 1] as u32;
                ((lo + 256 * hi) / 257) as u8
            };
            rgba.push(value);
            k = k + 1;
        }
        assert forall|q: int, j: int| 0 <= q < p + 1 && 0 <= j < 4 implies #[trigger] rgba@[4 * q + j]
            == expand_u16_channel(pixels@, channels as int, q, j) by {
            if q < p {
                assert(rgba@[4 * q + j] == rgba@.subrange(0, 4 * p as int)[4 * q + j]);
            }
        }
        p = p + 1;
    }
    rgba
}

/// Pixel `p` of a grey map taken from byte `channel` of each RGBA pixel.
pub open spec fn grey_channel(rgba: Seq<u8>, channel: int, p: int, k: int) -> u8 {
    if k == 3 {
        255u8
    } else {
        rgba[4 * p + channel]
    }
}

fn grey_from_channel(rgba: &[u8], channel: usize) -> (r: Vec<u8>)
    requires
        channel < 4,
    ensures
        rgba_per_chunk(r@, (rgba@.len() as int) / 4, |p: int, k: int| grey_channel(rgba@, channel as int, p, k)),
{
    let len = rgba.len();
    let n = len / 4;
    let mut out: Vec<u8> = Vec::new();
    let mut p: usize = 0;
    while p < n
        invariant
            channel < 4,
            n == (rgba@.len() as int) / 4,
            len == rgba@.len(),
            p <= n,
            out@.len() == 4 * p,
            forall|q: int, k: int|
                0 <= q < p && 0 <= k < 4 ==> #[trigger] out@[4 * q + k] == grey_channel(
                    rgba@,
                    channel as int,
                    q,
                    k,
                ),
        decreases n - p,
    {
        let value = rgba[4 * p + channel];
        out.push(value);
        out.push(value);
        out.push(value);
        out.push(255u8);
        p = p + 1;
    }
    out
}

/// Metallic map from a packed metallic-roughness RGBA map: the blue channel as grey, opaque.
pub fn metallic_rgba_from_metallic_roughness_rgba(rgba: &[u8]) -> (r: Vec<u8>)
    ensures
        rgba_per_chunk(r@, (rgba@.len() as int) / 4, |p: int, k: int| grey_channel(rgba@, 2, p, k)),
{
    grey_from_channel(rgba, 2)
}

/// Roughness map from a packed metallic-roughness RGBA map: the green channel as grey, opaque.
pub fn roughness_rgba_from_metallic_roughness_rgba(rgba: &[u8]) -> (r: Vec<u8>)
    ensures
        rgba_per_chunk(r@, (rgba@.len() as int) / 4, |p: int, k: int| grey_channel(rgba@, 1, p, k)),
{
    grey_from_channel(rgba, 1)
}

/// Whether a format stores floating-point channels.
pub open spec fn is_float_format(format: GltfImageFormat) -> bool {
    format is R32G32B32FLOAT || format is R32G32B32A32FLOAT
}

/// Number of channels of an integer format.
pub open spec fn format_channels(format: GltfImageFormat) -> int {
    match format {
        GltfImageFormat::R8 | GltfImageFormat::R16 => 1,
        GltfImageFormat::R8G8 | GltfImageFormat::R16G16 => 2,
        GltfImageFormat::R8G8B8 | GltfImageFormat::R16G16B16 | GltfImageFormat::R32G32B32FLOAT => 3,
        _ => 4,
    }
}

/// Whether a format stores 16-bit channels.
pub open spec fn is_u16_format(format: GltfImageFormat) -> bool {
    format is R16 || format is R16G16 || format is R16G16B16 || format is R16G16B16A16
}

/// Converts imported pixels to 8-bit RGBA. Floating-point formats are not
/// handled here (`None`); 8-bit RGBA is copied as is.
pub fn gltf_image_to_rgba(format: GltfImageFormat, pixels: &[u8]) -> (r: Option<Vec<u8>>)
    ensures
        r is None <==> is_float_format(format),
        format is R8G8B8A8 ==> r is Some && r->0@ == pixels@,
        !is_float_format(format) && !is_u16_format(format) && !(format is R8G8B8A8) ==> r is Some
            && rgba_per_chunk(
            r->0@,
            (pixels@.len() as int) / format_channels(format),
            |p: int, k: int| expand_u8_channel(pixels@, format_channels(format), p, k),
        ),
        is_u16_format(format) ==> r is Some && rgba_per_chunk(
            r->0@,
            (pixels@.len() as int) / (2 * format_channels(format)),
            |p: int, k: int| expand_u16_channel(pixels@, format_channels(format), p, k),
        ),
{
    match format {
        GltfImageFormat::R8 => Some(expand_u8_pixels(pixels, 1)),
        GltfImageFormat::R8G8 => Some(expand_u8_pixels(pixels, 2)),
        GltfImageFormat::R8G8B8 => Some(expand_u8_pixels(pixels, 3)),
        GltfImageFormat::R8G8B8A8 => {
            let mut copy: Vec<u8> = Vec::new();
            copy.extend_from_slice(pixels);
            Some(copy)
        },
        GltfImageFormat::R16 => Some(expand_u16_pixels(pixels, 1)),
        GltfImageFormat::R16G16 => Some(expand_u16_pixels(pixels, 2)),
        GltfImageFormat::R16G16B16 => Some(expand_u16_pixels(pixels, 3)),
        GltfImageFormat::R16G16B16A16 => Some(expand_u16_pixels(pixels, 4)),
        GltfImageFormat::R32G32B32FLOAT => None,
        GltfImageFormat::R32G32B32A32FLOAT => None,
    }
}

/// Strictly increasing.
pub open spec fn strictly_sorted(s: Seq<usize>) -> bool {
    forall|i: int, j: int| 0 <= i < j < s.len() ==> #[trigger] s[i] < #[trigger] s[j]
}

/// The image indices that the materials use as packed metallic-roughness maps.
pub open spec fn present_sources(sources: Seq<Option<usize>>) -> Set<usize> {
    Set::new(|x: usize| exists|i: int| 0 <= i < sources.len() && sources[i] == Some(x))
}

/// Inserts `x` into a strictly increasing vector unless present.
fn insert_sorted(v: &mut Vec<usize>, x: usize)
    requires
        strictly_sorted(old(v)@),
    ensures
        strictly_sorted(final(v)@),
        final(v)@.to_set() == old(v)@.to_set().insert(x),
{
    let mut i: usize = 0;
    while i < v.len() && v[i] < x
        invariant
            i <= v@.len(),
            forall|j: int| 0 <= j < i ==> #[trigger] v@[j] < x,
        decreases v@.len() - i,
    {
        i = i + 1;
    }
    let ghost s = v@;
    if i < v.len() && v[i] == x {
        assert(s.to_set().insert(x) =~= s.to_set()) by {
            assert(s.contains(x)) by { assert(s[i as int] == x); }
        }
        return;
    }
    v.insert(i, x);
    assert(v@ =~= s.subrange(0, i as int).push(x) + s.subrange(i as int, s.len() as int));
    assert forall|a: int, b: int| 0 <= a < b < v@.len() implies #[trigger] v@[a] < #[trigger] v@[b] by {
        if b < i {
        } else if b == i {
        } else if a < i {
            assert(s[b - 1] > x || s[b - 1] >= s[i as int]);
        } else if a == i {
            assert(s[i as int] > x);
            assert(s[b - 1] >= s[i as int]);
        } else {
        }
    }
    assert forall|y: usize| #[trigger] v@.to_set().contains(y) == s.to_set().insert(x).contains(y) by {
        if v@.contains(y) {
            let k = choose|k: int| 0 <= k < v@.len() && v@[k] == y;
            if k < i {
                assert(s[k] == y);
            } else if k > i {
                assert(s[k - 1] == y);
            }
        }
        if s.contains(y) {
            let k = choose|k: int| 0 <= k < s.len() && s[k] == y;
            if k < i {
                assert(v@[k] == y);
            } else {
                assert(v@[k + 1] == y);
            }
        }
        if y == x {
            assert(v@[i as int] == x);
        }
    }
    assert(v@.to_set() =~= s.to_set().insert(x));
}

proof fn lemma_present_sources_step(s: Seq<Option<usize>>, i: int)
    requires
        0 <= i < s.len(),
    ensures
        present_sources(s.take(i + 1)) == match s[i] {
            Some(x) => present_sources(s.take(i)).insert(x),
            None => present_sources(s.take(i)),
        },
{
    let a = s.take(i);
    let b = s.take(i + 1);
    let expected = match s[i] {
        Some(x) => present_sources(a).insert(x),
        None => present_sources(a),
    };
    assert forall|y: usize| #[trigger] present_sources(b).contains(y) implies expected.contains(y) by {
        let k = choose|k: int| 0 <= k < b.len() && #[trigger] b[k] == Some(y);
        if k < i {
            assert(a[k] == Some(y));
        }
    }
    assert forall|y: usize| #[trigger] expected.contains(y) implies present_sources(b).contains(y) by {
        if s[i] == Some(y) {
            assert(b[i] == Some(y));
        } else {
            let k = choose|k: int| 0 <= k < a.len() && #[trigger] a[k] == Some(y);
            assert(b[k] == Some(y));
        }
    }
    assert(present_sources(b) =~= expected);
}

/// The distinct image indices used as packed metallic-roughness maps, ascending.
/// `sources[i]` is the metallic-roughness image of material `i`, if it has one.
pub fn distinct_sorted_sources(sources: &[Option<usize>]) -> (r: Vec<usize>)
    ensures
        strictly_sorted(r@),
        r@.to_set() == present_sources(sources@),
{
    let mut out: Vec<usize> = Vec::new();
    let mut i: usize = 0;
    assert(present_sources(sources@.take(0)) =~= Set::empty());
    assert(out@.to_set() =~= Set::empty());
    while i < sources.len()
        invariant
            i <= sources@.len(),
            strictly_sorted(out@),
            out@.to_set() == present_sources(sources@.take(i as int)),
        decreases sources@.len() - i,
    {
        proof {
            lemma_present_sources_step(sources@, i as int);
        }
        match sources[i] {
            Some(x) => {
                insert_sorted(&mut out, x);
            },
            None => {},
        }
        i = i + 1;
    }
    assert(sources@.take(sources@.len() as int) =~= sources@);
    out
}

/// What an extracted texture holds: an image as imported, or the metallic or
/// roughness channel of a packed metallic-roughness image.
#[derive(Clone, Copy, Debug, PartialEq, Eq, Structural)]
pub enum ExtractedImageRole {
    Metallic,
    Roughness,
    Imported,
}

/// The textures extracted for image `idx`: for a packed metallic-roughness
/// image its metallic and then its roughness texture, then the image itself.
pub open spec fn extracted_for(idx: usize, packed: Seq<usize>) -> Seq<(usize, ExtractedImageRole)> {
    if packed.contains(idx) {
        seq![(idx, ExtractedImageRole::Metallic), (idx, ExtractedImageRole::Roughness), (idx, ExtractedImageRole::Imported)]
    } else {
        seq![(idx, ExtractedImageRole::Imported)]
    }
}

/// The textures extracted for the first `n` images, image by image.
pub open spec fn extracted_images(n: nat, packed: Seq<usize>) -> Seq<(usize, ExtractedImageRole)>
    decreases n,
{
    if n == 0 {
        Seq::empty()
    } else {
        extracted_images((n - 1) as nat, packed) + extracted_for((n - 1) as usize, packed)
    }
}

/// The order of the textures extracted from `image_count` images, of which the
/// ones listed in `packed` are packed metallic-roughness maps.
pub fn plan_extracted_images(image_count: usize, packed: &[usize]) -> (r: Vec<(usize, ExtractedImageRole)>)
    ensures
        r@ == extracted_images(image_count as nat, packed@),
{
    let mut out: Vec<(usize, ExtractedImageRole)> = Vec::new();
    let mut idx: usize = 0;
    while idx < image_count
        invariant
            idx <= image_count,
            out@ == extracted_images(idx as nat, packed@),
        decreases image_count - idx,
    {
        let mut is_packed = false;
        let mut k: usize = 0;
        while k < packed.len()
            invariant
                k <= packed@.len(),
                is_packed == (exists|j: int| 0 <= j < k && packed@[j] == idx),
            decreases packed@.len() - k,
        {
            if packed[k] == idx {
                is_packed = true;
            }
            k = k + 1;
        }
        assert(is_packed == packed@.contains(idx));
        if is_packed {
            out.push((idx, ExtractedImageRole::Metallic));
            out.push((idx, ExtractedImageRole::Roughness));
        }
        out.push((idx, ExtractedImageRole::Imported));
        assert(out@ =~= extracted_images((idx + 1) as nat, packed@));
        idx = idx + 1;
    }
    out
}

} // verus!
