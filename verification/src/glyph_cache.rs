//! The glyph cache of the text atlas: for each font, character and pixel
//! height, the outcome of packing its glyph (where it lies, or that it has
//! none), so that each glyph is rasterized and packed once.

use vstd::prelude::*;
use crate::assoc::{assoc_map, keys_unique, lemma_assoc_dom, lemma_assoc_index, lemma_assoc_update, lemma_push_fresh_unique};
use crate::chars::str_equal;
use crate::fonts::GameFontId;

verus! {

/// A cache key read as font id text, character and pixel height.
pub type GlyphKeyView = (Seq<char>, char, u32);

/// The glyph of a character of a font at a pixel height.
#[derive(Debug)]
pub struct GlyphCacheKey {
    pub font: GameFontId,
    pub ch: char,
    pub pixel_height: u32,
}

impl View for GlyphCacheKey {
    type V = GlyphKeyView;

    open spec fn view(&self) -> GlyphKeyView {
        (self.font@, self.ch, self.pixel_height)
    }
}

impl GlyphCacheKey {
    /// A copy of this key.
    pub fn duplicate(&self) -> (r: Self)
        ensures
            r@ == self@,
    {
        GlyphCacheKey { font: self.font.duplicate(), ch: self.ch, pixel_height: self.pixel_height }
    }

    /// Whether two keys name the same glyph.
    pub fn same_as(&self, other: &GlyphCacheKey) -> (r: bool)
        ensures
            r == (self@ == other@),
    {
        self.ch == other.ch && self.pixel_height == other.pixel_height && str_equal(
            self.font.as_str(),
            other.font.as_str(),
        )
    }
}

/// Cached packing outcomes `V` by glyph.
pub struct GlyphCache<V> {
    entries: Vec<(GlyphCacheKey, V)>,
}

/// The entries read as key views and outcomes.
pub open spec fn cache_entries<V>(v: Seq<(GlyphCacheKey, V)>) -> Seq<(GlyphKeyView, V)> {
    v.map_values(|e: (GlyphCacheKey, V)| (e.0@, e.1))
}

impl<V> View for GlyphCache<V> {
    type V = Map<GlyphKeyView, V>;

    closed spec fn view(&self) -> Map<GlyphKeyView, V> {
        assoc_map(cache_entries(self.entries@))
    }
}

impl<V> GlyphCache<V> {
    #[verifier::type_invariant]
    spec fn inv(self) -> bool {
        keys_unique(cache_entries(self.entries@))
    }
}

impl<V: Copy> GlyphCache<V> {
    /// An empty cache.
    pub fn new() -> (r: Self)
        ensures
            r@ == Map::<GlyphKeyView, V>::empty(),
    {
        let r = GlyphCache { entries: Vec::new() };
        assert(cache_entries(r.entries@) =~= Seq::empty());
        r
    }

    fn find(&self, key: &GlyphCacheKey) -> (r: Option<usize>)
        ensures
            match r {
                Some(i) => i < self.entries@.len() && self.entries@[i as int].0@ == key@,
                None => forall|i: int| 0 <= i < self.entries@.len() ==> #[trigger] self.entries@[i].0@ != key@,
            },
    {
        let mut i: usize = 0;
        while i < self.entries.len()
            invariant
                i <= self.entries@.len(),
                forall|j: int| 0 <= j < i ==> #[trigger] self.entries@[j].0@ != key@,
            decreases self.entries@.len() - i,
        {
            if self.entries[i].0.same_as(key) {
                return Some(i);
            }
            i = i + 1;
        }
        None
    }

    /// The cached outcome for a glyph, `None` when it was never packed.
    pub fn lookup(&self, key: &GlyphCacheKey) -> (r: Option<V>)
        ensures
            r == (if self@.dom().contains(key@) {
                Some(self@[key@])
            } else {
                None::<V>
            }),
    {
        proof {
            use_type_invariant(self);
            lemma_assoc_dom(cache_entries(self.entries@), key@);
        }
        match self.find(key) {
            Some(i) => {
                proof {
                    lemma_assoc_index(cache_entries(self.entries@), i as int);
                }
                Some(self.entries[i].1)
            },
            None => {
                assert forall|j: int| 0 <= j < cache_entries(self.entries@).len() implies #[trigger] cache_entries(
                    self.entries@,
                )[j].0 != key@ by {
                    assert(self.entries@[j].0@ != key@);
                }
                None
            },
        }
    }

    /// Records the outcome of packing a glyph.
    pub fn remember(&mut self, key: GlyphCacheKey, outcome: V)
        ensures
            final(self)@ == old(self)@.insert(key@, outcome),
    {
        proof {
            use_type_invariant(&*self);
        }
        let ghost entries = cache_entries(self.entries@);
        match self.find(&key) {
            Some(i) => {
                proof {
                    assert(entries[i as int].0 == key@);
                    lemma_assoc_update(entries, i as int, outcome);
                    assert(cache_entries(self.entries@.update(i as int, (key, outcome))) =~= entries.update(
                        i as int,
                        (entries[i as int].0, outcome),
                    ));
                }
                let mut entries_vec: Vec<(GlyphCacheKey, V)> = Vec::new();
                std::mem::swap(&mut entries_vec, &mut self.entries);
                entries_vec.set(i, (key, outcome));
                self.entries = entries_vec;
            },
            None => {
                proof {
                    assert forall|j: int| 0 <= j < entries.len() implies #[trigger] entries[j].0 != key@ by {
                        assert(self.entries@[j].0@ != key@);
                    }
                    lemma_push_fresh_unique(entries, (key@, outcome));
                    assert(cache_entries(self.entries@.push((key, outcome))) =~= entries.push((key@, outcome)));
                }
                let mut entries_vec: Vec<(GlyphCacheKey, V)> = Vec::new();
                std::mem::swap(&mut entries_vec, &mut self.entries);
                entries_vec.push((key, outcome));
                self.entries = entries_vec;
            },
        }
    }
}

/// A glyph remembered in the cache is found again with the same outcome, and
/// remembering one glyph leaves the outcomes of all others as they were.
pub proof fn lemma_cache_remembers<V>(
    cache: Map<GlyphKeyView, V>,
    key: GlyphKeyView,
    outcome: V,
    other: GlyphKeyView,
)
    ensures
        cache.insert(key, outcome).dom().contains(key),
        cache.insert(key, outcome)[key] == outcome,
        other != key ==> (cache.insert(key, outcome).dom().contains(other) == cache.dom().contains(other)),
        other != key && cache.dom().contains(other) ==> cache.insert(key, outcome)[other] == cache[other],
{
}

} // verus!
