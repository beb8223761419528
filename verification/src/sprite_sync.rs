//! Keeping the renderer's sprite textures in step with the sprite assets:
//! textures of sprites no billboard shows any more are dropped, and a sprite
//! shown by a billboard is uploaded when its texture is missing or older than
//! the registered image.

use vstd::prelude::*;
use crate::assoc::{assoc_map, keys_unique, lemma_assoc_dom, lemma_assoc_index};
use crate::sprite::{SpriteAsset, SpriteAssets, SpriteId};

verus! {

/// The uploaded textures read as sprite id text and revision.
pub open spec fn texture_entries(cached: Seq<(SpriteId, u64)>) -> Seq<(Seq<char>, u64)> {
    cached.map_values(|e: (SpriteId, u64)| (e.0@, e.1))
}

/// Sprite ids read as their texts.
pub open spec fn id_texts(ids: Seq<SpriteId>) -> Seq<Seq<char>> {
    ids.map_values(|id: SpriteId| id@)
}

/// A shown sprite needs an upload: it is registered, and no texture of its
/// current revision is uploaded.
pub open spec fn needs_upload(
    uploaded: Map<Seq<char>, u64>,
    assets: Map<Seq<char>, SpriteAsset>,
    id: Seq<char>,
) -> bool {
    assets.dom().contains(id) && !(uploaded.dom().contains(id) && uploaded[id] == assets[id].revision)
}

/// What to do with the sprite textures this frame.
#[derive(Debug)]
pub struct SpriteTextureSync {
    /// Uploaded textures to drop, in upload-list order.
    pub evict: Vec<SpriteId>,
    /// Sprites to upload (again), each once, in the order they are first shown.
    pub upload: Vec<SpriteId>,
}

fn contains_id(ids: &[SpriteId], id: &SpriteId) -> (r: bool)
    ensures
        r == id_texts(ids@).contains(id@),
{
    let mut i: usize = 0;
    while i < ids.len()
        invariant
            i <= ids@.len(),
            forall|k: int| 0 <= k < i ==> #[trigger] ids@[k]@ != id@,
        decreases ids@.len() - i,
    {
        if ids[i].same_as(id) {
            assert(id_texts(ids@)[i as int] == id@);
            return true;
        }
        i = i + 1;
    }
    proof {
        if id_texts(ids@).contains(id@) {
            let k = choose|k: int| 0 <= k < id_texts(ids@).len() && id_texts(ids@)[k] == id@;
            assert(ids@[k]@ == id@);
        }
    }
    false
}

fn uploaded_revision(cached: &[(SpriteId, u64)], id: &SpriteId) -> (r: Option<u64>)
    requires
        keys_unique(texture_entries(cached@)),
    ensures
        r == (if assoc_map(texture_entries(cached@)).dom().contains(id@) {
            Some(assoc_map(texture_entries(cached@))[id@])
        } else {
            None::<u64>
        }),
{
    let ghost es = texture_entries(cached@);
    proof {
        lemma_assoc_dom(es, id@);
    }
    let mut i: usize = 0;
    while i < cached.len()
        invariant
            i <= cached@.len(),
            es == texture_entries(cached@),
            keys_unique(es),
            forall|k: int| 0 <= k < i ==> #[trigger] es[k].0 != id@,
        decreases cached@.len() - i,
    {
        if cached[i].0.same_as(id) {
            proof {
                lemma_assoc_index(es, i as int);
            }
            return Some(cached[i].1);
        }
        assert(es[i as int].0 == cached@[i as int].0@);
        i = i + 1;
    }
    None
}

/// Plans the texture updates of a frame from the uploaded textures (sprite id
/// and the revision uploaded, each id once), the sprite ids the billboards
/// show, and the registered sprites.
pub fn plan_sprite_texture_sync(
    cached: &[(SpriteId, u64)],
    shown: &[SpriteId],
    assets: &SpriteAssets,
) -> (r: SpriteTextureSync)
    requires
        keys_unique(texture_entries(cached@)),
    ensures
        id_texts(r.evict@) == texture_entries(cached@).map_values(|e: (Seq<char>, u64)| e.0).filter(
            |t: Seq<char>| !id_texts(shown@).contains(t),
        ),
        id_texts(r.upload@).no_duplicates(),
        forall|t: Seq<char>|
            #[trigger] id_texts(r.upload@).contains(t) <==> (id_texts(shown@).contains(t) && needs_upload(
                assoc_map(texture_entries(cached@)),
                assets@,
                t,
            )),
{
    let ghost keys = texture_entries(cached@).map_values(|e: (Seq<char>, u64)| e.0);
    let ghost pred = |t: Seq<char>| !id_texts(shown@).contains(t);
    let mut evict: Vec<SpriteId> = Vec::new();
    let mut i: usize = 0;
    proof {
        reveal(Seq::filter);
        assert(keys.take(0) =~= Seq::<Seq<char>>::empty());
        assert(id_texts(evict@) =~= Seq::<Seq<char>>::empty());
    }
    while i < cached.len()
        invariant
            i <= cached@.len(),
            keys == texture_entries(cached@).map_values(|e: (Seq<char>, u64)| e.0),
            pred == (|t: Seq<char>| !id_texts(shown@).contains(t)),
            id_texts(evict@) == keys.take(i as int).filter(pred),
        decreases cached@.len() - i,
    {
        proof {
            reveal(Seq::filter);
            assert(keys.take(i + 1).drop_last() =~= keys.take(i as int));
            assert(keys.take(i + 1).last() == cached@[i as int].0@);
        }
        let id = &cached[i].0;
        if !contains_id(shown, id) {
            let ghost before = evict@;
            evict.push(id.duplicate());
            assert(id_texts(evict@) =~= id_texts(before).push(id@));
        }
        i = i + 1;
    }
    assert(keys.take(cached@.len() as int) =~= keys);
    let ghost uploaded = assoc_map(texture_entries(cached@));
    let mut upload: Vec<SpriteId> = Vec::new();
    let mut j: usize = 0;
    while j < shown.len()
        invariant
            j <= shown@.len(),
            keys_unique(texture_entries(cached@)),
            uploaded == assoc_map(texture_entries(cached@)),
            id_texts(evict@) == keys.filter(pred),
            id_texts(upload@).no_duplicates(),
            forall|t: Seq<char>|
                #[trigger] id_texts(upload@).contains(t) <==> (id_texts(shown@.take(j as int)).contains(t)
                    && needs_upload(uploaded, assets@, t)),
        decreases shown@.len() - j,
    {
        let id = &shown[j];
        let ghost before = upload@;
        assert(id_texts(shown@.take(j + 1)) =~= id_texts(shown@.take(j as int)).push(id@));
        let already = contains_id(upload.as_slice(), id);
        let ghost prefix = id_texts(shown@.take(j as int));
        let ghost next = id_texts(shown@.take(j + 1));
        if already {
            assert forall|t: Seq<char>| #[trigger] id_texts(upload@).contains(t) <==> (next.contains(t)
                && needs_upload(uploaded, assets@, t)) by {
                assert(next == prefix.push(id@));
                if t == id@ {
                    assert(next[j as int] == t);
                } else {
                    if next.contains(t) {
                        let k = choose|k: int| 0 <= k < next.len() && next[k] == t;
                        assert(prefix[k] == t);
                    }
                    if prefix.contains(t) {
                        let k = choose|k: int| 0 <= k < prefix.len() && prefix[k] == t;
                        assert(next[k] == t);
                    }
                }
            }
        } else {
            let wanted = match assets.get(id) {
                Some(asset) => match uploaded_revision(cached, id) {
                    Some(revision) => revision != asset.revision,
                    None => true,
                },
                None => false,
            };
            assert(wanted == needs_upload(uploaded, assets@, id@));
            if wanted {
                upload.push(id.duplicate());
                assert(id_texts(upload@) =~= id_texts(before).push(id@));
            }
            assert forall|t: Seq<char>| #[trigger] id_texts(upload@).contains(t) <==> (next.contains(t)
                && needs_upload(uploaded, assets@, t)) by {
                if t == id@ {
                    assert(next[j as int] == t);
                    if wanted {
                        assert(id_texts(upload@)[before.len() as int] == t);
                    }
                } else {
                    assert(next == prefix.push(id@));
                    if next.contains(t) {
                        let k = choose|k: int| 0 <= k < next.len() && next[k] == t;
                        assert(prefix[k] == t);
                    }
                    if prefix.contains(t) {
                        let k = choose|k: int| 0 <= k < prefix.len() && prefix[k] == t;
                        assert(next[k] == t);
                    }
                    if id_texts(upload@).contains(t) && wanted {
                        let k = choose|k: int| 0 <= k < id_texts(upload@).len() && id_texts(upload@)[k] == t;
                        assert(id_texts(before)[k] == t);
                    }
                    if id_texts(before).contains(t) && wanted {
                        let k = choose|k: int| 0 <= k < id_texts(before).len() && id_texts(before)[k] == t;
                        assert(id_texts(upload@)[k] == t);
                    }
                }
            }
        }
        j = j + 1;
    }
    assert(shown@.take(shown@.len() as int) =~= shown@);
    SpriteTextureSync { evict, upload }
}

} // verus!
