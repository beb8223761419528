//! Instance batching of the scene renderer: visible meshes and sprites are
//! grouped by batch key, one draw call per group, groups in ascending key order
//! and the members of each group in submission order; plus the frame statistics.

use vstd::prelude::*;
use crate::chars::str_equal;
use crate::mesh::MeshPrimitive;
use crate::scene::{material_batch_mode, material_identity, MaterialBatchKey, MaterialMode, RenderMaterial};
use crate::sprite::{SpriteDepthMode, SpriteId};

verus! {

/// The order of texts: lexicographic by code point, a proper prefix first
/// (the order of `String`, whose UTF-8 bytes compare like the code points).
pub open spec fn text_lt(a: Seq<char>, b: Seq<char>) -> bool
    decreases a.len(),
{
    if a.len() == 0 {
        b.len() > 0
    } else if b.len() == 0 {
        false
    } else if a[0] != b[0] {
        (a[0] as int) < (b[0] as int)
    } else {
        text_lt(a.drop_first(), b.drop_first())
    }
}

/// A batch key read as numbers and text.
pub type BatchKeyView = (u32, u32, u32, Seq<char>);

/// Batch keys compare by `major`, then `minor`, then `rank`, then text.
pub open spec fn batch_key_lt(a: BatchKeyView, b: BatchKeyView) -> bool {
    a.0 < b.0 || (a.0 == b.0 && (a.1 < b.1 || (a.1 == b.1 && (a.2 < b.2 || (a.2 == b.2 && text_lt(a.3, b.3))))))
}

proof fn lemma_text_lt_irreflexive(a: Seq<char>)
    ensures
        !text_lt(a, a),
    decreases a.len(),
{
    if a.len() > 0 {
        lemma_text_lt_irreflexive(a.drop_first());
    }
}

proof fn lemma_text_lt_asymmetric(a: Seq<char>, b: Seq<char>)
    ensures
        text_lt(a, b) ==> !text_lt(b, a),
    decreases a.len(),
{
    if a.len() > 0 && b.len() > 0 && a[0] == b[0] {
        lemma_text_lt_asymmetric(a.drop_first(), b.drop_first());
    }
}

proof fn lemma_text_lt_total(a: Seq<char>, b: Seq<char>)
    ensures
        a != b ==> text_lt(a, b) || text_lt(b, a),
    decreases a.len(),
{
    if a.len() == 0 && b.len() == 0 {
        assert(a =~= b);
    } else if a.len() > 0 && b.len() > 0 && a[0] != b[0] {
        assert((a[0] as int) != (b[0] as int));
    } else if a.len() > 0 && b.len() > 0 && a[0] == b[0] {
        lemma_text_lt_total(a.drop_first(), b.drop_first());
        if a.drop_first() == b.drop_first() {
            assert(a =~= seq![a[0]] + a.drop_first());
            assert(b =~= seq![b[0]] + b.drop_first());
            assert(a =~= b);
        }
    }
}

proof fn lemma_text_lt_transitive(a: Seq<char>, b: Seq<char>, c: Seq<char>)
    ensures
        text_lt(a, b) && text_lt(b, c) ==> text_lt(a, c),
    decreases a.len(),
{
    if a.len() > 0 && b.len() > 0 && c.len() > 0 {
        lemma_text_lt_transitive(a.drop_first(), b.drop_first(), c.drop_first());
    }
}

/// `text_lt` is a strict total order.
pub proof fn lemma_text_lt_order(a: Seq<char>, b: Seq<char>, c: Seq<char>)
    ensures
        !text_lt(a, a),
        text_lt(a, b) ==> !text_lt(b, a),
        a != b ==> text_lt(a, b) || text_lt(b, a),
        text_lt(a, b) && text_lt(b, c) ==> text_lt(a, c),
{
    lemma_text_lt_irreflexive(a);
    lemma_text_lt_asymmetric(a, b);
    lemma_text_lt_total(a, b);
    lemma_text_lt_transitive(a, b, c);
}

/// `batch_key_lt` is a strict total order.
pub proof fn lemma_batch_key_order(a: BatchKeyView, b: BatchKeyView, c: BatchKeyView)
    ensures
        !batch_key_lt(a, a),
        batch_key_lt(a, b) ==> !batch_key_lt(b, a),
        a != b ==> batch_key_lt(a, b) || batch_key_lt(b, a),
        batch_key_lt(a, b) && batch_key_lt(b, c) ==> batch_key_lt(a, c),
{
    lemma_text_lt_order(a.3, b.3, c.3);
    lemma_text_lt_order(a.3, a.3, a.3);
    lemma_text_lt_order(b.3, a.3, c.3);
}

/// Whether `a` comes before `b` in text order.
pub fn text_less(a: &str, b: &str) -> (r: bool)
    ensures
        r == text_lt(a@, b@),
{
    let n = a.unicode_len();
    let m = b.unicode_len();
    let mut i: usize = 0;
    assert(a@.skip(0) =~= a@ && b@.skip(0) =~= b@);
    while i < n && i < m
        invariant
            i <= n,
            i <= m,
            n == a@.len(),
            m == b@.len(),
            text_lt(a@, b@) == text_lt(a@.skip(i as int), b@.skip(i as int)),
        decreases n - i,
    {
        let x = a.get_char(i);
        let y = b.get_char(i);
        proof {
            let sa = a@.skip(i as int);
            let sb = b@.skip(i as int);
            assert(sa[0] == x && sb[0] == y);
            assert(sa.drop_first() =~= a@.skip(i + 1));
            assert(sb.drop_first() =~= b@.skip(i + 1));
        }
        if x != y {
            return (x as u32) < (y as u32);
        }
        i = i + 1;
    }
    i == n && i < m
}

/// Key of an instance batch: three numbers and a text, ordered as
/// `batch_key_lt` says.
#[derive(Debug)]
pub struct BatchKey {
    major: u32,
    minor: u32,
    rank: u32,
    text: String,
}

impl View for BatchKey {
    type V = BatchKeyView;

    closed spec fn view(&self) -> BatchKeyView {
        (self.major, self.minor, self.rank, self.text@)
    }
}

/// The rank of a shading mode in key order: unlit first.
pub open spec fn mode_rank(mode: MaterialMode) -> u32 {
    match mode {
        MaterialMode::Unlit => 0,
        MaterialMode::Lit => 1,
    }
}

/// The rank of a sprite depth mode in key order: world sprites first.
pub open spec fn depth_rank(depth: SpriteDepthMode) -> u32 {
    match depth {
        SpriteDepthMode::World => 0,
        SpriteDepthMode::Overlay => 1,
    }
}

/// `value` limited to `lo..=hi`.
pub open spec fn clamp_u32(value: u32, lo: u32, hi: u32) -> u32 {
    if value < lo {
        lo
    } else if value > hi {
        hi
    } else {
        value
    }
}

/// The key of the cube batch of a material.
pub open spec fn cube_key_view(material: RenderMaterial) -> BatchKeyView {
    (0, 0, mode_rank(material_batch_mode(material)), material_identity(material))
}

/// The key of the sphere batch of a material and tessellation: segments limited
/// to 3..=128, rings to 2..=128.
pub open spec fn sphere_key_view(segments: u32, rings: u32, material: RenderMaterial) -> BatchKeyView {
    (
        clamp_u32(segments, 3, 128),
        clamp_u32(rings, 2, 128),
        mode_rank(material_batch_mode(material)),
        material_identity(material),
    )
}

/// The key of the sprite batch of a depth mode and sprite id.
pub open spec fn sprite_key_view(depth: SpriteDepthMode, id: Seq<char>) -> BatchKeyView {
    (0, 0, depth_rank(depth), id)
}

fn clamp(value: u32, lo: u32, hi: u32) -> (r: u32)
    requires
        lo <= hi,
    ensures
        r == clamp_u32(value, lo, hi),
{
    if value < lo {
        lo
    } else if value > hi {
        hi
    } else {
        value
    }
}

impl BatchKey {
    fn from_parts(major: u32, minor: u32, key: &MaterialBatchKey) -> (r: BatchKey)
        ensures
            r@ == (major, minor, mode_rank(key@.0), key@.1),
    {
        let rank = match key.mode() {
            MaterialMode::Unlit => 0,
            MaterialMode::Lit => 1,
        };
        BatchKey { major, minor, rank, text: key.identity().to_string() }
    }

    /// The key of the cube batch of a material.
    pub fn cube(material: &RenderMaterial) -> (r: BatchKey)
        ensures
            r@ == cube_key_view(*material),
    {
        let key = MaterialBatchKey::from_material(material);
        BatchKey::from_parts(0, 0, &key)
    }

    /// The key of the sphere batch of a material and tessellation.
    pub fn sphere(segments: u32, rings: u32, material: &RenderMaterial) -> (r: BatchKey)
        ensures
            r@ == sphere_key_view(segments, rings, *material),
    {
        let key = MaterialBatchKey::from_material(material);
        BatchKey::from_parts(clamp(segments, 3, 128), clamp(rings, 2, 128), &key)
    }

    /// The key of the sprite batch of a depth mode and sprite id.
    pub fn sprite(depth: SpriteDepthMode, id: &SpriteId) -> (r: BatchKey)
        ensures
            r@ == sprite_key_view(depth, id@),
    {
        let rank = match depth {
            SpriteDepthMode::World => 0,
            SpriteDepthMode::Overlay => 1,
        };
        BatchKey { major: 0, minor: 0, rank, text: id.as_str().to_string() }
    }

    /// The numbers of the key: for a sphere batch, its segments and rings first.
    pub fn numbers(&self) -> (r: (u32, u32, u32))
        ensures
            r == (self@.0, self@.1, self@.2),
    {
        (self.major, self.minor, self.rank)
    }

    /// The text of the key: the material identity, or the sprite id.
    pub fn text(&self) -> (r: &str)
        ensures
            r@ == self@.3,
    {
        self.text.as_str()
    }

    /// A copy of this key.
    pub fn duplicate(&self) -> (r: BatchKey)
        ensures
            r@ == self@,
    {
        BatchKey { major: self.major, minor: self.minor, rank: self.rank, text: self.text.clone() }
    }

    /// Whether two keys are equal.
    pub fn same_as(&self, other: &BatchKey) -> (r: bool)
        ensures
            r == (self@ == other@),
    {
        self.major == other.major && self.minor == other.minor && self.rank == other.rank && str_equal(
            self.text.as_str(),
            other.text.as_str(),
        )
    }

    /// Whether this key orders before `other`.
    pub fn less_than(&self, other: &BatchKey) -> (r: bool)
        ensures
            r == batch_key_lt(self@, other@),
    {
        if self.major != other.major {
            self.major < other.major
        } else if self.minor != other.minor {
            self.minor < other.minor
        } else if self.rank != other.rank {
            self.rank < other.rank
        } else {
            text_less(self.text.as_str(), other.text.as_str())
        }
    }
}

/// One instance batch: its key and the positions of its members in the
/// submitted list, in submission order.
#[derive(Debug)]
pub struct InstanceGroup {
    pub key: BatchKey,
    pub members: Vec<usize>,
}

/// A group read as its key and members.
pub open spec fn group_view(g: InstanceGroup) -> (BatchKeyView, Seq<usize>) {
    (g.key@, g.members@)
}

/// The groups read as keys and members.
pub open spec fn groups_view(gs: Seq<InstanceGroup>) -> Seq<(BatchKeyView, Seq<usize>)> {
    gs.map_values(|g: InstanceGroup| group_view(g))
}

/// `gs` groups the items of `keys` that have a key (`Some`): each group is
/// non-empty; its members are exactly the positions whose key is the group's,
/// ascending; and the groups are in strictly ascending key order.
pub open spec fn is_grouping(keys: Seq<Option<BatchKeyView>>, gs: Seq<(BatchKeyView, Seq<usize>)>) -> bool {
    &&& forall|g: int, j: int|
        0 <= g < gs.len() && 0 <= j < gs[g].1.len() ==> {
            &&& (#[trigger] gs[g].1[j]) < keys.len()
            &&& keys[gs[g].1[j] as int] == Some(gs[g].0)
        }
    &&& forall|g: int, j1: int, j2: int|
        0 <= g < gs.len() && 0 <= j1 < j2 < gs[g].1.len() ==> #[trigger] gs[g].1[j1] < #[trigger] gs[g].1[j2]
    &&& forall|g: int| 0 <= g < gs.len() ==> (#[trigger] gs[g].1).len() > 0
    &&& forall|g1: int, g2: int|
        0 <= g1 < g2 < gs.len() ==> batch_key_lt(#[trigger] gs[g1].0, #[trigger] gs[g2].0)
    &&& forall|i: int|
        0 <= i < keys.len() && (#[trigger] keys[i]) is Some ==> exists|g: int, j: int|
            0 <= g < gs.len() && 0 <= j < gs[g].1.len() && #[trigger] gs[g].1[j] == i
}

/// The optional keys read through their views.
pub open spec fn keys_view(keys: Seq<Option<BatchKey>>) -> Seq<Option<BatchKeyView>> {
    keys.map_values(
        |k: Option<BatchKey>|
            match k {
                Some(key) => Some(key@),
                None => None,
            },
    )
}

proof fn lemma_grouping_extend_none(
    keys: Seq<Option<BatchKeyView>>,
    gs: Seq<(BatchKeyView, Seq<usize>)>,
    i: int,
)
    requires
        0 <= i < keys.len(),
        keys[i] is None,
        is_grouping(keys.take(i), gs),
    ensures
        is_grouping(keys.take(i + 1), gs),
{
    let a = keys.take(i);
    let b = keys.take(i + 1);
    assert forall|g: int, j: int| 0 <= g < gs.len() && 0 <= j < gs[g].1.len() implies {
        &&& (#[trigger] gs[g].1[j]) < b.len()
        &&& b[gs[g].1[j] as int] == Some(gs[g].0)
    } by {
        assert(a[gs[g].1[j] as int] == b[gs[g].1[j] as int]);
    }
    assert forall|k: int| 0 <= k < b.len() && (#[trigger] b[k]) is Some implies exists|g: int, j: int|
        0 <= g < gs.len() && 0 <= j < gs[g].1.len() && #[trigger] gs[g].1[j] == k by {
        assert(k < i);
        assert(a[k] == b[k]);
    }
}

proof fn lemma_grouping_extend_member(
    keys: Seq<Option<BatchKeyView>>,
    gs: Seq<(BatchKeyView, Seq<usize>)>,
    i: int,
    g0: int,
)
    requires
        0 <= i < keys.len(),
        i <= usize::MAX,
        0 <= g0 < gs.len(),
        keys[i] == Some(gs[g0].0),
        is_grouping(keys.take(i), gs),
    ensures
        is_grouping(keys.take(i + 1), gs.update(g0, (gs[g0].0, gs[g0].1.push(i as usize)))),
{
    let a = keys.take(i);
    let b = keys.take(i + 1);
    let hs = gs.update(g0, (gs[g0].0, gs[g0].1.push(i as usize)));
    assert forall|g: int, j: int| 0 <= g < hs.len() && 0 <= j < hs[g].1.len() implies {
        &&& (#[trigger] hs[g].1[j]) < b.len()
        &&& b[hs[g].1[j] as int] == Some(hs[g].0)
    } by {
        if g == g0 && j == gs[g0].1.len() {
        } else {
            assert(hs[g].1[j] == gs[g].1[j]);
            assert(a[gs[g].1[j] as int] == b[gs[g].1[j] as int]);
        }
    }
    assert forall|g: int, j1: int, j2: int|
        0 <= g < hs.len() && 0 <= j1 < j2 < hs[g].1.len() implies #[trigger] hs[g].1[j1] < #[trigger] hs[g].1[j2] by {
        if g == g0 && j2 == gs[g0].1.len() {
            assert(hs[g].1[j1] == gs[g].1[j1]);
            assert(gs[g].1[j1] < a.len());
        } else {
            assert(hs[g].1[j1] == gs[g].1[j1]);
            assert(hs[g].1[j2] == gs[g].1[j2]);
        }
    }
    assert forall|g: int| 0 <= g < hs.len() implies (#[trigger] hs[g].1).len() > 0 by {
        assert(gs[g].1.len() > 0);
    }
    assert forall|g1: int, g2: int| 0 <= g1 < g2 < hs.len() implies batch_key_lt(
        #[trigger] hs[g1].0,
        #[trigger] hs[g2].0,
    ) by {
        assert(batch_key_lt(gs[g1].0, gs[g2].0));
    }
    assert forall|k: int| 0 <= k < b.len() && (#[trigger] b[k]) is Some implies exists|g: int, j: int|
        0 <= g < hs.len() && 0 <= j < hs[g].1.len() && #[trigger] hs[g].1[j] == k by {
        if k == i {
            assert(hs[g0].1[gs[g0].1.len() as int] == k);
        } else {
            assert(a[k] == b[k]);
            let (g, j) = choose|g: int, j: int| 0 <= g < gs.len() && 0 <= j < gs[g].1.len() && #[trigger] gs[g].1[j] == k;
            assert(hs[g].1[j] == k);
        }
    }
}

proof fn lemma_grouping_extend_new(
    keys: Seq<Option<BatchKeyView>>,
    gs: Seq<(BatchKeyView, Seq<usize>)>,
    i: int,
    p: int,
    key: BatchKeyView,
)
    requires
        0 <= i < keys.len(),
        i <= usize::MAX,
        0 <= p <= gs.len(),
        keys[i] == Some(key),
        is_grouping(keys.take(i), gs),
        forall|q: int| 0 <= q < p ==> batch_key_lt(#[trigger] gs[q].0, key),
        p < gs.len() ==> batch_key_lt(key, gs[p].0),
    ensures
        is_grouping(keys.take(i + 1), gs.insert(p, (key, seq![i as usize]))),
{
    let a = keys.take(i);
    let b = keys.take(i + 1);
    let hs = gs.insert(p, (key, seq![i as usize]));
    assert forall|g: int, j: int| 0 <= g < hs.len() && 0 <= j < hs[g].1.len() implies {
        &&& (#[trigger] hs[g].1[j]) < b.len()
        &&& b[hs[g].1[j] as int] == Some(hs[g].0)
    } by {
        if g < p {
            assert(hs[g] == gs[g]);
            assert(a[gs[g].1[j] as int] == b[gs[g].1[j] as int]);
        } else if g > p {
            assert(hs[g] == gs[g - 1]);
            assert(a[gs[g - 1].1[j] as int] == b[gs[g - 1].1[j] as int]);
        }
    }
    assert forall|g: int, j1: int, j2: int|
        0 <= g < hs.len() && 0 <= j1 < j2 < hs[g].1.len() implies #[trigger] hs[g].1[j1] < #[trigger] hs[g].1[j2] by {
        if g < p {
            assert(hs[g] == gs[g]);
        } else if g > p {
            assert(hs[g] == gs[g - 1]);
        }
    }
    assert forall|g: int| 0 <= g < hs.len() implies (#[trigger] hs[g].1).len() > 0 by {
        if g < p {
            assert(hs[g] == gs[g]);
        } else if g > p {
            assert(hs[g] == gs[g - 1]);
        }
    }
    assert forall|g1: int, g2: int| 0 <= g1 < g2 < hs.len() implies batch_key_lt(
        #[trigger] hs[g1].0,
        #[trigger] hs[g2].0,
    ) by {
        if g2 < p {
            assert(hs[g1] == gs[g1] && hs[g2] == gs[g2]);
        } else if g2 == p {
            assert(hs[g1] == gs[g1]);
        } else if g1 < p {
            assert(hs[g1] == gs[g1] && hs[g2] == gs[g2 - 1]);
            assert(batch_key_lt(gs[g1].0, gs[g2 - 1].0));
        } else if g1 == p {
            assert(hs[g2] == gs[g2 - 1]);
            if g2 - 1 > p {
                assert(batch_key_lt(gs[p].0, gs[g2 - 1].0));
                lemma_batch_key_order(key, gs[p].0, gs[g2 - 1].0);
            }
        } else {
            assert(hs[g1] == gs[g1 - 1] && hs[g2] == gs[g2 - 1]);
            assert(batch_key_lt(gs[g1 - 1].0, gs[g2 - 1].0));
        }
    }
    assert forall|k: int| 0 <= k < b.len() && (#[trigger] b[k]) is Some implies exists|g: int, j: int|
        0 <= g < hs.len() && 0 <= j < hs[g].1.len() && #[trigger] hs[g].1[j] == k by {
        if k == i {
            assert(hs[p].1[0] == k);
        } else {
            assert(a[k] == b[k]);
            let (g, j) = choose|g: int, j: int| 0 <= g < gs.len() && 0 <= j < gs[g].1.len() && #[trigger] gs[g].1[j] == k;
            if g < p {
                assert(hs[g].1[j] == k);
            } else {
                assert(hs[g + 1].1[j] == k);
            }
        }
    }
}

/// Groups the items that have a key into batches: one group per distinct key,
/// groups in ascending key order, members (positions in `keys`) ascending.
pub fn group_by_key(keys: &[Option<BatchKey>]) -> (r: Vec<InstanceGroup>)
    ensures
        is_grouping(keys_view(keys@), groups_view(r@)),
{
    let ghost ks = keys_view(keys@);
    let mut group_keys: Vec<BatchKey> = Vec::new();
    let mut members: Vec<Vec<usize>> = Vec::new();
    let ghost mut gs: Seq<(BatchKeyView, Seq<usize>)> = Seq::empty();
    assert(ks.take(0) =~= Seq::<Option<BatchKeyView>>::empty());
    let mut i: usize = 0;
    while i < keys.len()
        invariant
            i <= keys@.len(),
            ks == keys_view(keys@),
            group_keys@.len() == gs.len(),
            members@.len() == gs.len(),
            forall|g: int| 0 <= g < gs.len() ==> #[trigger] gs[g] == (group_keys@[g]@, members@[g]@),
            is_grouping(ks.take(i as int), gs),
        decreases keys@.len() - i,
    {
        proof {
            assert(ks[i as int] == match keys@[i as int] {
                Some(key) => Some(key@),
                None => None::<BatchKeyView>,
            });
        }
        match &keys[i] {
            None => {
                proof {
                    lemma_grouping_extend_none(ks, gs, i as int);
                }
            },
            Some(key) => {
                let mut q: usize = 0;
                let mut found: Option<usize> = None;
                while q < group_keys.len()
                    invariant_except_break
                        q <= group_keys@.len(),
                        found is None,
                        forall|t: int| 0 <= t < q ==> batch_key_lt(#[trigger] group_keys@[t]@, key@),
                    invariant
                        group_keys@.len() == gs.len(),
                    ensures
                        match found {
                            Some(g) => g < group_keys@.len() && group_keys@[g as int]@ == key@,
                            None => {
                                &&& q <= group_keys@.len()
                                &&& forall|t: int| 0 <= t < q ==> batch_key_lt(#[trigger] group_keys@[t]@, key@)
                                &&& q < group_keys@.len() ==> batch_key_lt(key@, group_keys@[q as int]@)
                            },
                        },
                    decreases group_keys@.len() - q,
                {
                    if group_keys[q].same_as(key) {
                        found = Some(q);
                        break;
                    }
                    if key.less_than(&group_keys[q]) {
                        break;
                    }
                    proof {
                        lemma_batch_key_order(group_keys@[q as int]@, key@, key@);
                    }
                    q = q + 1;
                }
                match found {
                    Some(g) => {
                        proof {
                            assert(gs[g as int] == (group_keys@[g as int]@, members@[g as int]@));
                            lemma_grouping_extend_member(ks, gs, i as int, g as int);
                        }
                        let ghost old_members = members@;
                        members[g].push(i);
                        proof {
                            gs = gs.update(g as int, (gs[g as int].0, gs[g as int].1.push(i)));
                            assert forall|t: int| 0 <= t < gs.len() implies #[trigger] gs[t] == (group_keys@[t]@, members@[t]@) by {
                                if t != g {
                                    assert(members@[t] == old_members[t]);
                                }
                            }
                        }
                    },
                    None => {
                        proof {
                            assert forall|t: int| 0 <= t < q implies batch_key_lt(#[trigger] gs[t].0, key@) by {
                                assert(gs[t].0 == group_keys@[t]@);
                            }
                            if q < gs.len() {
                                assert(gs[q as int].0 == group_keys@[q as int]@);
                            }
                            lemma_grouping_extend_new(ks, gs, i as int, q as int, key@);
                        }
                        let ghost old_keys = group_keys@;
                        let ghost old_members = members@;
                        group_keys.insert(q, key.duplicate());
                        members.insert(q, vec![i]);
                        proof {
                            let old_gs = gs;
                            gs = gs.insert(q as int, (key@, seq![i]));
                            assert forall|t: int| 0 <= t < gs.len() implies #[trigger] gs[t] == (group_keys@[t]@, members@[t]@) by {
                                if t < q {
                                    assert(old_gs[t] == (old_keys[t]@, old_members[t]@));
                                } else if t > q {
                                    assert(old_gs[t - 1] == (old_keys[t - 1]@, old_members[t - 1]@));
                                } else {
                                    assert(members@[t]@ =~= seq![i]);
                                }
                            }
                        }
                    },
                }
            },
        }
        i = i + 1;
    }
    assert(ks.take(keys@.len() as int) =~= ks);
    let mut out: Vec<InstanceGroup> = Vec::new();
    let mut group_keys = group_keys;
    let mut members = members;
    let ghost n = gs.len();
    let ghost all_keys = group_keys@;
    let ghost all_members = members@;
    while group_keys.len() > 0
        invariant
            group_keys@.len() == members@.len(),
            group_keys@.len() + out@.len() == n,
            n == gs.len(),
            forall|t: int| 0 <= t < group_keys@.len() ==> group_keys@[t] == all_keys[t] && members@[t] == all_members[t],
            forall|t: int| 0 <= t < n ==> #[trigger] gs[t] == (all_keys[t]@, all_members[t]@),
            forall|t: int| 0 <= t < out@.len() ==> #[trigger] group_view(out@[t]) == gs[n - out@.len() + t],
        decreases group_keys@.len(),
    {
        let key = group_keys.pop().unwrap();
        let m = members.pop().unwrap();
        let ghost before = out@;
        out.insert(0, InstanceGroup { key, members: m });
        proof {
            assert forall|t: int| 0 <= t < out@.len() implies #[trigger] group_view(out@[t]) == gs[n - out@.len() + t] by {
                if t > 0 {
                    assert(out@[t] == before[t - 1]);
                }
            }
        }
    }
    assert(groups_view(out@) =~= gs);
    out
}

proof fn lemma_keys_view_push(v: Seq<Option<BatchKey>>, k: Option<BatchKey>)
    ensures
        keys_view(v.push(k)) == keys_view(v).push(
            match k {
                Some(key) => Some(key@),
                None => None,
            },
        ),
{
    assert(keys_view(v.push(k)) =~= keys_view(v).push(
        match k {
            Some(key) => Some(key@),
            None => None,
        },
    ));
}

proof fn lemma_take_push<T>(s: Seq<T>, i: int)
    requires
        0 <= i < s.len(),
    ensures
        s.take(i + 1) == s.take(i).push(s[i]),
{
    assert(s.take(i + 1) =~= s.take(i).push(s[i]));
}

/// The cube-batch key of each mesh; spheres have none.
pub open spec fn cube_keys_spec(meshes: Seq<(MeshPrimitive, RenderMaterial)>) -> Seq<Option<BatchKeyView>> {
    Seq::new(
        meshes.len(),
        |i: int|
            match meshes[i].0 {
                MeshPrimitive::Cube => Some(cube_key_view(meshes[i].1)),
                MeshPrimitive::Sphere { .. } => None,
            },
    )
}

/// The sphere-batch key of each mesh; cubes have none.
pub open spec fn sphere_keys_spec(meshes: Seq<(MeshPrimitive, RenderMaterial)>) -> Seq<Option<BatchKeyView>> {
    Seq::new(
        meshes.len(),
        |i: int|
            match meshes[i].0 {
                MeshPrimitive::Cube => None,
                MeshPrimitive::Sphere { segments, rings } => Some(sphere_key_view(segments, rings, meshes[i].1)),
            },
    )
}

/// The sprite-batch key of each sprite (depth mode, id, whether its texture is
/// loaded); sprites without a texture have none.
pub open spec fn sprite_keys_spec(sprites: Seq<(SpriteDepthMode, SpriteId, bool)>) -> Seq<Option<BatchKeyView>> {
    Seq::new(
        sprites.len(),
        |i: int|
            if sprites[i].2 {
                Some(sprite_key_view(sprites[i].0, sprites[i].1@))
            } else {
                None
            },
    )
}

/// The cube and sphere batches of a frame's visible meshes.
#[derive(Debug)]
pub struct ScenePlan {
    pub cubes: Vec<InstanceGroup>,
    pub spheres: Vec<InstanceGroup>,
}

/// Groups the visible meshes (primitive and material, in submission order) into
/// cube batches keyed by material and sphere batches keyed by clamped
/// tessellation and material.
pub fn plan_scene_batches(meshes: &[(MeshPrimitive, RenderMaterial)]) -> (r: ScenePlan)
    ensures
        is_grouping(cube_keys_spec(meshes@), groups_view(r.cubes@)),
        is_grouping(sphere_keys_spec(meshes@), groups_view(r.spheres@)),
{
    let mut cube_keys: Vec<Option<BatchKey>> = Vec::new();
    let mut sphere_keys: Vec<Option<BatchKey>> = Vec::new();
    let mut i: usize = 0;
    while i < meshes.len()
        invariant
            i <= meshes@.len(),
            keys_view(cube_keys@) == cube_keys_spec(meshes@).take(i as int),
            keys_view(sphere_keys@) == sphere_keys_spec(meshes@).take(i as int),
        decreases meshes@.len() - i,
    {
        let (primitive, material) = &meshes[i];
        let (cube_key, sphere_key) = match primitive {
            MeshPrimitive::Cube => (Some(BatchKey::cube(material)), None),
            MeshPrimitive::Sphere { segments, rings } => (None, Some(BatchKey::sphere(*segments, *rings, material))),
        };
        proof {
            lemma_keys_view_push(cube_keys@, cube_key);
            lemma_keys_view_push(sphere_keys@, sphere_key);
            lemma_take_push(cube_keys_spec(meshes@), i as int);
            lemma_take_push(sphere_keys_spec(meshes@), i as int);
        }
        cube_keys.push(cube_key);
        sphere_keys.push(sphere_key);
        i = i + 1;
    }
    assert(cube_keys_spec(meshes@).take(meshes@.len() as int) =~= cube_keys_spec(meshes@));
    assert(sphere_keys_spec(meshes@).take(meshes@.len() as int) =~= sphere_keys_spec(meshes@));
    ScenePlan { cubes: group_by_key(cube_keys.as_slice()), spheres: group_by_key(sphere_keys.as_slice()) }
}

/// Groups the visible sprites (depth mode, sprite id, whether its texture is
/// loaded) into batches keyed by depth mode and sprite; sprites without a
/// texture are skipped.
pub fn plan_sprite_batches(sprites: &[(SpriteDepthMode, SpriteId, bool)]) -> (r: Vec<InstanceGroup>)
    ensures
        is_grouping(sprite_keys_spec(sprites@), groups_view(r@)),
{
    let mut keys: Vec<Option<BatchKey>> = Vec::new();
    let mut i: usize = 0;
    while i < sprites.len()
        invariant
            i <= sprites@.len(),
            keys_view(keys@) == sprite_keys_spec(sprites@).take(i as int),
        decreases sprites@.len() - i,
    {
        let (depth, id, has_texture) = &sprites[i];
        let key = if *has_texture {
            Some(BatchKey::sprite(*depth, id))
        } else {
            None
        };
        proof {
            lemma_keys_view_push(keys@, key);
            lemma_take_push(sprite_keys_spec(sprites@), i as int);
        }
        keys.push(key);
        i = i + 1;
    }
    assert(sprite_keys_spec(sprites@).take(sprites@.len() as int) =~= sprite_keys_spec(sprites@));
    group_by_key(keys.as_slice())
}

/// Counters of the last prepared frame.
#[derive(Clone, Copy, Debug, PartialEq, Eq, Structural)]
pub struct SceneRendererStats {
    pub cube_instances: u32,
    pub sphere_instances: u32,
    pub terrain_instances: u32,
    pub sprite_instances: u32,
    pub draw_calls: u32,
}

impl Default for SceneRendererStats {
    /// All counters zero.
    fn default() -> (r: Self)
        ensures
            r == (SceneRendererStats {
                cube_instances: 0,
                sphere_instances: 0,
                terrain_instances: 0,
                sprite_instances: 0,
                draw_calls: 0,
            }),
    {
        SceneRendererStats { cube_instances: 0, sphere_instances: 0, terrain_instances: 0, sprite_instances: 0, draw_calls: 0 }
    }
}

/// The number of members over all groups.
pub open spec fn member_total(gs: Seq<(BatchKeyView, Seq<usize>)>) -> int
    decreases gs.len(),
{
    if gs.len() == 0 {
        0
    } else {
        member_total(gs.drop_last()) + gs.last().1.len()
    }
}

/// The sum of a list of counts.
pub open spec fn count_total(xs: Seq<u32>) -> int
    decreases xs.len(),
{
    if xs.len() == 0 {
        0
    } else {
        count_total(xs.drop_last()) + xs.last()
    }
}

proof fn lemma_member_total_step(gs: Seq<(BatchKeyView, Seq<usize>)>, i: int)
    requires
        0 <= i < gs.len(),
    ensures
        member_total(gs.take(i + 1)) == member_total(gs.take(i)) + gs[i].1.len(),
{
    assert(gs.take(i + 1).drop_last() =~= gs.take(i));
}

proof fn lemma_count_total_step(xs: Seq<u32>, i: int)
    requires
        0 <= i < xs.len(),
    ensures
        count_total(xs.take(i + 1)) == count_total(xs.take(i)) + xs[i],
{
    assert(xs.take(i + 1).drop_last() =~= xs.take(i));
}

proof fn lemma_member_total_monotone(gs: Seq<(BatchKeyView, Seq<usize>)>, i: int)
    requires
        0 <= i <= gs.len(),
    ensures
        member_total(gs.take(i)) <= member_total(gs),
    decreases gs.len() - i,
{
    if i < gs.len() {
        lemma_member_total_step(gs, i);
        lemma_member_total_monotone(gs, i + 1);
    } else {
        assert(gs.take(i) =~= gs);
    }
}

proof fn lemma_count_total_monotone(xs: Seq<u32>, i: int)
    requires
        0 <= i <= xs.len(),
    ensures
        count_total(xs.take(i)) <= count_total(xs),
    decreases xs.len() - i,
{
    if i < xs.len() {
        lemma_count_total_step(xs, i);
        lemma_count_total_monotone(xs, i + 1);
    } else {
        assert(xs.take(i) =~= xs);
    }
}

fn total_members(groups: &Vec<InstanceGroup>) -> (r: u32)
    requires
        member_total(groups_view(groups@)) <= u32::MAX,
    ensures
        r == member_total(groups_view(groups@)),
{
    let ghost gs = groups_view(groups@);
    let mut total: u32 = 0;
    let mut i: usize = 0;
    assert(gs.take(0) =~= Seq::<(BatchKeyView, Seq<usize>)>::empty());
    while i < groups.len()
        invariant
            i <= groups@.len(),
            gs == groups_view(groups@),
            member_total(gs) <= u32::MAX,
            total == member_total(gs.take(i as int)),
        decreases groups@.len() - i,
    {
        proof {
            lemma_member_total_step(gs, i as int);
            lemma_member_total_monotone(gs, i + 1);
            assert(gs[i as int].1.len() == groups@[i as int].members@.len());
        }
        total = total + groups[i].members.len() as u32;
        i = i + 1;
    }
    assert(gs.take(groups@.len() as int) =~= gs);
    total
}

fn total_counts(counts: &[u32]) -> (r: u32)
    requires
        count_total(counts@) <= u32::MAX,
    ensures
        r == count_total(counts@),
{
    let mut total: u32 = 0;
    let mut i: usize = 0;
    assert(counts@.take(0) =~= Seq::<u32>::empty());
    while i < counts.len()
        invariant
            i <= counts@.len(),
            count_total(counts@) <= u32::MAX,
            total == count_total(counts@.take(i as int)),
        decreases counts@.len() - i,
    {
        proof {
            lemma_count_total_step(counts@, i as int);
            lemma_count_total_monotone(counts@, i + 1);
        }
        total = total + counts[i];
        i = i + 1;
    }
    assert(counts@.take(counts@.len() as int) =~= counts@);
    total
}

/// The frame statistics: instances per primitive kind (terrain draws hold one
/// instance each, sprite batches hold the given counts) and one draw call per
/// cube, sphere, terrain and sprite batch.
pub fn scene_renderer_stats(plan: &ScenePlan, terrain_draws: usize, sprite_batch_instances: &[u32]) -> (r: SceneRendererStats)
    requires
        member_total(groups_view(plan.cubes@)) <= u32::MAX,
        member_total(groups_view(plan.spheres@)) <= u32::MAX,
        count_total(sprite_batch_instances@) <= u32::MAX,
        plan.cubes@.len() + plan.spheres@.len() + terrain_draws + sprite_batch_instances@.len() <= u32::MAX,
    ensures
        r.cube_instances == member_total(groups_view(plan.cubes@)),
        r.sphere_instances == member_total(groups_view(plan.spheres@)),
        r.terrain_instances == terrain_draws,
        r.sprite_instances == count_total(sprite_batch_instances@),
        r.draw_calls == plan.cubes@.len() + plan.spheres@.len() + terrain_draws + sprite_batch_instances@.len(),
{
    let draw_calls = plan.cubes.len() as u32 + plan.spheres.len() as u32 + terrain_draws as u32
        + sprite_batch_instances.len() as u32;
    SceneRendererStats {
        cube_instances: total_members(&plan.cubes),
        sphere_instances: total_members(&plan.spheres),
        terrain_instances: terrain_draws as u32,
        sprite_instances: total_counts(sprite_batch_instances),
        draw_calls,
    }
}

/// The number of items that have a key.
pub open spec fn keyed_count(keys: Seq<Option<BatchKeyView>>) -> int
    decreases keys.len(),
{
    if keys.len() == 0 {
        0
    } else {
        keyed_count(keys.drop_last()) + if keys.last() is Some {
            1int
        } else {
            0int
        }
    }
}

/// The positions of the items that have a key.
pub open spec fn keyed_positions(keys: Seq<Option<BatchKeyView>>) -> Set<int> {
    Set::new(|i: int| 0 <= i < keys.len() && keys[i] is Some)
}

/// The members of a group as integers.
pub open spec fn member_ints(members: Seq<usize>) -> Seq<int> {
    members.map_values(|x: usize| x as int)
}

/// The members of all groups.
pub open spec fn all_members(gs: Seq<(BatchKeyView, Seq<usize>)>) -> Set<int>
    decreases gs.len(),
{
    if gs.len() == 0 {
        Set::empty()
    } else {
        all_members(gs.drop_last()) + member_ints(gs.last().1).to_set()
    }
}

proof fn lemma_all_members_contains(gs: Seq<(BatchKeyView, Seq<usize>)>, x: int)
    ensures
        all_members(gs).finite(),
        all_members(gs).contains(x) <==> exists|g: int, j: int|
            0 <= g < gs.len() && 0 <= j < gs[g].1.len() && #[trigger] gs[g].1[j] == x,
    decreases gs.len(),
{
    if gs.len() > 0 {
        let rest = gs.drop_last();
        lemma_all_members_contains(rest, x);
        let last = gs.last().1;
        let mi = member_ints(last);
        if mi.to_set().contains(x) {
            let j = choose|j: int| 0 <= j < mi.len() && mi[j] == x;
            assert(gs[gs.len() - 1].1[j] == x);
        }
        if exists|g: int, j: int| 0 <= g < gs.len() && 0 <= j < gs[g].1.len() && #[trigger] gs[g].1[j] == x {
            let (g, j) = choose|g: int, j: int| 0 <= g < gs.len() && 0 <= j < gs[g].1.len() && #[trigger] gs[g].1[j] == x;
            if g < gs.len() - 1 {
                assert(rest[g] == gs[g]);
            } else {
                assert(mi[j] == x);
                assert(mi.to_set().contains(mi[j]));
            }
        }
        if all_members(rest).contains(x) {
            let (g, j) = choose|g: int, j: int| 0 <= g < rest.len() && 0 <= j < rest[g].1.len() && #[trigger] rest[g].1[j] == x;
            assert(gs[g] == rest[g]);
        }
    }
}

proof fn lemma_all_members_len(gs: Seq<(BatchKeyView, Seq<usize>)>)
    requires
        forall|g: int, j1: int, j2: int|
            0 <= g < gs.len() && 0 <= j1 < j2 < gs[g].1.len() ==> #[trigger] gs[g].1[j1] < #[trigger] gs[g].1[j2],
        forall|g1: int, j1: int, g2: int, j2: int|
            0 <= g1 < gs.len() && 0 <= g2 < gs.len() && g1 != g2 && 0 <= j1 < gs[g1].1.len() && 0 <= j2
                < gs[g2].1.len() ==> #[trigger] gs[g1].1[j1] != #[trigger] gs[g2].1[j2],
    ensures
        all_members(gs).finite(),
        all_members(gs).len() == member_total(gs),
    decreases gs.len(),
{
    if gs.len() > 0 {
        let rest = gs.drop_last();
        let n = gs.len() - 1;
        assert forall|g: int, j1: int, j2: int|
            0 <= g < rest.len() && 0 <= j1 < j2 < rest[g].1.len() implies #[trigger] rest[g].1[j1] < #[trigger] rest[g].1[j2] by {
            assert(rest[g] == gs[g]);
        }
        assert forall|g1: int, j1: int, g2: int, j2: int|
            0 <= g1 < rest.len() && 0 <= g2 < rest.len() && g1 != g2 && 0 <= j1 < rest[g1].1.len() && 0 <= j2
                < rest[g2].1.len() implies #[trigger] rest[g1].1[j1] != #[trigger] rest[g2].1[j2] by {
            assert(rest[g1] == gs[g1] && rest[g2] == gs[g2]);
        }
        lemma_all_members_len(rest);
        lemma_all_members_contains(rest, 0);
        let mi = member_ints(gs.last().1);
        assert(gs.last() == gs[n]);
        assert(mi.no_duplicates()) by {
            assert forall|a: int, b: int| 0 <= a < mi.len() && 0 <= b < mi.len() && a != b implies mi[a] != mi[b] by {
                if a < b {
                    assert(gs[n].1[a] < gs[n].1[b]);
                } else {
                    assert(gs[n].1[b] < gs[n].1[a]);
                }
            }
        }
        mi.unique_seq_to_set();
        vstd::seq_lib::seq_to_set_is_finite(mi);
        assert(all_members(rest).disjoint(mi.to_set())) by {
            assert forall|x: int| all_members(rest).contains(x) implies !mi.to_set().contains(x) by {
                lemma_all_members_contains(rest, x);
                let (g, j) = choose|g: int, j: int| 0 <= g < rest.len() && 0 <= j < rest[g].1.len() && #[trigger] rest[g].1[j] == x;
                assert(rest[g] == gs[g]);
                if mi.to_set().contains(x) {
                    let k = choose|k: int| 0 <= k < mi.len() && mi[k] == x;
                    assert(gs[g].1[j] != gs[n].1[k]);
                }
            }
        }
        vstd::set_lib::lemma_set_disjoint_lens(all_members(rest), mi.to_set());
    }
}

proof fn lemma_keyed_positions_len(keys: Seq<Option<BatchKeyView>>)
    ensures
        keyed_positions(keys).finite(),
        keyed_positions(keys).len() == keyed_count(keys),
    decreases keys.len(),
{
    if keys.len() == 0 {
        assert(keyed_positions(keys) =~= Set::<int>::empty());
    } else {
        let rest = keys.drop_last();
        lemma_keyed_positions_len(rest);
        let n = keys.len() - 1;
        if keys.last() is Some {
            assert(keyed_positions(keys) =~= keyed_positions(rest).insert(n));
            assert(!keyed_positions(rest).contains(n));
        } else {
            assert(keyed_positions(keys) =~= keyed_positions(rest));
        }
    }
}

/// Grouping loses and duplicates nothing: an item with a key lies in exactly
/// one group, at one place, and the groups hold as many members as there are
/// items with a key.
pub proof fn lemma_grouping_counts_each_item_once(keys: Seq<Option<BatchKeyView>>, gs: Seq<(BatchKeyView, Seq<usize>)>)
    requires
        is_grouping(keys, gs),
    ensures
        member_total(gs) == keyed_count(keys),
        forall|g1: int, j1: int, g2: int, j2: int|
            0 <= g1 < gs.len() && 0 <= g2 < gs.len() && 0 <= j1 < gs[g1].1.len() && 0 <= j2 < gs[g2].1.len()
                && #[trigger] gs[g1].1[j1] == #[trigger] gs[g2].1[j2] ==> g1 == g2 && j1 == j2,
{
    assert forall|g1: int, j1: int, g2: int, j2: int|
        0 <= g1 < gs.len() && 0 <= g2 < gs.len() && 0 <= j1 < gs[g1].1.len() && 0 <= j2 < gs[g2].1.len()
            && #[trigger] gs[g1].1[j1] == #[trigger] gs[g2].1[j2] implies g1 == g2 && j1 == j2 by {
        let m = gs[g1].1[j1];
        assert(keys[m as int] == Some(gs[g1].0));
        assert(keys[gs[g2].1[j2] as int] == Some(gs[g2].0));
        lemma_batch_key_order(gs[g1].0, gs[g2].0, gs[g2].0);
        if g1 < g2 {
            assert(batch_key_lt(gs[g1].0, gs[g2].0));
        } else if g2 < g1 {
            assert(batch_key_lt(gs[g2].0, gs[g1].0));
        } else {
            if j1 < j2 {
                assert(gs[g1].1[j1] < gs[g1].1[j2]);
            } else if j2 < j1 {
                assert(gs[g1].1[j2] < gs[g1].1[j1]);
            }
        }
    }
    lemma_all_members_len(gs);
    lemma_keyed_positions_len(keys);
    assert forall|x: int| #[trigger] all_members(gs).contains(x) <==> keyed_positions(keys).contains(x) by {
        lemma_all_members_contains(gs, x);
        if keyed_positions(keys).contains(x) {
            assert(keys[x] is Some);
            let (g, j) = choose|g: int, j: int| 0 <= g < gs.len() && 0 <= j < gs[g].1.len() && #[trigger] gs[g].1[j] == x;
        }
        if all_members(gs).contains(x) {
            let (g, j) = choose|g: int, j: int| 0 <= g < gs.len() && 0 <= j < gs[g].1.len() && #[trigger] gs[g].1[j] == x;
            assert(keys[gs[g].1[j] as int] == Some(gs[g].0));
        }
    }
    assert(all_members(gs) =~= keyed_positions(keys));
}

/// The frame statistics count every visible cube and sphere once.
pub proof fn lemma_stats_count_every_mesh(meshes: Seq<(MeshPrimitive, RenderMaterial)>, plan: ScenePlan)
    requires
        is_grouping(cube_keys_spec(meshes), groups_view(plan.cubes@)),
        is_grouping(sphere_keys_spec(meshes), groups_view(plan.spheres@)),
    ensures
        member_total(groups_view(plan.cubes@)) == keyed_count(cube_keys_spec(meshes)),
        member_total(groups_view(plan.spheres@)) == keyed_count(sphere_keys_spec(meshes)),
        keyed_count(cube_keys_spec(meshes)) + keyed_count(sphere_keys_spec(meshes)) == meshes.len(),
    decreases meshes.len(),
{
    lemma_grouping_counts_each_item_once(cube_keys_spec(meshes), groups_view(plan.cubes@));
    lemma_grouping_counts_each_item_once(sphere_keys_spec(meshes), groups_view(plan.spheres@));
    lemma_keyed_split(meshes);
}

proof fn lemma_keyed_split(meshes: Seq<(MeshPrimitive, RenderMaterial)>)
    ensures
        keyed_count(cube_keys_spec(meshes)) + keyed_count(sphere_keys_spec(meshes)) == meshes.len(),
    decreases meshes.len(),
{
    if meshes.len() > 0 {
        let rest = meshes.drop_last();
        lemma_keyed_split(rest);
        assert(cube_keys_spec(meshes).drop_last() =~= cube_keys_spec(rest));
        assert(sphere_keys_spec(meshes).drop_last() =~= sphere_keys_spec(rest));
    }
}

} // verus!
