//! Layer and block visibility filters of the viewer.
use vstd::prelude::*;

use crate::models::{BlockInfo, EntityRecord, LayerInfo};
use crate::name_map::NameMap;
use crate::text::{chars_of, lower, lower_chars};

verus! {

/// Drawings with more entities than this get a hint to use the GPU renderer.
pub const WGPU_RECOMMENDATION_THRESHOLD: usize = 120_000;

/// `m` after `entry(name).or_insert(visible)` for each layer in turn.
pub open spec fn layers_synced(m: Map<Seq<char>, bool>, layers: Seq<LayerInfo>) -> Map<Seq<char>, bool>
    decreases layers.len(),
{
    if layers.len() == 0 {
        m
    } else {
        let before = layers_synced(m, layers.drop_last());
        let layer = layers.last();
        if before.contains_key(layer.name@) {
            before
        } else {
            before.insert(layer.name@, layer.visible_by_default)
        }
    }
}

/// `m` after `entry(name).or_insert(true)` for each block in turn.
pub open spec fn blocks_synced(m: Map<Seq<char>, bool>, blocks: Seq<BlockInfo>) -> Map<Seq<char>, bool>
    decreases blocks.len(),
{
    if blocks.len() == 0 {
        m
    } else {
        let before = blocks_synced(m, blocks.drop_last());
        let block = blocks.last();
        if before.contains_key(block.name@) {
            before
        } else {
            before.insert(block.name@, true)
        }
    }
}

/// A name's visibility; names without an entry are visible.
pub open spec fn shown(m: Map<Seq<char>, bool>, name: Seq<char>) -> bool {
    if m.contains_key(name) {
        m[name]
    } else {
        true
    }
}

/// An entity is shown when its layer is and, if it belongs to a block,
/// that block is.
pub open spec fn entity_shown(f: VisibilityFilters, e: EntityRecord) -> bool {
    shown(f.layer_visibility@, e.layer_name@) && match e.block_name {
        Some(b) => shown(f.block_visibility@, b@),
        None => true,
    }
}

/// Which layers and blocks the viewer shows.
#[derive(Debug, Clone)]
pub struct VisibilityFilters {
    pub layer_visibility: NameMap<bool>,
    pub block_visibility: NameMap<bool>,
    pub layer_search: String,
    pub block_search: String,
}

/// What the sidebar asks of the viewer after a frame.
pub struct SidebarActions {
    pub request_fit_view: bool,
}

impl Default for VisibilityFilters {
    fn default() -> (f: Self)
        ensures
            f.wf(),
            f.layer_visibility@ == Map::<Seq<char>, bool>::empty(),
            f.block_visibility@ == Map::<Seq<char>, bool>::empty(),
            f.layer_search@ == Seq::<char>::empty(),
            f.block_search@ == Seq::<char>::empty(),
    {
        VisibilityFilters {
            layer_visibility: NameMap::new(),
            block_visibility: NameMap::new(),
            layer_search: String::new(),
            block_search: String::new(),
        }
    }
}

impl VisibilityFilters {
    pub open spec fn wf(&self) -> bool {
        self.layer_visibility.wf() && self.block_visibility.wf()
    }

    /// Gives every layer and block of the drawing an entry, keeping the
    /// entries already there: a new layer starts as its default visibility,
    /// a new block as visible.
    pub fn sync_from_drawing(&mut self, layers: &NameMap<LayerInfo>, blocks: &NameMap<BlockInfo>)
        requires
            old(self).wf(),
        ensures
            final(self).wf(),
            final(self).layer_visibility@ == layers_synced(old(self).layer_visibility@, layers.values()),
            final(self).block_visibility@ == blocks_synced(old(self).block_visibility@, blocks.values()),
            final(self).layer_search == old(self).layer_search,
            final(self).block_search == old(self).block_search,
    {
        proof {
            layers.lemma_lengths();
            blocks.lemma_lengths();
        }
        let mut i: usize = 0;
        while i < layers.len()
            invariant
                self.wf(),
                i <= layers.keys().len(),
                layers.keys().len() == layers.values().len(),
                self.layer_visibility@ == layers_synced(old(self).layer_visibility@, layers.values().take(i as int)),
                self.block_visibility == old(self).block_visibility,
                self.layer_search == old(self).layer_search,
                self.block_search == old(self).block_search,
            decreases layers.keys().len() - i,
        {
            let layer = layers.value_at(i);
            assert(layers.values().take(i + 1).drop_last() == layers.values().take(i as int));
            self.layer_visibility.insert_if_absent(layer.name.clone(), layer.visible_by_default);
            i = i + 1;
        }
        assert(layers.values().take(layers.keys().len() as int) == layers.values());
        let mut j: usize = 0;
        while j < blocks.len()
            invariant
                self.wf(),
                j <= blocks.keys().len(),
                blocks.keys().len() == blocks.values().len(),
                self.layer_visibility@ == layers_synced(old(self).layer_visibility@, layers.values()),
                self.block_visibility@ == blocks_synced(old(self).block_visibility@, blocks.values().take(j as int)),
                self.layer_search == old(self).layer_search,
                self.block_search == old(self).block_search,
            decreases blocks.keys().len() - j,
        {
            let block = blocks.value_at(j);
            assert(blocks.values().take(j + 1).drop_last() == blocks.values().take(j as int));
            self.block_visibility.insert_if_absent(block.name.clone(), true);
            j = j + 1;
        }
        assert(blocks.values().take(blocks.keys().len() as int) == blocks.values());
    }

    /// An entity is visible when its layer is and, if it belongs to a block,
    /// that block is; names without an entry count as visible.
    pub fn is_entity_visible(&self, entity: &EntityRecord) -> (r: bool)
        requires
            self.wf(),
        ensures
            r == entity_shown(*self, *entity),
    {
        let layer_visible = match self.layer_visibility.get(entity.layer_name.as_str()) {
            Some(v) => *v,
            None => true,
        };
        if !layer_visible {
            return false;
        }
        match &entity.block_name {
            Some(block_name) => match self.block_visibility.get(block_name.as_str()) {
                Some(v) => *v,
                None => true,
            },
            None => true,
        }
    }

    /// Shows or hides every known layer; blocks are untouched.
    pub fn set_all_layers(&mut self, visible: bool)
        requires
            old(self).wf(),
        ensures
            final(self).wf(),
            final(self).layer_visibility@.dom() == old(self).layer_visibility@.dom(),
            forall|k: Seq<char>| #[trigger] final(self).layer_visibility@.contains_key(k) ==> final(self).layer_visibility@[k] == visible,
            final(self).block_visibility == old(self).block_visibility,
            final(self).layer_search == old(self).layer_search,
            final(self).block_search == old(self).block_search,
    {
        self.layer_visibility.set_every_value(visible);
    }

    /// Shows or hides every known block; layers are untouched.
    pub fn set_all_blocks(&mut self, visible: bool)
        requires
            old(self).wf(),
        ensures
            final(self).wf(),
            final(self).block_visibility@.dom() == old(self).block_visibility@.dom(),
            forall|k: Seq<char>| #[trigger] final(self).block_visibility@.contains_key(k) ==> final(self).block_visibility@[k] == visible,
            final(self).layer_visibility == old(self).layer_visibility,
            final(self).layer_search == old(self).layer_search,
            final(self).block_search == old(self).block_search,
    {
        self.block_visibility.set_every_value(visible);
    }
}

/// Syncing with a drawing keeps every visibility already chosen, adds an
/// entry for each layer of the drawing, and syncing again changes nothing.
pub proof fn law_layer_sync_keeps_choices(m: Map<Seq<char>, bool>, layers: Seq<LayerInfo>)
    ensures
        forall|k: Seq<char>| #[trigger] m.contains_key(k) ==> layers_synced(m, layers).contains_key(k) && layers_synced(m, layers)[k] == m[k],
        forall|i: int| 0 <= i < layers.len() ==> layers_synced(m, layers).contains_key(#[trigger] layers[i].name@),
        forall|k: Seq<char>| #[trigger] layers_synced(m, layers).contains_key(k) ==> m.contains_key(k) || exists|i: int| 0 <= i < layers.len() && layers[i].name@ == k,
        layers_synced(layers_synced(m, layers), layers) == layers_synced(m, layers),
    decreases layers.len(),
{
    if layers.len() > 0 {
        let rest = layers.drop_last();
        law_layer_sync_keeps_choices(m, rest);
        let once = layers_synced(m, layers);
        law_layer_sync_keeps_choices(once, rest);
        assert forall|i: int| 0 <= i < layers.len() implies once.contains_key(#[trigger] layers[i].name@) by {
            if i < layers.len() - 1 {
                assert(rest[i] == layers[i]);
            }
        }
        assert forall|k: Seq<char>| #[trigger] once.contains_key(k) implies m.contains_key(k) || exists|i: int| 0 <= i < layers.len() && layers[i].name@ == k by {
            let before = layers_synced(m, rest);
            if before.contains_key(k) {
                if !m.contains_key(k) {
                    let i = choose|i: int| 0 <= i < rest.len() && rest[i].name@ == k;
                    assert(layers[i] == rest[i]);
                }
            } else {
                assert(layers[layers.len() - 1].name@ == k);
            }
        }
        // syncing `once` with the first layers changes nothing: all their names are there
        assert forall|k: Seq<char>| #[trigger] layers_synced(once, rest).contains_key(k) <==> once.contains_key(k) by {
            if layers_synced(once, rest).contains_key(k) && !once.contains_key(k) {
                let i = choose|i: int| 0 <= i < rest.len() && rest[i].name@ == k;
                assert(layers[i] == rest[i]);
                assert(once.contains_key(layers[i].name@));
            }
        }
        assert(layers_synced(once, rest) =~= once);
        assert(once.contains_key(layers.last().name@)) by {
            assert(layers[layers.len() - 1] == layers.last());
        }
    }
}

/// Syncing with a drawing keeps every block visibility already chosen and
/// adds an entry for each block; syncing again changes nothing.
pub proof fn law_block_sync_keeps_choices(m: Map<Seq<char>, bool>, blocks: Seq<BlockInfo>)
    ensures
        forall|k: Seq<char>| #[trigger] m.contains_key(k) ==> blocks_synced(m, blocks).contains_key(k) && blocks_synced(m, blocks)[k] == m[k],
        forall|i: int| 0 <= i < blocks.len() ==> blocks_synced(m, blocks).contains_key(#[trigger] blocks[i].name@),
        blocks_synced(blocks_synced(m, blocks), blocks) == blocks_synced(m, blocks),
    decreases blocks.len(),
{
    if blocks.len() > 0 {
        let rest = blocks.drop_last();
        law_block_sync_keeps_choices(m, rest);
        let once = blocks_synced(m, blocks);
        law_block_sync_keeps_choices(once, rest);
        let before = blocks_synced(m, rest);
        assert forall|k: Seq<char>| #[trigger] before.contains_key(k) implies once.contains_key(k) by {}
        assert forall|i: int| 0 <= i < blocks.len() implies once.contains_key(#[trigger] blocks[i].name@) by {
            if i < blocks.len() - 1 {
                assert(rest[i] == blocks[i]);
                assert(before.contains_key(rest[i].name@));
            } else {
                assert(blocks[i] == blocks.last());
            }
        }
        assert forall|k: Seq<char>| #[trigger] blocks_synced(once, rest).contains_key(k) <==> once.contains_key(k) by {
            if blocks_synced(once, rest).contains_key(k) && !once.contains_key(k) {
                lemma_block_sync_dom(once, rest, k);
                let i = choose|i: int| 0 <= i < rest.len() && rest[i].name@ == k;
                assert(blocks[i] == rest[i]);
                assert(once.contains_key(blocks[i].name@));
            }
        }
        assert(blocks_synced(once, rest) =~= once);
        assert(once.contains_key(blocks.last().name@)) by {
            assert(blocks[blocks.len() - 1] == blocks.last());
        }
    }
}

proof fn lemma_block_sync_dom(m: Map<Seq<char>, bool>, blocks: Seq<BlockInfo>, k: Seq<char>)
    requires
        blocks_synced(m, blocks).contains_key(k),
        !m.contains_key(k),
    ensures
        exists|i: int| 0 <= i < blocks.len() && blocks[i].name@ == k,
    decreases blocks.len(),
{
    let rest = blocks.drop_last();
    if blocks_synced(m, rest).contains_key(k) {
        lemma_block_sync_dom(m, rest, k);
        let i = choose|i: int| 0 <= i < rest.len() && rest[i].name@ == k;
        assert(blocks[i] == rest[i]);
    } else {
        assert(blocks[blocks.len() - 1].name@ == k);
    }
}

/// With every layer hidden (`layers off`), no entity on a known layer is
/// shown; with every layer and block shown (`layers on`, `blocks on`),
/// every entity is.
pub proof fn law_all_layers_off_or_on(f: VisibilityFilters, e: EntityRecord)
    ensures
        (forall|k: Seq<char>| #[trigger] f.layer_visibility@.contains_key(k) ==> !f.layer_visibility@[k])
            && f.layer_visibility@.contains_key(e.layer_name@) ==> !entity_shown(f, e),
        (forall|k: Seq<char>| #[trigger] f.layer_visibility@.contains_key(k) ==> f.layer_visibility@[k])
            && (forall|k: Seq<char>| #[trigger] f.block_visibility@.contains_key(k) ==> f.block_visibility@[k])
            ==> entity_shown(f, e),
{
}

/// `needle` occurs in `hay` starting at `i`.
pub open spec fn occurs_at(hay: Seq<char>, needle: Seq<char>, i: int) -> bool {
    0 <= i && i + needle.len() <= hay.len() && hay.subrange(i, i + needle.len()) == needle
}

/// Whether the sidebar lists a name under a search text: every name when
/// the search is empty, otherwise the names that contain it, ignoring ASCII
/// case.
pub open spec fn listed_under(name: Seq<char>, search: Seq<char>) -> bool {
    lower(search).len() == 0 || exists|i: int| occurs_at(lower(name), lower(search), i)
}

fn occurs_at_exec(hay: &Vec<char>, needle: &Vec<char>, i: usize) -> (r: bool)
    requires
        i + needle.len() <= hay.len(),
    ensures
        r == occurs_at(hay@, needle@, i as int),
{
    let mut k: usize = 0;
    while k < needle.len()
        invariant
            k <= needle.len(),
            i + needle.len() <= hay.len(),
            forall|j: int| 0 <= j < k ==> hay@[i + j] == needle@[j],
        decreases needle.len() - k,
    {
        if hay[i + k] != needle[k] {
            assert(hay@.subrange(i as int, i + needle.len())[k as int] != needle@[k as int]);
            return false;
        }
        k = k + 1;
    }
    assert(hay@.subrange(i as int, i + needle.len()) =~= needle@);
    true
}

pub fn matches_search(name: &str, search: &str) -> (r: bool)
    ensures
        r == listed_under(name@, search@),
{
    let needle = lower_chars(&chars_of(search));
    if needle.len() == 0 {
        return true;
    }
    let hay = lower_chars(&chars_of(name));
    if needle.len() > hay.len() {
        assert forall|i: int| !occurs_at(hay@, needle@, i) by {}
        return false;
    }
    let end = hay.len() - needle.len() + 1;
    let mut i: usize = 0;
    while i < end
        invariant
            end + needle.len() == hay.len() + 1,
            hay@ == lower(name@),
            needle@ == lower(search@),
            forall|j: int| 0 <= j < i ==> !occurs_at(hay@, needle@, j),
        decreases end - i,
    {
        if occurs_at_exec(&hay, &needle, i) {
            assert(occurs_at(lower(name@), lower(search@), i as int));
            return true;
        }
        i = i + 1;
    }
    assert forall|j: int| !occurs_at(lower(name@), lower(search@), j) by {
        if occurs_at(hay@, needle@, j) {
            assert(j < end);
        }
    }
    false
}

} // verus!
