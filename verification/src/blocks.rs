//! The blocks section of the extracted JSON: which entities each block
//! holds, and the handle it is written with.
use vstd::prelude::*;

use crate::extract::{block_name_of, block_names_by_handle, BlockRecordSource};
use crate::name_map::NameMap;
use crate::output::{hex_text, hex_upper};

verus! {

broadcast use vstd::std_specs::btree::group_btree_axioms, vstd::laws_cmp::group_laws_cmp;

/// One block of the output: its handle in hex (`0` for a block that only
/// entities name), its name, and the indices of its entities in document
/// order.
#[derive(Debug, Clone)]
pub struct BlockGroup {
    pub handle: String,
    pub name: String,
    pub entity_ids: Vec<usize>,
}

/// The block an entity with owner handle `h` is listed under: its owner's
/// block record, or model space when no record has that handle.
pub open spec fn owner_block(records: Seq<BlockRecordSource>, h: u64) -> Seq<char> {
    match block_name_of(records, h) {
        Some(name) => name,
        None => "*Model_Space"@,
    }
}

/// Indices of the entities among the first `n` listed under block `k`.
pub open spec fn owned_ids(records: Seq<BlockRecordSource>, owners: Seq<u64>, k: Seq<char>, n: int) -> Seq<usize>
    decreases n,
{
    if n <= 0 {
        Seq::empty()
    } else if owner_block(records, owners[n - 1]) == k {
        owned_ids(records, owners, k, n - 1).push((n - 1) as usize)
    } else {
        owned_ids(records, owners, k, n - 1)
    }
}

/// How many block records are named `k`.
pub open spec fn records_named(rs: Seq<BlockRecordSource>, k: Seq<char>) -> nat
    decreases rs.len(),
{
    if rs.len() == 0 {
        0
    } else {
        records_named(rs.drop_last(), k) + if rs.last().name@ == k {
            1nat
        } else {
            0nat
        }
    }
}

/// The index of the last block record named `k`, or -1.
pub open spec fn last_record_named(rs: Seq<BlockRecordSource>, k: Seq<char>) -> int
    decreases rs.len(),
{
    if rs.len() == 0 {
        -1
    } else if rs.last().name@ == k {
        rs.len() - 1
    } else {
        last_record_named(rs.drop_last(), k)
    }
}

pub proof fn lemma_last_record_named(rs: Seq<BlockRecordSource>, k: Seq<char>)
    ensures
        -1 <= last_record_named(rs, k) < rs.len(),
        last_record_named(rs, k) >= 0 ==> rs[last_record_named(rs, k)].name@ == k,
        last_record_named(rs, k) >= 0 <==> records_named(rs, k) > 0,
    decreases rs.len(),
{
    if rs.len() > 0 {
        lemma_last_record_named(rs.drop_last(), k);
    }
}

/// The output block `g` for name `k`: a block with records takes the handle
/// of its last record, and holds its entities only when it has exactly one
/// record (a later record of the same name is written with none); a block
/// that only entities name has handle `0`.
pub open spec fn is_block_group(g: BlockGroup, k: Seq<char>, records: Seq<BlockRecordSource>, owned: Seq<usize>) -> bool {
    let last = last_record_named(records, k);
    &&& g.name@ == k
    &&& if last >= 0 {
        &&& g.handle@ == hex_text(records[last].handle as nat)
        &&& g.entity_ids@ == if records_named(records, k) == 1 {
            owned
        } else {
            Seq::empty()
        }
    } else {
        &&& g.handle@ == "0"@
        &&& g.entity_ids@ == owned
    }
}

fn copy_ids(v: &Vec<usize>) -> (r: Vec<usize>)
    ensures
        r@ == v@,
{
    let mut r: Vec<usize> = Vec::new();
    let mut i: usize = 0;
    while i < v.len()
        invariant
            i <= v.len(),
            r@ == v@.take(i as int),
        decreases v.len() - i,
    {
        r.push(v[i]);
        assert(v@.take(i + 1) == v@.take(i as int).push(v@[i as int]));
        i = i + 1;
    }
    assert(v@.take(v.len() as int) == v@);
    r
}

/// The entities of each block, by the block records and the owner handle of
/// each entity: one block per record name and per name an entity is listed
/// under.
pub fn convert_blocks(records: &Vec<BlockRecordSource>, owner_handles: &Vec<u64>) -> (blocks: NameMap<BlockGroup>)
    ensures
        blocks.wf(),
        forall|k: Seq<char>| #[trigger] blocks@.contains_key(k) <==> (records_named(records@, k) > 0
            || owned_ids(records@, owner_handles@, k, owner_handles@.len() as int).len() > 0),
        forall|k: Seq<char>| #[trigger] blocks@.contains_key(k) ==> is_block_group(blocks@[k], k, records@,
            owned_ids(records@, owner_handles@, k, owner_handles@.len() as int)),
{
    let ghost rs = records@;
    let ghost owners = owner_handles@;
    let ghost n = owners.len() as int;
    let block_by_handle = block_names_by_handle(records);
    let mut groups: NameMap<Vec<usize>> = NameMap::new();
    let mut i: usize = 0;
    while i < owner_handles.len()
        invariant
            i <= owner_handles.len(),
            rs == records@,
            owners == owner_handles@,
            groups.wf(),
            forall|h: u64| #[trigger] block_by_handle@.contains_key(h) <==> block_name_of(rs, h) is Some,
            forall|h: u64| #[trigger] block_by_handle@.contains_key(h) ==> block_name_of(rs, h) == Some(block_by_handle@[h]@),
            forall|k: Seq<char>| #[trigger] groups@.contains_key(k) <==> owned_ids(rs, owners, k, i as int).len() > 0,
            forall|k: Seq<char>| #[trigger] groups@.contains_key(k) ==> groups@[k]@ == owned_ids(rs, owners, k, i as int),
        decreases owner_handles.len() - i,
    {
        let name = match block_by_handle.get(&owner_handles[i]) {
            Some(name) => name.clone(),
            None => "*Model_Space".to_owned(),
        };
        assert(name@ == owner_block(rs, owners[i as int]));
        groups.push_to(name, i);
        proof {
            assert forall|k: Seq<char>| #[trigger] groups@.contains_key(k) <==> owned_ids(rs, owners, k, i + 1).len() > 0 by {
                if owned_ids(rs, owners, k, i as int).len() > 0 {
                    assert(groups@.contains_key(k));
                }
            }
        }
        i = i + 1;
    }
    let mut blocks: NameMap<BlockGroup> = NameMap::new();
    let mut j: usize = 0;
    while j < records.len()
        invariant
            j <= records.len(),
            rs == records@,
            owners == owner_handles@,
            n == owners.len(),
            groups.wf(),
            blocks.wf(),
            forall|k: Seq<char>| #[trigger] groups@.contains_key(k) <==> owned_ids(rs, owners, k, n).len() > 0,
            forall|k: Seq<char>| #[trigger] groups@.contains_key(k) ==> groups@[k]@ == owned_ids(rs, owners, k, n),
            forall|k: Seq<char>| #[trigger] blocks@.contains_key(k) <==> records_named(rs.take(j as int), k) > 0,
            forall|k: Seq<char>| #[trigger] blocks@.contains_key(k) ==> is_block_group(blocks@[k], k, rs.take(j as int), owned_ids(rs, owners, k, n)),
        decreases records.len() - j,
    {
        let r = &records[j];
        let ghost k0 = r.name@;
        let had = blocks.contains_key(r.name.as_str());
        let ghost old_blocks = blocks@;
        let ids = if had {
            Vec::new()
        } else {
            match groups.get(r.name.as_str()) {
                Some(v) => copy_ids(v),
                None => Vec::new(),
            }
        };
        let ghost ids_v = ids@;
        proof {
            if had {
                assert(ids_v =~= Seq::<usize>::empty());
            } else {
                assert(ids_v =~= owned_ids(rs, owners, k0, n));
            }
        }
        blocks.insert(r.name.clone(), BlockGroup { handle: hex_upper(r.handle), name: r.name.clone(), entity_ids: ids });
        proof {
            let before = rs.take(j as int);
            let after = rs.take(j + 1);
            assert(after.drop_last() == before);
            assert(after.last() == *r);
            assert(had == (records_named(before, k0) > 0));
            assert(records_named(after, k0) == records_named(before, k0) + 1);
            assert(last_record_named(after, k0) == j);
            assert forall|k: Seq<char>| #[trigger] blocks@.contains_key(k) implies is_block_group(blocks@[k], k, after, owned_ids(rs, owners, k, n)) by {
                lemma_last_record_named(before, k);
                if k != k0 {
                    assert(records_named(after, k) == records_named(before, k));
                    assert(last_record_named(after, k) == last_record_named(before, k));
                    assert(old_blocks.contains_key(k));
                    assert(blocks@[k] == old_blocks[k]);
                    assert(after[last_record_named(before, k)] == before[last_record_named(before, k)]);
                } else {
                    assert(blocks@[k].entity_ids@ == ids_v);
                }
            }
        }
        j = j + 1;
    }
    proof {
        assert(rs.take(rs.len() as int) == rs);
        groups.lemma_view();
        groups.lemma_lengths();
    }
    let ghost keys = groups.keys();
    let mut m: usize = 0;
    while m < groups.len()
        invariant
            m <= keys.len(),
            rs == records@,
            owners == owner_handles@,
            n == owners.len(),
            keys == groups.keys(),
            keys.len() == groups.values().len(),
            groups.wf(),
            blocks.wf(),
            forall|a: int| #![trigger keys[a]] 0 <= a < keys.len() ==> groups@.contains_key(keys[a]) && groups@[keys[a]] == groups.values()[a],
            forall|k: Seq<char>| groups@.contains_key(k) <==> #[trigger] keys.contains(k),
            forall|k: Seq<char>| #[trigger] groups@.contains_key(k) ==> groups@[k]@ == owned_ids(rs, owners, k, n),
            forall|k: Seq<char>| #[trigger] groups@.contains_key(k) <==> owned_ids(rs, owners, k, n).len() > 0,
            forall|k: Seq<char>| #[trigger] blocks@.contains_key(k) <==> (records_named(rs, k) > 0 || keys.take(m as int).contains(k)),
            forall|k: Seq<char>| #[trigger] blocks@.contains_key(k) ==> is_block_group(blocks@[k], k, rs, owned_ids(rs, owners, k, n)),
        decreases keys.len() - m,
    {
        let name = groups.key_at(m);
        let ghost km = keys[m as int];
        if !blocks.contains_key(name.as_str()) {
            let ids = copy_ids(groups.value_at(m));
            proof {
                lemma_last_record_named(rs, km);
            }
            blocks.insert(name.clone(), BlockGroup { handle: "0".to_owned(), name: name.clone(), entity_ids: ids });
        }
        proof {
            let before = keys.take(m as int);
            let after = keys.take(m + 1);
            assert(after == before.push(km));
            assert forall|k: Seq<char>| #[trigger] blocks@.contains_key(k) <==> (records_named(rs, k) > 0 || after.contains(k)) by {
                if after.contains(k) && k != km {
                    let a = choose|a: int| 0 <= a < after.len() && after[a] == k;
                    assert(before[a] == k);
                }
                if before.contains(k) {
                    let a = choose|a: int| 0 <= a < before.len() && before[a] == k;
                    assert(after[a] == k);
                }
                assert(after[m as int] == km);
            }
        }
        m = m + 1;
    }
    proof {
        assert(keys.take(keys.len() as int) == keys);
    }
    blocks
}

} // verus!
