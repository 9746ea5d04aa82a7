use intmap::IntMap;
use vstd::prelude::*;

verus! {

#[verifier::external_type_specification]
#[verifier::external_body]
#[verifier::reject_recursive_types(V)]
pub struct ExIntMap<V>(IntMap<V>);

/// The entries of an `IntMap` from node ids to key positions.
pub uninterp spec fn slot_entries(m: IntMap<usize>) -> Map<u64, usize>;

/// `IntMap::new`: a map with no entries.
#[verifier::external_body]
fn slots_new() -> (slots: IntMap<usize>)
    ensures
        slot_entries(slots).dom() == Set::<u64>::empty(),
{
    IntMap::new()
}

/// `IntMap::insert`: adds the entry when the key is absent and answers
/// `true`; when the key is present it keeps the entry that is there and
/// answers `false`.
#[verifier::external_body]
fn slots_insert(m: &mut IntMap<usize>, key: u64, value: usize) -> (inserted: bool)
    ensures
        inserted == !slot_entries(*old(m)).contains_key(key),
        slot_entries(*final(m)) == (if inserted {
            slot_entries(*old(m)).insert(key, value)
        } else {
            slot_entries(*old(m))
        }),
{
    m.insert(key, value)
}

/// `IntMap::remove`: takes the entry of the key out of the map, if there is
/// one, and hands back its value.
#[verifier::external_body]
fn slots_remove(m: &mut IntMap<usize>, key: u64) -> (value: Option<usize>)
    ensures
        match value {
            Some(v) => slot_entries(*old(m)).contains_key(key) && slot_entries(*old(m))[key] == v,
            None => !slot_entries(*old(m)).contains_key(key),
        },
        slot_entries(*final(m)) == slot_entries(*old(m)).remove(key),
{
    m.remove(key)
}

/// Whether `k` is the first position of `id` in `ids`.
pub open spec fn first_position(ids: Seq<u64>, id: u64, k: int) -> bool {
    &&& 0 <= k < ids.len()
    &&& ids[k] == id
    &&& forall|j: int| 0 <= j < k ==> ids[j] != id
}

/// The key slots of a list of key owners: each node id that owns a key is
/// mapped to the position of the first key drawn for it (a later key drawn
/// for the same id is ignored).
pub fn key_slots(owner_ids: &Vec<u64>) -> (slots: IntMap<usize>)
    ensures
        forall|id: u64| #[trigger] slot_entries(slots).contains_key(id) <==> owner_ids@.contains(id),
        forall|id: u64|
            #[trigger] slot_entries(slots).contains_key(id) ==> first_position(
                owner_ids@,
                id,
                slot_entries(slots)[id] as int,
            ),
{
    let mut slots = slots_new();
    let mut k: usize = 0;
    while k < owner_ids.len()
        invariant
            k <= owner_ids@.len(),
            forall|id: u64| #[trigger] slot_entries(slots).contains_key(id)
                <==> owner_ids@.take(k as int).contains(id),
            forall|id: u64|
                #[trigger] slot_entries(slots).contains_key(id) ==> first_position(
                    owner_ids@,
                    id,
                    slot_entries(slots)[id] as int,
                ),
        decreases owner_ids@.len() - k,
    {
        let id = owner_ids[k];
        let ghost before = slot_entries(slots);
        let inserted = slots_insert(&mut slots, id, k);
        proof {
            let prefix = owner_ids@.take(k as int);
            let next = owner_ids@.take(k + 1);
            assert(next =~= prefix.push(id));
            assert forall|x: u64| #[trigger] slot_entries(slots).contains_key(x)
                <==> next.contains(x) by {
                if next.contains(x) && x != id {
                    let j = choose|j: int| 0 <= j < next.len() && next[j] == x;
                    assert(prefix[j] == x);
                }
                if prefix.contains(x) {
                    let j = choose|j: int| 0 <= j < prefix.len() && prefix[j] == x;
                    assert(next[j] == x);
                }
                assert(next[k as int] == id);
            }
            if inserted {
                assert forall|j: int| 0 <= j < k implies owner_ids@[j] != id by {
                    if owner_ids@[j] == id {
                        assert(prefix[j] == id);
                    }
                }
            }
        }
        k = k + 1;
    }
    proof {
        assert(owner_ids@.take(k as int) =~= owner_ids@);
    }
    slots
}

/// Takes the key slot of `id` out of `slots`: the position of its key, or
/// `None` when no key was drawn for it (or it was taken already).
pub fn take_key_slot(slots: &mut IntMap<usize>, id: u64) -> (slot: Option<usize>)
    ensures
        slot == (if slot_entries(*old(slots)).contains_key(id) {
            Some(slot_entries(*old(slots))[id])
        } else {
            None
        }),
        slot_entries(*final(slots)) == slot_entries(*old(slots)).remove(id),
{
    slots_remove(slots, id)
}

} // verus!
