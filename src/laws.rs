//! What holds of every rewrite, whatever the rule table.

use vstd::prelude::*;
use crate::rewrite::{
    container_of, has_count, has_enchantment_levels, item_id, reduced, refilled, rewrite_block_entities, rewrite_block_entity, rewrite_chunk,
    rewrite_inventory,
    rewrite_item, rewrite_items, rewrite_player, rewrite_slot, rewrite_slots, rewritten_inner,
    rewrapped, stripped,
};
use crate::rules::{action_in, standard_rules, Action};
use crate::tag::{
    lemma_replace_at_end, lemma_replace_lookup_other, lemma_update_first, lemma_update_lookup_other, lemma_without_excludes, lookup, position,
    replace_at_end, without, Entries, Node,
};

verus! {

/// Whether the rules drop this item record.
pub open spec fn is_dropped(table: Seq<(Seq<char>, Action)>, item: Entries) -> bool {
    match item_id(item) {
        Some(id) => action_in(table, id) == Action::Drop,
        None => false,
    }
}

/// The items of an inventory that the rules do not drop, in order.
pub open spec fn surviving(table: Seq<(Seq<char>, Action)>, items: Seq<Entries>) -> Seq<Entries>
    decreases items.len(),
{
    if items.len() == 0 {
        items
    } else if is_dropped(table, items[0]) {
        surviving(table, items.drop_first())
    } else {
        seq![items[0]] + surviving(table, items.drop_first())
    }
}

/// A rewritten inventory holds no dropped item: its items are the rewrites
/// of the surviving items, one for one and in their original order.
pub proof fn lemma_dropped_items_removed(table: Seq<(Seq<char>, Action)>, items: Seq<Entries>)
    requires
        rewrite_items(table, items) is Ok,
    ensures
        rewrite_items(table, items)->Ok_0.len() == surviving(table, items).len(),
        forall|j: int|
            0 <= j < surviving(table, items).len() ==> !is_dropped(
                table,
                #[trigger] surviving(table, items)[j],
            ) && rewrite_item(table, surviving(table, items)[j]) == Ok::<
                Option<Entries>,
                crate::rewrite::ShapeError,
            >(Some(rewrite_items(table, items)->Ok_0[j])),
    decreases items.len(),
{
    if items.len() > 0 {
        let rest = items.drop_first();
        lemma_dropped_items_removed(table, rest);
        let out = rewrite_items(table, items)->Ok_0;
        let tail = rewrite_items(table, rest)->Ok_0;
        let s = surviving(table, items);
        let sr = surviving(table, rest);
        if !is_dropped(table, items[0]) {
            assert(rewrite_item(table, items[0]) is Ok);
            assert(rewrite_item(table, items[0])->Ok_0 is Some);
            assert forall|j: int| 0 <= j < s.len() implies !is_dropped(table, #[trigger] s[j])
                && rewrite_item(table, s[j]) == Ok::<
                Option<Entries>,
                crate::rewrite::ShapeError,
            >(Some(out[j])) by {
                if j > 0 {
                    assert(s[j] == sr[j - 1]);
                    assert(out[j] == tail[j - 1]);
                }
            }
        }
    }
}

/// A record under `ReduceStack` with a count has count one, and its other
/// entries stay as they were, in order.
pub proof fn lemma_reduce_sets_count_to_one(table: Seq<(Seq<char>, Action)>, item: Entries)
    requires
        item_id(item) is Some,
        action_in(table, item_id(item)->Some_0) == Action::ReduceStack,
        has_count(item),
    ensures
        rewrite_item(table, item) == Ok::<Option<Entries>, crate::rewrite::ShapeError>(
            Some(reduced(item)),
        ),
        lookup(reduced(item), "count"@) == Some(Node::Int(1)),
        without(reduced(item), "count"@) == without(item, "count"@),
{
    lemma_replace_at_end(item, "count"@, Node::Int(1));
}

/// A record under `StripEnchantments` that carries enchantment levels loses
/// the enchantments entry of its components; the other components and the
/// other entries of the record stay as they were, in order.
pub proof fn lemma_strip_removes_enchantments(table: Seq<(Seq<char>, Action)>, item: Entries)
    requires
        item_id(item) is Some,
        action_in(table, item_id(item)->Some_0) == Action::StripEnchantments,
        has_enchantment_levels(item),
    ensures
        rewrite_item(table, item) == Ok::<Option<Entries>, crate::rewrite::ShapeError>(
            Some(stripped(item)),
        ),
        match lookup(item, "components"@) {
            Some(Node::Compound(c)) => {
                &&& lookup(stripped(item), "components"@) == Some(
                    Node::Compound(without(c, "minecraft:enchantments"@)),
                )
                &&& lookup(without(c, "minecraft:enchantments"@), "minecraft:enchantments"@)
                    == None::<Node>
            },
            _ => false,
        },
        stripped(item).len() == item.len(),
        forall|i: int|
            0 <= i < item.len() && i != position(item, "components"@) ==> #[trigger] stripped(
                item,
            )[i] == item[i],
{
    let c = lookup(item, "components"@)->Some_0->Compound_0;
    lemma_update_first(
        item,
        "components"@,
        Node::Compound(without(c, "minecraft:enchantments"@)),
    );
    lemma_without_excludes(c, "minecraft:enchantments"@);
}

/// A container record whose slots rewrite without failure carries the
/// rewritten slots as its container.
pub proof fn lemma_container_slots_rewritten(table: Seq<(Seq<char>, Action)>, item: Entries)
    requires
        item_id(item) is Some,
        action_in(table, item_id(item)->Some_0) == Action::RecurseContainer,
        container_of(item) is Some,
        rewrite_slots(table, container_of(item)->Some_0) is Ok,
    ensures
        rewrite_item(table, item) == Ok::<Option<Entries>, crate::rewrite::ShapeError>(
            Some(refilled(item, rewrite_slots(table, container_of(item)->Some_0)->Ok_0)),
        ),
        container_of(refilled(item, rewrite_slots(table, container_of(item)->Some_0)->Ok_0))
            == Some(rewrite_slots(table, container_of(item)->Some_0)->Ok_0),
{
    let s = rewrite_slots(table, container_of(item)->Some_0)->Ok_0;
    let c = lookup(item, "components"@)->Some_0->Compound_0;
    let c2 = replace_at_end(c, "minecraft:container"@, Node::CompoundList(s));
    lemma_update_first(item, "components"@, Node::Compound(c2));
    lemma_replace_at_end(c, "minecraft:container"@, Node::CompoundList(s));
}

/// A slot that stays keeps its `slot` entry, and holds its item rewritten
/// by the rules.
pub proof fn lemma_slot_index_kept(table: Seq<(Seq<char>, Action)>, slot: Entries)
    requires
        rewrite_slot(table, slot) matches Ok(Some(_)),
    ensures
        lookup(rewrite_slot(table, slot)->Ok_0->Some_0, "slot"@) == lookup(slot, "slot"@),
        match lookup(slot, "item"@) {
            Some(Node::Compound(inner)) => lookup(rewrite_slot(table, slot)->Ok_0->Some_0, "item"@)
                == Some(Node::Compound(rewritten_inner(table, inner))),
            _ => false,
        },
{
    reveal_strlit("item");
    reveal_strlit("slot");
    let o = rewrite_slot(table, slot)->Ok_0->Some_0;
    if o != slot {
        assert(o[0].0 != "slot"@);
        assert(o.drop_first()[0].0 == "slot"@);
        assert(position(o.drop_first(), "slot"@) == 0);
        assert(position(o, "slot"@) == 1);
        assert(position(o, "item"@) == 0);
    }
}

/// Whether the rules drop this container slot.
pub open spec fn is_slot_dropped(table: Seq<(Seq<char>, Action)>, slot: Entries) -> bool {
    match lookup(slot, "item"@) {
        Some(Node::Compound(inner)) => is_dropped(table, inner),
        _ => false,
    }
}

/// The slots of a container that the rules do not drop, in order.
pub open spec fn surviving_slots(table: Seq<(Seq<char>, Action)>, slots: Seq<Entries>) -> Seq<
    Entries,
>
    decreases slots.len(),
{
    if slots.len() == 0 {
        slots
    } else if is_slot_dropped(table, slots[0]) {
        surviving_slots(table, slots.drop_first())
    } else {
        seq![slots[0]] + surviving_slots(table, slots.drop_first())
    }
}

/// A rewritten container holds no dropped slot: its slots are the rewrites
/// of the surviving slots, one for one and in their original order.
pub proof fn lemma_dropped_slots_removed(table: Seq<(Seq<char>, Action)>, slots: Seq<Entries>)
    requires
        rewrite_slots(table, slots) is Ok,
    ensures
        rewrite_slots(table, slots)->Ok_0.len() == surviving_slots(table, slots).len(),
        forall|j: int|
            0 <= j < surviving_slots(table, slots).len() ==> !is_slot_dropped(
                table,
                #[trigger] surviving_slots(table, slots)[j],
            ) && rewrite_slot(table, surviving_slots(table, slots)[j]) == Ok::<
                Option<Entries>,
                crate::rewrite::ShapeError,
            >(Some(rewrite_slots(table, slots)->Ok_0[j])),
    decreases slots.len(),
{
    if slots.len() > 0 {
        let rest = slots.drop_first();
        lemma_dropped_slots_removed(table, rest);
        let out = rewrite_slots(table, slots)->Ok_0;
        let tail = rewrite_slots(table, rest)->Ok_0;
        let s = surviving_slots(table, slots);
        let sr = surviving_slots(table, rest);
        if !is_slot_dropped(table, slots[0]) {
            assert(rewrite_slot(table, slots[0]) is Ok);
            assert(rewrite_slot(table, slots[0])->Ok_0 is Some);
            assert forall|j: int| 0 <= j < s.len() implies !is_slot_dropped(table, #[trigger] s[j])
                && rewrite_slot(table, s[j]) == Ok::<
                Option<Entries>,
                crate::rewrite::ShapeError,
            >(Some(out[j])) by {
                if j > 0 {
                    assert(s[j] == sr[j - 1]);
                    assert(out[j] == tail[j - 1]);
                }
            }
        }
    }
}

/// A record the rules keep keeps its identifier.
pub proof fn lemma_rewrite_keeps_id(table: Seq<(Seq<char>, Action)>, item: Entries)
    requires
        rewrite_item(table, item) matches Ok(Some(_)),
    ensures
        item_id(rewrite_item(table, item)->Ok_0->Some_0) == item_id(item),
{
    lemma_inner_keeps_id(table, item);
    reveal_strlit("id");
    reveal_strlit("components");
    assert("components"@ != "id"@) by {
        assert("components"@.len() != "id"@.len());
    }
    if let Some(slots) = container_of(item) {
        if let Ok(s) = rewrite_slots(table, slots) {
            let c = lookup(item, "components"@)->Some_0->Compound_0;
            lemma_update_lookup_other(
                item,
                "components"@,
                Node::Compound(replace_at_end(c, "minecraft:container"@, Node::CompoundList(s))),
                "id"@,
            );
        }
    }
}

/// Reducing or stripping a record keeps its identifier.
pub proof fn lemma_inner_keeps_id(table: Seq<(Seq<char>, Action)>, inner: Entries)
    ensures
        item_id(rewritten_inner(table, inner)) == item_id(inner),
        item_id(reduced(inner)) == item_id(inner),
        item_id(stripped(inner)) == item_id(inner),
{
    reveal_strlit("id");
    reveal_strlit("count");
    reveal_strlit("components");
    assert("count"@ != "id"@) by {
        assert("count"@.len() != "id"@.len());
    }
    assert("components"@ != "id"@) by {
        assert("components"@.len() != "id"@.len());
    }
    lemma_replace_lookup_other(inner, "count"@, Node::Int(1), "id"@);
    if let Some(Node::Compound(c)) = lookup(inner, "components"@) {
        lemma_update_lookup_other(
            inner,
            "components"@,
            Node::Compound(without(c, "minecraft:enchantments"@)),
            "id"@,
        );
    }
}

/// A rewritten inventory holds no record whose identifier the rules drop,
/// and its records carry the identifiers of the surviving records, in order.
pub proof fn lemma_no_dropped_id_remains(table: Seq<(Seq<char>, Action)>, items: Seq<Entries>)
    requires
        rewrite_items(table, items) is Ok,
    ensures
        forall|j: int|
            0 <= j < rewrite_items(table, items)->Ok_0.len() ==> {
                &&& item_id(#[trigger] rewrite_items(table, items)->Ok_0[j]) == item_id(
                    surviving(table, items)[j],
                )
                &&& !is_dropped(table, rewrite_items(table, items)->Ok_0[j])
            },
{
    lemma_dropped_items_removed(table, items);
    let out = rewrite_items(table, items)->Ok_0;
    assert forall|j: int| 0 <= j < out.len() implies {
        &&& item_id(#[trigger] out[j]) == item_id(surviving(table, items)[j])
        &&& !is_dropped(table, out[j])
    } by {
        lemma_rewrite_keeps_id(table, surviving(table, items)[j]);
    }
}

/// A rewritten container holds no slot whose item the rules drop; its slots
/// hold the items of the surviving slots, rewritten, at the same `slot` index.
pub proof fn lemma_no_dropped_slot_remains(table: Seq<(Seq<char>, Action)>, slots: Seq<Entries>)
    requires
        rewrite_slots(table, slots) is Ok,
    ensures
        forall|j: int|
            0 <= j < rewrite_slots(table, slots)->Ok_0.len() ==> {
                &&& lookup(#[trigger] rewrite_slots(table, slots)->Ok_0[j], "slot"@) == lookup(
                    surviving_slots(table, slots)[j],
                    "slot"@,
                )
                &&& !is_slot_dropped(table, rewrite_slots(table, slots)->Ok_0[j])
            },
{
    lemma_dropped_slots_removed(table, slots);
    let out = rewrite_slots(table, slots)->Ok_0;
    assert forall|j: int| 0 <= j < out.len() implies {
        &&& lookup(#[trigger] out[j], "slot"@) == lookup(surviving_slots(table, slots)[j], "slot"@)
        &&& !is_slot_dropped(table, out[j])
    } by {
        let s = surviving_slots(table, slots)[j];
        lemma_slot_index_kept(table, s);
        if let Some(Node::Compound(inner)) = lookup(s, "item"@) {
            lemma_inner_keeps_id(table, inner);
        }
    }
}

/// Under the standard table the totem and the elytra are dropped, so no
/// rewritten inventory or container holds either.
pub proof fn lemma_standard_drops(item: Entries)
    requires
        item_id(item) == Some("minecraft:totem_of_undying"@) || item_id(item) == Some(
            "minecraft:elytra"@,
        ),
    ensures
        is_dropped(standard_rules(), item),
        rewrite_item(standard_rules(), item) == Ok::<Option<Entries>, crate::rewrite::ShapeError>(
            None,
        ),
{
    reveal_strlit("minecraft:totem_of_undying");
    reveal_strlit("minecraft:elytra");
    let t = standard_rules();
    assert(t[0] == ("minecraft:totem_of_undying"@, Action::Drop));
    assert(t.drop_first()[0] == ("minecraft:elytra"@, Action::Drop));
    assert("minecraft:totem_of_undying"@ != "minecraft:elytra"@) by {
        assert("minecraft:totem_of_undying"@.len() != "minecraft:elytra"@.len());
    }
    let id = item_id(item)->Some_0;
    assert(t.len() > 0);
    if id == "minecraft:totem_of_undying"@ {
        assert(action_in(t, id) == Action::Drop);
    } else {
        assert(t.drop_first().len() > 0);
        assert(action_in(t.drop_first(), id) == Action::Drop);
        assert(action_in(t, id) == action_in(t.drop_first(), id));
    }
}

/// Each record of a rewritten inventory is the rule rewrite of the surviving
/// record at the same place: its count set to one and moved to the end, its
/// enchantments taken out of its components in place, its container
/// replaced by the rewritten slots, or the record unchanged.
pub proof fn lemma_inventory_positions(table: Seq<(Seq<char>, Action)>, items: Seq<Entries>)
    requires
        rewrite_items(table, items) is Ok,
    ensures
        forall|j: int|
            0 <= j < rewrite_items(table, items)->Ok_0.len() ==> {
                let s = surviving(table, items)[j];
                let o = #[trigger] rewrite_items(table, items)->Ok_0[j];
                let a = action_in(table, item_id(s)->Some_0);
                &&& item_id(s) is Some
                &&& (a == Action::ReduceStack ==> o == if has_count(s) {
                    reduced(s)
                } else {
                    s
                })
                &&& (a == Action::StripEnchantments ==> o == if has_enchantment_levels(s) {
                    stripped(s)
                } else {
                    s
                })
                &&& (a == Action::RecurseContainer ==> match container_of(s) {
                    Some(slots) => rewrite_slots(table, slots) is Ok && o == refilled(
                        s,
                        rewrite_slots(table, slots)->Ok_0,
                    ),
                    None => o == s,
                })
                &&& (a == Action::Keep ==> o == s)
            },
{
    lemma_dropped_items_removed(table, items);
}

/// Each slot of a rewritten container is the rule rewrite of the surviving
/// slot at the same place: its item reduced or stripped and re-wrapped as
/// `item` then `slot` with the original index, or the slot unchanged.
pub proof fn lemma_container_positions(table: Seq<(Seq<char>, Action)>, slots: Seq<Entries>)
    requires
        rewrite_slots(table, slots) is Ok,
    ensures
        forall|j: int|
            0 <= j < rewrite_slots(table, slots)->Ok_0.len() ==> {
                let s = surviving_slots(table, slots)[j];
                let o = #[trigger] rewrite_slots(table, slots)->Ok_0[j];
                let inner = lookup(s, "item"@)->Some_0->Compound_0;
                let a = action_in(table, item_id(inner)->Some_0);
                &&& lookup(s, "item"@) matches Some(Node::Compound(_))
                &&& item_id(inner) is Some
                &&& (a == Action::ReduceStack && has_count(inner) ==> (lookup(s, "slot"@) matches Some(
                    Node::Int(_),
                )) && o == rewrapped(reduced(inner), lookup(s, "slot"@)->Some_0->Int_0))
                &&& (a == Action::StripEnchantments && has_enchantment_levels(inner) ==> (lookup(
                    s,
                    "slot"@,
                ) matches Some(Node::Int(_))) && o == rewrapped(
                    stripped(inner),
                    lookup(s, "slot"@)->Some_0->Int_0,
                ))
                &&& (!(a == Action::ReduceStack && has_count(inner)) && !(a
                    == Action::StripEnchantments && has_enchantment_levels(inner)) ==> o == s)
            },
{
    lemma_dropped_slots_removed(table, slots);
}

/// Whether every record of an inventory has an identifier.
pub open spec fn all_identified(items: Seq<Entries>) -> bool {
    forall|i: int| 0 <= i < items.len() ==> item_id(#[trigger] items[i]) is Some
}

/// With no rules, an inventory whose records all have identifiers is left
/// exactly as it was.
pub proof fn lemma_no_rules_keep_items(items: Seq<Entries>)
    requires
        all_identified(items),
    ensures
        rewrite_items(Seq::empty(), items) == Ok::<Seq<Entries>, crate::rewrite::ShapeError>(items),
    decreases items.len(),
{
    if items.len() > 0 {
        let rest = items.drop_first();
        assert forall|i: int| 0 <= i < rest.len() implies item_id(#[trigger] rest[i]) is Some by {
            assert(rest[i] == items[i + 1]);
        }
        lemma_no_rules_keep_items(rest);
        assert(action_in(Seq::empty(), item_id(items[0])->Some_0) == Action::Keep);
        assert(rewrite_item(Seq::empty(), items[0]) == Ok::<
            Option<Entries>,
            crate::rewrite::ShapeError,
        >(Some(items[0])));
        assert(seq![items[0]] + rest =~= items);
    } else {
        assert(items =~= Seq::<Entries>::empty());
    }
}

/// Whether every slot of a container holds an item record with an identifier.
pub open spec fn all_slots_identified(slots: Seq<Entries>) -> bool {
    forall|i: int|
        0 <= i < slots.len() ==> match lookup(#[trigger] slots[i], "item"@) {
            Some(Node::Compound(inner)) => item_id(inner) is Some,
            _ => false,
        }
}

/// With no rules, a container whose slots all hold identified records is
/// left exactly as it was.
pub proof fn lemma_no_rules_keep_slots(slots: Seq<Entries>)
    requires
        all_slots_identified(slots),
    ensures
        rewrite_slots(Seq::empty(), slots) == Ok::<Seq<Entries>, crate::rewrite::ShapeError>(slots),
    decreases slots.len(),
{
    if slots.len() > 0 {
        let rest = slots.drop_first();
        assert forall|i: int| 0 <= i < rest.len() implies match lookup(#[trigger] rest[i], "item"@) {
            Some(Node::Compound(inner)) => item_id(inner) is Some,
            _ => false,
        } by {
            assert(rest[i] == slots[i + 1]);
        }
        lemma_no_rules_keep_slots(rest);
        assert(match lookup(slots[0], "item"@) {
            Some(Node::Compound(inner)) => item_id(inner) is Some,
            _ => false,
        });
        let inner = lookup(slots[0], "item"@)->Some_0->Compound_0;
        assert(action_in(Seq::empty(), item_id(inner)->Some_0) == Action::Keep);
        assert(rewrite_slot(Seq::empty(), slots[0]) == Ok::<
            Option<Entries>,
            crate::rewrite::ShapeError,
        >(Some(slots[0])));
        assert(seq![slots[0]] + rest =~= slots);
    } else {
        assert(slots =~= Seq::<Entries>::empty());
    }
}

/// The document with its `name` inventory, when there is one, moved to the
/// end unchanged.
pub open spec fn moved_to_end(doc: Entries, name: Seq<char>) -> Entries {
    match lookup(doc, name) {
        Some(Node::CompoundList(items)) => replace_at_end(doc, name, Node::CompoundList(items)),
        _ => doc,
    }
}

/// Whether the `name` inventory, when there is one, has only identified records.
pub open spec fn inventory_identified(doc: Entries, name: Seq<char>) -> bool {
    match lookup(doc, name) {
        Some(Node::CompoundList(items)) => all_identified(items),
        _ => true,
    }
}

/// With no rules, a player document changes only in the place of its
/// inventories, which move to the end unchanged.
pub proof fn lemma_no_rules_player(doc: Entries)
    requires
        inventory_identified(doc, "Inventory"@),
        inventory_identified(doc, "EnderItems"@),
    ensures
        rewrite_player(Seq::empty(), doc) == Ok::<Entries, crate::rewrite::ShapeError>(
            moved_to_end(moved_to_end(doc, "Inventory"@), "EnderItems"@),
        ),
{
    reveal_strlit("Inventory");
    reveal_strlit("EnderItems");
    assert("Inventory"@ != "EnderItems"@) by {
        assert("Inventory"@.len() != "EnderItems"@.len());
    }
    if let Some(Node::CompoundList(items)) = lookup(doc, "Inventory"@) {
        lemma_no_rules_keep_items(items);
        lemma_replace_lookup_other(
            doc,
            "Inventory"@,
            Node::CompoundList(items),
            "EnderItems"@,
        );
    }
    let d = moved_to_end(doc, "Inventory"@);
    assert(rewrite_inventory(Seq::empty(), doc, "Inventory"@) == Ok::<
        Entries,
        crate::rewrite::ShapeError,
    >(d));
    if let Some(Node::CompoundList(items)) = lookup(d, "EnderItems"@) {
        lemma_no_rules_keep_items(items);
    }
}

/// The block entities with their `Items` inventories moved to the end unchanged.
pub open spec fn items_moved(bes: Seq<Entries>) -> Seq<Entries> {
    Seq::new(bes.len(), |i: int| moved_to_end(bes[i], "Items"@))
}

/// With no rules, each block entity changes only in the place of its
/// `Items` inventory.
pub proof fn lemma_no_rules_block_entities(bes: Seq<Entries>)
    requires
        forall|i: int| 0 <= i < bes.len() ==> inventory_identified(#[trigger] bes[i], "Items"@),
    ensures
        rewrite_block_entities(Seq::empty(), bes) == Ok::<Seq<Entries>, crate::rewrite::ShapeError>(
            items_moved(bes),
        ),
    decreases bes.len(),
{
    if bes.len() > 0 {
        let rest = bes.drop_first();
        assert forall|i: int| 0 <= i < rest.len() implies inventory_identified(
            #[trigger] rest[i],
            "Items"@,
        ) by {
            assert(rest[i] == bes[i + 1]);
        }
        lemma_no_rules_block_entities(rest);
        assert(inventory_identified(bes[0], "Items"@));
        if let Some(Node::CompoundList(items)) = lookup(bes[0], "Items"@) {
            lemma_no_rules_keep_items(items);
        }
        assert(rewrite_block_entity(Seq::empty(), bes[0]) == Ok::<
            Entries,
            crate::rewrite::ShapeError,
        >(moved_to_end(bes[0], "Items"@)));
        assert(seq![moved_to_end(bes[0], "Items"@)] + items_moved(rest) =~= items_moved(bes));
    } else {
        assert(items_moved(bes) =~= Seq::<Entries>::empty());
    }
}

/// With no rules, a chunk document changes only in the place of its block
/// entity list and of their `Items` inventories, which move to the end
/// unchanged; a chunk without block entities is passed through.
pub proof fn lemma_no_rules_chunk(chunk: Entries)
    requires
        match lookup(chunk, "block_entities"@) {
            Some(Node::CompoundList(bes)) => forall|i: int|
                0 <= i < bes.len() ==> inventory_identified(#[trigger] bes[i], "Items"@),
            _ => true,
        },
    ensures
        rewrite_chunk(Seq::empty(), chunk) == match lookup(chunk, "block_entities"@) {
            Some(Node::CompoundList(bes)) => Ok::<Option<Entries>, crate::rewrite::ShapeError>(
                Some(replace_at_end(chunk, "block_entities"@, Node::CompoundList(items_moved(bes)))),
            ),
            _ => Ok(None),
        },
{
    if let Some(Node::CompoundList(bes)) = lookup(chunk, "block_entities"@) {
        lemma_no_rules_block_entities(bes);
    }
}

} // verus!
