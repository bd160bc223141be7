//! The rewriter: item records, container slots, block entities, chunk and
//! player documents.

use vstd::prelude::*;
use crate::rules::{action_in, Action, RuleTable};
use crate::tag::{
    find_field, lemma_position, lookup, position, replace_at_end, take_named, update_first,
    view_compounds, view_fields, view_tag, without, Entries, Field, Node, Tag,
};

verus! {

/// A document lacks a field at a place where the rewriter requires it.
#[derive(Clone, Copy, Debug, PartialEq, Eq, Structural)]
pub enum ShapeError {
    /// An item record without a string `id`.
    MissingId,
    /// A container slot without a compound `item`.
    MissingItem,
    /// A rewritten container slot without an integer `slot`.
    MissingSlot,
}

/// The identifier of an item record: its `id` entry, when that is a string.
pub open spec fn item_id(item: Entries) -> Option<Seq<char>> {
    match lookup(item, "id"@) {
        Some(Node::Text(s)) => Some(s),
        _ => None,
    }
}

pub open spec fn has_count(item: Entries) -> bool {
    lookup(item, "count"@) matches Some(Node::Int(_))
}

/// The item with its count set to one, moved to the end.
pub open spec fn reduced(item: Entries) -> Entries {
    replace_at_end(item, "count"@, Node::Int(1))
}

/// Whether `components -> minecraft:enchantments -> levels` is there.
pub open spec fn has_enchantment_levels(item: Entries) -> bool {
    match lookup(item, "components"@) {
        Some(Node::Compound(c)) => match lookup(c, "minecraft:enchantments"@) {
            Some(Node::Compound(e)) => lookup(e, "levels"@) matches Some(Node::Compound(_)),
            _ => false,
        },
        _ => false,
    }
}

/// The item with the enchantments entry taken out of its components.
pub open spec fn stripped(item: Entries) -> Entries {
    match lookup(item, "components"@) {
        Some(Node::Compound(c)) => update_first(
            item,
            "components"@,
            Node::Compound(without(c, "minecraft:enchantments"@)),
        ),
        _ => item,
    }
}

/// The slots of the item's container component.
pub open spec fn container_of(item: Entries) -> Option<Seq<Entries>> {
    match lookup(item, "components"@) {
        Some(Node::Compound(c)) => match lookup(c, "minecraft:container"@) {
            Some(Node::CompoundList(s)) => Some(s),
            _ => None,
        },
        _ => None,
    }
}

/// The item with its container component replaced by `slots`, at the end of
/// the components.
pub open spec fn refilled(item: Entries, slots: Seq<Entries>) -> Entries {
    match lookup(item, "components"@) {
        Some(Node::Compound(c)) => update_first(
            item,
            "components"@,
            Node::Compound(replace_at_end(c, "minecraft:container"@, Node::CompoundList(slots))),
        ),
        _ => item,
    }
}

/// A container slot holding `inner` at index `slot`.
pub open spec fn rewrapped(inner: Entries, slot: i32) -> Entries {
    seq![("item"@, Node::Compound(inner)), ("slot"@, Node::Int(slot))]
}

/// One container slot under the rules; `None` when it is dropped.
pub open spec fn rewrite_slot(table: Seq<(Seq<char>, Action)>, slot: Entries) -> Result<
    Option<Entries>,
    ShapeError,
> {
    match lookup(slot, "item"@) {
        Some(Node::Compound(inner)) => match item_id(inner) {
            None => Err(ShapeError::MissingId),
            Some(id) => match action_in(table, id) {
                Action::Drop => Ok(None),
                Action::ReduceStack => if has_count(inner) {
                    match lookup(slot, "slot"@) {
                        Some(Node::Int(s)) => Ok(Some(rewrapped(reduced(inner), s))),
                        _ => Err(ShapeError::MissingSlot),
                    }
                } else {
                    Ok(Some(slot))
                },
                Action::StripEnchantments => if has_enchantment_levels(inner) {
                    match lookup(slot, "slot"@) {
                        Some(Node::Int(s)) => Ok(Some(rewrapped(stripped(inner), s))),
                        _ => Err(ShapeError::MissingSlot),
                    }
                } else {
                    Ok(Some(slot))
                },
                _ => Ok(Some(slot)),
            },
        },
        _ => Err(ShapeError::MissingItem),
    }
}

/// The item held in a slot that stays, as the rules leave it.
pub open spec fn rewritten_inner(table: Seq<(Seq<char>, Action)>, inner: Entries) -> Entries {
    match item_id(inner) {
        Some(id) => match action_in(table, id) {
            Action::ReduceStack => if has_count(inner) {
                reduced(inner)
            } else {
                inner
            },
            Action::StripEnchantments => if has_enchantment_levels(inner) {
                stripped(inner)
            } else {
                inner
            },
            _ => inner,
        },
        None => inner,
    }
}

/// Prefixes a successful result with `acc`.
pub open spec fn prepend(acc: Seq<Entries>, r: Result<Seq<Entries>, ShapeError>) -> Result<
    Seq<Entries>,
    ShapeError,
> {
    match r {
        Ok(s) => Ok(acc + s),
        Err(e) => Err(e),
    }
}

/// Adds the outcome of one element in front of the outcome of the rest.
pub open spec fn cons(
    head: Result<Option<Entries>, ShapeError>,
    tail: Result<Seq<Entries>, ShapeError>,
) -> Result<Seq<Entries>, ShapeError> {
    match head {
        Err(e) => Err(e),
        Ok(None) => tail,
        Ok(Some(x)) => prepend(seq![x], tail),
    }
}

/// A container's slots under the rules, in order; the first failure decides.
pub open spec fn rewrite_slots(table: Seq<(Seq<char>, Action)>, slots: Seq<Entries>) -> Result<
    Seq<Entries>,
    ShapeError,
>
    decreases slots.len(),
{
    if slots.len() == 0 {
        Ok(Seq::empty())
    } else {
        cons(rewrite_slot(table, slots[0]), rewrite_slots(table, slots.drop_first()))
    }
}

/// One item record under the rules; `None` when it is dropped.
pub open spec fn rewrite_item(table: Seq<(Seq<char>, Action)>, item: Entries) -> Result<
    Option<Entries>,
    ShapeError,
> {
    match item_id(item) {
        None => Err(ShapeError::MissingId),
        Some(id) => match action_in(table, id) {
            Action::Drop => Ok(None),
            Action::ReduceStack => Ok(
                Some(
                    if has_count(item) {
                        reduced(item)
                    } else {
                        item
                    },
                ),
            ),
            Action::StripEnchantments => Ok(
                Some(
                    if has_enchantment_levels(item) {
                        stripped(item)
                    } else {
                        item
                    },
                ),
            ),
            Action::RecurseContainer => match container_of(item) {
                Some(slots) => match rewrite_slots(table, slots) {
                    Ok(s) => Ok(Some(refilled(item, s))),
                    Err(e) => Err(e),
                },
                None => Ok(Some(item)),
            },
            Action::Keep => Ok(Some(item)),
        },
    }
}

/// An inventory under the rules, in order; the first failure decides.
pub open spec fn rewrite_items(table: Seq<(Seq<char>, Action)>, items: Seq<Entries>) -> Result<
    Seq<Entries>,
    ShapeError,
>
    decreases items.len(),
{
    if items.len() == 0 {
        Ok(Seq::empty())
    } else {
        cons(rewrite_item(table, items[0]), rewrite_items(table, items.drop_first()))
    }
}

/// A compound whose `name` entry, when it is a list of compounds, is
/// rewritten as an inventory and moved to the end.
pub open spec fn rewrite_inventory(
    table: Seq<(Seq<char>, Action)>,
    doc: Entries,
    name: Seq<char>,
) -> Result<Entries, ShapeError> {
    match lookup(doc, name) {
        Some(Node::CompoundList(items)) => match rewrite_items(table, items) {
            Ok(s) => Ok(replace_at_end(doc, name, Node::CompoundList(s))),
            Err(e) => Err(e),
        },
        _ => Ok(doc),
    }
}

/// A block entity: its `Items` inventory is rewritten.
pub open spec fn rewrite_block_entity(table: Seq<(Seq<char>, Action)>, be: Entries) -> Result<
    Entries,
    ShapeError,
> {
    rewrite_inventory(table, be, "Items"@)
}

pub open spec fn rewrite_block_entities(
    table: Seq<(Seq<char>, Action)>,
    bes: Seq<Entries>,
) -> Result<Seq<Entries>, ShapeError>
    decreases bes.len(),
{
    if bes.len() == 0 {
        Ok(Seq::empty())
    } else {
        cons(
            match rewrite_block_entity(table, bes[0]) {
                Ok(b) => Ok(Some(b)),
                Err(e) => Err(e),
            },
            rewrite_block_entities(table, bes.drop_first()),
        )
    }
}

/// A chunk document; `None` when it has no list of block entities and is
/// passed through as it is.
pub open spec fn rewrite_chunk(table: Seq<(Seq<char>, Action)>, chunk: Entries) -> Result<
    Option<Entries>,
    ShapeError,
> {
    match lookup(chunk, "block_entities"@) {
        Some(Node::CompoundList(bes)) => match rewrite_block_entities(table, bes) {
            Ok(s) => Ok(Some(replace_at_end(chunk, "block_entities"@, Node::CompoundList(s)))),
            Err(e) => Err(e),
        },
        _ => Ok(None),
    }
}

/// A player document: `Inventory`, then `EnderItems`.
pub open spec fn rewrite_player(table: Seq<(Seq<char>, Action)>, doc: Entries) -> Result<
    Entries,
    ShapeError,
> {
    match rewrite_inventory(table, doc, "Inventory"@) {
        Ok(d) => rewrite_inventory(table, d, "EnderItems"@),
        Err(e) => Err(e),
    }
}

pub open spec fn view_outcome(r: Result<Option<Vec<Field>>, ShapeError>) -> Result<
    Option<Entries>,
    ShapeError,
> {
    match r {
        Ok(Some(v)) => Ok(Some(view_fields(v))),
        Ok(None) => Ok(None),
        Err(e) => Err(e),
    }
}

pub open spec fn view_list_outcome(r: Result<Vec<Vec<Field>>, ShapeError>) -> Result<
    Seq<Entries>,
    ShapeError,
> {
    match r {
        Ok(v) => Ok(view_compounds(v)),
        Err(e) => Err(e),
    }
}

pub open spec fn view_doc_outcome(r: Result<Vec<Field>, ShapeError>) -> Result<
    Entries,
    ShapeError,
> {
    match r {
        Ok(v) => Ok(view_fields(v)),
        Err(e) => Err(e),
    }
}

/// The action that decides for an item record, if it has an identifier.
fn item_action(table: &RuleTable, item: &Vec<Field>) -> (r: Option<Action>)
    ensures
        r == match item_id(view_fields(*item)) {
            Some(id) => Some(action_in(table@, id)),
            None => None::<Action>,
        },
{
    match find_field(item, "id") {
        Some(k) => match &item[k].value {
            Tag::Text(s) => Some(table.action(s)),
            _ => None,
        },
        None => None,
    }
}

/// The value of the first field called `name`, when it is an integer.
fn int_field(fields: &Vec<Field>, name: &str) -> (r: Option<i32>)
    ensures
        r == match lookup(view_fields(*fields), name@) {
            Some(Node::Int(n)) => Some(n),
            _ => None::<i32>,
        },
{
    match find_field(fields, name) {
        Some(k) => match &fields[k].value {
            Tag::Int(n) => Some(*n),
            _ => None,
        },
        None => None,
    }
}

/// The first field called `name`, when it is a compound.
fn compound_field<'a>(fields: &'a Vec<Field>, name: &str) -> (r: Option<&'a Vec<Field>>)
    ensures
        match r {
            Some(c) => lookup(view_fields(*fields), name@) == Some(Node::Compound(view_fields(*c))),
            None => !(lookup(view_fields(*fields), name@) matches Some(Node::Compound(_))),
        },
{
    match find_field(fields, name) {
        Some(k) => match &fields[k].value {
            Tag::Compound(c) => Some(c),
            _ => None,
        },
        None => None,
    }
}

/// Whether the first field called `name` is a list of compounds.
fn has_compound_list(fields: &Vec<Field>, name: &str) -> (r: bool)
    ensures
        r == (lookup(view_fields(*fields), name@) matches Some(Node::CompoundList(_))),
{
    match find_field(fields, name) {
        Some(k) => match &fields[k].value {
            Tag::CompoundList(_) => true,
            _ => false,
        },
        None => false,
    }
}

fn has_enchantment_levels_exec(item: &Vec<Field>) -> (r: bool)
    ensures
        r == has_enchantment_levels(view_fields(*item)),
{
    match compound_field(item, "components") {
        Some(c) => match compound_field(c, "minecraft:enchantments") {
            Some(e) => compound_field(e, "levels").is_some(),
            None => false,
        },
        None => false,
    }
}

fn has_container(item: &Vec<Field>) -> (r: bool)
    ensures
        r == container_of(view_fields(*item)).is_some(),
{
    match compound_field(item, "components") {
        Some(c) => has_compound_list(c, "minecraft:container"),
        None => false,
    }
}

/// Sets the item's count to one, moving it to the end.
fn reduce(item: Vec<Field>) -> (r: Vec<Field>)
    ensures
        view_fields(r) == reduced(view_fields(item)),
{
    let (mut rest, _) = take_named(item, "count");
    let ghost before = view_fields(rest);
    rest.push(Field { name: "count".to_owned(), value: Tag::Int(1) });
    assert(view_fields(rest) =~= before.push(("count"@, Node::Int(1))));
    rest
}

/// Takes the enchantments entry out of the item's components.
fn strip(item: Vec<Field>) -> (r: Vec<Field>)
    ensures
        view_fields(r) == stripped(view_fields(item)),
{
    let ghost old_view = view_fields(item);
    let mut item = item;
    match find_field(&item, "components") {
        None => item,
        Some(k) => {
            let ghost removed = item@;
            let Field { name, value } = item.remove(k);
            match value {
                Tag::Compound(c) => {
                    let (c2, _) = take_named(c, "minecraft:enchantments");
                    item.insert(k, Field { name, value: Tag::Compound(c2) });
                    assert(view_fields(item) =~= update_first(
                        old_view,
                        "components"@,
                        Node::Compound(without(view_fields(c), "minecraft:enchantments"@)),
                    ));
                    item
                },
                other => {
                    item.insert(k, Field { name, value: other });
                    assert(view_fields(item) =~= old_view);
                    item
                },
            }
        },
    }
}

/// Rewrites one container slot; `None` when it is dropped.
pub fn process_slot(table: &RuleTable, slot: Vec<Field>) -> (r: Result<
    Option<Vec<Field>>,
    ShapeError,
>)
    ensures
        view_outcome(r) == rewrite_slot(table@, view_fields(slot)),
{
    let ghost sv = view_fields(slot);
    let k = match find_field(&slot, "item") {
        Some(k) => k,
        None => {
            return Err(ShapeError::MissingItem);
        },
    };
    let (action, applies) = match &slot[k].value {
        Tag::Compound(inner) => match item_action(table, inner) {
            Some(Action::ReduceStack) => (Action::ReduceStack, int_field(inner, "count").is_some()),
            Some(Action::StripEnchantments) => (
                Action::StripEnchantments,
                has_enchantment_levels_exec(inner),
            ),
            Some(a) => (a, false),
            None => {
                return Err(ShapeError::MissingId);
            },
        },
        _ => {
            return Err(ShapeError::MissingItem);
        },
    };
    if action == Action::Drop {
        return Ok(None);
    }
    if !applies {
        return Ok(Some(slot));
    }
    let index = match int_field(&slot, "slot") {
        Some(n) => n,
        None => {
            return Err(ShapeError::MissingSlot);
        },
    };
    let mut slot = slot;
    let Field { name: _, value } = slot.remove(k);
    match value {
        Tag::Compound(inner) => {
            let ghost iv = view_fields(inner);
            let new_inner = if action == Action::ReduceStack {
                reduce(inner)
            } else {
                strip(inner)
            };
            let ghost nv = view_fields(new_inner);
            let r = vec![
                Field { name: "item".to_owned(), value: Tag::Compound(new_inner) },
                Field { name: "slot".to_owned(), value: Tag::Int(index) },
            ];
            assert(view_fields(r) =~= rewrapped(nv, index));
            Ok(Some(r))
        },
        _ => Ok(None),
    }
}

/// Rewrites a container's slots in order: dropped slots go, the others are
/// rewritten in place of the original; the first failure is returned.
pub fn process_container_list(table: &RuleTable, slots: Vec<Vec<Field>>) -> (r: Result<
    Vec<Vec<Field>>,
    ShapeError,
>)
    ensures
        view_list_outcome(r) == rewrite_slots(table@, view_compounds(slots)),
{
    let ghost orig = view_compounds(slots);
    let mut rest = slots;
    let mut out: Vec<Vec<Field>> = Vec::new();
    assert(view_compounds(out) + view_compounds(rest) =~= orig);
    while rest.len() > 0
        invariant
            orig == view_compounds(slots),
            rewrite_slots(table@, orig) == prepend(
                view_compounds(out),
                rewrite_slots(table@, view_compounds(rest)),
            ),
        decreases rest.len(),
    {
        let ghost before = view_compounds(rest);
        let ghost out_before = view_compounds(out);
        let slot = rest.remove(0);
        assert(view_compounds(rest) =~= before.drop_first());
        assert(before[0] == view_fields(slot));
        assert(rewrite_slots(table@, before) == cons(
            rewrite_slot(table@, before[0]),
            rewrite_slots(table@, view_compounds(rest)),
        ));
        match process_slot(table, slot) {
            Err(e) => {
                return Err(e);
            },
            Ok(None) => {},
            Ok(Some(o)) => {
                out.push(o);
                assert(view_compounds(out) =~= out_before.push(view_fields(o)));
                proof {
                    if let Ok(t) = rewrite_slots(table@, view_compounds(rest)) {
                        assert(out_before + (seq![view_fields(o)] + t) =~= view_compounds(out) + t);
                    }
                }
            },
        }
    }
    assert(view_compounds(out) + Seq::<Entries>::empty() =~= view_compounds(out));
    Ok(out)
}

/// Rewrites the slots of a container item and puts them back, at the end of
/// its components.
fn process_container_item(table: &RuleTable, item: Vec<Field>) -> (r: Result<Vec<Field>, ShapeError>)
    requires
        container_of(view_fields(item)).is_some(),
    ensures
        view_doc_outcome(r) == match rewrite_slots(table@, container_of(view_fields(item))->Some_0) {
            Ok(s) => Ok(refilled(view_fields(item), s)),
            Err(e) => Err(e),
        },
{
    let ghost old_view = view_fields(item);
    let mut item = item;
    match find_field(&item, "components") {
        None => Ok(item),
        Some(k) => {
            let Field { name, value } = item.remove(k);
            match value {
                Tag::Compound(c) => {
                    let ghost cv = view_fields(c);
                    let (mut c2, taken) = take_named(c, "minecraft:container");
                    match taken {
                        Some(Tag::CompoundList(slots)) => match process_container_list(table, slots) {
                            Err(e) => Err(e),
                            Ok(new_slots) => {
                                let ghost sv = view_compounds(new_slots);
                                let ghost c2v = view_fields(c2);
                                c2.push(
                                    Field {
                                        name: "minecraft:container".to_owned(),
                                        value: Tag::CompoundList(new_slots),
                                    },
                                );
                                assert(view_fields(c2) =~= replace_at_end(
                                    cv,
                                    "minecraft:container"@,
                                    Node::CompoundList(sv),
                                ));
                                item.insert(k, Field { name, value: Tag::Compound(c2) });
                                assert(view_fields(item) =~= refilled(old_view, sv));
                                Ok(item)
                            },
                        },
                        _ => Ok(item),
                    }
                },
                _ => Ok(item),
            }
        },
    }
}

/// Rewrites one item record; `None` when it is dropped.
pub fn process_item(table: &RuleTable, item: Vec<Field>) -> (r: Result<
    Option<Vec<Field>>,
    ShapeError,
>)
    ensures
        view_outcome(r) == rewrite_item(table@, view_fields(item)),
{
    match item_action(table, &item) {
        None => Err(ShapeError::MissingId),
        Some(Action::Drop) => Ok(None),
        Some(Action::ReduceStack) => {
            if int_field(&item, "count").is_some() {
                Ok(Some(reduce(item)))
            } else {
                Ok(Some(item))
            }
        },
        Some(Action::StripEnchantments) => {
            if has_enchantment_levels_exec(&item) {
                Ok(Some(strip(item)))
            } else {
                Ok(Some(item))
            }
        },
        Some(Action::RecurseContainer) => {
            if has_container(&item) {
                match process_container_item(table, item) {
                    Ok(o) => Ok(Some(o)),
                    Err(e) => Err(e),
                }
            } else {
                Ok(Some(item))
            }
        },
        Some(Action::Keep) => Ok(Some(item)),
    }
}

/// Rewrites an inventory in order: dropped items go, the others are
/// rewritten in place of the original; the first failure is returned.
pub fn process_items_list(table: &RuleTable, items: Vec<Vec<Field>>) -> (r: Result<
    Vec<Vec<Field>>,
    ShapeError,
>)
    ensures
        view_list_outcome(r) == rewrite_items(table@, view_compounds(items)),
{
    let ghost orig = view_compounds(items);
    let mut rest = items;
    let mut out: Vec<Vec<Field>> = Vec::new();
    assert(view_compounds(out) + view_compounds(rest) =~= orig);
    while rest.len() > 0
        invariant
            orig == view_compounds(items),
            rewrite_items(table@, orig) == prepend(
                view_compounds(out),
                rewrite_items(table@, view_compounds(rest)),
            ),
        decreases rest.len(),
    {
        let ghost before = view_compounds(rest);
        let ghost out_before = view_compounds(out);
        let item = rest.remove(0);
        assert(view_compounds(rest) =~= before.drop_first());
        assert(before[0] == view_fields(item));
        assert(rewrite_items(table@, before) == cons(
            rewrite_item(table@, before[0]),
            rewrite_items(table@, view_compounds(rest)),
        ));
        match process_item(table, item) {
            Err(e) => {
                return Err(e);
            },
            Ok(None) => {},
            Ok(Some(o)) => {
                out.push(o);
                assert(view_compounds(out) =~= out_before.push(view_fields(o)));
                proof {
                    if let Ok(t) = rewrite_items(table@, view_compounds(rest)) {
                        assert(out_before + (seq![view_fields(o)] + t) =~= view_compounds(out) + t);
                    }
                }
            },
        }
    }
    assert(view_compounds(out) + Seq::<Entries>::empty() =~= view_compounds(out));
    Ok(out)
}

/// Rewrites the inventory under `name`, when it is a list of compounds, and
/// moves it to the end of the document.
pub fn process_inventory_field(table: &RuleTable, doc: Vec<Field>, name: &str) -> (r: Result<
    Vec<Field>,
    ShapeError,
>)
    ensures
        view_doc_outcome(r) == rewrite_inventory(table@, view_fields(doc), name@),
{
    if !has_compound_list(&doc, name) {
        return Ok(doc);
    }
    let (mut rest, taken) = take_named(doc, name);
    match taken {
        Some(Tag::CompoundList(items)) => match process_items_list(table, items) {
            Ok(new_items) => {
                let ghost rv = view_fields(rest);
                let ghost nv = view_compounds(new_items);
                rest.push(Field { name: name.to_owned(), value: Tag::CompoundList(new_items) });
                assert(view_fields(rest) =~= rv.push((name@, Node::CompoundList(nv))));
                Ok(rest)
            },
            Err(e) => Err(e),
        },
        _ => Ok(rest),
    }
}

/// Rewrites the `Items` inventory of a block entity.
pub fn process_block_entity(table: &RuleTable, block_entity: Vec<Field>) -> (r: Result<
    Vec<Field>,
    ShapeError,
>)
    ensures
        view_doc_outcome(r) == rewrite_block_entity(table@, view_fields(block_entity)),
{
    process_inventory_field(table, block_entity, "Items")
}

/// Rewrites each block entity in order; the first failure is returned.
pub fn process_block_entities(table: &RuleTable, block_entities: Vec<Vec<Field>>) -> (r: Result<
    Vec<Vec<Field>>,
    ShapeError,
>)
    ensures
        view_list_outcome(r) == rewrite_block_entities(table@, view_compounds(block_entities)),
{
    let ghost orig = view_compounds(block_entities);
    let mut rest = block_entities;
    let mut out: Vec<Vec<Field>> = Vec::new();
    assert(view_compounds(out) + view_compounds(rest) =~= orig);
    while rest.len() > 0
        invariant
            orig == view_compounds(block_entities),
            rewrite_block_entities(table@, orig) == prepend(
                view_compounds(out),
                rewrite_block_entities(table@, view_compounds(rest)),
            ),
        decreases rest.len(),
    {
        let ghost before = view_compounds(rest);
        let ghost out_before = view_compounds(out);
        let be = rest.remove(0);
        assert(view_compounds(rest) =~= before.drop_first());
        assert(before[0] == view_fields(be));
        match process_block_entity(table, be) {
            Err(e) => {
                return Err(e);
            },
            Ok(o) => {
                out.push(o);
                assert(view_compounds(out) =~= out_before.push(view_fields(o)));
                proof {
                    if let Ok(t) = rewrite_block_entities(table@, view_compounds(rest)) {
                        assert(out_before + (seq![view_fields(o)] + t) =~= view_compounds(out) + t);
                    }
                }
            },
        }
    }
    assert(view_compounds(out) + Seq::<Entries>::empty() =~= view_compounds(out));
    Ok(out)
}

/// Rewrites a chunk document; `None` when it has no list of block entities,
/// in which case the chunk is to be written back as it was read.
pub fn process_chunk(table: &RuleTable, chunk: Vec<Field>) -> (r: Result<
    Option<Vec<Field>>,
    ShapeError,
>)
    ensures
        view_outcome(r) == rewrite_chunk(table@, view_fields(chunk)),
{
    if !has_compound_list(&chunk, "block_entities") {
        return Ok(None);
    }
    let (mut rest, taken) = take_named(chunk, "block_entities");
    match taken {
        Some(Tag::CompoundList(bes)) => match process_block_entities(table, bes) {
            Ok(new_bes) => {
                let ghost rv = view_fields(rest);
                let ghost nv = view_compounds(new_bes);
                rest.push(
                    Field { name: "block_entities".to_owned(), value: Tag::CompoundList(new_bes) },
                );
                assert(view_fields(rest) =~= rv.push(("block_entities"@, Node::CompoundList(nv))));
                Ok(Some(rest))
            },
            Err(e) => Err(e),
        },
        _ => Ok(None),
    }
}

/// Rewrites a player document: its `Inventory`, then its `EnderItems`.
pub fn process_player_data(table: &RuleTable, doc: Vec<Field>) -> (r: Result<
    Vec<Field>,
    ShapeError,
>)
    ensures
        view_doc_outcome(r) == rewrite_player(table@, view_fields(doc)),
{
    match process_inventory_field(table, doc, "Inventory") {
        Ok(d) => process_inventory_field(table, d, "EnderItems"),
        Err(e) => Err(e),
    }
}

/// The note a stack reduction leaves for the operator: the original count
/// and the identifier, for a record whose count the rules set to one.
pub open spec fn reduction_note_of(table: Seq<(Seq<char>, Action)>, item: Entries) -> Option<
    (i32, Seq<char>),
> {
    match item_id(item) {
        Some(id) => if action_in(table, id) == Action::ReduceStack {
            match lookup(item, "count"@) {
                Some(Node::Int(c)) => Some((c, id)),
                _ => None,
            }
        } else {
            None
        },
        None => None,
    }
}

/// The notes of the items held in a container's slots, in order.
pub open spec fn slot_notes_of(table: Seq<(Seq<char>, Action)>, slots: Seq<Entries>) -> Seq<
    (i32, Seq<char>),
>
    decreases slots.len(),
{
    if slots.len() == 0 {
        Seq::empty()
    } else {
        let prev = slot_notes_of(table, slots.drop_last());
        match lookup(slots.last(), "item"@) {
            Some(Node::Compound(inner)) => match reduction_note_of(table, inner) {
                Some(n) => prev.push(n),
                None => prev,
            },
            _ => prev,
        }
    }
}

/// The notes one record leaves: its own, or those of the slots of its
/// container when the rules rewrite that container.
pub open spec fn item_notes_of(table: Seq<(Seq<char>, Action)>, item: Entries) -> Seq<
    (i32, Seq<char>),
> {
    match reduction_note_of(table, item) {
        Some(n) => seq![n],
        None => match item_id(item) {
            Some(id) => if action_in(table, id) == Action::RecurseContainer {
                match container_of(item) {
                    Some(slots) => slot_notes_of(table, slots),
                    None => Seq::empty(),
                }
            } else {
                Seq::empty()
            },
            None => Seq::empty(),
        },
    }
}

/// The notes of the records of an inventory, in order.
pub open spec fn reduction_notes_of(table: Seq<(Seq<char>, Action)>, items: Seq<Entries>) -> Seq<
    (i32, Seq<char>),
>
    decreases items.len(),
{
    if items.len() == 0 {
        Seq::empty()
    } else {
        reduction_notes_of(table, items.drop_last()) + item_notes_of(table, items.last())
    }
}

pub open spec fn view_notes(v: Seq<(i32, String)>) -> Seq<(i32, Seq<char>)> {
    Seq::new(v.len(), |i: int| (v[i].0, v[i].1@))
}

/// The note for one record, when the rules reduce its count.
pub fn reduction_note(table: &RuleTable, item: &Vec<Field>) -> (r: Option<(i32, String)>)
    ensures
        match r {
            Some(n) => reduction_note_of(table@, view_fields(*item)) == Some((n.0, n.1@)),
            None => reduction_note_of(table@, view_fields(*item)) == None::<(i32, Seq<char>)>,
        },
{
    let k = match find_field(item, "id") {
        Some(k) => k,
        None => {
            return None;
        },
    };
    match &item[k].value {
        Tag::Text(id) => {
            if table.action(id) != Action::ReduceStack {
                return None;
            }
            match int_field(item, "count") {
                Some(c) => Some((c, id.clone())),
                None => None,
            }
        },
        _ => None,
    }
}

/// The notes for the items held in a container's slots, in order.
pub fn container_reduction_notes(table: &RuleTable, slots: &Vec<Vec<Field>>) -> (r: Vec<
    (i32, String),
>)
    ensures
        view_notes(r@) == slot_notes_of(table@, view_compounds(*slots)),
{
    let ghost all = view_compounds(*slots);
    let mut notes: Vec<(i32, String)> = Vec::new();
    let mut i: usize = 0;
    assert(all.take(0) =~= Seq::<Entries>::empty());
    assert(view_notes(notes@) =~= Seq::<(i32, Seq<char>)>::empty());
    while i < slots.len()
        invariant
            i <= slots.len(),
            all == view_compounds(*slots),
            view_notes(notes@) == slot_notes_of(table@, all.take(i as int)),
        decreases slots.len() - i,
    {
        assert(all.take(i + 1).drop_last() =~= all.take(i as int));
        assert(all.take(i + 1).last() == view_fields(slots[i as int]));
        let ghost before = notes@;
        match compound_field(&slots[i], "item") {
            Some(inner) => match reduction_note(table, inner) {
                Some(n) => {
                    notes.push(n);
                    assert(view_notes(notes@) =~= view_notes(before).push((n.0, n.1@)));
                },
                None => {},
            },
            None => {},
        }
        i = i + 1;
    }
    assert(all.take(i as int) =~= all);
    notes
}

/// The notes one record leaves: its own, or those of the items in its
/// container when the rules rewrite that container.
pub fn item_reduction_notes(table: &RuleTable, item: &Vec<Field>) -> (r: Vec<(i32, String)>)
    ensures
        view_notes(r@) == item_notes_of(table@, view_fields(*item)),
{
    if let Some(n) = reduction_note(table, item) {
        let v = vec![n];
        assert(view_notes(v@) =~= seq![(n.0, n.1@)]);
        return v;
    }
    let empty: Vec<(i32, String)> = Vec::new();
    assert(view_notes(empty@) =~= Seq::<(i32, Seq<char>)>::empty());
    if item_action(table, item) != Some(Action::RecurseContainer) {
        return empty;
    }
    match compound_field(item, "components") {
        Some(c) => match find_field(c, "minecraft:container") {
            Some(k) => match &c[k].value {
                Tag::CompoundList(slots) => container_reduction_notes(table, slots),
                _ => empty,
            },
            None => empty,
        },
        None => empty,
    }
}

/// The notes for an inventory, in order: each reduced record, and each
/// reduced item inside a container that the rules rewrite.
pub fn reduction_notes(table: &RuleTable, items: &Vec<Vec<Field>>) -> (r: Vec<(i32, String)>)
    ensures
        view_notes(r@) == reduction_notes_of(table@, view_compounds(*items)),
{
    let ghost all = view_compounds(*items);
    let mut notes: Vec<(i32, String)> = Vec::new();
    let mut i: usize = 0;
    assert(all.take(0) =~= Seq::<Entries>::empty());
    assert(view_notes(notes@) =~= Seq::<(i32, Seq<char>)>::empty());
    while i < items.len()
        invariant
            i <= items.len(),
            all == view_compounds(*items),
            view_notes(notes@) == reduction_notes_of(table@, all.take(i as int)),
        decreases items.len() - i,
    {
        assert(all.take(i + 1).drop_last() =~= all.take(i as int));
        assert(all.take(i + 1).last() == view_fields(items[i as int]));
        let ghost before = notes@;
        let mut more = item_reduction_notes(table, &items[i]);
        let ghost added = more@;
        notes.append(&mut more);
        assert(view_notes(notes@) =~= view_notes(before) + view_notes(added));
        i = i + 1;
    }
    assert(all.take(i as int) =~= all);
    notes
}

/// The notes for the `name` inventory of a document, when it is a list of
/// compounds; none otherwise.
pub fn inventory_reduction_notes(table: &RuleTable, doc: &Vec<Field>, name: &str) -> (r: Vec<
    (i32, String),
>)
    ensures
        view_notes(r@) == match lookup(view_fields(*doc), name@) {
            Some(Node::CompoundList(items)) => reduction_notes_of(table@, items),
            _ => Seq::empty(),
        },
{
    match find_field(doc, name) {
        Some(k) => match &doc[k].value {
            Tag::CompoundList(items) => reduction_notes(table, items),
            _ => {
                let v: Vec<(i32, String)> = Vec::new();
                assert(view_notes(v@) =~= Seq::<(i32, Seq<char>)>::empty());
                v
            },
        },
        None => {
            let v: Vec<(i32, String)> = Vec::new();
            assert(view_notes(v@) =~= Seq::<(i32, Seq<char>)>::empty());
            v
        },
    }
}

} // verus!
