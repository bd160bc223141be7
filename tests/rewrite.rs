use inventory_purge::region::{chunks_to_write, get_chunk_positions};
use inventory_purge::rewrite::{
    container_reduction_notes, inventory_reduction_notes, item_reduction_notes, reduction_note,
    reduction_notes, process_block_entity, process_chunk, process_container_list, process_item,
    process_items_list, process_player_data, process_slot, ShapeError,
};
use inventory_purge::rules::{Action, RuleTable};
use inventory_purge::tag::{find_field, name_is, take_named, Field, Tag};

fn field(name: &str, value: Tag) -> Field {
    Field { name: name.to_string(), value }
}

fn text(s: &str) -> Tag {
    Tag::Text(s.to_string())
}

fn item(id: &str, rest: Vec<Field>) -> Vec<Field> {
    let mut fields = vec![field("id", text(id))];
    fields.extend(rest);
    fields
}

fn slot(inner: Vec<Field>, index: i32) -> Vec<Field> {
    vec![field("item", Tag::Compound(inner)), field("slot", Tag::Int(index))]
}

fn enchanted() -> Tag {
    Tag::Compound(vec![field(
        "levels",
        Tag::Compound(vec![field("minecraft:sharpness", Tag::Int(5))]),
    )])
}

#[test]
fn standard_table_actions() {
    let t = RuleTable::standard();
    assert_eq!(t.action(&"minecraft:elytra".to_string()), Action::Drop);
    assert_eq!(t.action(&"minecraft:totem_of_undying".to_string()), Action::Drop);
    assert_eq!(t.action(&"minecraft:tipped_arrow".to_string()), Action::ReduceStack);
    assert_eq!(t.action(&"minecraft:netherite_scrap".to_string()), Action::StripEnchantments);
    assert_eq!(t.action(&"minecraft:lime_shulker_box".to_string()), Action::RecurseContainer);
    assert_eq!(t.action(&"minecraft:shulker_box".to_string()), Action::RecurseContainer);
    assert_eq!(t.action(&"minecraft:diamond".to_string()), Action::Keep);
    assert_eq!(t.action(&"".to_string()), Action::Keep);
}

#[test]
fn empty_table_keeps_everything() {
    let t = RuleTable::empty();
    assert_eq!(t.action(&"minecraft:elytra".to_string()), Action::Keep);
    let items = || {
        vec![
            item("minecraft:elytra", vec![]),
            item("minecraft:tipped_arrow", vec![field("count", Tag::Int(64))]),
        ]
    };
    assert_eq!(process_items_list(&t, items()), Ok(items()));
}

#[test]
fn later_rules_do_not_override_earlier() {
    let mut t = RuleTable::empty();
    t.add("a", Action::Drop);
    t.add("a", Action::Keep);
    assert_eq!(t.action(&"a".to_string()), Action::Drop);
}

#[test]
fn mixed_inventory_scenario() {
    let t = RuleTable::standard();
    let items = vec![
        item("minecraft:elytra", vec![]),
        item("minecraft:tipped_arrow", vec![field("count", Tag::Int(64))]),
        item(
            "minecraft:netherite_sword",
            vec![field(
                "components",
                Tag::Compound(vec![field("minecraft:enchantments", enchanted())]),
            )],
        ),
    ];
    let expected = vec![
        item("minecraft:tipped_arrow", vec![field("count", Tag::Int(1))]),
        item("minecraft:netherite_sword", vec![field("components", Tag::Compound(vec![]))]),
    ];
    assert_eq!(process_items_list(&t, items), Ok(expected));
}

#[test]
fn shulker_box_scenario() {
    let t = RuleTable::standard();
    let container = vec![
        slot(item("minecraft:totem_of_undying", vec![]), 0),
        slot(item("minecraft:diamond", vec![field("count", Tag::Int(30))]), 1),
    ];
    let shulker = item(
        "minecraft:shulker_box",
        vec![field(
            "components",
            Tag::Compound(vec![field("minecraft:container", Tag::CompoundList(container))]),
        )],
    );
    let expected = item(
        "minecraft:shulker_box",
        vec![field(
            "components",
            Tag::Compound(vec![field(
                "minecraft:container",
                Tag::CompoundList(vec![slot(
                    item("minecraft:diamond", vec![field("count", Tag::Int(30))]),
                    1,
                )]),
            )]),
        )],
    );
    assert_eq!(process_item(&t, shulker), Ok(Some(expected)));
}

#[test]
fn container_entry_moves_to_end_of_components() {
    let t = RuleTable::standard();
    let shulker = item(
        "minecraft:red_shulker_box",
        vec![field(
            "components",
            Tag::Compound(vec![
                field("minecraft:container", Tag::CompoundList(vec![])),
                field("minecraft:custom_name", text("box")),
            ]),
        )],
    );
    let expected = item(
        "minecraft:red_shulker_box",
        vec![field(
            "components",
            Tag::Compound(vec![
                field("minecraft:custom_name", text("box")),
                field("minecraft:container", Tag::CompoundList(vec![])),
            ]),
        )],
    );
    assert_eq!(process_item(&t, shulker), Ok(Some(expected)));
}

#[test]
fn reduced_count_moves_to_end() {
    let t = RuleTable::standard();
    let crystal = vec![
        field("count", Tag::Int(17)),
        field("id", text("minecraft:end_crystal")),
        field("extra", Tag::Long(9)),
    ];
    let expected = vec![
        field("id", text("minecraft:end_crystal")),
        field("extra", Tag::Long(9)),
        field("count", Tag::Int(1)),
    ];
    assert_eq!(process_item(&t, crystal), Ok(Some(expected)));
}

#[test]
fn reduce_without_count_is_unchanged() {
    let t = RuleTable::standard();
    let bottle = || item("minecraft:experience_bottle", vec![field("count", Tag::Long(3))]);
    assert_eq!(process_item(&t, bottle()), Ok(Some(bottle())));
}

#[test]
fn strip_keeps_other_components_in_place() {
    let t = RuleTable::standard();
    let helmet = item(
        "minecraft:netherite_helmet",
        vec![
            field(
                "components",
                Tag::Compound(vec![
                    field("minecraft:damage", Tag::Int(3)),
                    field("minecraft:enchantments", enchanted()),
                    field("minecraft:unbreakable", Tag::Opaque(7)),
                ]),
            ),
            field("count", Tag::Int(1)),
        ],
    );
    let expected = item(
        "minecraft:netherite_helmet",
        vec![
            field(
                "components",
                Tag::Compound(vec![
                    field("minecraft:damage", Tag::Int(3)),
                    field("minecraft:unbreakable", Tag::Opaque(7)),
                ]),
            ),
            field("count", Tag::Int(1)),
        ],
    );
    assert_eq!(process_item(&t, helmet), Ok(Some(expected)));
}

#[test]
fn strip_without_levels_is_unchanged() {
    let t = RuleTable::standard();
    let ingot = || {
        item(
            "minecraft:netherite_ingot",
            vec![field(
                "components",
                Tag::Compound(vec![field("minecraft:enchantments", Tag::Compound(vec![]))]),
            )],
        )
    };
    assert_eq!(process_item(&t, ingot()), Ok(Some(ingot())));
}

#[test]
fn dropped_item_gives_none() {
    let t = RuleTable::standard();
    assert_eq!(process_item(&t, item("minecraft:elytra", vec![])), Ok(None));
}

#[test]
fn missing_id_is_a_shape_error() {
    let t = RuleTable::standard();
    let items = vec![item("minecraft:stone", vec![]), vec![field("count", Tag::Int(2))]];
    assert_eq!(process_items_list(&t, items), Err(ShapeError::MissingId));
    let not_text = vec![field("id", Tag::Int(4))];
    assert_eq!(process_item(&t, not_text), Err(ShapeError::MissingId));
}

#[test]
fn slot_without_item_is_a_shape_error() {
    let t = RuleTable::standard();
    let bad = vec![field("slot", Tag::Int(0))];
    assert_eq!(process_slot(&t, bad), Err(ShapeError::MissingItem));
}

#[test]
fn rewritten_slot_without_index_is_a_shape_error() {
    let t = RuleTable::standard();
    let bad = vec![field(
        "item",
        Tag::Compound(item("minecraft:ender_chest", vec![field("count", Tag::Int(4))])),
    )];
    assert_eq!(process_slot(&t, bad), Err(ShapeError::MissingSlot));
    let kept = || vec![field("item", Tag::Compound(item("minecraft:dirt", vec![])))];
    assert_eq!(process_slot(&t, kept()), Ok(Some(kept())));
}

#[test]
fn container_slots_follow_the_rules() {
    let t = RuleTable::standard();
    let slots = vec![
        vec![
            field("slot", Tag::Int(4)),
            field(
                "item",
                Tag::Compound(item("minecraft:enchanted_golden_apple", vec![field("count", Tag::Int(8))])),
            ),
        ],
        slot(item("minecraft:elytra", vec![]), 5),
        slot(
            item(
                "minecraft:netherite_axe",
                vec![field(
                    "components",
                    Tag::Compound(vec![field("minecraft:enchantments", enchanted())]),
                )],
            ),
            6,
        ),
    ];
    let expected = vec![
        slot(item("minecraft:enchanted_golden_apple", vec![field("count", Tag::Int(1))]), 4),
        slot(
            item("minecraft:netherite_axe", vec![field("components", Tag::Compound(vec![]))]),
            6,
        ),
    ];
    assert_eq!(process_container_list(&t, slots), Ok(expected));
}

#[test]
fn player_inventories_move_to_end() {
    let t = RuleTable::standard();
    let doc = vec![
        field("EnderItems", Tag::CompoundList(vec![item("minecraft:totem_of_undying", vec![])])),
        field("Inventory", Tag::CompoundList(vec![item("minecraft:stone", vec![])])),
        field("Health", Tag::Opaque(1)),
    ];
    let expected = vec![
        field("Health", Tag::Opaque(1)),
        field("Inventory", Tag::CompoundList(vec![item("minecraft:stone", vec![])])),
        field("EnderItems", Tag::CompoundList(vec![])),
    ];
    assert_eq!(process_player_data(&t, doc), Ok(expected));
}

#[test]
fn player_without_inventories_is_unchanged() {
    let t = RuleTable::standard();
    let doc = || vec![field("Health", Tag::Opaque(1)), field("Inventory", Tag::List(vec![]))];
    assert_eq!(process_player_data(&t, doc()), Ok(doc()));
}

#[test]
fn block_entity_items_are_rewritten() {
    let t = RuleTable::standard();
    let be = vec![
        field("Items", Tag::CompoundList(vec![item("minecraft:elytra", vec![])])),
        field("id", text("minecraft:chest")),
    ];
    let expected = vec![field("id", text("minecraft:chest")), field("Items", Tag::CompoundList(vec![]))];
    assert_eq!(process_block_entity(&t, be), Ok(expected));
    let plain = || vec![field("id", text("minecraft:sign"))];
    assert_eq!(process_block_entity(&t, plain()), Ok(plain()));
}

#[test]
fn chunk_without_block_entities_passes_through() {
    let t = RuleTable::standard();
    let chunk = vec![field("xPos", Tag::Int(3))];
    assert_eq!(process_chunk(&t, chunk), Ok(None));
}

#[test]
fn chunk_block_entities_move_to_end() {
    let t = RuleTable::standard();
    let chest = vec![field(
        "Items",
        Tag::CompoundList(vec![item("minecraft:tipped_arrow", vec![field("count", Tag::Int(2))])]),
    )];
    let chunk = vec![
        field("block_entities", Tag::CompoundList(vec![chest])),
        field("xPos", Tag::Int(3)),
    ];
    let expected = vec![
        field("xPos", Tag::Int(3)),
        field(
            "block_entities",
            Tag::CompoundList(vec![vec![field(
                "Items",
                Tag::CompoundList(vec![item("minecraft:tipped_arrow", vec![field("count", Tag::Int(1))])]),
            )]]),
        ),
    ];
    assert_eq!(process_chunk(&t, chunk), Ok(Some(expected)));
}

#[test]
fn chunk_failure_is_reported() {
    let t = RuleTable::standard();
    let chest = vec![field("Items", Tag::CompoundList(vec![vec![]]))];
    let chunk = vec![field("block_entities", Tag::CompoundList(vec![chest]))];
    assert_eq!(process_chunk(&t, chunk), Err(ShapeError::MissingId));
}

#[test]
fn chunk_positions_in_grid_order() {
    let p = get_chunk_positions();
    assert_eq!(p.len(), 1024);
    assert_eq!(p[0], (0, 0));
    assert_eq!(p[1], (0, 1));
    assert_eq!(p[33], (1, 1));
    assert_eq!(p[1023], (31, 31));
}

#[test]
fn only_present_chunks_are_written() {
    let mut present = vec![false; 1024];
    present[0] = true;
    present[40] = true;
    present[1023] = true;
    assert_eq!(chunks_to_write(&present), vec![(0, 0), (1, 8), (31, 31)]);
    assert_eq!(chunks_to_write(&vec![false; 1024]), vec![]);
    assert_eq!(chunks_to_write(&vec![true; 1024]).len(), 1024);
}

#[test]
fn field_helpers() {
    let fields = vec![field("a", Tag::Int(1)), field("b", Tag::Int(2)), field("a", Tag::Int(3))];
    assert!(name_is(&fields[1], "b"));
    assert_eq!(find_field(&fields, "a"), Some(0));
    assert_eq!(find_field(&fields, "c"), None);
    let (rest, first) = take_named(fields, "a");
    assert_eq!(rest, vec![field("b", Tag::Int(2))]);
    assert_eq!(first, Some(Tag::Int(1)));
}

#[test]
fn reductions_are_noted() {
    let t = RuleTable::standard();
    let arrows = item("minecraft:tipped_arrow", vec![field("count", Tag::Int(64))]);
    assert_eq!(reduction_note(&t, &arrows), Some((64, "minecraft:tipped_arrow".to_string())));
    assert_eq!(reduction_note(&t, &item("minecraft:diamond", vec![field("count", Tag::Int(3))])), None);
    assert_eq!(reduction_note(&t, &item("minecraft:ender_chest", vec![])), None);
    let items = vec![
        item("minecraft:end_crystal", vec![field("count", Tag::Int(5))]),
        item("minecraft:stone", vec![field("count", Tag::Int(9))]),
        arrows,
    ];
    assert_eq!(
        reduction_notes(&t, &items),
        vec![(5, "minecraft:end_crystal".to_string()), (64, "minecraft:tipped_arrow".to_string())]
    );
    let doc = vec![field("Inventory", Tag::CompoundList(items))];
    assert_eq!(inventory_reduction_notes(&t, &doc, "Inventory").len(), 2);
    assert_eq!(inventory_reduction_notes(&t, &doc, "EnderItems"), vec![]);
}

#[test]
fn chunk_without_rules_only_moves_lists() {
    let t = RuleTable::empty();
    let chunk = || {
        vec![
            field(
                "block_entities",
                Tag::CompoundList(vec![vec![
                    field("Items", Tag::CompoundList(vec![item("minecraft:elytra", vec![])])),
                    field("id", text("minecraft:chest")),
                ]]),
            ),
            field("xPos", Tag::Int(3)),
        ]
    };
    let expected = vec![
        field("xPos", Tag::Int(3)),
        field(
            "block_entities",
            Tag::CompoundList(vec![vec![
                field("id", text("minecraft:chest")),
                field("Items", Tag::CompoundList(vec![item("minecraft:elytra", vec![])])),
            ]]),
        ),
    ];
    assert_eq!(process_chunk(&t, chunk()), Ok(Some(expected)));
}

#[test]
fn container_reductions_are_noted() {
    let t = RuleTable::standard();
    let shulker = item(
        "minecraft:blue_shulker_box",
        vec![field(
            "components",
            Tag::Compound(vec![field(
                "minecraft:container",
                Tag::CompoundList(vec![
                    slot(item("minecraft:experience_bottle", vec![field("count", Tag::Int(12))]), 0),
                    slot(item("minecraft:dirt", vec![field("count", Tag::Int(7))]), 1),
                ]),
            )]),
        )],
    );
    let expected = vec![(12, "minecraft:experience_bottle".to_string())];
    assert_eq!(item_reduction_notes(&t, &shulker), expected);
    let items = vec![item("minecraft:ender_chest", vec![field("count", Tag::Int(2))]), shulker];
    assert_eq!(
        reduction_notes(&t, &items),
        vec![(2, "minecraft:ender_chest".to_string()), (12, "minecraft:experience_bottle".to_string())]
    );
    let slots = vec![slot(item("minecraft:tipped_arrow", vec![field("count", Tag::Int(3))]), 4)];
    assert_eq!(container_reduction_notes(&t, &slots), vec![(3, "minecraft:tipped_arrow".to_string())]);
}
