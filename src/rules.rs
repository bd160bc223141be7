//! The rule table: which action applies to an item identifier.

use vstd::prelude::*;

verus! {

/// What the rewriter does to an item record.
#[derive(Clone, Copy, Debug, PartialEq, Eq, Structural)]
pub enum Action {
    /// Remove the item.
    Drop,
    /// Set an existing `count` to one.
    ReduceStack,
    /// Remove the enchantments component.
    StripEnchantments,
    /// Apply the rules to the items held in the container component.
    RecurseContainer,
    /// Leave the item as it is.
    Keep,
}

/// One entry of a rule table.
pub struct Rule {
    pub id: String,
    pub action: Action,
}

/// An ordered rule table; the first rule naming an identifier decides.
pub struct RuleTable {
    pub rules: Vec<Rule>,
}

impl View for RuleTable {
    type V = Seq<(Seq<char>, Action)>;

    open spec fn view(&self) -> Seq<(Seq<char>, Action)> {
        self.rules@.map_values(|r: Rule| (r.id@, r.action))
    }
}

/// The action of the first rule for `id`; `Keep` when no rule names it.
pub open spec fn action_in(table: Seq<(Seq<char>, Action)>, id: Seq<char>) -> Action
    decreases table.len(),
{
    if table.len() == 0 {
        Action::Keep
    } else if table[0].0 == id {
        table[0].1
    } else {
        action_in(table.drop_first(), id)
    }
}

/// The standard rules. `minecraft:elytra` is listed under `Drop` first, so
/// its later enchantment entry never decides.
pub open spec fn standard_rules() -> Seq<(Seq<char>, Action)> {
    seq![
        ("minecraft:totem_of_undying"@, Action::Drop),
        ("minecraft:elytra"@, Action::Drop),
        ("minecraft:end_crystal"@, Action::ReduceStack),
        ("minecraft:experience_bottle"@, Action::ReduceStack),
        ("minecraft:enchanted_golden_apple"@, Action::ReduceStack),
        ("minecraft:ender_chest"@, Action::ReduceStack),
        ("minecraft:tipped_arrow"@, Action::ReduceStack),
        ("minecraft:netherite_axe"@, Action::StripEnchantments),
        ("minecraft:netherite_block"@, Action::StripEnchantments),
        ("minecraft:netherite_boots"@, Action::StripEnchantments),
        ("minecraft:netherite_chestplate"@, Action::StripEnchantments),
        ("minecraft:netherite_helmet"@, Action::StripEnchantments),
        ("minecraft:netherite_hoe"@, Action::StripEnchantments),
        ("minecraft:netherite_ingot"@, Action::StripEnchantments),
        ("minecraft:netherite_leggings"@, Action::StripEnchantments),
        ("minecraft:netherite_pickaxe"@, Action::StripEnchantments),
        ("minecraft:netherite_scrap"@, Action::StripEnchantments),
        ("minecraft:netherite_shovel"@, Action::StripEnchantments),
        ("minecraft:netherite_sword"@, Action::StripEnchantments),
        ("minecraft:elytra"@, Action::StripEnchantments),
        ("minecraft:shulker_box"@, Action::RecurseContainer),
        ("minecraft:white_shulker_box"@, Action::RecurseContainer),
        ("minecraft:orange_shulker_box"@, Action::RecurseContainer),
        ("minecraft:magenta_shulker_box"@, Action::RecurseContainer),
        ("minecraft:light_blue_shulker_box"@, Action::RecurseContainer),
        ("minecraft:yellow_shulker_box"@, Action::RecurseContainer),
        ("minecraft:lime_shulker_box"@, Action::RecurseContainer),
        ("minecraft:pink_shulker_box"@, Action::RecurseContainer),
        ("minecraft:gray_shulker_box"@, Action::RecurseContainer),
        ("minecraft:silver_shulker_box"@, Action::RecurseContainer),
        ("minecraft:cyan_shulker_box"@, Action::RecurseContainer),
        ("minecraft:purple_shulker_box"@, Action::RecurseContainer),
        ("minecraft:blue_shulker_box"@, Action::RecurseContainer),
        ("minecraft:brown_shulker_box"@, Action::RecurseContainer),
        ("minecraft:green_shulker_box"@, Action::RecurseContainer),
        ("minecraft:red_shulker_box"@, Action::RecurseContainer),
        ("minecraft:black_shulker_box"@, Action::RecurseContainer)
    ]
}

impl RuleTable {
    /// A table without rules: every identifier is kept.
    pub fn empty() -> (r: RuleTable)
        ensures
            r@ == Seq::<(Seq<char>, Action)>::empty(),
    {
        let r = RuleTable { rules: Vec::new() };
        assert(r@ =~= Seq::<(Seq<char>, Action)>::empty());
        r
    }

    /// Appends a rule, which decides only for identifiers no earlier rule names.
    pub fn add(&mut self, id: &str, action: Action)
        ensures
            final(self)@ == old(self)@.push((id@, action)),
    {
        self.rules.push(Rule { id: id.to_owned(), action });
        assert(final(self)@ =~= old(self)@.push((id@, action)));
    }

    /// The standard table.
    pub fn standard() -> (r: RuleTable)
        ensures
            r@ == standard_rules(),
    {
        let mut table = RuleTable::empty();
        table.add("minecraft:totem_of_undying", Action::Drop);
        table.add("minecraft:elytra", Action::Drop);
        table.add("minecraft:end_crystal", Action::ReduceStack);
        table.add("minecraft:experience_bottle", Action::ReduceStack);
        table.add("minecraft:enchanted_golden_apple", Action::ReduceStack);
        table.add("minecraft:ender_chest", Action::ReduceStack);
        table.add("minecraft:tipped_arrow", Action::ReduceStack);
        table.add("minecraft:netherite_axe", Action::StripEnchantments);
        table.add("minecraft:netherite_block", Action::StripEnchantments);
        table.add("minecraft:netherite_boots", Action::StripEnchantments);
        table.add("minecraft:netherite_chestplate", Action::StripEnchantments);
        table.add("minecraft:netherite_helmet", Action::StripEnchantments);
        table.add("minecraft:netherite_hoe", Action::StripEnchantments);
        table.add("minecraft:netherite_ingot", Action::StripEnchantments);
        table.add("minecraft:netherite_leggings", Action::StripEnchantments);
        table.add("minecraft:netherite_pickaxe", Action::StripEnchantments);
        table.add("minecraft:netherite_scrap", Action::StripEnchantments);
        table.add("minecraft:netherite_shovel", Action::StripEnchantments);
        table.add("minecraft:netherite_sword", Action::StripEnchantments);
        table.add("minecraft:elytra", Action::StripEnchantments);
        table.add("minecraft:shulker_box", Action::RecurseContainer);
        table.add("minecraft:white_shulker_box", Action::RecurseContainer);
        table.add("minecraft:orange_shulker_box", Action::RecurseContainer);
        table.add("minecraft:magenta_shulker_box", Action::RecurseContainer);
        table.add("minecraft:light_blue_shulker_box", Action::RecurseContainer);
        table.add("minecraft:yellow_shulker_box", Action::RecurseContainer);
        table.add("minecraft:lime_shulker_box", Action::RecurseContainer);
        table.add("minecraft:pink_shulker_box", Action::RecurseContainer);
        table.add("minecraft:gray_shulker_box", Action::RecurseContainer);
        table.add("minecraft:silver_shulker_box", Action::RecurseContainer);
        table.add("minecraft:cyan_shulker_box", Action::RecurseContainer);
        table.add("minecraft:purple_shulker_box", Action::RecurseContainer);
        table.add("minecraft:blue_shulker_box", Action::RecurseContainer);
        table.add("minecraft:brown_shulker_box", Action::RecurseContainer);
        table.add("minecraft:green_shulker_box", Action::RecurseContainer);
        table.add("minecraft:red_shulker_box", Action::RecurseContainer);
        table.add("minecraft:black_shulker_box", Action::RecurseContainer);
        table
    }

    /// The action that decides for `id`.
    pub fn action(&self, id: &String) -> (r: Action)
        ensures
            r == action_in(self@, id@),
    {
        let mut i: usize = 0;
        assert(self@.skip(0) =~= self@);
        while i < self.rules.len()
            invariant
                i <= self.rules.len(),
                action_in(self@, id@) == action_in(self@.skip(i as int), id@),
            decreases self.rules.len() - i,
        {
            assert(self@.skip(i as int)[0] == (self.rules[i as int].id@, self.rules[i as int].action));
            if self.rules[i].id == *id {
                return self.rules[i].action;
            }
            assert(self@.skip(i as int).drop_first() =~= self@.skip(i + 1));
            i = i + 1;
        }
        Action::Keep
    }
}

} // verus!
