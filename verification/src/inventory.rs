//! Items, recipes and crafting.
//!
//! A crafter sees a list of items (entity, item identifier). When it crafts, every recipe is
//! tried in order against the counts of the items seen: for each recipe whose inputs are all
//! available, the first `count` items of each input identifier are removed and `count` items
//! of each output identifier are spawned. The counts are taken once, before any recipe is
//! applied, so two recipes may both pick the same items.

use vstd::prelude::*;
use bevy::platform::collections::HashMap;
use crate::hash_maps::{count_entries, count_map_get, count_map_insert, count_map_new};
use crate::lookup::{first_with, position_of, Identified};

verus! {

/// Identifier of an item kind.
pub type ItemID = String;

/// A property of an item kind.
#[derive(Clone, Debug, PartialEq, Eq, Structural)]
pub enum ItemModifier {
    Storage { capacity: u32 },
}

/// An item kind. How an item looks and collides is kept by the game, beside this record.
#[derive(Clone, Debug)]
pub struct ItemAsset {
    pub id: ItemID,
    pub name: String,
    pub description: String,
    pub modifiers: Vec<ItemModifier>,
}

impl Identified for ItemAsset {
    open spec fn key(&self) -> Seq<char> {
        self.id@
    }

    fn id(&self) -> (id: &String) {
        &self.id
    }
}

/// The item kinds known to the game.
#[derive(Clone, Debug)]
pub struct ItemAssets {
    pub items: Vec<ItemAsset>,
}

impl ItemAssets {
    pub fn new(items: Vec<ItemAsset>) -> (assets: ItemAssets)
        ensures
            assets.items == items,
    {
        ItemAssets { items }
    }

    /// The first item kind whose identifier is `id`.
    pub fn get_item(&self, id: &ItemID) -> (item: Option<&ItemAsset>)
        ensures
            match first_with(self.items@, id@) {
                Some(i) => item == Some(&self.items@[i]),
                None => item is None,
            },
    {
        match position_of(&self.items, id) {
            Some(i) => Some(&self.items[i]),
            None => None,
        }
    }
}

/// A number of items of one kind.
#[derive(Clone, Debug)]
pub struct RecipeItem {
    pub item_id: ItemID,
    pub count: u32,
}

/// A recipe: the items it consumes and the items it produces.
#[derive(Clone, Debug)]
pub struct RecipeAsset {
    pub input: Vec<RecipeItem>,
    pub output: Vec<RecipeItem>,
}

/// The recipes known to the game, in the order they are tried.
#[derive(Clone, Debug)]
pub struct RecipeAssets {
    pub recipes: Vec<RecipeAsset>,
}

impl RecipeAssets {
    pub fn new(recipes: Vec<RecipeAsset>) -> (assets: RecipeAssets)
        ensures
            assets.recipes == recipes,
    {
        RecipeAssets { recipes }
    }
}

/// How many items of kind `key` a count map offers (0 when it has no entry).
pub open spec fn available_count(counts: Map<Seq<char>, u32>, key: Seq<char>) -> int {
    if counts.contains_key(key) {
        counts[key] as int
    } else {
        0
    }
}

/// Every input of `recipe` is offered at least `count` times.
pub open spec fn craftable(recipe: RecipeAsset, counts: Map<Seq<char>, u32>) -> bool {
    forall|i: int|
        0 <= i < recipe.input@.len() ==> available_count(counts, recipe.input@[i].item_id@)
            >= #[trigger] recipe.input@[i].count
}

impl RecipeAsset {
    /// Whether every input of the recipe is available in the given counts.
    pub fn can_craft(&self, available: &HashMap<ItemID, u32>) -> (ok: bool)
        ensures
            ok == craftable(*self, count_entries(*available)),
    {
        let mut i: usize = 0;
        while i < self.input.len()
            invariant
                0 <= i <= self.input@.len(),
                forall|j: int|
                    0 <= j < i ==> available_count(
                        count_entries(*available),
                        self.input@[j].item_id@,
                    ) >= #[trigger] self.input@[j].count,
            decreases self.input@.len() - i,
        {
            let item = &self.input[i];
            let count: u32 = match count_map_get(available, &item.item_id) {
                Some(c) => c,
                None => 0,
            };
            if count < item.count {
                return false;
            }
            i = i + 1;
        }
        true
    }
}

/// How many of `items` are of kind `key`.
pub open spec fn occurrences(items: Seq<(u64, ItemID)>, key: Seq<char>) -> nat
    decreases items.len(),
{
    if items.len() == 0 {
        0
    } else {
        occurrences(items.drop_last(), key) + if items.last().1@ == key {
            1nat
        } else {
            0nat
        }
    }
}

/// The counts of `items`: each kind present maps to its number of occurrences.
pub open spec fn count_map(items: Seq<(u64, ItemID)>) -> Map<Seq<char>, u32> {
    Map::new(|key: Seq<char>| occurrences(items, key) > 0, |key: Seq<char>| occurrences(items, key) as u32)
}

/// `counts` maps each kind present in `items` to its number of occurrences, and nothing else.
pub open spec fn counts_of(items: Seq<(u64, ItemID)>, counts: Map<Seq<char>, u32>) -> bool {
    forall|key: Seq<char>|
        #![trigger counts.contains_key(key)]
        #![trigger occurrences(items, key)]
        (counts.contains_key(key) <==> occurrences(items, key) > 0) && (counts.contains_key(key)
            ==> counts[key] == occurrences(items, key))
}

proof fn lemma_occurrences_bound(items: Seq<(u64, ItemID)>, key: Seq<char>)
    ensures
        occurrences(items, key) <= items.len(),
    decreases items.len(),
{
    if items.len() > 0 {
        lemma_occurrences_bound(items.drop_last(), key);
    }
}

/// Counts the items of each kind.
pub fn count_items(items: &Vec<(u64, ItemID)>) -> (counts: HashMap<ItemID, u32>)
    requires
        items@.len() <= u32::MAX,
    ensures
        count_entries(counts) == count_map(items@),
{
    let mut counts = count_map_new();
    let mut i: usize = 0;
    while i < items.len()
        invariant
            0 <= i <= items@.len(),
            items@.len() <= u32::MAX,
            counts_of(items@.take(i as int), count_entries(counts)),
        decreases items@.len() - i,
    {
        let id = &items[i].1;
        let ghost pre = items@.take(i as int);
        let ghost post = items@.take(i + 1);
        proof {
            assert(post.drop_last() == pre);
            assert(post.last() == items@[i as int]);
            lemma_occurrences_bound(pre, id@);
        }
        let current: u32 = match count_map_get(&counts, id) {
            Some(c) => c,
            None => 0,
        };
        count_map_insert(&mut counts, id.clone(), current + 1);
        proof {
            assert forall|key: Seq<char>|
                #![trigger count_entries(counts).contains_key(key)]
                #![trigger occurrences(post, key)]
                (count_entries(counts).contains_key(key) <==> occurrences(post, key) > 0) && (
                count_entries(counts).contains_key(key) ==> count_entries(counts)[key]
                    == occurrences(post, key)) by {
                assert(occurrences(post, key) == occurrences(pre, key) + if post.last().1@
                    == key {
                    1nat
                } else {
                    0nat
                });
            }
        }
        i = i + 1;
    }
    proof {
        assert(items@.take(items@.len() as int) == items@);
        assert(count_entries(counts) =~= count_map(items@)) by {
            assert forall|key: Seq<char>| #[trigger] count_entries(counts).contains_key(key)
                implies count_entries(counts)[key] == count_map(items@)[key] by {
                lemma_occurrences_bound(items@, key);
            }
        }
    }
    counts
}

/// The entities removed for one input: scanning `items` in order, the first `count` entities
/// whose kind is `key` (fewer when there are fewer such items).
pub open spec fn take_matching(items: Seq<(u64, ItemID)>, key: Seq<char>, count: int) -> Seq<u64>
    decreases items.len(),
{
    if items.len() == 0 {
        Seq::empty()
    } else {
        let prev = take_matching(items.drop_last(), key, count);
        if items.last().1@ == key && prev.len() < count {
            prev.push(items.last().0)
        } else {
            prev
        }
    }
}

/// The entities removed for the inputs of a recipe, input after input.
pub open spec fn input_removals(items: Seq<(u64, ItemID)>, inputs: Seq<RecipeItem>) -> Seq<u64>
    decreases inputs.len(),
{
    if inputs.len() == 0 {
        Seq::empty()
    } else {
        input_removals(items, inputs.drop_last()) + take_matching(
            items,
            inputs.last().item_id@,
            inputs.last().count as int,
        )
    }
}

/// The items spawned for the outputs of a recipe: `count` copies of each output's kind,
/// output after output.
pub open spec fn output_spawns(outputs: Seq<RecipeItem>) -> Seq<ItemID>
    decreases outputs.len(),
{
    if outputs.len() == 0 {
        Seq::empty()
    } else {
        output_spawns(outputs.drop_last()) + Seq::new(
            outputs.last().count as nat,
            |k: int| outputs.last().item_id,
        )
    }
}

/// The entities removed when crafting with `recipes` against the counts of `items`.
pub open spec fn craft_removals(
    items: Seq<(u64, ItemID)>,
    recipes: Seq<RecipeAsset>,
    counts: Map<Seq<char>, u32>,
) -> Seq<u64>
    decreases recipes.len(),
{
    if recipes.len() == 0 {
        Seq::empty()
    } else {
        craft_removals(items, recipes.drop_last(), counts) + if craftable(recipes.last(), counts) {
            input_removals(items, recipes.last().input@)
        } else {
            Seq::empty()
        }
    }
}

/// The items spawned when crafting with `recipes` against `counts`.
pub open spec fn craft_spawns(recipes: Seq<RecipeAsset>, counts: Map<Seq<char>, u32>) -> Seq<
    ItemID,
>
    decreases recipes.len(),
{
    if recipes.len() == 0 {
        Seq::empty()
    } else {
        craft_spawns(recipes.drop_last(), counts) + if craftable(recipes.last(), counts) {
            output_spawns(recipes.last().output@)
        } else {
            Seq::empty()
        }
    }
}

/// The entities taken for one input are `min(count, occurrences)` many, and each is the entity
/// of an item of that kind.
pub proof fn law_take_matching(items: Seq<(u64, ItemID)>, key: Seq<char>, count: int)
    requires
        count >= 0,
    ensures
        take_matching(items, key, count).len() == if occurrences(items, key) <= count {
            occurrences(items, key) as int
        } else {
            count
        },
        forall|m: int|
            #![trigger take_matching(items, key, count)[m]]
            0 <= m < take_matching(items, key, count).len() ==> exists|j: int|
                0 <= j < items.len() && (#[trigger] items[j]).0 == take_matching(
                    items,
                    key,
                    count,
                )[m] && items[j].1@ == key,
    decreases items.len(),
{
    if items.len() > 0 {
        let prev = items.drop_last();
        law_take_matching(prev, key, count);
        let t = take_matching(items, key, count);
        assert forall|m: int| #![trigger t[m]] 0 <= m < t.len() implies exists|j: int|
            0 <= j < items.len() && (#[trigger] items[j]).0 == t[m] && items[j].1@ == key by {
            if m < take_matching(prev, key, count).len() {
                let j = choose|j: int|
                    0 <= j < prev.len() && (#[trigger] prev[j]).0 == take_matching(
                        prev,
                        key,
                        count,
                    )[m] && prev[j].1@ == key;
                assert(items[j] == prev[j]);
            } else {
                assert(items[items.len() - 1] == items.last());
            }
        }
    }
}

/// With the counts of the items themselves, a recipe is craftable exactly when every input
/// kind occurs at least `count` times among the items.
pub proof fn law_craftable_by_occurrences(items: Seq<(u64, ItemID)>, recipe: RecipeAsset)
    requires
        items.len() <= u32::MAX,
    ensures
        craftable(recipe, count_map(items)) <==> forall|i: int|
            0 <= i < recipe.input@.len() ==> occurrences(items, recipe.input@[i].item_id@)
                >= #[trigger] recipe.input@[i].count,
{
    assert forall|key: Seq<char>| available_count(count_map(items), key) == occurrences(
        items,
        key,
    ) by {
        lemma_occurrences_bound(items, key);
    }
}

/// Crafting a recipe whose inputs are available removes exactly `count` entities of each
/// input's kind.
pub proof fn law_craft_consumes_inputs(items: Seq<(u64, ItemID)>, recipe: RecipeAsset, i: int)
    requires
        items.len() <= u32::MAX,
        craftable(recipe, count_map(items)),
        0 <= i < recipe.input@.len(),
    ensures
        take_matching(items, recipe.input@[i].item_id@, recipe.input@[i].count as int).len()
            == recipe.input@[i].count,
{
    law_craftable_by_occurrences(items, recipe);
    law_take_matching(items, recipe.input@[i].item_id@, recipe.input@[i].count as int);
}

/// Each recipe is crafted or skipped on its own: a recipe tried after others adds exactly its
/// input removals and output spawns when every input kind occurs at least `count` times among
/// the items, and adds nothing otherwise, whatever became of the recipes tried before it.
pub proof fn law_recipes_independent(
    items: Seq<(u64, ItemID)>,
    recipes: Seq<RecipeAsset>,
    recipe: RecipeAsset,
)
    requires
        items.len() <= u32::MAX,
    ensures
        ({
            let ok = forall|i: int|
                0 <= i < recipe.input@.len() ==> occurrences(items, recipe.input@[i].item_id@)
                    >= #[trigger] recipe.input@[i].count;
            &&& craft_removals(items, recipes.push(recipe), count_map(items)) == craft_removals(
                items,
                recipes,
                count_map(items),
            ) + if ok {
                input_removals(items, recipe.input@)
            } else {
                Seq::empty()
            }
            &&& craft_spawns(recipes.push(recipe), count_map(items)) == craft_spawns(
                recipes,
                count_map(items),
            ) + if ok {
                output_spawns(recipe.output@)
            } else {
                Seq::empty()
            }
        }),
{
    law_craftable_by_occurrences(items, recipe);
    assert(recipes.push(recipe).drop_last() == recipes);
}

/// The removals of a recipe are those of its inputs, input after input: an input added last
/// adds the first `count` entities of its kind.
pub proof fn law_input_removals_push(
    items: Seq<(u64, ItemID)>,
    inputs: Seq<RecipeItem>,
    input: RecipeItem,
)
    ensures
        input_removals(items, Seq::empty()) == Seq::<u64>::empty(),
        input_removals(items, inputs.push(input)) == input_removals(items, inputs) + take_matching(
            items,
            input.item_id@,
            input.count as int,
        ),
{
    assert(inputs.push(input).drop_last() == inputs);
}

/// The spawns of a recipe are those of its outputs, output after output: an output added last
/// adds `count` items of its kind, and no others.
pub proof fn law_output_spawns_push(outputs: Seq<RecipeItem>, output: RecipeItem)
    ensures
        output_spawns(Seq::empty()) == Seq::<ItemID>::empty(),
        output_spawns(outputs.push(output)).len() == output_spawns(outputs).len() + output.count,
        output_spawns(outputs.push(output)).subrange(0, output_spawns(outputs).len() as int)
            == output_spawns(outputs),
        forall|k: int|
            output_spawns(outputs).len() <= k < output_spawns(outputs.push(output)).len() ==> (
            #[trigger] output_spawns(outputs.push(output))[k]) == output.item_id,
{
    assert(outputs.push(output).drop_last() == outputs);
    assert(output_spawns(outputs.push(output)).subrange(0, output_spawns(outputs).len() as int)
        == output_spawns(outputs));
}

/// What a crafter does: the item entities to despawn, and the kinds of the items to spawn at
/// the crafter, in order.
pub struct CraftActions {
    pub despawn: Vec<u64>,
    pub spawn: Vec<ItemID>,
}

/// Appends to `despawn` the first `input.count` entities of kind `input.item_id`.
fn remove_input(items: &Vec<(u64, ItemID)>, input: &RecipeItem, despawn: &mut Vec<u64>)
    ensures
        final(despawn)@ == old(despawn)@ + take_matching(
            items@,
            input.item_id@,
            input.count as int,
        ),
{
    let ghost start = despawn@;
    let ghost key = input.item_id@;
    let ghost count = input.count as int;
    let mut to_remove: u32 = input.count;
    let mut j: usize = 0;
    while j < items.len()
        invariant
            0 <= j <= items@.len(),
            key == input.item_id@,
            count == input.count,
            despawn@ == start + take_matching(items@.take(j as int), key, count),
            to_remove == count - take_matching(items@.take(j as int), key, count).len(),
            take_matching(items@.take(j as int), key, count).len() <= count,
        decreases items@.len() - j,
    {
        let ghost pre = items@.take(j as int);
        let ghost post = items@.take(j + 1);
        proof {
            assert(post.drop_last() == pre);
            assert(post.last() == items@[j as int]);
        }
        let (entity, id) = (items[j].0, &items[j].1);
        if id.eq(&input.item_id) && to_remove > 0 {
            despawn.push(entity);
            to_remove = to_remove - 1;
        }
        proof {
            assert(despawn@ == start + take_matching(post, key, count));
        }
        j = j + 1;
    }
    proof {
        assert(items@.take(items@.len() as int) == items@);
    }
}

/// Appends to `spawn` `output.count` copies of `output.item_id`.
fn spawn_output(output: &RecipeItem, spawn: &mut Vec<ItemID>)
    ensures
        final(spawn)@ == old(spawn)@ + Seq::new(output.count as nat, |k: int| output.item_id),
{
    let ghost start = spawn@;
    let mut n: u32 = 0;
    while n < output.count
        invariant
            0 <= n <= output.count,
            spawn@ == start + Seq::new(n as nat, |k: int| output.item_id),
        decreases output.count - n,
    {
        spawn.push(output.item_id.clone());
        proof {
            assert(spawn@ == start + Seq::new((n + 1) as nat, |k: int| output.item_id));
        }
        n = n + 1;
    }
}

/// Appends the removals and spawns of one recipe that can be crafted.
fn apply_recipe(
    items: &Vec<(u64, ItemID)>,
    recipe: &RecipeAsset,
    despawn: &mut Vec<u64>,
    spawn: &mut Vec<ItemID>,
)
    ensures
        final(despawn)@ == old(despawn)@ + input_removals(items@, recipe.input@),
        final(spawn)@ == old(spawn)@ + output_spawns(recipe.output@),
{
    let ghost d0 = despawn@;
    let ghost s0 = spawn@;
    let mut i: usize = 0;
    while i < recipe.input.len()
        invariant
            0 <= i <= recipe.input@.len(),
            despawn@ == d0 + input_removals(items@, recipe.input@.take(i as int)),
            spawn@ == s0,
        decreases recipe.input@.len() - i,
    {
        let ghost before = despawn@;
        remove_input(items, &recipe.input[i], despawn);
        proof {
            let t = recipe.input@.take(i + 1);
            assert(t.drop_last() == recipe.input@.take(i as int));
            assert(t.last() == recipe.input@[i as int]);
            assert(despawn@ == d0 + input_removals(items@, t));
        }
        i = i + 1;
    }
    proof {
        assert(recipe.input@.take(recipe.input@.len() as int) == recipe.input@);
    }
    let mut o: usize = 0;
    while o < recipe.output.len()
        invariant
            0 <= o <= recipe.output@.len(),
            despawn@ == d0 + input_removals(items@, recipe.input@),
            spawn@ == s0 + output_spawns(recipe.output@.take(o as int)),
        decreases recipe.output@.len() - o,
    {
        spawn_output(&recipe.output[o], spawn);
        proof {
            let t = recipe.output@.take(o + 1);
            assert(t.drop_last() == recipe.output@.take(o as int));
            assert(t.last() == recipe.output@[o as int]);
            assert(spawn@ == s0 + output_spawns(t));
        }
        o = o + 1;
    }
    proof {
        assert(recipe.output@.take(recipe.output@.len() as int) == recipe.output@);
    }
}

/// A crafter's action: when `craft` is set, every recipe, in order, that the counts of
/// `items` allow is applied (see the module's documentation); otherwise nothing happens.
pub fn apply_crafter_action(
    craft: bool,
    items: &Vec<(u64, ItemID)>,
    recipes: &RecipeAssets,
) -> (actions: CraftActions)
    requires
        items@.len() <= u32::MAX,
    ensures
        !craft ==> actions.despawn@.len() == 0 && actions.spawn@.len() == 0,
        craft ==> actions.despawn@ == craft_removals(
            items@,
            recipes.recipes@,
            count_map(items@),
        ),
        craft ==> actions.spawn@ == craft_spawns(recipes.recipes@, count_map(items@)),
{
    let mut despawn: Vec<u64> = Vec::new();
    let mut spawn: Vec<ItemID> = Vec::new();
    if !craft {
        return CraftActions { despawn, spawn };
    }
    let available = count_items(items);
    let ghost counts = count_entries(available);
    let mut r: usize = 0;
    while r < recipes.recipes.len()
        invariant
            0 <= r <= recipes.recipes@.len(),
            counts == count_entries(available),
            despawn@ == craft_removals(items@, recipes.recipes@.take(r as int), counts),
            spawn@ == craft_spawns(recipes.recipes@.take(r as int), counts),
        decreases recipes.recipes@.len() - r,
    {
        let recipe = &recipes.recipes[r];
        let ghost t = recipes.recipes@.take(r + 1);
        proof {
            assert(t.drop_last() == recipes.recipes@.take(r as int));
            assert(t.last() == recipes.recipes@[r as int]);
        }
        if recipe.can_craft(&available) {
            apply_recipe(items, recipe, &mut despawn, &mut spawn);
        }
        proof {
            assert(despawn@ == craft_removals(items@, t, counts));
            assert(spawn@ == craft_spawns(t, counts));
        }
        r = r + 1;
    }
    proof {
        assert(recipes.recipes@.take(recipes.recipes@.len() as int) == recipes.recipes@);
    }
    CraftActions { despawn, spawn }
}

} // verus!
