use bevy::platform::collections::HashMap;
use survicraft::inventory::{
    apply_crafter_action, count_items, ItemAsset, ItemAssets, ItemModifier, RecipeAsset,
    RecipeAssets, RecipeItem,
};

fn ri(id: &str, count: u32) -> RecipeItem {
    RecipeItem { item_id: id.to_string(), count }
}

fn item(id: &str, name: &str) -> ItemAsset {
    ItemAsset {
        id: id.to_string(),
        name: name.to_string(),
        description: String::new(),
        modifiers: vec![],
    }
}

#[test]
fn can_craft_compares_counts() {
    let recipe = RecipeAsset { input: vec![ri("wood", 2), ri("stone", 1)], output: vec![ri("axe", 1)] };
    let mut available: HashMap<String, u32> = HashMap::new();
    assert!(!recipe.can_craft(&available));
    available.insert("wood".to_string(), 2);
    assert!(!recipe.can_craft(&available));
    available.insert("stone".to_string(), 1);
    assert!(recipe.can_craft(&available));
    available.insert("wood".to_string(), 1);
    assert!(!recipe.can_craft(&available));
    let free = RecipeAsset { input: vec![], output: vec![ri("gift", 1)] };
    assert!(free.can_craft(&HashMap::new()));
    let zero = RecipeAsset { input: vec![ri("air", 0)], output: vec![] };
    assert!(zero.can_craft(&HashMap::new()));
}

#[test]
fn count_items_counts_each_kind() {
    let items = vec![
        (1, "wood".to_string()),
        (2, "stone".to_string()),
        (3, "wood".to_string()),
        (4, "wood".to_string()),
    ];
    let counts = count_items(&items);
    assert_eq!(counts.get("wood"), Some(&3));
    assert_eq!(counts.get("stone"), Some(&1));
    assert_eq!(counts.get("iron"), None);
    assert_eq!(counts.len(), 2);
}

#[test]
fn crafting_removes_inputs_and_spawns_outputs() {
    let recipes = RecipeAssets::new(vec![
        RecipeAsset { input: vec![ri("wood", 2), ri("stone", 1)], output: vec![ri("axe", 1), ri("chip", 2)] },
        RecipeAsset { input: vec![ri("iron", 1)], output: vec![ri("sword", 1)] },
    ]);
    let items = vec![
        (10, "wood".to_string()),
        (11, "stone".to_string()),
        (12, "wood".to_string()),
        (13, "wood".to_string()),
        (14, "stone".to_string()),
    ];
    let actions = apply_crafter_action(true, &items, &recipes);
    assert_eq!(actions.despawn, vec![10, 12, 11]);
    assert_eq!(actions.spawn, vec!["axe".to_string(), "chip".to_string(), "chip".to_string()]);
}

#[test]
fn no_crafting_without_input() {
    let recipes = RecipeAssets::new(vec![RecipeAsset { input: vec![], output: vec![ri("gift", 1)] }]);
    let items = vec![(1, "wood".to_string())];
    let actions = apply_crafter_action(false, &items, &recipes);
    assert!(actions.despawn.is_empty());
    assert!(actions.spawn.is_empty());
}

#[test]
fn recipes_see_the_same_counts() {
    let recipes = RecipeAssets::new(vec![
        RecipeAsset { input: vec![ri("wood", 1)], output: vec![ri("plank", 2)] },
        RecipeAsset { input: vec![ri("wood", 1)], output: vec![ri("stick", 1)] },
        RecipeAsset { input: vec![ri("wood", 2)], output: vec![ri("log", 1)] },
    ]);
    let items = vec![(5, "wood".to_string())];
    let actions = apply_crafter_action(true, &items, &recipes);
    assert_eq!(actions.despawn, vec![5, 5]);
    assert_eq!(actions.spawn, vec!["plank".to_string(), "plank".to_string(), "stick".to_string()]);
}

#[test]
fn item_lookup_takes_first_match() {
    let assets = ItemAssets::new(vec![item("a", "first"), item("b", "second"), item("a", "third")]);
    assert_eq!(assets.get_item(&"a".to_string()).map(|i| i.name.clone()), Some("first".to_string()));
    assert_eq!(assets.get_item(&"b".to_string()).map(|i| i.name.clone()), Some("second".to_string()));
    assert!(assets.get_item(&"c".to_string()).is_none());
    let chest = ItemAsset { modifiers: vec![ItemModifier::Storage { capacity: 8 }], ..item("chest", "Chest") };
    assert_eq!(chest.modifiers, vec![ItemModifier::Storage { capacity: 8 }]);
}
