use survicraft::features::{FeatureAsset, FeatureAssets, FeatureVariant, TileFeature};
use survicraft::grid::GridPos;
use survicraft::launcher::{connection_progress, LauncherMode};
use survicraft::status::mapping_index;
use survicraft::terrain::{TerrainAssets, TerrainGenerationProgress, TileAsset};

fn tile(id: &str) -> TileAsset {
    TileAsset { id: id.to_string(), name: id.to_uppercase() }
}

fn variant(id: &str, name: &str) -> FeatureVariant {
    FeatureVariant { id: id.to_string(), name: name.to_string() }
}

fn tree() -> FeatureAsset {
    FeatureAsset {
        id: "tree".to_string(),
        name: "Tree".to_string(),
        variants: vec![variant("sand", "Palm Tree"), variant("grass", "Oak Tree"), variant("hills", "Pine Tree")],
    }
}

#[test]
fn tile_index_by_id() {
    let assets = TerrainAssets::new(vec![tile("deep_water"), tile("sand"), tile("grass")]);
    assert_eq!(assets.get_tile_index(&"deep_water".to_string()), Some(0));
    assert_eq!(assets.get_tile_index(&"grass".to_string()), Some(2));
    assert_eq!(assets.get_tile_index(&"lava".to_string()), None);
}

#[test]
fn chunk_tile_buffer_places_tiles() {
    let assets = TerrainAssets::new(vec![tile("water"), tile("sand")]);
    let entries = vec![
        (GridPos::new(-1, -1), "sand".to_string()),
        (GridPos::new(0, 0), "water".to_string()),
        (GridPos::new(1, 0), "lava".to_string()),
        (GridPos::new(1, 1), "sand".to_string()),
    ];
    let buffer = assets.chunk_tile_buffer(1, &entries);
    assert_eq!(buffer, vec![1, -1, -1, -1, 0, -1, -1, -1, 1]);
    let later = vec![
        (GridPos::new(0, 0), "water".to_string()),
        (GridPos::new(0, 0), "sand".to_string()),
    ];
    assert_eq!(assets.chunk_tile_buffer(0, &later), vec![1]);
    assert_eq!(assets.chunk_tile_buffer(2, &vec![]).len(), 25);
}

#[test]
fn feature_lookups() {
    let assets = FeatureAssets::new(vec![tree()]);
    let feature = assets.get_feature(&"tree".to_string()).unwrap();
    assert_eq!(feature.get_variant(&"grass".to_string()).unwrap().name, "Oak Tree");
    assert!(feature.get_variant(&"mountain".to_string()).is_none());
    assert_eq!(feature.variant_position(&"hills".to_string()), Some(2));
    assert!(assets.get_feature(&"rock".to_string()).is_none());
    let on_grass = assets.feature_variant(&TileFeature(Some("tree".to_string())), &"grass".to_string());
    assert_eq!(on_grass, Some((0, 1)));
    assert_eq!(assets.feature_variant(&TileFeature(None), &"grass".to_string()), None);
    assert_eq!(assets.feature_variant(&TileFeature(Some("rock".to_string())), &"grass".to_string()), None);
    assert_eq!(assets.feature_variant(&TileFeature(Some("tree".to_string())), &"water".to_string()), None);
}

#[test]
fn status_color_choice() {
    let mapping = vec![Some(10), Some(50), None];
    assert_eq!(mapping_index(5, &mapping), Some(0));
    assert_eq!(mapping_index(10, &mapping), Some(0));
    assert_eq!(mapping_index(11, &mapping), Some(1));
    assert_eq!(mapping_index(80, &mapping), Some(2));
    assert_eq!(mapping_index(80, &vec![Some(10)]), None);
    assert_eq!(mapping_index(3, &vec![None, Some(5), None]), Some(1));
    assert_eq!(mapping_index(9, &vec![None, Some(5), None, Some(1)]), Some(2));
    assert_eq!(mapping_index(0, &vec![]), None);
}

#[test]
fn terrain_progress() {
    let progress = TerrainGenerationProgress::from_chunks(&vec![true, false, true, true]);
    assert_eq!(progress, TerrainGenerationProgress { total_chunks: 4, generated_chunks: 3 });
    assert_eq!(progress.progress(), (3, 4));
    let empty = TerrainGenerationProgress::from_chunks(&vec![]);
    assert_eq!(empty.progress(), (0, 1));
}

#[test]
fn connection_progress_and_plan() {
    assert_eq!(connection_progress(None), (1, 1));
    assert_eq!(connection_progress(Some(true)), (1, 1));
    assert_eq!(connection_progress(Some(false)), (0, 1));

    let host = LauncherMode::default().connection_plan();
    assert!(host.listen && host.host_client && host.remote_address.is_none());
    let client = LauncherMode::Client("10.0.0.2".to_string()).connection_plan();
    assert!(!client.listen && !client.host_client);
    assert_eq!(client.remote_address, Some("10.0.0.2".to_string()));
    assert_eq!(LauncherMode::initial(true), LauncherMode::Dedicated);
    assert_eq!(LauncherMode::initial(false), LauncherMode::Host);
    let dedicated = LauncherMode::Dedicated.connection_plan();
    assert!(dedicated.listen && !dedicated.host_client && dedicated.remote_address.is_none());
}

#[test]
fn chunk_tile_buffer_fills_every_slot_once() {
    let assets = TerrainAssets::new(vec![tile("a"), tile("b"), tile("c")]);
    let mut entries = Vec::new();
    let kinds = ["a", "b", "c"];
    for x in -1..=1 {
        for y in -1..=1 {
            entries.push((GridPos::new(x, y), kinds[(x + 1) as usize].to_string()));
        }
    }
    let buffer = assets.chunk_tile_buffer(1, &entries);
    assert_eq!(buffer, vec![0, 1, 2, 0, 1, 2, 0, 1, 2]);
}
