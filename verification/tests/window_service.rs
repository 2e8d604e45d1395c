use bettercpt::storage::{PluginStorage, StorageError, STORAGE_QUOTA_BYTES};
use bettercpt::window_service::{WindowError, WindowPosition, WindowService};

#[test]
fn create_close_and_ids() {
    let mut ws = WindowService::new();
    assert_eq!(ws.create("A", 800, 600), Ok(1));
    assert_eq!(ws.create("B", 100, 100), Ok(2));
    assert_eq!(ws.get(1), Some(("A".to_string(), 800, 600)));
    assert_eq!(ws.close(1), Ok(()));
    assert_eq!(ws.close(1), Err(WindowError::NotFound));
    assert_eq!(ws.create("C", 400, 400), Ok(3));
    let mut ids = ws.list();
    ids.sort();
    assert_eq!(ids, vec![2, 3]);
}

#[test]
fn resize_respects_minimum() {
    let mut ws = WindowService::new();
    let id = ws.create("A", 800, 600).unwrap();
    ws.resize(id, 100, 100).unwrap();
    assert_eq!(ws.get(id), Some(("A".to_string(), 300, 200)));
    ws.set_min_size(id, 500, 50).unwrap();
    assert_eq!(ws.get(id), Some(("A".to_string(), 500, 200)));
    ws.resize(id, 1000, 10).unwrap();
    assert_eq!(ws.get(id), Some(("A".to_string(), 1000, 50)));
    assert_eq!(ws.resize(99, 1, 1), Err(WindowError::NotFound));
    assert_eq!(ws.set_min_size(99, 1, 1), Err(WindowError::NotFound));
}

#[test]
fn position_is_saved_and_restored() {
    let mut ws = WindowService::new();
    let id = ws.create("A", 640, 480).unwrap();
    let mut storage = PluginStorage::new("@a/p");
    ws.save_position(id, &mut storage).unwrap();
    assert_eq!(
        storage.get("window_pos_1").map(|s| s.as_str()),
        Some("{\"height\":480,\"width\":640,\"x\":100,\"y\":100}")
    );
    ws.restore_position(id, Some(WindowPosition { x: -20, y: 5, width: 10, height: 20 })).unwrap();
    ws.save_position(id, &mut storage).unwrap();
    assert_eq!(
        storage.get("window_pos_1").map(|s| s.as_str()),
        Some("{\"height\":20,\"width\":10,\"x\":-20,\"y\":5}")
    );
    assert_eq!(ws.save_position(7, &mut storage), Err(WindowError::NotFound));
    assert_eq!(ws.restore_position(7, None), Err(WindowError::NotFound));
    assert_eq!(ws.restore_position(id, None), Ok(()));
}

#[test]
fn saved_text_parses_as_the_position() {
    let mut ws = WindowService::new();
    let id = ws.create("A", 3, 4).unwrap();
    let mut storage = PluginStorage::new("p");
    ws.save_position(id, &mut storage).unwrap();
    let v: serde_json::Value = serde_json::from_str(storage.get("window_pos_1").unwrap()).unwrap();
    assert_eq!(serde_json::to_string(&v).unwrap(), *storage.get("window_pos_1").unwrap());
}

#[test]
fn position_refused_by_full_storage() {
    let mut ws = WindowService::new();
    let id = ws.create("A", 640, 480).unwrap();
    let mut storage = PluginStorage::new("p");
    storage.set("big", "x".repeat(STORAGE_QUOTA_BYTES as usize - 20)).unwrap();
    assert_eq!(ws.save_position(id, &mut storage), Err(WindowError::Storage(StorageError::QuotaExceeded)));
    assert!(storage.get("window_pos_1").is_none());
}
