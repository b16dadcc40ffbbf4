use pufferfish::{Assets, ResourceManager, ThreadedFileSystem};

#[test]
fn loader_registry() {
    let mut assets = Assets::new();
    assets.add_loader(7, vec!["png".to_string()]);
    assets.add_loader(8, vec!["ttf".to_string(), "otf".to_string()]);
    assert!(assets.has_loader(7, &"png".to_string()));
    assert!(assets.has_loader(8, &"otf".to_string()));
    assert!(!assets.has_loader(7, &"ttf".to_string()));
    assert!(!assets.has_loader(9, &"png".to_string()));
}

#[test]
fn load_allocates_once_and_caches_the_handle() {
    let mut assets = Assets::new();
    let mut rm: ResourceManager<u32> = ResourceManager::new();
    assets.add_loader(7, vec!["png".to_string()]);
    let (h1, started1) = assets.load(&mut rm, 7, "player.png".to_string(), "png".to_string());
    assert!(started1);
    assert_eq!(assets.task_count(), 1);
    let (h2, started2) = assets.load(&mut rm, 7, "player.png".to_string(), "png".to_string());
    assert!(!started2);
    assert_eq!(h1, h2);
    assert_eq!(assets.task_count(), 1);
    let (h3, started3) = assets.load(&mut rm, 7, "enemy.png".to_string(), "png".to_string());
    assert!(started3);
    assert_ne!(h1, h3);
    assert_eq!(assets.task_count(), 2);
}

#[test]
fn finishing_a_task_stores_the_loaded_value() {
    let mut assets = Assets::new();
    let mut rm: ResourceManager<u32> = ResourceManager::new();
    assets.add_loader(7, vec!["png".to_string()]);
    let (h, started) = assets.load(&mut rm, 7, "player.png".to_string(), "png".to_string());
    assert!(started);
    assert!(rm.get(h).is_none());
    {
        let task = assets.task(0);
        assert_eq!(task.path, "player.png");
        assert_eq!(task.extension, "png");
        assert_eq!(task.handle, h);
    }
    assets.finish_task(&mut rm, 0, 99);
    assert_eq!(assets.task_count(), 0);
    let r = rm.get(h).expect("the asset was loaded");
    assert_eq!(*rm.read(&r), 99);
    rm.release(r);
}

#[test]
fn threaded_file_system_resolves_paths() {
    let fs = ThreadedFileSystem::new();
    assert_eq!(fs.root(), "");
    assert_eq!(fs.full_path(&"a.png".to_string()), "a.png");
    let fs = ThreadedFileSystem::new_with_root("assets".to_string());
    assert_eq!(fs.root(), "assets");
    assert_eq!(fs.full_path(&"a.png".to_string()), "assets/a.png");
}
