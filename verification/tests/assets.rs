use kiacha_kernel::embed::AssetStore;

#[test]
fn test_mime_type_detection() {
    assert_eq!(AssetStore::guess_mime_type("file.html"), "text/html; charset=utf-8");
    assert_eq!(AssetStore::guess_mime_type("file.css"), "text/css; charset=utf-8");
    assert_eq!(AssetStore::guess_mime_type("file.js"), "application/javascript; charset=utf-8");
    assert_eq!(AssetStore::guess_mime_type("file.png"), "image/png");
    assert_eq!(AssetStore::guess_mime_type("file.wasm"), "application/wasm");
}

#[test]
fn mime_type_edge_cases() {
    assert_eq!(AssetStore::guess_mime_type("file"), "application/octet-stream");
    assert_eq!(AssetStore::guess_mime_type("file.zzz"), "application/octet-stream");
    assert_eq!(AssetStore::guess_mime_type(".hidden"), "application/octet-stream");
    assert_eq!(AssetStore::guess_mime_type("dir/.hidden"), "application/octet-stream");
    assert_eq!(AssetStore::guess_mime_type("a/b/c.jpeg"), "image/jpeg");
    assert_eq!(AssetStore::guess_mime_type("a/b/c.jpg"), "image/jpeg");
    assert_eq!(AssetStore::guess_mime_type("notes.md"), "text/markdown; charset=utf-8");
    assert_eq!(AssetStore::guess_mime_type(""), "application/octet-stream");
    assert_eq!(AssetStore::guess_mime_type("archive.tar.gz"), "application/octet-stream");
    assert_eq!(AssetStore::guess_mime_type("photo.backup.png"), "image/png");
}

#[test]
fn store_round_trip() {
    let mut store = AssetStore::new();
    assert!(store.get("index.html").is_none());
    assert_eq!(store.get_or_404("index.html"), b"404 Not Found".to_vec());

    store.add_asset(
        "index.html",
        b"<html></html>".to_vec(),
        "text/html; charset=utf-8".to_string(),
    );
    let asset = store.get("index.html").expect("stored asset");
    assert_eq!(asset.path, "index.html");
    assert_eq!(asset.content, b"<html></html>".to_vec());
    assert_eq!(store.get_or_404("index.html"), b"<html></html>".to_vec());

    // Leading slashes are ignored on lookup, as on registration.
    assert!(store.get("/index.html").is_some());
    assert!(store.get("//index.html").is_some());
}

#[test]
fn store_replaces_same_path() {
    let mut store = AssetStore::new();
    store.add_asset("a.txt", b"one".to_vec(), "text/plain; charset=utf-8".to_string());
    store.add_asset("/a.txt", b"two".to_vec(), "text/plain; charset=utf-8".to_string());
    assert_eq!(store.list_assets(), vec!["a.txt".to_string()]);
    assert_eq!(store.get_or_404("a.txt"), b"two".to_vec());
}

#[test]
fn store_mime_lookup() {
    let mut store = AssetStore::new();
    store.add_asset("data.bin", b"x".to_vec(), "application/x-custom".to_string());
    // A stored asset answers with its registered type.
    assert_eq!(store.get_mime_type("data.bin"), "application/x-custom");
    // An unknown path falls back to the extension guess.
    assert_eq!(store.get_mime_type("missing.css"), "text/css; charset=utf-8");
}

#[test]
fn list_assets_in_insertion_order() {
    let mut store = AssetStore::new();
    store.add_asset("one.txt", b"1".to_vec(), "text/plain; charset=utf-8".to_string());
    store.add_asset("two.txt", b"2".to_vec(), "text/plain; charset=utf-8".to_string());
    store.add_asset("three.txt", b"3".to_vec(), "text/plain; charset=utf-8".to_string());
    assert_eq!(
        store.list_assets(),
        vec!["one.txt".to_string(), "two.txt".to_string(), "three.txt".to_string()]
    );
}
