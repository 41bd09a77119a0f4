use fresh_view::decorations::{
    DecorationPath, FileExplorerDecoration, FileExplorerDecorationCache, PathPart,
};

/// A path written with `/` separators; a leading `/` is the root.
fn path(text: &str) -> DecorationPath {
    let mut parts = Vec::new();
    if text.starts_with('/') {
        parts.push(PathPart::Root);
    }
    for piece in text.split('/').filter(|p| !p.is_empty()) {
        parts.push(PathPart::Normal(piece.to_string()));
    }
    DecorationPath { parts }
}

fn decoration(at: &str, symbol: &str, priority: i32) -> FileExplorerDecoration {
    FileExplorerDecoration {
        path: path(at),
        symbol: symbol.to_string(),
        color: [10, 20, 30],
        priority,
    }
}

fn sample_cache() -> FileExplorerDecorationCache {
    FileExplorerDecorationCache::rebuild(
        vec![
            decoration("/proj/src/main.rs", "M", 1),
            decoration("/proj/src/lib.rs", "A", 5),
            decoration("/other/x.rs", "?", 9),
            decoration("/proj/src/main.rs", "U", 1),
            decoration("/proj/README.md", "M", 2),
            decoration("/proj/src/lib.rs", "D", 3),
        ],
        &path("/proj"),
    )
}

#[test]
fn test_direct_keeps_best_per_path() {
    let cache = sample_cache();
    // Equal priority: the later decoration wins.
    let d = cache.direct_for_path(&path("/proj/src/main.rs"), None).expect("decorated");
    assert_eq!(d.symbol, "U");
    // Higher priority wins over a later one.
    let d = cache.direct_for_path(&path("/proj/src/lib.rs"), None).expect("decorated");
    assert_eq!(d.symbol, "A");
    assert_eq!(d.priority, 5);
    assert_eq!(d.color, [10, 20, 30]);
    // Outside the root: dropped.
    assert!(cache.direct_for_path(&path("/other/x.rs"), None).is_none());
    // Folders have no direct decoration.
    assert!(cache.direct_for_path(&path("/proj/src"), None).is_none());
}

#[test]
fn test_bubbled_to_ancestors_within_root() {
    let cache = sample_cache();
    let d = cache.bubbled_for_path(&path("/proj/src"), None).expect("bubbled");
    assert_eq!(d.symbol, "A");
    assert_eq!(d.priority, 5);
    assert_eq!(d.path.parts.len(), 3);
    let d = cache.bubbled_for_path(&path("/proj"), None).expect("bubbled");
    assert_eq!(d.priority, 5);
    // The files themselves carry their own decoration.
    let d = cache.bubbled_for_path(&path("/proj/README.md"), None).expect("bubbled");
    assert_eq!(d.symbol, "M");
    // Nothing above the root.
    assert!(cache.bubbled_for_path(&path("/"), None).is_none());
    assert!(cache.bubbled_for_path(&path("/other"), None).is_none());
}

#[test]
fn test_canonical_path_fallback() {
    let cache = sample_cache();
    let link = path("/link/main.rs");
    let target = path("/proj/src/main.rs");
    assert!(cache.direct_for_path(&link, None).is_none());
    let d = cache.direct_for_path(&link, Some(&target)).expect("found through canonical path");
    assert_eq!(d.symbol, "U");
    let d = cache.bubbled_for_path(&path("/link"), Some(&path("/proj/src"))).expect("bubbled");
    assert_eq!(d.symbol, "A");
    // The path's own entry comes first.
    let d = cache.direct_for_path(&path("/proj/README.md"), Some(&target)).expect("decorated");
    assert_eq!(d.symbol, "M");
}

#[test]
fn test_empty_and_relative_roots() {
    let cache = FileExplorerDecorationCache::new();
    assert!(cache.direct_for_path(&path("/a"), None).is_none());
    let cache = FileExplorerDecorationCache::rebuild(vec![decoration("a/b", "x", 0)], &path(""));
    assert_eq!(cache.direct_for_path(&path("a/b"), None).expect("decorated").symbol, "x");
    assert!(cache.bubbled_for_path(&path("a"), None).is_some());
    // The empty path is the topmost ancestor of a relative path.
    assert!(cache.bubbled_for_path(&path(""), None).is_some());
}

#[test]
fn test_paths_compare_by_component() {
    assert!(path("/a/b").same_as(&path("/a/b")));
    assert!(!path("/a/b").same_as(&path("a/b")));
    assert!(path("/a/b").starts_with(&path("/a")));
    assert!(!path("/ab").starts_with(&path("/a")));
    assert!(PathPart::Root.is_anchor());
    assert!(!PathPart::Normal("a".to_string()).is_anchor());
    assert_eq!(path("/a/b/c").leading(2).parts.len(), 2);
    assert!(path("/a/b/c").leading(2).same_as(&path("/a")));
}

#[test]
fn test_default_cache_is_empty() {
    let cache = FileExplorerDecorationCache::default();
    assert!(cache.direct_for_path(&path("/a"), None).is_none());
    assert!(cache.bubbled_for_path(&path("/"), Some(&path("/a"))).is_none());
}
