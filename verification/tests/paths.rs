//! Paths, sorted maps, assets and icons.

use ocean_gui::paths::{
    contains_path, file_name, is_markdown_path, is_same_path, is_within, join,
    normalize_markdown_target, parent, relative_to, stem,
};
use ocean_gui::shell::assets::{bundle_assets_dir, AssetRead, ShellAssets};
use ocean_gui::shell::icons::ShellIcon;
use ocean_gui::shell::vault_index::{new_wikilink_path, wikilink_at_column, wikilink_title};
use ocean_gui::sorted_map::SortedMap;

fn own(s: &str) -> Option<String> {
    Some(String::from(s))
}

#[test]
fn names_parents_and_stems() {
    assert_eq!(file_name("/vault/a.md"), own("a.md"));
    assert_eq!(file_name("/"), None);
    assert_eq!(file_name("a/.."), None);
    assert_eq!(parent("/vault/a.md"), own("/vault"));
    assert_eq!(parent("/vault"), own("/"));
    assert_eq!(parent("/"), None);
    assert_eq!(parent("a.md"), own(""));
    assert_eq!(parent(""), None);
    assert_eq!(stem("a.b.md"), "a.b");
    assert_eq!(stem(".hidden"), ".hidden");
    assert_eq!(stem("plain"), "plain");
}

#[test]
fn notes_are_told_by_their_extension() {
    for path in ["a.md", "/v/A.MD", "b.markdown", "c.MarkDown"] {
        assert!(is_markdown_path(path), "{path}");
    }
    for path in ["a.txt", "md", ".md", "a.md/b", "a.mdx"] {
        assert!(!is_markdown_path(path), "{path}");
    }
    assert_eq!(normalize_markdown_target("/v/a"), "/v/a.md");
    assert_eq!(normalize_markdown_target("/v/a.txt"), "/v/a.md");
    assert_eq!(normalize_markdown_target("/v/a.MD"), "/v/a.MD");
    assert_eq!(normalize_markdown_target("/"), "/");
}

#[test]
fn a_path_lies_in_a_directory_by_whole_names() {
    assert!(is_within("/vault/a", "/vault"));
    assert!(is_within("/vault", "/vault"));
    assert!(is_within("/vault", "/"));
    assert!(!is_within("/vaulted/a", "/vault"));
    assert!(!is_within("/", "/vault"));
    assert_eq!(relative_to("/vault/a/b", "/vault"), "a/b");
    assert_eq!(relative_to("/vault", "/vault"), "");
    assert_eq!(relative_to("/other", "/vault"), "/other");
    assert_eq!(relative_to("/a", "/"), "a");
    assert_eq!(join("/vault", "a"), "/vault/a");
    assert_eq!(join("/", "a"), "/a");
    assert_eq!(join("", "a"), "a");
    assert_eq!(join("/vault", "/a"), "/a");
}

#[test]
fn links_name_new_notes_of_the_vault() {
    let active = own("/vault/daily/today.md");
    assert_eq!(
        new_wikilink_path("/vault", &active, "Follow Up|later"),
        own("/vault/daily/Follow Up.md")
    );
    assert_eq!(new_wikilink_path("/vault", &None, "sub/Note"), own("/vault/sub/Note.md"));
    for bad in ["", " | x", "/abs", "../up", "a/../b", ".."] {
        assert_eq!(new_wikilink_path("/vault", &active, bad), None, "{bad}");
    }
    assert_eq!(wikilink_title("sub/Note|x"), own("Note"));
    assert_eq!(wikilink_title(""), None);
    assert_eq!(wikilink_at_column("a [[B]] c [[D|e]]", 2), own("B"));
    assert_eq!(wikilink_at_column("a [[B]] c [[D|e]]", 6), own("B"));
    assert_eq!(wikilink_at_column("a [[B]] c [[D|e]]", 7), None);
    assert_eq!(wikilink_at_column("a [[B]] c [[D|e]]", 14), own("D"));
}

#[test]
fn sorted_maps_keep_their_keys_in_order() {
    let mut map: SortedMap<u32> = SortedMap::new();
    for (key, value) in [("c", 3), ("a", 1), ("b", 2), ("a", 10)] {
        map.insert(String::from(key), value);
    }
    assert_eq!(map.len(), 3);
    let keys: Vec<&str> = (0..map.len()).map(|i| map.key_at(i)).collect();
    assert_eq!(keys, vec!["a", "b", "c"]);
    assert_eq!(map.get("a"), Some(&10));
    assert!(map.contains_key("c"));
    map.remove("b");
    assert_eq!(map.get("b"), None);
    assert_eq!(map.len(), 2);
}

#[test]
fn assets_come_from_the_first_directory_that_has_them() {
    assert_eq!(
        bundle_assets_dir("/App/Contents/MacOS/ocean"),
        own("/App/Contents/Resources/assets")
    );
    assert_eq!(bundle_assets_dir("ocean"), None);

    let assets = ShellAssets::new(own("/bundle"), "/project");
    assert_eq!(assets.candidates("a.svg"), vec!["/bundle/a.svg", "/project/assets/a.svg"]);
    assert_eq!(ShellAssets::new(None, "/project").bases, vec!["/project/assets"]);

    let found = || AssetRead::Found(vec![1, 2]);
    assert_eq!(ShellAssets::load(vec![AssetRead::Missing, found()]), Ok(Some(vec![1, 2])));
    assert_eq!(ShellAssets::load(vec![AssetRead::Missing]), Ok(None));
    assert_eq!(
        ShellAssets::load(vec![AssetRead::Failed(String::from("denied")), found()]),
        Err(String::from("denied"))
    );

    assert_eq!(assets.list_base(&vec![false, true]), "/project/assets");
    assert_eq!(assets.list_base(&vec![false, false]), "/bundle");
}

#[test]
fn icons_have_a_picture() {
    assert_eq!(ShellIcon::Vault.path(), "icons/ocean-gui/book.svg");
    assert_eq!(ShellIcon::Search.path(), "icons/ocean-gui/tool_search.svg");
    assert_eq!(ShellIcon::Report.path(), ShellIcon::Inspector.path());
}

#[test]
fn slashes_and_points_between_names_do_not_matter() {
    for (path, name) in [("notes/", "notes"), ("a/b/.", "b"), ("a//b///", "b"), ("./x", "x")] {
        assert_eq!(file_name(path), own(name), "{path}");
        assert_eq!(
            std::path::Path::new(path).file_name().and_then(|n| n.to_str()),
            Some(name),
            "{path}"
        );
    }
    for path in [
        "a//b", "a/./b", "//a", "///a", "./a", ".", "/", "", "a", "a/b/", "/.", "a/..", "..", "/a/b",
        "a//b/c", "./.", "a/.//", ".//a",
    ] {
        let std_path = std::path::Path::new(path);
        let wanted = std_path.parent().and_then(|p| p.to_str()).map(String::from);
        assert_eq!(parent(path), wanted, "{path}");
        let name = std_path.file_name().and_then(|n| n.to_str()).map(String::from);
        assert_eq!(file_name(path), name, "{path}");
        for other in ["a", "a/", "/", "", ".", "a/b", "/a", "./a", "a/./b", "b"] {
            let std_other = std::path::Path::new(other);
            assert_eq!(is_within(path, other), std_path.starts_with(std_other), "{path} {other}");
            assert_eq!(is_same_path(path, other), std_path == std_other, "{path} {other}");
            let below = std_path.strip_prefix(std_other).unwrap_or(std_path);
            assert_eq!(relative_to(path, other), below.to_str().unwrap(), "{path} {other}");
            assert_eq!(join(path, other), std_path.join(std_other).to_str().unwrap());
        }
    }
    assert!(contains_path(&vec![String::from("/v/a/")], "/v//a"));
    assert!(!contains_path(&vec![String::from("/v/a")], "/v/b"));
}

#[test]
fn a_note_path_drops_what_stands_behind_the_name() {
    for path in ["notes/", "a.txt/", "a.b/.", "x/y.longext//", "/", "a/..", ".hidden", "a.md/"] {
        let mut wanted = std::path::PathBuf::from(path);
        if !is_markdown_path(path) {
            wanted.set_extension("md");
        }
        assert_eq!(normalize_markdown_target(path), wanted.to_str().unwrap(), "{path}");
    }
    assert_eq!(normalize_markdown_target("notes/"), "notes.md");
}
