use winepath::cache::drive_link_path;
use winepath::config::{default_wineprefix, resolve_prefix};
use winepath::drive::{drive_to_index, index_to_drive};
use winepath::wine_path::stringify_path;
use winepath::{Component, DriveCache, NativePath, WineConfig, WinePath, WinePathError};

/// An absolute native path from its `/`-separated text.
fn native(text: &str) -> NativePath {
    let mut path = NativePath::new();
    path.push(Component::RootDir);
    for part in text.split('/').filter(|part| !part.is_empty()) {
        path.push_normal(part);
    }
    path
}

fn table(mappings: &[(char, &str)]) -> Vec<Option<NativePath>> {
    let mut resolved: Vec<Option<NativePath>> = (0..26).map(|_| None).collect();
    for (letter, dir) in mappings {
        resolved[drive_to_index(*letter)] = Some(native(dir));
    }
    resolved
}

fn config(mappings: &[(char, &str)]) -> WineConfig {
    WineConfig::from_prefix(native("/home/u/.wine"), table(mappings))
}

fn standard() -> WineConfig {
    config(&[('c', "/home/u/.wine/drive_c"), ('z', "/")])
}

fn wine(config: &WineConfig, path: &str) -> Result<String, WinePathError> {
    config.to_wine_path(&native(path)).map(|w| w.0)
}

#[test]
fn native_under_drive_c() {
    let path = wine(&standard(), "/home/u/.wine/drive_c/Program Files/CoolApp/start.exe");
    assert_eq!(path, Ok(r"c:\Program Files\CoolApp\start.exe".to_string()));
}

#[test]
fn native_under_root_drive() {
    let path = wine(&standard(), "/home/username/some-path/some-file");
    assert_eq!(path, Ok(r"z:\home\username\some-path\some-file".to_string()));
}

#[test]
fn round_trip_under_mapped_drive() {
    let config = standard();
    for text in ["/home/u/.wine/drive_c/windows/system32/ddraw.dll", "/etc/hosts", "/home/u/.wine/drive_c/a b/c"] {
        let original = native(text);
        let wine_path = config.to_wine_path(&original).unwrap();
        let back = config.to_native_path(wine_path.as_str()).unwrap();
        assert_eq!(back, original);
    }
}

#[test]
fn drive_directory_renders_bare_prefix() {
    assert_eq!(wine(&standard(), "/home/u/.wine/drive_c"), Ok("c:".to_string()));
    assert_eq!(wine(&standard(), "/"), Ok("z:".to_string()));
}

#[test]
fn first_match_in_ascending_order() {
    let config = config(&[('c', "/home/u/.wine/drive_c"), ('d', "/home/u/.wine/drive_c/nested")]);
    assert_eq!(wine(&config, "/home/u/.wine/drive_c/nested/x"), Ok(r"c:\nested\x".to_string()));
}

#[test]
fn later_letter_matches_when_earlier_does_not() {
    let config = config(&[('c', "/home/u/.wine/drive_c"), ('d', "/mnt/data")]);
    assert_eq!(wine(&config, "/mnt/data/x/y"), Ok(r"d:\x\y".to_string()));
}

#[test]
fn unmapped_native_path_fails() {
    let config = config(&[('c', "/home/u/.wine/drive_c")]);
    assert_eq!(wine(&config, "/tmp/unrelated"), Err(WinePathError::NoDrive));
}

#[test]
fn sibling_with_common_text_is_not_under_drive() {
    let config = config(&[('c', "/home/u/.wine/drive_c")]);
    assert_eq!(wine(&config, "/home/u/.wine/drive_cx/a"), Err(WinePathError::NoDrive));
}

#[test]
fn unmapped_letter_fails() {
    assert_eq!(standard().to_native_path(r"q:\foo"), Err(WinePathError::NoDrive));
}

#[test]
fn segments_become_components() {
    let path = standard().to_native_path(r"c:\Program Files\CoolApp\start.exe").unwrap();
    assert_eq!(path, native("/home/u/.wine/drive_c/Program Files/CoolApp/start.exe"));
    assert_eq!(path.components.len(), 8);
}

#[test]
fn dot_segments_pass_through() {
    let path = standard().to_native_path(r"c:\a\.\..\b\").unwrap();
    let mut expected = native("/home/u/.wine/drive_c/a");
    expected.push(Component::CurDir);
    expected.push(Component::ParentDir);
    expected.push_normal("b");
    assert_eq!(path, expected);
}

#[test]
fn bare_drive_gives_its_directory() {
    assert_eq!(standard().to_native_path("c:"), Ok(native("/home/u/.wine/drive_c")));
    assert_eq!(standard().to_native_path(r"z:\"), Ok(native("/")));
}

#[test]
fn drive_letters_ignore_case() {
    let config = standard();
    assert_eq!(config.to_native_path(r"C:\x"), config.to_native_path(r"c:\x"));
    assert_eq!(config.to_native_path(r"C:\x"), Ok(native("/home/u/.wine/drive_c/x")));
    let cache = config.drive_cache();
    assert_eq!(cache.get('C'), cache.get('c'));
    assert_eq!(cache.get('Z'), Some(&native("/")));
    assert_eq!(drive_to_index('C'), 2);
    assert_eq!(drive_to_index('c'), 2);
}

#[test]
fn empty_slots_never_match() {
    let cache = DriveCache::from_resolved(table(&[('d', "/mnt/d"), ('b', "/mnt/b")]));
    let letters: Vec<char> = cache.mappings().iter().map(|(letter, _)| *letter).collect();
    assert_eq!(letters, vec!['b', 'd']);
    assert_eq!(cache.mappings()[1].1, &native("/mnt/d"));
    assert_eq!(cache.get('c'), None);
    assert_eq!(cache.find_root(&native("/mnt/c/x")).map(|(i, _)| i), None);
    assert_eq!(cache.find_root(&native("/mnt/d/x")).map(|(i, rest)| (i, rest.components.len())), Some((3, 1)));
}

#[test]
fn short_table_leaves_remaining_slots_empty() {
    let cache = DriveCache::from_resolved(vec![Some(native("/a")), None, Some(native("/c"))]);
    assert_eq!(cache.slot_count(), 26);
    assert_eq!(cache.get('a'), Some(&native("/a")));
    assert_eq!(cache.get('c'), Some(&native("/c")));
    assert_eq!(cache.get('z'), None);
    let long: Vec<Option<NativePath>> = (0..30).map(|_| Some(native("/x"))).collect();
    assert_eq!(DriveCache::from_resolved(long).mappings().len(), 26);
}

#[test]
fn empty_table_maps_nothing() {
    let config = WineConfig::from_prefix(native("/not/a/prefix"), Vec::new());
    assert_eq!(config.drive_cache().mappings().len(), 0);
    assert_eq!(wine(&config, "/"), Err(WinePathError::NoDrive));
    assert_eq!(config.prefix(), &native("/not/a/prefix"));
}

#[test]
fn stringify_renders_every_component() {
    let mut path = NativePath::new();
    path.push(Component::RootDir);
    path.push(Component::CurDir);
    path.push(Component::ParentDir);
    path.push_normal("a");
    assert_eq!(stringify_path("c:", &path), r"c:\\.\..\a");
    assert_eq!(stringify_path("d:", &NativePath::new()), "d:");
}

#[test]
fn find_drive_root_gives_letter_and_rest() {
    let (drive, rest) = standard().find_drive_root(&native("/home/u/.wine/drive_c/x/y")).unwrap();
    assert_eq!(drive, "c:");
    let mut expected = NativePath::new();
    expected.push_normal("x");
    expected.push_normal("y");
    assert_eq!(rest, expected);
}

#[test]
fn drive_link_names() {
    let link = drive_link_path(&native("/home/u/.wine"), 2);
    assert_eq!(link, native("/home/u/.wine/dosdevices/c:"));
    let link = drive_link_path(&native("/p"), 25);
    assert_eq!(link, native("/p/dosdevices/z:"));
}

#[test]
fn letters_and_slots() {
    assert_eq!(index_to_drive(0), 'a');
    assert_eq!(index_to_drive(25), 'z');
    assert_eq!(drive_to_index('A'), 0);
    assert_eq!(drive_to_index('z'), 25);
}

#[test]
fn prefix_selection() {
    assert_eq!(resolve_prefix(Some(native("/w")), Some(native("/home/u"))), Ok(native("/w")));
    assert_eq!(resolve_prefix(None, Some(native("/home/u"))), Ok(native("/home/u/.wine")));
    assert_eq!(resolve_prefix(None, None), Err(WinePathError::PrefixNotFound));
    assert_eq!(default_wineprefix(native("/root")), native("/root/.wine"));
}

#[test]
fn wine_path_from_string() {
    let path = WinePath::from(r"C:\windows\system32\ddraw.dll".to_string());
    assert_eq!(path.as_str(), r"C:\windows\system32\ddraw.dll");
}

#[test]
fn error_messages() {
    assert_eq!(WinePathError::PrefixNotFound.message(), "could not determine wine prefix");
    assert_eq!(WinePathError::NoDrive.message(), "native path is not mapped to a wine drive");
}
