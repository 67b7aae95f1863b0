use keet::playlist::{
    build_playlist, dedup_tracks, extensions_of, is_playlist_path, keet_config_dir, m3u_entries,
    m3u_paths, m3u_text, names_playlist, number_paths, parse_m3u, place_of, playlist_from,
    rescan_playlist, rescan_sources, rescan_with, save_m3u, save_path, shuffle_seed,
    shuffle_tracks, shuffle_tracks_from, sort_by_path, track_paths, tracks_from, PlaylistError,
    Source,
};
use keet::track::{
    is_supported_media_extension, media_kind_for_extension, media_kind_for_path, MediaKind, Track,
};

fn track(path: &str) -> Track {
    Track::new(path.to_string())
}

fn tracks(paths: &[&str]) -> Vec<Track> {
    paths.iter().map(|p| track(p)).collect()
}

fn strings(list: &[&str]) -> Vec<String> {
    list.iter().map(|p| p.to_string()).collect()
}

fn paths(list: &[Track]) -> Vec<&str> {
    list.iter().map(|t| t.path.as_str()).collect()
}

#[test]
fn extensions_tell_the_kind() {
    assert_eq!(media_kind_for_path("a/b.MKV"), MediaKind::Video);
    assert_eq!(media_kind_for_path("a/b.flac"), MediaKind::Audio);
    assert_eq!(media_kind_for_path("a/mkv"), MediaKind::Audio);
    assert_eq!(media_kind_for_path("a/.mkv"), MediaKind::Audio);
    assert_eq!(media_kind_for_extension(Some("Mp4".to_string())), MediaKind::Video);
    assert_eq!(media_kind_for_extension(None), MediaKind::Audio);
    assert_eq!(track("x.webm").kind, MediaKind::Video);
}

#[test]
fn supported_extensions() {
    for e in ["mp3", "FLAC", "wav", "ogg", "aac", "m4a", "aiff", "aif", "mp4", "mkv", "WebM"] {
        assert!(is_supported_media_extension(e), "{e}");
    }
    for e in ["txt", "", "mp33", "jpg", "m3u"] {
        assert!(!is_supported_media_extension(e), "{e}");
    }
}

#[test]
fn shuffling_follows_the_seed() {
    let mut a = tracks(&["1.mp3", "2.mp3", "3.mp3", "4.mp3", "5.mp3"]);
    let mut b = a.clone();
    shuffle_tracks_from(&mut a, 42);
    shuffle_tracks_from(&mut b, 42);
    assert_eq!(a, b);
    let mut expected = vec!["1.mp3", "2.mp3", "3.mp3", "4.mp3", "5.mp3"];
    let mut rng: u64 = 42;
    for i in (1..expected.len()).rev() {
        rng = rng.wrapping_mul(6364136223846793005).wrapping_add(1);
        expected.swap(i, rng as usize % (i + 1));
    }
    assert_eq!(paths(&a), expected);
}

#[test]
fn shuffling_keeps_every_track() {
    let mut a = tracks(&["1.mp3", "2.mp3", "3.mp3", "3.mp3"]);
    shuffle_tracks(&mut a);
    let mut p = paths(&a);
    p.sort();
    assert_eq!(p, vec!["1.mp3", "2.mp3", "3.mp3", "3.mp3"]);
    let mut none: Vec<Track> = Vec::new();
    shuffle_tracks(&mut none);
    assert!(none.is_empty());
}

#[test]
fn seeds_come_from_the_clock() {
    assert_eq!(shuffle_seed(None), 12345);
    assert_eq!(shuffle_seed(Some(7)), 7);
    assert_eq!(shuffle_seed(Some((1u128 << 64) + 9)), 9);
}

#[test]
fn the_first_of_each_key_stays() {
    let list = tracks(&["a.mp3", "b.mp3", "c.mp3"]);
    let kept = dedup_tracks(&list, &strings(&["/x", "/y", "/x"]));
    assert_eq!(paths(&kept), vec!["a.mp3", "b.mp3"]);
    let again = dedup_tracks(&kept, &strings(&["/x", "/y"]));
    assert_eq!(again, kept);
}

#[test]
fn m3u_lines() {
    let text = "#EXTM3U\r\n\n  a.mp3  \n#EXTINF:1,x\nsub/b.flac\n";
    assert_eq!(m3u_entries(text), strings(&["a.mp3", "sub/b.flac"]));
    assert!(m3u_entries("").is_empty());
    assert_eq!(m3u_entries("last.mp3"), strings(&["last.mp3"]));
}

#[test]
fn m3u_round_trip() {
    let list = tracks(&["/music/a.mp3", "b c.flac", "日本.ogg"]);
    let text = m3u_text(&list);
    assert_eq!(text, "#EXTM3U\n/music/a.mp3\nb c.flac\n日本.ogg\n");
    assert_eq!(m3u_entries(&text), track_paths(&list));
    assert_eq!(m3u_text(&Vec::new()), "#EXTM3U\n");
}

#[test]
fn m3u_paths_are_taken_from_the_list() {
    let got = m3u_paths("lists/mine.m3u", "a.mp3\n/abs/b.mp3\n");
    let sep = std::path::MAIN_SEPARATOR;
    assert_eq!(got, vec![format!("lists{sep}a.mp3"), "/abs/b.mp3".to_string()]);
    assert_eq!(m3u_paths("mine.m3u", "a.mp3\n"), strings(&["a.mp3"]));
    assert_eq!(m3u_paths("/", "a.mp3\n"), vec![format!(".{sep}a.mp3")]);
}

#[test]
fn playlist_files_are_known_by_extension() {
    assert!(is_playlist_path("a/b.M3U8"));
    assert!(is_playlist_path("b.m3u"));
    assert!(!is_playlist_path("m3u"));
    assert!(names_playlist(&Some("M3u".to_string())));
    assert!(!names_playlist(&None));
    assert!(!names_playlist(&Some("mp3".to_string())));
}

#[test]
fn folders_are_sorted_by_components() {
    let list = tracks(&["m/b.mp3", "m/a b.mp3", "m/a/z.mp3", "m/a.mp3"]);
    let sorted = sort_by_path(&list);
    assert_eq!(paths(&sorted), vec!["m/a/z.mp3", "m/a b.mp3", "m/a.mp3", "m/b.mp3"]);
}

#[test]
fn a_folder_gives_its_media_in_order() {
    let source = Source::Folder(strings(&["m/b.mp3", "m/cover.jpg", "m/a.MKV", "m/noext"]));
    let list = build_playlist(&source, false).unwrap();
    assert_eq!(paths(&list), vec!["m/a.MKV", "m/b.mp3"]);
    assert_eq!(list[0].kind, MediaKind::Video);
    let mut shuffled = paths(&build_playlist(&source, true).unwrap())
        .iter()
        .map(|s| s.to_string())
        .collect::<Vec<String>>();
    shuffled.sort();
    assert_eq!(shuffled, strings(&["m/a.MKV", "m/b.mp3"]));
}

#[test]
fn a_single_file_is_played_whatever_it_is() {
    let list = build_playlist(&Source::File("notes.txt".to_string()), false).unwrap();
    assert_eq!(paths(&list), vec!["notes.txt"]);
    assert_eq!(list[0].kind, MediaKind::Audio);
}

#[test]
fn a_list_keeps_its_order_and_drops_what_is_not_there() {
    let source = Source::List(
        strings(&["z.mp3", "gone.mp3", "a.mp3", "x.txt"]),
        vec![true, false, true, true],
    );
    let list = build_playlist(&source, false).unwrap();
    assert_eq!(paths(&list), vec!["z.mp3", "a.mp3"]);
}

#[test]
fn nothing_to_play_is_an_error() {
    assert_eq!(build_playlist(&Source::Nothing, false), Err(PlaylistError::NoMedia));
    assert_eq!(
        build_playlist(&Source::Folder(strings(&["a.txt"])), true),
        Err(PlaylistError::NoMedia)
    );
    assert_eq!(
        build_playlist(&Source::List(strings(&["a.mp3"]), vec![false]), false),
        Err(PlaylistError::NoMediaInPlaylist)
    );
    assert_eq!(PlaylistError::NoMedia.message(), "No audio or video files found");
    assert_eq!(
        PlaylistError::NoMediaInPlaylist.message(),
        "No audio or video files found in playlist"
    );
}

#[test]
fn a_seed_shuffles_what_was_sorted() {
    let source = Source::Folder(strings(&["c.mp3", "a.mp3", "b.mp3"]));
    let exts = extensions_of(&strings(&["c.mp3", "a.mp3", "b.mp3"]));
    let got = playlist_from(&source, &exts, Some(5)).unwrap();
    let mut expected = tracks(&["a.mp3", "b.mp3", "c.mp3"]);
    shuffle_tracks_from(&mut expected, 5);
    assert_eq!(got, expected);
    assert_eq!(
        tracks_from(&strings(&["a.mp3"]), &vec![None], &vec![true]),
        Vec::<Track>::new()
    );
}

#[test]
fn where_playlists_are_saved() {
    let text = |s: &str| Some(s.to_string());
    assert_eq!(save_path(false, "dir/list.m3u8", None), text("dir/list.m3u8"));
    assert_eq!(save_path(false, "dir/list.txt", None), text("dir/list.m3u"));
    assert_eq!(save_path(false, "dir/list", None), text("dir/list.m3u"));
    assert_eq!(save_path(false, "list", None), None);
    assert_eq!(save_path(false, "list", text("cfg")), text("cfg/playlists/list.m3u"));
    assert_eq!(save_path(false, "list.m3u8", text("cfg/")), text("cfg/playlists/list.m3u8"));
    assert_eq!(save_path(true, "list", text("C:\\cfg")), text("C:\\cfg\\playlists\\list.m3u"));
    assert_eq!(save_path(true, "d:list", text("C:\\cfg")), text("d:list.m3u"));
    assert_eq!(save_path(false, "d:list", text("/c")), text("/c/playlists/d:list.m3u"));
    let home = keet_config_dir(false, text("/home/u"));
    assert_eq!(
        save_path(false, "my list", home),
        text("/home/u/.config/keet/playlists/my list.m3u")
    );
}

#[test]
fn the_configuration_folder() {
    let text = |s: &str| Some(s.to_string());
    assert_eq!(keet_config_dir(false, None), None);
    assert_eq!(keet_config_dir(false, text("/home/u")), text("/home/u/.config/keet"));
    assert_eq!(keet_config_dir(false, text("/")), text("/.config/keet"));
    assert_eq!(keet_config_dir(true, text("C:\\data")), text("C:\\data\\keet"));
    assert_eq!(keet_config_dir(true, text("C:")), text("C:keet"));
    assert_eq!(keet_config_dir(true, text("C:\\")), text("C:\\keet"));
    let std_join = std::path::Path::new("/home/u").join(".config").join("keet");
    if std::path::MAIN_SEPARATOR == '/' {
        assert_eq!(keet_config_dir(false, text("/home/u")), text(std_join.to_str().unwrap()));
    }
}

#[test]
fn equal_paths_get_equal_numbers() {
    let n = number_paths(&strings(&["a/b", "a//b", "a/c", "./a", "a/./b"]));
    assert_eq!(n, vec![0, 0, 2, 3, 0]);
}

#[test]
fn a_rescan_adds_and_removes() {
    let mut list = tracks(&["m/a.mp3", "m/b.mp3", "m/c.mp3"]);
    let fresh = tracks(&["m/a.mp3", "m/d.mp3"]);
    let counts = rescan_playlist(&fresh, &mut list, Some("m/c.mp3"));
    assert_eq!(paths(&list), vec!["m/a.mp3", "m/c.mp3", "m/d.mp3"]);
    assert_eq!(counts, (1, 2));
}

#[test]
fn a_rescan_without_changes_settles() {
    let mut list = tracks(&["m/b.mp3", "m/a.mp3"]);
    let before = list.clone();
    let counts = rescan_playlist(&tracks(&["m/a.mp3", "m/b.mp3"]), &mut list, None);
    assert_eq!(list, before);
    assert_eq!(counts, (0, 0));
}

#[test]
fn rescans_compare_by_number() {
    let mut list = tracks(&["x.mp3", "y.mp3"]);
    let fresh = tracks(&["z.mp3"]);
    let r = rescan_with(&fresh, &vec![7], &mut list, &vec![7, 8], Some(8));
    assert_eq!(paths(&list), vec!["x.mp3", "y.mp3"]);
    assert_eq!(r, (0, 1));
}

#[test]
fn rescans_of_several_sources() {
    let mut list = tracks(&["m/a.mp3", "m/gone.mp3", "n/c.mp3"]);
    let fresh = vec![
        Some(tracks(&["m/a.mp3", "m/b.mp3"])),
        Some(tracks(&["n/c.mp3", "m/b.mp3", "n/d.mp3"])),
    ];
    let r = rescan_sources(&strings(&["m", "n"]), &fresh, &mut list, Some("m/a.mp3"));
    assert_eq!(paths(&list), vec!["m/a.mp3", "n/c.mp3", "m/b.mp3", "n/d.mp3"]);
    assert_eq!(r, (2, 1, false));
}

#[test]
fn unchanged_sources_change_nothing() {
    let mut list = tracks(&["n/c.mp3", "m/a.mp3", "m/b.mp3"]);
    let before = list.clone();
    let fresh = vec![Some(tracks(&["m/a.mp3", "m/b.mp3"])), Some(tracks(&["n/c.mp3"]))];
    let sources = strings(&["m", "n"]);
    assert_eq!(rescan_sources(&sources, &fresh, &mut list, Some("n/c.mp3")), (0, 0, false));
    assert_eq!(list, before);
}

#[test]
fn a_source_that_fails_keeps_its_own() {
    let start = ["m/a.mp3", "m/b.mp3", "x/d.mp3", "xy/e.mp3"];
    let fresh = || vec![Some(tracks(&["m/a.mp3", "m/c.mp3"])), None];
    let mut list = tracks(&start);
    assert_eq!(rescan_sources(&strings(&["m", "x"]), &fresh(), &mut list, None), (1, 2, true));
    assert_eq!(paths(&list), vec!["m/a.mp3", "x/d.mp3", "m/c.mp3"]);
    let mut list = tracks(&start);
    let sources = strings(&["m", "lists/mine.m3u"]);
    assert_eq!(rescan_sources(&sources, &fresh(), &mut list, None), (1, 0, true));
    assert_eq!(list.len(), 5);
    let mut list = tracks(&start);
    assert_eq!(rescan_sources(&strings(&["q"]), &vec![None], &mut list, None), (0, 0, true));
    assert_eq!(paths(&list), start);
}

#[test]
fn a_second_rescan_settles() {
    let mut list = tracks(&["m/a.mp3", "m/b.mp3"]);
    let fresh = tracks(&["m/c.mp3"]);
    assert_eq!(rescan_playlist(&fresh, &mut list, Some("m/b.mp3")), (1, 2));
    let mid = list.clone();
    assert_eq!(rescan_playlist(&fresh, &mut list, Some("m/b.mp3")), (0, 1));
    assert_eq!(list, mid);
}

#[test]
fn odd_paths_are_sorted_as_the_system_does() {
    let list = tracks(&[
        "m/d.mp3", "m\\x.mp3", "m/b.mp3", "c:z.mp3", "m/a.mp3", "m/c: d.mp3", "m//b.mp3",
        "a\\y.mp3", "//s/t.mp3", "m/./b.mp3",
    ]);
    let mut expected = list.clone();
    expected.sort_by(|a, b| std::path::Path::new(&a.path).cmp(std::path::Path::new(&b.path)));
    assert_eq!(paths(&sort_by_path(&list)), paths(&expected));
}

#[test]
fn numbers_tell_odd_paths_apart() {
    let n = number_paths(&strings(&["m/a: b", "c:x", "m\\a", "m//a: b", "c:x", "m\\a", "//s/a"]));
    assert_eq!(n, vec![0, 1, 2, 0, 1, 2, 6]);
}

#[test]
fn playlists_beside_odd_names() {
    let list = tracks(&["/m/a\\b.mp3", "/m/Suite: 1.mp3"]);
    let saved = save_m3u(&list, false, "/lists/my: list", None).unwrap();
    assert_eq!(saved.path, "/lists/my: list.m3u");
    assert_eq!(parse_m3u(&saved.path, &saved.content, |_: &str| true), Ok(list));
    assert!(is_playlist_path("/m/a: b.M3U8"));
}

#[test]
fn tracks_are_found_by_path() {
    let list = tracks(&["m/a.mp3", "m//b.mp3"]);
    assert_eq!(place_of(&list, "m/b.mp3"), Some(1));
    assert_eq!(place_of(&list, "m/c.mp3"), None);
}

#[test]
fn playlist_files_are_read() {
    let text = "#EXTM3U\n/m/b.mp3\n/m/gone.mp3\n/m/a.flac\n/m/notes.txt\n";
    let there = |p: &str| p != "/m/gone.mp3";
    let list = parse_m3u("/lists/mine.m3u", text, there).unwrap();
    assert_eq!(paths(&list), vec!["/m/b.mp3", "/m/a.flac"]);
    assert_eq!(
        parse_m3u("/lists/mine.m3u", text, |_: &str| false),
        Err(PlaylistError::NoMediaInPlaylist)
    );
}

#[test]
fn saved_playlists_are_read_back() {
    let list = tracks(&["/m/b.mp3", "/m/a.flac"]);
    let saved = save_m3u(&list, false, "/lists/mine", None).unwrap();
    assert_eq!(saved.path, "/lists/mine.m3u");
    assert_eq!(saved.content, "#EXTM3U\n/m/b.mp3\n/m/a.flac\n");
    assert_eq!(parse_m3u(&saved.path, &saved.content, |_: &str| true), Ok(list));
    let refused = save_m3u(&Vec::new(), false, "mine", None);
    assert!(matches!(refused, Err(PlaylistError::NoConfigDir)));
    assert_eq!(PlaylistError::NoConfigDir.message(), "Could not determine config directory");
}

#[test]
fn files_on_shares() {
    let list = tracks(&["//nas/music/a.mp3", "//nas/music/b.mkv", "//nas/other/a.mp3"]);
    assert_eq!(list[1].kind, MediaKind::Video);
    assert_eq!(list[0].kind, MediaKind::Audio);
    let saved = save_m3u(&list, false, "/lists/shares", None).unwrap();
    assert_eq!(parse_m3u(&saved.path, &saved.content, |_: &str| true), Ok(list.clone()));
    let n = number_paths(&track_paths(&list));
    assert_eq!(n, vec![0, 1, 2]);
    let folder = Source::Folder(track_paths(&list));
    assert_eq!(paths(&build_playlist(&folder, false).unwrap()).len(), 3);
    let beside = m3u_paths("//nas/music/list.m3u", "a.mp3\n/x/b.mp3\n");
    assert_eq!(beside, ["//nas/music/a.mp3", "/x/b.mp3"]);
}

#[test]
fn names_with_backslashes() {
    if std::path::MAIN_SEPARATOR == '/' {
        let saved = save_path(false, "dir\\list.txt", None);
        assert_eq!(saved, Some("dir\\list.m3u".to_string()));
        assert_eq!(m3u_paths("m/l\\x.m3u", "a.mp3\n\\\\s\\b.mp3"), ["m/a.mp3", "m/\\\\s\\b.mp3"]);
    }
}
