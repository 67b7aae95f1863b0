use keet::lyrics::{
    choose_lyrics, lrclib_url, lyrics_step, parse_lrc_timestamp, parse_lyrics, read_reply,
    split_lrc_line, time_key, urlencod, LrcLine, Lyrics, LyricsStep,
};
use keet::json::JsonValue;
use keet::metadata::{
    file_name_text, meta_from, parse_rg_gain_value, parse_rg_peak_value, read_lyrics,
    read_metadata_display, read_metadata_full, rg_gain_text, summarise_tags, CachedMeta,
    MetadataCache, Tag, TagMeaning, TagSummary,
};

fn reader(m: &str, s: &str) -> Option<i64> {
    let m: f64 = m.parse().ok()?;
    let s: f64 = s.parse().ok()?;
    Some(time_key((m * 60.0 + s).to_bits()))
}

fn at(secs: f64) -> i64 {
    time_key(secs.to_bits())
}

fn bits(t: &str) -> Option<u32> {
    t.parse::<f32>().ok().map(|x| x.to_bits())
}

#[test]
fn synced_lyrics_are_sorted_by_time() {
    let l = parse_lyrics("[00:10.50]second\nplain\n[00:01.00] first \n[00:10.50]third", reader);
    assert!(l.is_synced());
    assert_eq!(l.line_count(), 3);
    assert_eq!(l.line_text(0), " first");
    assert_eq!(l.line_text(1), "second");
    assert_eq!(l.line_text(2), "third");
    assert_eq!(l.line_text(3), "");
}

#[test]
fn the_line_that_is_sung() {
    let l = parse_lyrics("[00:01.00]a\n[00:05.00]b", reader);
    assert_eq!(l.current_line(at(0.5)), None);
    assert_eq!(l.current_line(at(1.0)), Some(0));
    assert_eq!(l.current_line(at(4.99)), Some(0));
    assert_eq!(l.current_line(at(5.0)), Some(1));
    assert_eq!(l.current_line(at(500.0)), Some(1));
    assert_eq!(l.current_line(at(-3.0)), None);
}

#[test]
fn plain_lyrics_have_no_current_line() {
    let l = parse_lyrics("one\ntwo", reader);
    assert!(!l.is_synced());
    assert_eq!(l.line_count(), 2);
    assert_eq!(l.line_text(1), "two");
    assert_eq!(l.current_line(at(10.0)), None);
    assert_eq!(Lyrics::Plain(Vec::new()).line_count(), 0);
}

#[test]
fn timestamps() {
    let line: LrcLine = parse_lrc_timestamp("[01:02.50]hi", &reader).unwrap();
    assert_eq!(line.time, at(62.5));
    assert_eq!(line.text, "hi");
    assert!(parse_lrc_timestamp("no stamp", &reader).is_none());
    assert!(parse_lrc_timestamp("[ar:Someone]", &reader).is_none());
    let parts = split_lrc_line("[01:02.50]hi").unwrap();
    assert_eq!((parts.minutes.as_str(), parts.seconds.as_str()), ("01", "02.50"));
}

#[test]
fn times_compare_as_seconds_do() {
    assert!(at(-2.0) < at(-1.0));
    assert!(at(-1.0) < at(0.0));
    assert_eq!(at(0.0), at(-0.0));
    assert!(at(0.25) < at(300.0));
}

#[test]
fn queries_are_encoded() {
    assert_eq!(urlencod("AC/DC & co-1_2.~"), "AC%2FDC%20%26%20co-1_2.~");
    assert_eq!(urlencod("é"), "%C3%A9");
    assert_eq!(urlencod(""), "");
    assert_eq!(
        lrclib_url("A B", "C", Some(61)),
        "https://lrclib.net/api/get?artist_name=A%20B&track_name=C&duration=61"
    );
    assert_eq!(
        lrclib_url("a", "b", None),
        "https://lrclib.net/api/get?artist_name=a&track_name=b"
    );
}

#[test]
fn replies_prefer_synced_lyrics() {
    let body = r#"{"syncedLyrics":"[00:01]x","plainLyrics":"x"}"#;
    assert_eq!(read_reply(200, body), Some("[00:01]x".to_string()));
    assert_eq!(read_reply(404, body), None);
    let plain = r#"{"syncedLyrics":null,"plainLyrics":"x"}"#;
    assert_eq!(read_reply(200, plain), Some("x".to_string()));
    assert_eq!(read_reply(200, r#"{"syncedLyrics":"","plainLyrics":""}"#), None);
    assert_eq!(read_reply(200, "not json"), None);
    assert_eq!(read_reply(200, "[1]"), None);
    assert_eq!(
        choose_lyrics(None, Some(JsonValue::Text("p".to_string()))),
        Some("p".to_string())
    );
    assert_eq!(choose_lyrics(Some(JsonValue::Bool(true)), None), None);
}

fn tag(meaning: TagMeaning, key: &str, text: &str) -> Tag {
    Tag {
        meaning,
        key: key.to_string(),
        text: Some(text.to_string()),
        gain: parse_rg_gain_value(text, bits),
        peak: parse_rg_peak_value(text, bits),
    }
}

#[test]
fn gains_are_read_without_their_unit() {
    assert_eq!(rg_gain_text(" -7.2 dB "), "-7.2");
    assert_eq!(rg_gain_text("-7.2db"), "-7.2");
    assert_eq!(rg_gain_text("3 db"), "3");
    assert_eq!(rg_gain_text("1.5"), "1.5");
    assert_eq!(parse_rg_gain_value("-7.2 dB", bits), Some((-7.2f32).to_bits()));
    assert_eq!(parse_rg_gain_value("loud", bits), None);
    assert_eq!(parse_rg_peak_value(" 0.98 ", bits), Some(0.98f32.to_bits()));
}

#[test]
fn inner_tags_come_first() {
    let inner = vec![
        tag(TagMeaning::Title, "TIT2", "old"),
        tag(TagMeaning::Title, "TIT2", "new"),
        tag(TagMeaning::Other, "REPLAYGAIN_TRACK_GAIN", "-3.5 dB"),
        tag(TagMeaning::Other, "replaygain_track_gain", "-9 dB"),
        tag(TagMeaning::Other, "UnsyncedLyrics", "la"),
        tag(TagMeaning::Lyrics, "x", "lo"),
    ];
    let outer = vec![
        tag(TagMeaning::Title, "t", "outer"),
        tag(TagMeaning::Artist, "a", "someone"),
        tag(TagMeaning::Artist, "a", "someone else"),
        tag(TagMeaning::Other, "replaygain_album_peak", "0.5"),
    ];
    let s = summarise_tags(&inner, &outer);
    assert_eq!(s.title.as_deref(), Some("new"));
    assert_eq!(s.artist.as_deref(), Some("someone"));
    assert_eq!(s.lyrics.as_deref(), Some("la"));
    assert_eq!(s.rg_track_gain, Some((-3.5f32).to_bits()));
    assert_eq!(s.rg_album_peak, Some(0.5f32.to_bits()));
    assert_eq!(s.rg_track_peak, None);
}

#[test]
fn outer_tags_are_left_alone_where_nothing_is_missing() {
    let inner = vec![
        tag(TagMeaning::Title, "t", "T"),
        tag(TagMeaning::Artist, "a", "A"),
        tag(TagMeaning::Lyrics, "l", "L"),
    ];
    let outer = vec![tag(TagMeaning::Other, "replaygain_track_gain", "1")];
    assert_eq!(summarise_tags(&inner, &outer).rg_track_gain, None);
}

#[test]
fn what_is_shown_and_searched() {
    let inner = vec![tag(TagMeaning::Title, "t", "Title"), tag(TagMeaning::Artist, "a", "Ärtist")];
    let m = read_metadata_full("dir/File.MP3", &inner, &Vec::new()).unwrap();
    assert_eq!(m.display, "Ärtist - Title");
    assert_eq!(m.search_text, "ärtist - title\0file.mp3");
    assert_eq!(
        read_metadata_display("x", &vec![tag(TagMeaning::Artist, "a", "Only")], &Vec::new()),
        Some("Only".to_string())
    );
    assert_eq!(read_metadata_display("x", &Vec::new(), &Vec::new()), None);
    assert_eq!(file_name_text("a/b/"), "b");
    assert_eq!(file_name_text(".."), "");
}

#[test]
fn lyrics_need_no_name_beside_them() {
    let only = vec![tag(TagMeaning::Lyrics, "l", "la la")];
    assert_eq!(read_lyrics(&only, &Vec::new()), Some("la la".to_string()));
    assert_eq!(read_lyrics(&Vec::new(), &only), Some("la la".to_string()));
    let both = vec![tag(TagMeaning::Lyrics, "l", "la la"), tag(TagMeaning::Title, "t", "T")];
    assert_eq!(read_lyrics(&both, &Vec::new()), Some("la la".to_string()));
    assert_eq!(read_lyrics(&vec![tag(TagMeaning::Title, "t", "T")], &Vec::new()), None);
}

#[test]
fn names_may_hold_colons() {
    let inner = vec![tag(TagMeaning::Title, "t", "T")];
    let m = read_metadata_full("/m/Suite: Part 1.MP3", &inner, &Vec::new()).unwrap();
    assert_eq!(m.search_text, "t\0suite: part 1.mp3");
    assert_eq!(file_name_text("/m/Suite: Part 1.MP3"), "Suite: Part 1.MP3");
    assert_eq!(file_name_text("//nas/music/a.mp3"), "a.mp3");
}

fn meta(title: &str) -> CachedMeta {
    let tags = TagSummary {
        title: Some(title.to_string()),
        artist: None,
        lyrics: Some("words".to_string()),
        rg_track_gain: None,
        rg_track_peak: None,
        rg_album_gain: None,
        rg_album_peak: None,
    };
    meta_from(tags, "file.mp3").unwrap()
}

#[test]
fn the_cache_answers_by_place() {
    let mut c = MetadataCache::new(2);
    assert!(!c.is_set(0));
    c.set(1, meta("Song"));
    c.set(9, meta("lost"));
    assert!(c.is_set(1) && !c.is_set(9));
    assert_eq!(c.display_name(1, "p/x.mp3"), "Song");
    assert_eq!(c.display_name(0, "p/x.mp3"), "x.mp3");
    assert_eq!(c.lyrics(1), Some("words".to_string()));
    assert_eq!(c.artist_title(1), (None, Some("Song".to_string())));
    assert_eq!(c.artist_title(0), (None, None));
    assert!(c.search_matches(1, "p", "son"));
    assert!(c.search_matches(1, "p", "file.mp3"));
    assert!(!c.search_matches(1, "p", ""));
    assert!(c.search_matches(0, "p/Other.MP3", "other"));
    assert!(!c.search_matches(0, "p/Other.MP3", "p/"));
}

#[test]
fn entries_follow_their_tracks() {
    let s = |l: &[&str]| l.iter().map(|x| x.to_string()).collect::<Vec<String>>();
    let mut c = MetadataCache::new(3);
    c.set(0, meta("A"));
    c.set(2, meta("C"));
    c.reindex(&s(&["d/c", "d/n", "d/a"]), &s(&["d/a", "d/b", "d/c"]));
    assert_eq!(c.display_name(0, "d/c"), "C");
    assert!(!c.is_set(1));
    assert_eq!(c.display_name(2, "d/a"), "A");
    c.reindex(&s(&["d/c", "d/n", "d/a"]), &s(&["d/c", "d/n", "d/a"]));
    assert_eq!(c.display_name(2, "d/a"), "A");
    c.remove_at(0);
    assert_eq!(c.display_name(1, "d/a"), "A");
    c.remove_at(7);
    assert!(c.is_set(1));
}

#[test]
fn duplicates_share_one_entry() {
    let mut c = MetadataCache::new(2);
    c.set(0, meta("first"));
    c.set(1, meta("last"));
    c.reindex_with(&vec![5, 5, 6], &vec![5, 5]);
    assert_eq!(c.display_name(0, "x"), "last");
    assert!(!c.is_set(1) && !c.is_set(2));
}

#[test]
fn scans_go_on_where_nothing_is_known() {
    let mut c = MetadataCache::new(3);
    c.set(0, meta("A"));
    assert_eq!(c.next_to_scan(0, 3), Some(1));
    assert_eq!(c.next_to_scan(2, 3), Some(2));
    assert_eq!(c.next_to_scan(3, 3), None);
    c.cancel = true;
    assert_eq!(c.next_to_scan(0, 3), None);
}

#[test]
fn lyrics_come_from_tags_first() {
    let text = |s: &str| Some(s.to_string());
    let step = |k: &str, e: &str, a: &str, t: &str| {
        let some = |s: &str| if s.is_empty() { None } else { text(s) };
        match lyrics_step(some(k), some(e), some(a), some(t)) {
            LyricsStep::Parse(words) => format!("parse {words}"),
            LyricsStep::Fetch(artist, title) => format!("fetch {artist} {title}"),
            LyricsStep::Nothing => "nothing".to_string(),
        }
    };
    assert_eq!(step("kept", "tag", "A", "T"), "parse kept");
    assert_eq!(step("", "tag", "A", "T"), "parse tag");
    assert_eq!(step("", "", "A", "T"), "fetch A T");
    assert_eq!(step("", "", "A", ""), "nothing");
    assert_eq!(step("", "", "", "T"), "nothing");
}

#[test]
fn times_that_are_no_numbers_are_never_due() {
    assert_eq!(time_key(f64::NAN.to_bits()), i64::MAX);
    assert_eq!(time_key(0xfff8_0000_0000_0000), i64::MAX);
    assert!(time_key(f64::INFINITY.to_bits()) < i64::MAX);
    assert_eq!(time_key(f64::NEG_INFINITY.to_bits()), -time_key(f64::INFINITY.to_bits()));
    assert_eq!(time_key((-0.0f64).to_bits()), 0);
    let line = |time: i64, text: &str| LrcLine { time, text: text.to_string() };
    let l = Lyrics::Synced(vec![line(at(1.0), "one"), line(time_key(0xfff8_0000_0000_0000), "none")]);
    assert_eq!(l.current_line(at(1e300)), Some(0));
}
