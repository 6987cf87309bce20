use nhl_playlist::encode::serialize_games;
use nhl_playlist::model::{FeedItem, FeedProbe, GameData, PlaylistError, ResolveError, Stream};
use nhl_playlist::paths::path_has_m3u_extension;
use nhl_playlist::resolve::{
    collect_resolved, format_date, is_feed_category, prepare_probe, probe_url, resolve_body,
    select_feed_items,
};
use nhl_playlist::model::EpgEntry;
use nhl_playlist::title::{format_time12, make_title};

fn game(away: &str, home: &str, hour: u8, minute: u8, streams: Vec<(&str, &str)>) -> GameData {
    GameData {
        home: home.to_string(),
        away: away.to_string(),
        start_utc: 0,
        hour,
        minute,
        streams: streams
            .into_iter()
            .map(|(f, u)| Stream { feed_type: f.to_string(), url: u.to_string() })
            .collect(),
    }
}

#[test]
fn extension_accepts_plain_m3u() {
    assert!(path_has_m3u_extension("games.m3u"));
    assert!(path_has_m3u_extension("dir/games.m3u"));
    assert!(path_has_m3u_extension("/a/b.c/games.m3u"));
}

#[test]
fn extension_rejects_everything_else() {
    assert!(!path_has_m3u_extension("games.m3u8"));
    assert!(!path_has_m3u_extension("games"));
    assert!(!path_has_m3u_extension("games.M3U"));
    assert!(!path_has_m3u_extension(""));
    assert!(!path_has_m3u_extension("dir.m3u/games.txt"));
    assert!(!path_has_m3u_extension("games.m3u/"));
}

#[test]
fn extension_rejects_hidden_file_without_extension() {
    assert!(!path_has_m3u_extension(".m3u"));
    assert!(!path_has_m3u_extension("dir/.m3u"));
}

#[test]
fn resolve_accepts_body_starting_with_https() {
    let body = "https://example.test/a.m3u8".to_string();
    assert_eq!(resolve_body(body.clone()), Ok(body));
    let bare = "https".to_string();
    assert_eq!(resolve_body(bare.clone()), Ok(bare));
}

#[test]
fn resolve_rejects_every_other_body() {
    assert_eq!(
        resolve_body("Not Found".to_string()),
        Err(ResolveError::NotStarted)
    );
    assert_eq!(resolve_body(String::new()), Err(ResolveError::NotStarted));
    assert_eq!(
        resolve_body("http://example.test/a.m3u8".to_string()),
        Err(ResolveError::NotStarted)
    );
    assert_eq!(resolve_body("http".to_string()), Err(ResolveError::NotStarted));
}

fn probe(feed: &str, outcome: Result<&str, ResolveError>) -> FeedProbe {
    FeedProbe {
        feed_type: feed.to_string(),
        outcome: outcome.map(|u| u.to_string()),
    }
}

#[test]
fn fan_out_keeps_exactly_the_successes() {
    let probes = vec![
        probe("home", Ok("https://h/a")),
        probe("away", Err(ResolveError::NotStarted)),
        probe("national", Ok("https://h/b")),
        probe("french", Err(ResolveError::Transport)),
    ];
    let streams = collect_resolved(&probes);
    assert_eq!(streams.len(), 2);
    assert_eq!(streams[0].feed_type, "home");
    assert_eq!(streams[0].url, "https://h/a");
    assert_eq!(streams[1].feed_type, "national");
    assert_eq!(streams[1].url, "https://h/b");
}

#[test]
fn fan_out_same_successes_give_same_set() {
    let first = vec![
        probe("home", Ok("https://h/a")),
        probe("away", Err(ResolveError::NotStarted)),
        probe("national", Ok("https://h/b")),
    ];
    let second = vec![
        probe("national", Ok("https://h/b")),
        probe("home", Ok("https://h/a")),
        probe("away", Err(ResolveError::InvalidUrl)),
    ];
    let mut a: Vec<(String, String)> = collect_resolved(&first)
        .into_iter()
        .map(|s| (s.feed_type, s.url))
        .collect();
    let mut b: Vec<(String, String)> = collect_resolved(&second)
        .into_iter()
        .map(|s| (s.feed_type, s.url))
        .collect();
    a.sort();
    b.sort();
    assert_eq!(a, b);
}

#[test]
fn fan_out_of_no_successes_is_empty() {
    let probes = vec![
        probe("home", Err(ResolveError::NotStarted)),
        probe("away", Err(ResolveError::Transport)),
    ];
    assert!(collect_resolved(&probes).is_empty());
}

#[test]
fn title_synthesis_is_exact() {
    assert_eq!(
        make_title("Boston Bruins", "New York Rangers", 19, 0, "home"),
        "Boston Bruins @ New York Rangers, 7:00 PM - home"
    );
}

#[test]
fn time12_covers_the_dial() {
    assert_eq!(format_time12(0, 5), "12:05 AM");
    assert_eq!(format_time12(12, 30), "12:30 PM");
    assert_eq!(format_time12(9, 59), "9:59 AM");
    assert_eq!(format_time12(23, 59), "11:59 PM");
    assert_eq!(format_time12(10, 0), "10:00 AM");
}

#[test]
fn date_format_pads_with_zeros() {
    assert_eq!(format_date(2020, 3, 9), "2020-03-09");
    assert_eq!(format_date(2019, 12, 31), "2019-12-31");
}

#[test]
fn probe_url_is_exact() {
    assert_eq!(
        probe_url("http://h.test", "2020-03-09", "ID123"),
        "http://h.test/getM3U8.php?league=nhl&date=2020-03-09&id=ID123&cdn=akc"
    );
}

#[test]
fn prepare_probe_accepts_a_well_formed_url() {
    assert!(prepare_probe("http://h.test", "2020-03-09", "ID123").is_ok());
}

#[test]
fn prepare_probe_rejects_a_malformed_url() {
    assert_eq!(
        prepare_probe("http://bad host", "2020-03-09", "ID123"),
        Err(ResolveError::InvalidUrl)
    );
}

fn epg(title: &str, items: Option<Vec<(&str, &str)>>) -> EpgEntry {
    EpgEntry {
        title: title.to_string(),
        items: items.map(|v| {
            v.into_iter()
                .map(|(f, id)| FeedItem { feed_type: f.to_string(), playback_id: id.to_string() })
                .collect()
        }),
    }
}

#[test]
fn feed_category_label_matches_exactly() {
    assert!(is_feed_category(&"NHLTV".to_string()));
    assert!(!is_feed_category(&"Audio".to_string()));
    assert!(!is_feed_category(&"nhltv".to_string()));
}

#[test]
fn select_feed_items_filters_and_flattens() {
    let epgs = vec![
        epg("NHLTV", Some(vec![("home", "1"), ("away", "2")])),
        epg("Audio", Some(vec![("home", "9")])),
        epg("NHLTV", None),
        epg("NHLTV", Some(vec![("national", "3")])),
    ];
    let items = select_feed_items(&epgs);
    let got: Vec<(String, String)> =
        items.into_iter().map(|i| (i.feed_type, i.playback_id)).collect();
    assert_eq!(
        got,
        vec![
            ("home".to_string(), "1".to_string()),
            ("away".to_string(), "2".to_string()),
            ("national".to_string(), "3".to_string()),
        ]
    );
}

#[test]
fn game_record_starts_empty_and_well_formed() {
    let g = GameData::new("Home".to_string(), "Away".to_string(), 1_583_000_000);
    assert_eq!(g.home, "Home");
    assert_eq!(g.away, "Away");
    assert_eq!(g.start_utc, 1_583_000_000);
    assert!(g.streams.is_empty());
    assert!(g.hour < 24);
    assert!(g.minute < 60);
}

#[test]
fn append_streams_keeps_order_and_fields() {
    let mut g = GameData::new("Home".to_string(), "Away".to_string(), 0);
    let resolved = vec![
        Stream { feed_type: "home".to_string(), url: "https://h/a".to_string() },
        Stream { feed_type: "away".to_string(), url: "https://h/b".to_string() },
    ];
    g.append_streams(&resolved);
    assert_eq!(g.streams.len(), 2);
    assert_eq!(g.streams[0].feed_type, "home");
    assert_eq!(g.streams[1].url, "https://h/b");
    assert_eq!(g.home, "Home");
}

#[test]
fn serialized_document_is_exact_minus_second_line() {
    let games = vec![game(
        "Boston Bruins",
        "New York Rangers",
        19,
        0,
        vec![("home", "https://example.test/a.m3u8")],
    )];
    let out = serialize_games(&games).unwrap();
    assert_eq!(
        out,
        "#EXTM3U\n#EXTINF:0,Boston Bruins @ New York Rangers, 7:00 PM - home,\nhttps://example.test/a.m3u8\n"
    );
}

#[test]
fn strip_removes_exactly_the_duration_bound_line() {
    let games = vec![
        game("A", "B", 10, 15, vec![("home", "https://h/a"), ("away", "https://h/b")]),
        game("C", "D", 20, 45, vec![("national", "https://h/c")]),
    ];
    let out = serialize_games(&games).unwrap();
    let lines: Vec<&str> = out.lines().collect();
    // one line per entry pair plus the header; the duration tag alone is gone
    assert_eq!(lines.len(), 1 + 2 * 3);
    assert_eq!(lines[0], "#EXTM3U");
    assert!(!lines.iter().any(|l| l.starts_with("#EXT-X-TARGETDURATION")));
    assert!(lines[1].starts_with("#EXTINF:0,"));
}

#[test]
fn games_without_streams_contribute_nothing() {
    let games = vec![
        game("A", "B", 10, 15, vec![]),
        game("C", "D", 20, 45, vec![("home", "https://h/c")]),
        game("E", "F", 21, 0, vec![]),
    ];
    let out = serialize_games(&games).unwrap();
    let lines: Vec<&str> = out.lines().collect();
    assert_eq!(lines.len(), 3);
    assert_eq!(lines[2], "https://h/c");
}

#[test]
fn serializing_no_games_gives_the_bare_header() {
    let out = serialize_games(&vec![]).unwrap();
    assert_eq!(out, "#EXTM3U\n");
}

#[test]
fn multiline_text_in_a_title_aborts_serialization() {
    let games = vec![game("Bos\nton", "New York", 19, 0, vec![("home", "https://h/a")])];
    assert_eq!(serialize_games(&games), Err(PlaylistError::InvalidText));
}

#[test]
fn multiline_url_aborts_serialization() {
    let games = vec![game("A", "B", 19, 0, vec![("home", "https://h/a\nhttps://h/b")])];
    assert_eq!(serialize_games(&games), Err(PlaylistError::InvalidText));
}

#[test]
fn end_to_end_one_game_two_feeds_one_success() {
    // the day's schedule lists one game with two feed items
    let epgs = vec![epg("NHLTV", Some(vec![("home", "A"), ("away", "B")]))];
    let items = select_feed_items(&epgs);
    assert_eq!(items.len(), 2);

    // probing item A answers a stream URL, probing item B answers a stub
    let probes: Vec<FeedProbe> = items
        .iter()
        .map(|it| {
            let body = if it.playback_id == "A" {
                "https://example.test/a.m3u8"
            } else {
                "Not Found"
            };
            FeedProbe {
                feed_type: it.feed_type.clone(),
                outcome: resolve_body(body.to_string()),
            }
        })
        .collect();

    let mut g = game("Boston Bruins", "New York Rangers", 19, 0, vec![]);
    let resolved = collect_resolved(&probes);
    g.append_streams(&resolved);
    assert_eq!(g.streams.len(), 1);

    let out = serialize_games(&vec![g]).unwrap();
    assert_eq!(
        out,
        "#EXTM3U\n#EXTINF:0,Boston Bruins @ New York Rangers, 7:00 PM - home,\nhttps://example.test/a.m3u8\n"
    );
    assert!(!out.contains("Not Found"));
    assert_eq!(out.matches("#EXTINF").count(), 1);
}
