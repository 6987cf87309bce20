//! The playlist serializer: entries are rendered through the playlist
//! encoding library, and the rendered document then loses its second line
//! (the document-level duration-bound tag), which a downstream player
//! refuses to load.
use crate::model::{single_line, GameData, PlaylistError, Stream};
use crate::text::{
    lemma_lines_of_join, lemma_lines_unfold, lines_of, strip_second_line, stripped_of,
    without_second,
};
use crate::title::title_chars;
use vstd::prelude::*;

verus! {

/// The `(title, URI)` pairs of the segments so far added to a playlist
/// builder.
pub uninterp spec fn builder_entries(b: hls_m3u8::MediaPlaylistBuilder) -> Seq<
    (Seq<char>, Seq<char>),
>;

/// Whether the builder carries the zero duration-bound tag that
/// `new_builder` sets and `finish` demands.
pub uninterp spec fn builder_ready(b: hls_m3u8::MediaPlaylistBuilder) -> bool;

/// Declares `hls_m3u8::MediaPlaylistBuilder`, the encoder's accumulator,
/// so that verified code can hold one; its contents are tracked through
/// `builder_entries` and `builder_ready`.
#[verifier::external_type_specification]
#[verifier::external_body]
pub struct ExMediaPlaylistBuilder(hls_m3u8::MediaPlaylistBuilder);

/// Declares `hls_m3u8::Error`, the encoding library's error type, so the
/// wrappers can return it; verified code maps it to [`PlaylistError`].
#[verifier::external_type_specification]
#[verifier::external_body]
pub struct ExHlsError(hls_m3u8::Error);

/// Relies on `MediaPlaylistBuilder::new` and `tag`: a fresh builder holds
/// no segment, and setting the `EXT-X-TARGETDURATION` tag to zero gives
/// `finish` the one tag it insists on.
#[verifier::external_body]
fn new_builder() -> (b: hls_m3u8::MediaPlaylistBuilder)
    ensures
        builder_entries(b) == Seq::<(Seq<char>, Seq<char>)>::empty(),
        builder_ready(b),
{
    let mut b = hls_m3u8::MediaPlaylistBuilder::new();
    b.tag(hls_m3u8::tags::ExtXTargetDuration::new(std::time::Duration::from_secs(0)));
    b
}

/// Relies on `SingleLineString::new`, which fails exactly when its text
/// holds a control character, and on `ExtInf::with_title`,
/// `MediaSegmentBuilder` and `MediaPlaylistBuilder::segment`: on success
/// the builder gains one zero-duration segment holding this title and URI,
/// on failure it is unchanged; the duration-bound tag is untouched either
/// way.
#[verifier::external_body]
fn push_segment(b: &mut hls_m3u8::MediaPlaylistBuilder, title: &str, url: &str) -> (r: Result<
    (),
    hls_m3u8::Error,
>)
    ensures
        r.is_ok() == (single_line(title@) && single_line(url@)),
        r.is_ok() ==> builder_entries(*final (b)) == builder_entries(*old(b)).push(
            (title@, url@),
        ),
        !r.is_ok() ==> builder_entries(*final (b)) == builder_entries(*old(b)),
        builder_ready(*final (b)) == builder_ready(*old(b)),
{
    let t = hls_m3u8::types::SingleLineString::new(title)?;
    let u = hls_m3u8::types::SingleLineString::new(url)?;
    let inf = hls_m3u8::tags::ExtInf::with_title(std::time::Duration::from_secs(0), t);
    let mut sb = hls_m3u8::MediaSegmentBuilder::new();
    sb.uri(u);
    sb.tag(inf);
    b.segment(sb.finish()?);
    Ok(())
}

/// The document-level duration-bound tag line, emitted with a zero value.
pub open spec fn duration_bound_line() -> Seq<char> {
    "#EXT-X-TARGETDURATION:0"@
}

/// The `#EXTINF` line of one entry: the zero duration marker, the title,
/// and the trailing comma the segment renderer appends.
pub open spec fn inf_line(title: Seq<char>) -> Seq<char> {
    "#EXTINF:0,"@ + title + ","@
}

/// The rendered text of the segment list: for each entry its `#EXTINF`
/// line and its URI line, each newline-terminated.
pub open spec fn rendered_segments(es: Seq<(Seq<char>, Seq<char>)>) -> Seq<char>
    decreases es.len(),
{
    if es.len() == 0 {
        Seq::empty()
    } else {
        inf_line(es[0].0) + seq!['\n'] + es[0].1 + seq!['\n'] + rendered_segments(es.skip(1))
    }
}

/// The exact text the playlist library renders for a playlist holding the
/// zero duration-bound tag and one zero-duration segment per entry: the
/// `#EXTM3U` line, the duration-bound line, then the segment lines, every
/// line newline-terminated.
pub open spec fn rendered_playlist(es: Seq<(Seq<char>, Seq<char>)>) -> Seq<char> {
    "#EXTM3U"@ + seq!['\n'] + duration_bound_line() + seq!['\n'] + rendered_segments(es)
}

/// Relies on `MediaPlaylistBuilder::finish` and `MediaPlaylist`'s
/// `Display`. For a builder made by `new_builder` and grown by
/// `push_segment`, `finish` succeeds: the duration-bound tag is set, every
/// segment's zero duration is within the zero bound, and no tag raises the
/// required protocol version. The rendered text is then line for line what
/// `rendered_playlist` describes.
#[verifier::external_body]
fn finish_playlist(b: hls_m3u8::MediaPlaylistBuilder) -> (r: Result<String, hls_m3u8::Error>)
    ensures
        builder_ready(b) ==> r.is_ok(),
        r matches Ok(s) ==> s@ == rendered_playlist(builder_entries(b)),
{
    let playlist = b.finish()?;
    Ok(format!("{}", playlist))
}

/// What one game contributes to the playlist: one `(title, URL)` entry per
/// resolved stream, in the order the streams stand in the record.
pub open spec fn game_chunk(g: GameData) -> Seq<(Seq<char>, Seq<char>)> {
    g.streams@.map_values(
        |s: Stream|
            (
                title_chars(g.away@, g.home@, g.hour as int, g.minute as int, s.feed_type@),
                s.url@,
            ),
    )
}

/// The playlist entries of all games, in schedule order.
pub open spec fn entries_spec(gs: Seq<GameData>) -> Seq<(Seq<char>, Seq<char>)>
    decreases gs.len(),
{
    if gs.len() == 0 {
        Seq::empty()
    } else {
        entries_spec(gs.drop_last()) + game_chunk(gs.last())
    }
}

/// Every entry's title and URL fits on one line of the playlist format.
pub open spec fn all_entries_single_line(es: Seq<(Seq<char>, Seq<char>)>) -> bool {
    forall|k: int|
        0 <= k < es.len() ==> single_line((#[trigger] es[k]).0) && single_line(es[k].1)
}

/// Builds the playlist entries of all games: one per resolved stream, its
/// title synthesized from the team names, the local start time, and the
/// feed-type label.
pub fn build_entries(games: &Vec<GameData>) -> (es: Vec<(String, String)>)
    requires
        forall|k: int| 0 <= k < games@.len() ==> (#[trigger] games@[k]).wf(),
    ensures
        es@.map_values(|e: (String, String)| (e.0@, e.1@)) == entries_spec(games@),
{
    let mut es: Vec<(String, String)> = Vec::new();
    proof {
        assert(es@.map_values(|e: (String, String)| (e.0@, e.1@)) =~= entries_spec(
            games@.take(0),
        ));
    }
    let mut i: usize = 0;
    while i < games.len()
        invariant
            forall|k: int| 0 <= k < games@.len() ==> (#[trigger] games@[k]).wf(),
            i <= games.len(),
            es@.map_values(|e: (String, String)| (e.0@, e.1@)) == entries_spec(
                games@.take(i as int),
            ),
        decreases games.len() - i,
    {
        let g = &games[i];
        let ghost before = es@.map_values(|e: (String, String)| (e.0@, e.1@));
        let mut j: usize = 0;
        while j < g.streams.len()
            invariant
                g == games@[i as int],
                0 <= i < games.len(),
                forall|k: int| 0 <= k < games@.len() ==> (#[trigger] games@[k]).wf(),
                j <= g.streams.len(),
                es@.map_values(|e: (String, String)| (e.0@, e.1@)) == before + game_chunk(
                    games@[i as int],
                ).take(j as int),
            decreases g.streams.len() - j,
        {
            let ghost mid = es@.map_values(|e: (String, String)| (e.0@, e.1@));
            let s = &g.streams[j];
            let title = crate::title::make_title(
                g.away.as_str(),
                g.home.as_str(),
                g.hour,
                g.minute,
                s.feed_type.as_str(),
            );
            let url = s.url.clone();
            es.push((title, url));
            proof {
                assert(es@.map_values(|e: (String, String)| (e.0@, e.1@)) =~= mid.push(
                    game_chunk(games@[i as int])[j as int],
                ));
                assert(before + game_chunk(games@[i as int]).take(j + 1) =~= mid.push(
                    game_chunk(games@[i as int])[j as int],
                ));
            }
            j += 1;
        }
        proof {
            assert(game_chunk(games@[i as int]).take(g.streams@.len() as int) =~= game_chunk(
                games@[i as int],
            ));
            assert(games@.take(i + 1).drop_last() =~= games@.take(i as int));
            assert(games@.take(i + 1).last() == games@[i as int]);
            assert(es@.map_values(|e: (String, String)| (e.0@, e.1@)) =~= entries_spec(
                games@.take(i + 1),
            ));
        }
        i += 1;
    }
    proof {
        assert(games@.take(games.len() as int) =~= games@);
    }
    es
}

/// The line-by-line shape of the rendered segment list: the `#EXTINF` line
/// and the URI line of each entry in turn.
pub open spec fn segment_lines(es: Seq<(Seq<char>, Seq<char>)>) -> Seq<Seq<char>>
    decreases es.len(),
{
    if es.len() == 0 {
        Seq::empty()
    } else {
        seq![inf_line(es[0].0), es[0].1] + segment_lines(es.skip(1))
    }
}

/// A single-line text has neither `'\n'` nor a trailing `'\r'`.
proof fn lemma_single_line_clean(s: Seq<char>)
    requires
        single_line(s),
    ensures
        crate::text::clean_line(s),
{
    assert forall|i: int| 0 <= i < s.len() implies #[trigger] s[i] != '\n' by {
        assert(!crate::model::is_control_char(s[i]));
    }
    if s.len() > 0 {
        assert(!crate::model::is_control_char(s.last()));
    }
}

/// The rendered segment list splits into exactly the segment lines, and
/// every one of them is clean.
proof fn lemma_segment_lines(es: Seq<(Seq<char>, Seq<char>)>)
    requires
        all_entries_single_line(es),
    ensures
        lines_of(rendered_segments(es)) == segment_lines(es),
        crate::text::all_clean(segment_lines(es)),
        segment_lines(es).len() == 2 * es.len(),
    decreases es.len(),
{
    reveal_strlit("#EXTINF:0,");
    reveal_strlit(",");
    if es.len() == 0 {
        assert(lines_of(rendered_segments(es)) =~= segment_lines(es));
    } else {
        let t = es[0].0;
        let u = es[0].1;
        assert(single_line(t) && single_line(u));
        assert(single_line("#EXTINF:0,"@));
        assert(single_line(","@));
        crate::model::lemma_single_line_concat("#EXTINF:0,"@, t);
        crate::model::lemma_single_line_concat("#EXTINF:0,"@ + t, ","@);
        lemma_single_line_clean(inf_line(t));
        lemma_single_line_clean(u);
        assert(forall|k: int|
            0 <= k < es.skip(1).len() ==> #[trigger] es.skip(1)[k] == es[k + 1]);
        lemma_segment_lines(es.skip(1));
        lemma_lines_unfold(inf_line(t), u + seq!['\n'] + rendered_segments(es.skip(1)));
        assert(rendered_segments(es) =~= inf_line(t) + seq!['\n'] + (u + seq!['\n']
            + rendered_segments(es.skip(1))));
        lemma_lines_unfold(u, rendered_segments(es.skip(1)));
        assert(lines_of(rendered_segments(es)) =~= seq![inf_line(t), u] + segment_lines(
            es.skip(1),
        ));
        assert(lines_of(rendered_segments(es)) =~= segment_lines(es));
        assert forall|k: int| 0 <= k < segment_lines(es).len() implies crate::text::clean_line(
            #[trigger] segment_lines(es)[k],
        ) by {
            if k >= 2 {
                assert(segment_lines(es)[k] == segment_lines(es.skip(1))[k - 2]);
            }
        }
    }
}

/// The line-by-line shape of the whole rendered document.
pub open spec fn playlist_lines(es: Seq<(Seq<char>, Seq<char>)>) -> Seq<Seq<char>> {
    seq!["#EXTM3U"@, duration_bound_line()] + segment_lines(es)
}

/// The rendered document splits into the `#EXTM3U` line, the
/// duration-bound line, and the segment lines; all of them clean.
pub proof fn lemma_playlist_lines(es: Seq<(Seq<char>, Seq<char>)>)
    requires
        all_entries_single_line(es),
    ensures
        lines_of(rendered_playlist(es)) == playlist_lines(es),
        crate::text::all_clean(playlist_lines(es)),
        playlist_lines(es).len() == 2 + 2 * es.len(),
        playlist_lines(es)[1] == duration_bound_line(),
{
    reveal_strlit("#EXTM3U");
    reveal_strlit("#EXT-X-TARGETDURATION:0");
    assert(single_line("#EXTM3U"@));
    assert(single_line(duration_bound_line()));
    lemma_single_line_clean("#EXTM3U"@);
    lemma_single_line_clean(duration_bound_line());
    lemma_segment_lines(es);
    lemma_lines_unfold("#EXTM3U"@, duration_bound_line() + seq!['\n'] + rendered_segments(es));
    assert(rendered_playlist(es) =~= "#EXTM3U"@ + seq!['\n'] + (duration_bound_line()
        + seq!['\n'] + rendered_segments(es)));
    lemma_lines_unfold(duration_bound_line(), rendered_segments(es));
    assert(lines_of(rendered_playlist(es)) =~= playlist_lines(es));
    assert forall|k: int| 0 <= k < playlist_lines(es).len() implies crate::text::clean_line(
        #[trigger] playlist_lines(es)[k],
    ) by {
        if k >= 2 {
            assert(playlist_lines(es)[k] == segment_lines(es)[k - 2]);
        }
    }
}

/// Serializes the accumulated game records into the playlist text that is
/// written to disk: the document the encoding library renders, minus its
/// second line, the duration-bound tag.
///
/// On success the output is exactly the rendered document's lines with the
/// line at index 1 removed -- one line fewer, the dropped one being the
/// duration-bound tag -- each remaining line newline-terminated. It fails,
/// writing nothing, exactly when some entry's title or URL does not fit on
/// one line.
pub fn serialize_games(games: &Vec<GameData>) -> (r: Result<String, PlaylistError>)
    requires
        forall|k: int| 0 <= k < games@.len() ==> (#[trigger] games@[k]).wf(),
    ensures
        r.is_ok() == all_entries_single_line(entries_spec(games@)),
        r matches Ok(out) ==> out@ == stripped_of(rendered_playlist(entries_spec(games@))),
        r matches Ok(out) ==> lines_of(out@) == lines_of(
            rendered_playlist(entries_spec(games@)),
        ).remove(1),
        r matches Ok(out) ==> lines_of(rendered_playlist(entries_spec(games@))).len() == 2
            + 2 * entries_spec(games@).len() && lines_of(rendered_playlist(entries_spec(games@)))[1]
            == duration_bound_line(),
        r matches Err(e) ==> e == PlaylistError::InvalidText,
{
    let ghost esv = entries_spec(games@);
    let es = build_entries(games);
    let mut b = new_builder();
    proof {
        assert(builder_entries(b) =~= esv.take(0));
    }
    let mut i: usize = 0;
    while i < es.len()
        invariant
            esv == entries_spec(games@),
            esv == es@.map_values(|e: (String, String)| (e.0@, e.1@)),
            i <= es.len(),
            builder_entries(b) == esv.take(i as int),
            builder_ready(b),
            forall|k: int|
                0 <= k < i ==> single_line((#[trigger] esv[k]).0) && single_line(esv[k].1),
        decreases es.len() - i,
    {
        let entry = &es[i];
        proof {
            assert(esv[i as int] == (es@[i as int].0@, es@[i as int].1@));
        }
        match push_segment(&mut b, entry.0.as_str(), entry.1.as_str()) {
            Ok(_) => {
                proof {
                    assert(single_line(esv[i as int].0) && single_line(esv[i as int].1));
                    assert(builder_entries(b) =~= esv.take(i + 1));
                    assert forall|k: int| 0 <= k < i + 1 implies single_line(
                        (#[trigger] esv[k]).0,
                    ) && single_line(esv[k].1) by {
                        if k < i {
                            assert(0 <= k < i);
                            assert(single_line(esv[k].0) && single_line(esv[k].1));
                        } else {
                            assert(k == i);
                        }
                    }
                }
            },
            Err(_) => {
                proof {
                    assert(!(single_line(esv[i as int].0) && single_line(esv[i as int].1)));
                    assert(entries_spec(games@) == esv);
                    assert(0 <= i < entries_spec(games@).len());
                    assert(!(single_line(entries_spec(games@)[i as int].0) && single_line(
                        entries_spec(games@)[i as int].1,
                    )));
                    assert(!all_entries_single_line(entries_spec(games@)));
                }
                return Err(PlaylistError::InvalidText);
            },
        }
        i += 1;
    }
    proof {
        assert(esv.take(es.len() as int) =~= esv);
    }
    let rendered = match finish_playlist(b) {
        Ok(s) => s,
        Err(_) => {
            proof {
                assert(false);
            }
            return Err(PlaylistError::InvalidText);
        },
    };
    let out = strip_second_line(rendered.as_str());
    proof {
        lemma_playlist_lines(esv);
        let ls = lines_of(rendered_playlist(esv));
        assert(without_second(ls) == ls.remove(1));
        assert forall|k: int| 0 <= k < ls.remove(1).len() implies crate::text::clean_line(
            #[trigger] ls.remove(1)[k],
        ) by {
            if k == 0 {
                assert(ls.remove(1)[0] == ls[0]);
            } else {
                assert(ls.remove(1)[k] == ls[k + 1]);
            }
        }
        lemma_lines_of_join(ls.remove(1));
    }
    Ok(out)
}

/// A game whose names, feed-type labels and URLs all fit on one line.
pub open spec fn game_clean(g: GameData) -> bool {
    &&& single_line(g.home@)
    &&& single_line(g.away@)
    &&& forall|j: int|
        0 <= j < g.streams@.len() ==> single_line(#[trigger] g.streams@[j].feed_type@)
            && single_line(g.streams@[j].url@)
}

/// Success is owed: when every game's names, feed-type labels and URLs fit
/// on one line, every playlist entry does too, so serialization succeeds.
pub proof fn lemma_clean_games_entries(gs: Seq<GameData>)
    requires
        forall|k: int| 0 <= k < gs.len() ==> (#[trigger] gs[k]).wf(),
        forall|k: int| 0 <= k < gs.len() ==> game_clean(#[trigger] gs[k]),
    ensures
        all_entries_single_line(entries_spec(gs)),
    decreases gs.len(),
{
    if gs.len() > 0 {
        lemma_clean_games_entries(gs.drop_last());
        let g = gs.last();
        assert(game_clean(g));
        assert forall|k: int| 0 <= k < entries_spec(gs).len() implies single_line(
            #[trigger] entries_spec(gs)[k].0,
        ) && single_line(entries_spec(gs)[k].1) by {
            let prev = entries_spec(gs.drop_last());
            if k < prev.len() {
                assert(entries_spec(gs)[k] == prev[k]);
            } else {
                let j = k - prev.len();
                assert(entries_spec(gs)[k] == game_chunk(g)[j]);
                assert(game_chunk(g)[j] == (
                    title_chars(
                        g.away@,
                        g.home@,
                        g.hour as int,
                        g.minute as int,
                        g.streams@[j].feed_type@,
                    ),
                    g.streams@[j].url@,
                ));
                crate::title::lemma_title_single_line(
                    g.away@,
                    g.home@,
                    g.hour as int,
                    g.minute as int,
                    g.streams@[j].feed_type@,
                );
            }
        }
    }
}

} // verus!
