//! The stream resolver and the fan-out collector: building the probe URL,
//! classifying a probe's response body, selecting the feed items of the
//! broadcast category of interest, and collecting successful resolutions.
use crate::model::{EpgEntry, FeedItem, FeedProbe, ResolveError, Stream};
use crate::title::digit_char;
use crate::title::digit_str;
use crate::title::two_digit_chars;
use vstd::prelude::*;
use vstd::string::StrSliceExecFns;
use vstd::string::StringExecFns;

verus! {

/// A year below 10000 as four decimal digits, zero padded.
pub open spec fn four_digit_chars(y: int) -> Seq<char> {
    seq![
        digit_char(y / 1000 % 10),
        digit_char(y / 100 % 10),
        digit_char(y / 10 % 10),
        digit_char(y % 10),
    ]
}

/// A calendar date in `YYYY-MM-DD` form.
pub open spec fn date_chars(year: int, month: int, day: int) -> Seq<char> {
    four_digit_chars(year) + "-"@ + two_digit_chars(month) + "-"@ + two_digit_chars(day)
}

/// Formats a calendar date as `YYYY-MM-DD`, the form the probe URL embeds.
pub fn format_date(year: u16, month: u8, day: u8) -> (r: String)
    requires
        year < 10000,
        1 <= month <= 12,
        1 <= day <= 31,
    ensures
        r@ == date_chars(year as int, month as int, day as int),
{
    let mut r = String::new();
    r.append(digit_str((year / 1000) as u8));
    r.append(digit_str((year / 100 % 10) as u8));
    r.append(digit_str((year / 10 % 10) as u8));
    r.append(digit_str((year % 10) as u8));
    r.append("-");
    r.append(digit_str(month / 10));
    r.append(digit_str(month % 10));
    r.append("-");
    r.append(digit_str(day / 10));
    r.append(digit_str(day % 10));
    proof {
        assert(r@ =~= date_chars(year as int, month as int, day as int));
    }
    r
}

/// The probe URL for one feed: the host, the fixed league tag, the
/// formatted date, the feed's media-playback identifier, and the fixed
/// CDN tag.
pub open spec fn probe_url_chars(host: Seq<char>, date: Seq<char>, playback_id: Seq<char>) -> Seq<
    char,
> {
    host + "/getM3U8.php?league=nhl&date="@ + date + "&id="@ + playback_id + "&cdn=akc"@
}

/// Builds the probe URL for one feed.
pub fn probe_url(host: &str, date: &str, playback_id: &str) -> (r: String)
    ensures
        r@ == probe_url_chars(host@, date@, playback_id@),
{
    let mut r = String::new();
    r.append(host);
    r.append("/getM3U8.php?league=nhl&date=");
    r.append(date);
    r.append("&id=");
    r.append(playback_id);
    r.append("&cdn=akc");
    proof {
        assert(r@ =~= probe_url_chars(host@, date@, playback_id@));
    }
    r
}

/// Whether the text parses as a URI. Parsing is a function of the text
/// alone; this name stands for its verdict.
pub uninterp spec fn uri_well_formed(s: Seq<char>) -> bool;

/// Declares `http::Uri`, the parsed probe URL the transport takes.
#[verifier::external_type_specification]
#[verifier::external_body]
pub struct ExUri(http::Uri);

/// Declares `http::uri::InvalidUri`, `Uri` parsing's error type; verified
/// code maps it to [`ResolveError::InvalidUrl`].
#[verifier::external_type_specification]
#[verifier::external_body]
pub struct ExInvalidUri(http::uri::InvalidUri);

/// Relies on `str::parse::<http::Uri>` (that is, `http::Uri`'s `FromStr`):
/// it returns `Ok` exactly when the text is a well-formed URI, a verdict
/// that depends on the text alone.
#[verifier::external_body]
fn parse_uri(s: &str) -> (r: Result<http::Uri, http::uri::InvalidUri>)
    ensures
        r.is_ok() == uri_well_formed(s@),
{
    s.parse::<http::Uri>()
}

/// Builds the probe URL for one feed and parses it into the URI that the
/// transport takes. A URL that does not parse is the construction-time
/// failure of the resolver, reported as [`ResolveError::InvalidUrl`].
pub fn prepare_probe(host: &str, date: &str, playback_id: &str) -> (r: Result<
    http::Uri,
    ResolveError,
>)
    ensures
        r.is_ok() == uri_well_formed(probe_url_chars(host@, date@, playback_id@)),
        r matches Err(e) ==> e == ResolveError::InvalidUrl,
{
    let url = probe_url(host, date, playback_id);
    match parse_uri(url.as_str()) {
        Ok(uri) => Ok(uri),
        Err(_) => Err(ResolveError::InvalidUrl),
    }
}

/// Whether the response body begins with the literal prefix `https`.
pub open spec fn starts_with_https(s: Seq<char>) -> bool {
    s.len() >= 5 && s[0] == 'h' && s[1] == 't' && s[2] == 't' && s[3] == 'p' && s[4] == 's'
}

/// Classifies a probe's response body: it is a resolvable stream URL
/// exactly when it begins with `https`; any other body means the game has
/// not started, a non-fatal failure.
pub fn resolve_body(body: String) -> (r: Result<String, ResolveError>)
    ensures
        r.is_ok() == starts_with_https(body@),
        r matches Ok(u) ==> u == body,
        r matches Err(e) ==> e == ResolveError::NotStarted,
{
    let s = body.as_str();
    let n = s.unicode_len();
    let ok = n >= 5 && s.get_char(0) == 'h' && s.get_char(1) == 't' && s.get_char(2) == 't'
        && s.get_char(3) == 'p' && s.get_char(4) == 's';
    if ok {
        Ok(body)
    } else {
        Err(ResolveError::NotStarted)
    }
}

/// What one probe contributes to the fan-out result: its feed-type label
/// paired with its URL if it succeeded, nothing if it failed.
pub open spec fn probe_chunk(p: (Seq<char>, Result<Seq<char>, ResolveError>)) -> Seq<
    (Seq<char>, Seq<char>),
> {
    if p.1 is Ok {
        seq![(p.0, p.1->Ok_0)]
    } else {
        Seq::empty()
    }
}

/// The successful resolutions of a fan-out, in completion order: the
/// `(feed type, URL)` pairs of the probes that succeeded, failures dropped.
pub open spec fn collected(ps: Seq<(Seq<char>, Result<Seq<char>, ResolveError>)>) -> Seq<
    (Seq<char>, Seq<char>),
>
    decreases ps.len(),
{
    if ps.len() == 0 {
        Seq::empty()
    } else {
        collected(ps.drop_last()) + probe_chunk(ps.last())
    }
}

/// How many probes of the fan-out succeeded.
pub open spec fn ok_count(ps: Seq<(Seq<char>, Result<Seq<char>, ResolveError>)>) -> nat
    decreases ps.len(),
{
    if ps.len() == 0 {
        0
    } else {
        ok_count(ps.drop_last()) + (if ps.last().1 is Ok {
            1nat
        } else {
            0nat
        })
    }
}

/// The fan-out returns exactly as many streams as probes succeeded.
pub proof fn lemma_collected_len(ps: Seq<(Seq<char>, Result<Seq<char>, ResolveError>)>)
    ensures
        collected(ps).len() == ok_count(ps),
    decreases ps.len(),
{
    if ps.len() > 0 {
        lemma_collected_len(ps.drop_last());
    }
}

/// Collects the successful resolutions of a fan-out, keeping completion
/// order and dropping every failed probe silently.
pub fn collect_resolved(probes: &Vec<FeedProbe>) -> (r: Vec<Stream>)
    ensures
        r@.map_values(|s: Stream| s@) == collected(probes@.map_values(|p: FeedProbe| p@)),
        r@.len() == ok_count(probes@.map_values(|p: FeedProbe| p@)),
{
    let ghost ps = probes@.map_values(|p: FeedProbe| p@);
    let mut r: Vec<Stream> = Vec::new();
    proof {
        assert(r@.map_values(|s: Stream| s@) =~= collected(ps.take(0)));
        lemma_collected_len(ps.take(0));
    }
    let mut i: usize = 0;
    while i < probes.len()
        invariant
            ps == probes@.map_values(|p: FeedProbe| p@),
            i <= probes.len(),
            r@.map_values(|s: Stream| s@) == collected(ps.take(i as int)),
            r@.len() == ok_count(ps.take(i as int)),
        decreases probes.len() - i,
    {
        let p = &probes[i];
        let ghost prev = r@.map_values(|s: Stream| s@);
        match &p.outcome {
            Ok(u) => {
                let s = Stream { feed_type: p.feed_type.clone(), url: u.clone() };
                r.push(s);
                proof {
                    assert(r@.map_values(|s: Stream| s@) =~= prev.push(
                        (p.feed_type@, p.outcome->Ok_0@),
                    ));
                }
            },
            Err(_) => {},
        }
        proof {
            assert(ps.take(i + 1).drop_last() =~= ps.take(i as int));
            assert(ps.take(i + 1).last() == ps[i as int]);
            assert(collected(ps.take(i + 1)) == collected(ps.take(i as int)) + probe_chunk(
                ps[i as int],
            ));
            assert(r@.map_values(|s: Stream| s@) =~= collected(ps.take(i + 1)));
        }
        i += 1;
    }
    proof {
        assert(ps.take(probes.len() as int) =~= ps);
    }
    r
}

/// Dropping one probe from the fan-out drops exactly its contribution:
/// the collected multiset loses that probe's pair if it succeeded and is
/// unchanged if it failed.
pub proof fn lemma_collected_remove(
    ps: Seq<(Seq<char>, Result<Seq<char>, ResolveError>)>,
    i: int,
)
    requires
        0 <= i < ps.len(),
    ensures
        collected(ps).to_multiset() == if ps[i].1 is Ok {
            collected(ps.remove(i)).to_multiset().insert((ps[i].0, ps[i].1->Ok_0))
        } else {
            collected(ps.remove(i)).to_multiset()
        },
    decreases ps.len(),
{
    broadcast use vstd::seq_lib::group_seq_properties;

    let last = ps.last();
    if i == ps.len() - 1 {
        assert(ps.remove(i) =~= ps.drop_last());
        if last.1 is Ok {
            assert(collected(ps) =~= collected(ps.drop_last()).push((last.0, last.1->Ok_0)));
            collected(ps.drop_last()).to_multiset_ensures();
        } else {
            assert(collected(ps) =~= collected(ps.drop_last()));
        }
    } else {
        lemma_collected_remove(ps.drop_last(), i);
        assert(ps.remove(i).drop_last() =~= ps.drop_last().remove(i));
        assert(ps.remove(i).last() == last);
        assert(collected(ps.remove(i)) == collected(ps.drop_last().remove(i)) + probe_chunk(last));
        let a = collected(ps.drop_last());
        let b = collected(ps.drop_last().remove(i));
        if last.1 is Ok {
            let lp = (last.0, last.1->Ok_0);
            assert(collected(ps) =~= a.push(lp));
            assert(collected(ps.remove(i)) =~= b.push(lp));
            a.to_multiset_ensures();
            b.to_multiset_ensures();
            if ps[i].1 is Ok {
                let ip = (ps[i].0, ps[i].1->Ok_0);
                assert(collected(ps).to_multiset() =~= collected(
                    ps.remove(i),
                ).to_multiset().insert(ip));
            } else {
                assert(collected(ps).to_multiset() =~= collected(ps.remove(i)).to_multiset());
            }
        } else {
            assert(collected(ps) =~= a);
            assert(collected(ps.remove(i)) =~= b);
        }
    }
}

/// Fan-out is deterministic as a set: two fan-outs whose probes carry the
/// same outcomes, in whatever completion order, collect the same multiset
/// of `(feed type, URL)` pairs.
pub proof fn lemma_collected_permutation(
    a: Seq<(Seq<char>, Result<Seq<char>, ResolveError>)>,
    b: Seq<(Seq<char>, Result<Seq<char>, ResolveError>)>,
)
    requires
        a.to_multiset() == b.to_multiset(),
    ensures
        collected(a).to_multiset() == collected(b).to_multiset(),
    decreases a.len(),
{
    a.to_multiset_ensures();
    b.to_multiset_ensures();
    if a.len() == 0 {
        assert(b.len() == 0);
    } else {
        let x = a.last();
        assert(a.contains(x));
        assert(b.to_multiset().count(x) > 0);
        assert(b.contains(x));
        let j = choose|j: int| 0 <= j < b.len() && b[j] == x;
        assert(a.drop_last() =~= a.remove(a.len() - 1));
        assert(a.remove(a.len() - 1).to_multiset() == a.to_multiset().remove(x));
        assert(b.remove(j).to_multiset() == b.to_multiset().remove(x));
        lemma_collected_permutation(a.drop_last(), b.remove(j));
        lemma_collected_remove(b, j);
        if x.1 is Ok {
            let xp = (x.0, x.1->Ok_0);
            assert(collected(a) =~= collected(a.drop_last()).push(xp));
            collected(a.drop_last()).to_multiset_ensures();
        } else {
            assert(collected(a) =~= collected(a.drop_last()));
        }
    }
}

/// The broadcast-category label whose feed items are probed.
pub open spec fn feed_category() -> Seq<char> {
    "NHLTV"@
}

/// Whether a content entry's title is the broadcast category of interest.
pub fn is_feed_category(title: &String) -> (r: bool)
    ensures
        r == (title@ == feed_category()),
{
    let label = String::from_str("NHLTV");
    *title == label
}

/// What one content entry contributes: its feed items when its title is
/// the category of interest and it lists any, nothing otherwise.
pub open spec fn epg_chunk(e: EpgEntry) -> Seq<(Seq<char>, Seq<char>)> {
    if e.title@ == feed_category() && e.items is Some {
        e.items->0@.map_values(|it: FeedItem| it@)
    } else {
        Seq::empty()
    }
}

/// The feed items of the category of interest, over all content entries,
/// in listing order.
pub open spec fn selected(es: Seq<EpgEntry>) -> Seq<(Seq<char>, Seq<char>)>
    decreases es.len(),
{
    if es.len() == 0 {
        Seq::empty()
    } else {
        selected(es.drop_last()) + epg_chunk(es.last())
    }
}

/// Filters a game's content entries to the broadcast category of interest
/// and gathers their feed items.
pub fn select_feed_items(epgs: &Vec<EpgEntry>) -> (r: Vec<FeedItem>)
    ensures
        r@.map_values(|it: FeedItem| it@) == selected(epgs@),
{
    let mut r: Vec<FeedItem> = Vec::new();
    proof {
        assert(r@.map_values(|it: FeedItem| it@) =~= selected(epgs@.take(0)));
    }
    let mut i: usize = 0;
    while i < epgs.len()
        invariant
            i <= epgs.len(),
            r@.map_values(|it: FeedItem| it@) == selected(epgs@.take(i as int)),
        decreases epgs.len() - i,
    {
        let e = &epgs[i];
        let ghost before = r@.map_values(|it: FeedItem| it@);
        if is_feed_category(&e.title) {
            match &e.items {
                Some(items) => {
                    let mut j: usize = 0;
                    while j < items.len()
                        invariant
                            j <= items.len(),
                            items == e.items->0,
                            r@.map_values(|it: FeedItem| it@) == before + items@.map_values(
                                |it: FeedItem| it@,
                            ).take(j as int),
                        decreases items.len() - j,
                    {
                        let ghost mid = r@.map_values(|it: FeedItem| it@);
                        let item = FeedItem {
                            feed_type: items[j].feed_type.clone(),
                            playback_id: items[j].playback_id.clone(),
                        };
                        r.push(item);
                        proof {
                            assert(r@.map_values(|it: FeedItem| it@) =~= mid.push(items@[j as int]@));
                            assert(before + items@.map_values(|it: FeedItem| it@).take(j + 1)
                                =~= mid.push(items@[j as int]@));
                        }
                        j += 1;
                    }
                    proof {
                        assert(items@.map_values(|it: FeedItem| it@).take(items.len() as int)
                            =~= epg_chunk(epgs@[i as int]));
                    }
                },
                None => {},
            }
        }
        proof {
            assert(epgs@.take(i + 1).drop_last() =~= epgs@.take(i as int));
            assert(epgs@.take(i + 1).last() == epgs@[i as int]);
            assert(r@.map_values(|it: FeedItem| it@) =~= selected(epgs@.take(i + 1)));
        }
        i += 1;
    }
    proof {
        assert(epgs@.take(epgs.len() as int) =~= epgs@);
    }
    r
}

} // verus!
