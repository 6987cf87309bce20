//! Data model: resolved streams, per-game records, and the error taxonomy.
use vstd::prelude::*;

verus! {

/// Why a single stream probe did not yield a playable URL. All three are
/// non-fatal: the feed is dropped and the run continues.
#[derive(Debug, Clone, Copy, PartialEq, Eq, Structural)]
pub enum ResolveError {
    /// The probe URL could not be parsed into a valid URI.
    InvalidUrl,
    /// The transport failed (connection error, timeout).
    Transport,
    /// The probe answered, but not with a stream URL: the game has not started.
    NotStarted,
}

/// Why the playlist document could not be built. Fatal: nothing is written.
#[derive(Debug, Clone, Copy, PartialEq, Eq, Structural)]
pub enum PlaylistError {
    /// A synthesized title or a stream URL holds a control character, which
    /// the single-line text fields of the playlist format cannot carry.
    InvalidText,
}

/// A broadcast feed of one game, as handed over by the content listing:
/// a feed-type label and the opaque media-playback identifier to probe.
pub struct FeedItem {
    pub feed_type: String,
    pub playback_id: String,
}

impl View for FeedItem {
    type V = (Seq<char>, Seq<char>);

    open spec fn view(&self) -> (Seq<char>, Seq<char>) {
        (self.feed_type@, self.playback_id@)
    }
}

/// One entry of a game's content listing: a broadcast-category label and
/// the feed items under it, if any.
pub struct EpgEntry {
    pub title: String,
    pub items: Option<Vec<FeedItem>>,
}

/// The outcome of probing one feed: the feed-type label together with
/// either the resolved stream URL or the reason the probe failed.
pub struct FeedProbe {
    pub feed_type: String,
    pub outcome: Result<String, ResolveError>,
}

impl View for FeedProbe {
    type V = (Seq<char>, Result<Seq<char>, ResolveError>);

    open spec fn view(&self) -> (Seq<char>, Result<Seq<char>, ResolveError>) {
        (
            self.feed_type@,
            if self.outcome is Ok {
                Ok(self.outcome->Ok_0@)
            } else {
                Err(self.outcome->Err_0)
            },
        )
    }
}

/// A broadcast feed that has been resolved to a playable stream URL.
pub struct Stream {
    pub feed_type: String,
    pub url: String,
}

impl View for Stream {
    type V = (Seq<char>, Seq<char>);

    open spec fn view(&self) -> (Seq<char>, Seq<char>) {
        (self.feed_type@, self.url@)
    }
}

/// One scheduled game: the team names, its start time, and the streams
/// resolved for it so far. The start time is kept both as the schedule's
/// absolute timestamp and as the local wall-clock reading that titles use.
pub struct GameData {
    pub home: String,
    pub away: String,
    /// Seconds since the Unix epoch, as the schedule reported the start.
    pub start_utc: i64,
    /// Local wall-clock hour of the start, `0 <= hour < 24`.
    pub hour: u8,
    /// Local wall-clock minute of the start, `0 <= minute < 60`.
    pub minute: u8,
    pub streams: Vec<Stream>,
}

impl GameData {
    /// A record is well formed when its local start time is a real
    /// wall-clock reading.
    pub open spec fn wf(&self) -> bool {
        self.hour < 24 && self.minute < 60
    }

    /// Builds the record for one scheduled game: the team names, the
    /// schedule's start timestamp, the local reading of that timestamp
    /// (midnight when the timestamp is out of the clock's range), and no
    /// streams yet.
    pub fn new(home: String, away: String, start_utc: i64) -> (g: GameData)
        ensures
            g.home == home,
            g.away == away,
            g.start_utc == start_utc,
            g.streams@.len() == 0,
            g.wf(),
    {
        let (hour, minute) = match crate::clock::local_hour_minute(start_utc) {
            Some(hm) => hm,
            None => (0u8, 0u8),
        };
        GameData { home, away, start_utc, hour, minute, streams: Vec::new() }
    }

    /// Appends the streams a fan-out resolved, in the order it returned
    /// them; everything else about the game is unchanged.
    pub fn append_streams(&mut self, added: &Vec<Stream>)
        ensures
            final (self).streams@ == old(self).streams@ + added@,
            final (self).home == old(self).home,
            final (self).away == old(self).away,
            final (self).start_utc == old(self).start_utc,
            final (self).hour == old(self).hour,
            final (self).minute == old(self).minute,
    {
        let mut i: usize = 0;
        proof {
            assert(self.streams@ =~= old(self).streams@ + added@.take(0));
        }
        while i < added.len()
            invariant
                i <= added.len(),
                self.streams@ == old(self).streams@ + added@.take(i as int),
                self.home == old(self).home,
                self.away == old(self).away,
                self.start_utc == old(self).start_utc,
                self.hour == old(self).hour,
                self.minute == old(self).minute,
            decreases added.len() - i,
        {
            let s = Stream {
                feed_type: added[i].feed_type.clone(),
                url: added[i].url.clone(),
            };
            self.streams.push(s);
            proof {
                assert(self.streams@ =~= old(self).streams@ + added@.take(i + 1));
            }
            i += 1;
        }
        proof {
            assert(added@.take(added.len() as int) =~= added@);
        }
    }
}

/// True of a character that `char::is_control` reports as a control code:
/// the C0 range, DEL, and the C1 range.
pub open spec fn is_control_char(c: char) -> bool {
    (c as u32) < 32 || (127 <= (c as u32) && (c as u32) <= 159)
}

/// True of text that fits on one line of the playlist format: it holds no
/// control character (so in particular no line break).
pub open spec fn single_line(s: Seq<char>) -> bool {
    forall|i: int| 0 <= i < s.len() ==> !is_control_char(#[trigger] s[i])
}

/// Putting two single-line texts side by side stays on one line.
pub proof fn lemma_single_line_concat(a: Seq<char>, b: Seq<char>)
    requires
        single_line(a),
        single_line(b),
    ensures
        single_line(a + b),
{
    assert forall|i: int| 0 <= i < (a + b).len() implies !is_control_char(#[trigger] (a + b)[i]) by {
        if i < a.len() {
            assert((a + b)[i] == a[i]);
        } else {
            assert((a + b)[i] == b[i - a.len()]);
        }
    }
}

} // verus!
