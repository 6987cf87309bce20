//! Synthesis of the human-readable playlist entry titles:
//! `"<away> @ <home>, <12-hour local start time> - <feed type>"`.
use vstd::prelude::*;
use vstd::string::StringExecFns;

verus! {

/// The decimal digit character for `d`.
pub open spec fn digit_char(d: int) -> char {
    if d == 0 {
        '0'
    } else if d == 1 {
        '1'
    } else if d == 2 {
        '2'
    } else if d == 3 {
        '3'
    } else if d == 4 {
        '4'
    } else if d == 5 {
        '5'
    } else if d == 6 {
        '6'
    } else if d == 7 {
        '7'
    } else if d == 8 {
        '8'
    } else {
        '9'
    }
}

/// A value below 100 as two decimal digits, zero padded.
pub open spec fn two_digit_chars(x: int) -> Seq<char> {
    seq![digit_char(x / 10), digit_char(x % 10)]
}

/// The clock hour on a 12-hour dial: 0 and 12 both read 12.
pub open spec fn hour_on_dial(hour: int) -> int {
    if hour % 12 == 0 {
        12
    } else {
        hour % 12
    }
}

/// The dial hour without a leading zero, one digit for 1-9, two for 10-12.
pub open spec fn dial_hour_chars(dial: int) -> Seq<char> {
    if dial >= 10 {
        seq!['1', digit_char(dial - 10)]
    } else {
        seq![digit_char(dial)]
    }
}

/// A wall-clock reading in 12-hour form: unpadded hour, colon, zero-padded
/// minute, a space, and AM before noon, PM from noon on.
pub open spec fn time12_chars(hour: int, minute: int) -> Seq<char> {
    dial_hour_chars(hour_on_dial(hour)) + ":"@ + two_digit_chars(minute) + " "@ + (if hour < 12 {
        "AM"@
    } else {
        "PM"@
    })
}

/// The full title of one playlist entry.
pub open spec fn title_chars(
    away: Seq<char>,
    home: Seq<char>,
    hour: int,
    minute: int,
    feed_type: Seq<char>,
) -> Seq<char> {
    away + " @ "@ + home + ", "@ + time12_chars(hour, minute) + " - "@ + feed_type
}

/// A synthesized title stays on one line whenever the names and the label
/// it is built from do: the fixed separators and the clock digits hold no
/// control character.
pub proof fn lemma_title_single_line(
    away: Seq<char>,
    home: Seq<char>,
    hour: int,
    minute: int,
    feed_type: Seq<char>,
)
    requires
        crate::model::single_line(away),
        crate::model::single_line(home),
        crate::model::single_line(feed_type),
        0 <= hour < 24,
        0 <= minute < 60,
    ensures
        crate::model::single_line(title_chars(away, home, hour, minute, feed_type)),
{
    reveal_strlit(" @ ");
    reveal_strlit(", ");
    reveal_strlit(" - ");
    reveal_strlit(":");
    reveal_strlit(" ");
    reveal_strlit("AM");
    reveal_strlit("PM");
    assert(forall|d: int| !crate::model::is_control_char(#[trigger] digit_char(d)));
    assert(crate::model::single_line(dial_hour_chars(hour_on_dial(hour))));
    assert(crate::model::single_line(two_digit_chars(minute)));
    assert(crate::model::single_line(" @ "@));
    assert(crate::model::single_line(", "@));
    assert(crate::model::single_line(" - "@));
    assert(crate::model::single_line(":"@));
    assert(crate::model::single_line(" "@));
    assert(crate::model::single_line(if hour < 12 {
        "AM"@
    } else {
        "PM"@
    }));
    crate::model::lemma_single_line_concat(dial_hour_chars(hour_on_dial(hour)), ":"@);
    crate::model::lemma_single_line_concat(
        dial_hour_chars(hour_on_dial(hour)) + ":"@,
        two_digit_chars(minute),
    );
    crate::model::lemma_single_line_concat(
        dial_hour_chars(hour_on_dial(hour)) + ":"@ + two_digit_chars(minute),
        " "@,
    );
    crate::model::lemma_single_line_concat(
        dial_hour_chars(hour_on_dial(hour)) + ":"@ + two_digit_chars(minute) + " "@,
        if hour < 12 {
            "AM"@
        } else {
            "PM"@
        },
    );
    crate::model::lemma_single_line_concat(away, " @ "@);
    crate::model::lemma_single_line_concat(away + " @ "@, home);
    crate::model::lemma_single_line_concat(away + " @ "@ + home, ", "@);
    crate::model::lemma_single_line_concat(
        away + " @ "@ + home + ", "@,
        time12_chars(hour, minute),
    );
    crate::model::lemma_single_line_concat(
        away + " @ "@ + home + ", "@ + time12_chars(hour, minute),
        " - "@,
    );
    crate::model::lemma_single_line_concat(
        away + " @ "@ + home + ", "@ + time12_chars(hour, minute) + " - "@,
        feed_type,
    );
}

/// The single decimal digit `d` as text.
pub(crate) fn digit_str(d: u8) -> (r: &'static str)
    requires
        d < 10,
    ensures
        r@ == seq![digit_char(d as int)],
{
    proof {
        reveal_strlit("0");
        reveal_strlit("1");
        reveal_strlit("2");
        reveal_strlit("3");
        reveal_strlit("4");
        reveal_strlit("5");
        reveal_strlit("6");
        reveal_strlit("7");
        reveal_strlit("8");
        reveal_strlit("9");
    }
    let r = if d == 0 {
        "0"
    } else if d == 1 {
        "1"
    } else if d == 2 {
        "2"
    } else if d == 3 {
        "3"
    } else if d == 4 {
        "4"
    } else if d == 5 {
        "5"
    } else if d == 6 {
        "6"
    } else if d == 7 {
        "7"
    } else if d == 8 {
        "8"
    } else {
        "9"
    };
    proof {
        assert(r@ =~= seq![digit_char(d as int)]);
    }
    r
}

/// Appends `x` to `out` as two decimal digits, zero padded.
fn push_two_digits(out: &mut String, x: u8)
    requires
        x < 100,
    ensures
        final(out)@ == old(out)@ + two_digit_chars(x as int),
{
    let ghost before = out@;
    out.append(digit_str(x / 10));
    out.append(digit_str(x % 10));
    proof {
        assert(final(out)@ =~= before + two_digit_chars(x as int));
    }
}

/// Builds the 12-hour reading of the given wall-clock time.
pub fn format_time12(hour: u8, minute: u8) -> (r: String)
    requires
        hour < 24,
        minute < 60,
    ensures
        r@ == time12_chars(hour as int, minute as int),
{
    let dial: u8 = if hour % 12 == 0 {
        12
    } else {
        hour % 12
    };
    let mut r = String::new();
    if dial >= 10 {
        r.append(digit_str(1));
        r.append(digit_str(dial - 10));
    } else {
        r.append(digit_str(dial));
    }
    proof {
        reveal_strlit("1");
        assert(r@ =~= dial_hour_chars(hour_on_dial(hour as int)));
    }
    r.append(":");
    push_two_digits(&mut r, minute);
    r.append(" ");
    if hour < 12 {
        r.append("AM");
    } else {
        r.append("PM");
    }
    proof {
        assert(r@ =~= time12_chars(hour as int, minute as int));
    }
    r
}

/// Synthesizes the title of one playlist entry from the team names, the
/// local start time, and the feed-type label.
pub fn make_title(away: &str, home: &str, hour: u8, minute: u8, feed_type: &str) -> (r: String)
    requires
        hour < 24,
        minute < 60,
    ensures
        r@ == title_chars(away@, home@, hour as int, minute as int, feed_type@),
{
    let mut r = String::new();
    r.append(away);
    r.append(" @ ");
    r.append(home);
    r.append(", ");
    let time = format_time12(hour, minute);
    r.append(time.as_str());
    r.append(" - ");
    r.append(feed_type);
    proof {
        assert(r@ =~= title_chars(away@, home@, hour as int, minute as int, feed_type@));
    }
    r
}

} // verus!
