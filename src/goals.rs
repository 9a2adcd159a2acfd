use vstd::prelude::*;

use crate::clock::{current_offset, now_seconds};

verus! {

/// What the goal list shows of a goal.
#[derive(Debug)]
pub struct GoalSummary {
    pub slug: String,
    /// Days of slack before the goal derails.
    pub safebuf: i64,
    /// Summary of the goal's rate and limit.
    pub limsum: String,
    /// Seconds since the Unix epoch, at the goal's last datapoint's day.
    pub lastday: i64,
}

/// The colour a goal is listed in.
#[derive(Clone, Copy, Debug, PartialEq, Eq, Structural)]
pub enum GoalColor {
    Red,
    Yellow,
    Blue,
    Green,
    White,
}

/// A line of the goal list.
#[derive(Debug)]
pub struct GoalLine {
    pub text: String,
    pub color: GoalColor,
}

pub const SECONDS_PER_DAY: i128 = 86400;

/// The day number (days since the Unix epoch, rounded down) of an instant.
pub open spec fn day_of(t: int) -> int {
    t / 86400
}

/// The day number of the instant `t`, in seconds since the Unix epoch.
pub fn day_number(t: i128) -> (r: i128)
    ensures
        r == day_of(t as int),
{
    if t >= 0 {
        t / SECONDS_PER_DAY
    } else {
        let back = -(t + 1);
        let r = -(back / SECONDS_PER_DAY) - 1;
        assert(r == day_of(t as int)) by (nonlinear_arith)
            requires
                back == -(t + 1),
                back >= 0,
                r == -(back / 86400) - 1,
        {
        }
        r
    }
}

/// The local day number now, for the instant `now` and the offset from UTC
/// (UTC where it is unknown).
pub fn local_day(now: i64, offset: Option<i32>) -> (r: i128)
    ensures
        r == day_of(
            now + match offset {
                Some(o) => o as int,
                None => 0,
            },
        ),
{
    match offset {
        Some(o) => day_number(now as i128 + o as i128),
        None => day_number(now as i128),
    }
}

/// The goal has a datapoint on day number `today`.
pub fn has_entry_on(goal: &GoalSummary, today: i128) -> (r: bool)
    ensures
        r == (day_of(goal.lastday as int) == today),
{
    day_number(goal.lastday as i128) == today
}

/// The goal has a datapoint today, on the machine's clock and in its time
/// zone (in UTC where the zone cannot be determined).
pub fn has_entry_today(goal: &GoalSummary) -> (r: bool) {
    let now = now_seconds();
    has_entry_on(goal, local_day(now, current_offset()))
}

/// The colour of a goal with `safebuf` days of slack: red for none, yellow
/// for one, blue for two, green for three to six, white otherwise.
pub open spec fn color_for(safebuf: int) -> GoalColor {
    if safebuf == 0 {
        GoalColor::Red
    } else if safebuf == 1 {
        GoalColor::Yellow
    } else if safebuf == 2 {
        GoalColor::Blue
    } else if 3 <= safebuf <= 6 {
        GoalColor::Green
    } else {
        GoalColor::White
    }
}

pub fn safebuf_color(safebuf: i64) -> (r: GoalColor)
    ensures
        r == color_for(safebuf as int),
{
    if safebuf == 0 {
        GoalColor::Red
    } else if safebuf == 1 {
        GoalColor::Yellow
    } else if safebuf == 2 {
        GoalColor::Blue
    } else if 3 <= safebuf && safebuf <= 6 {
        GoalColor::Green
    } else {
        GoalColor::White
    }
}

/// `s` followed by spaces up to `width` characters.
pub open spec fn padded(s: Seq<char>, width: int) -> Seq<char> {
    if s.len() >= width {
        s
    } else {
        s + Seq::new((width - s.len()) as nat, |i: int| ' ')
    }
}

/// The text of a goal's line: a tick where it has an entry today,
/// the slug padded to twenty characters, and the rate summary in brackets.
pub open spec fn goal_text(slug: Seq<char>, limsum: Seq<char>, has_entry: bool) -> Seq<char> {
    (if has_entry {
        "\u{2713}"@
    } else {
        " "@
    }) + seq![' '] + padded(slug, 20) + " ["@ + limsum + "]"@
}

fn pad_to(out: &mut String, s: &str, width: usize)
    ensures
        final(out)@ == old(out)@ + padded(s@, width as int),
{
    out.append(s);
    let n = s.unicode_len();
    let mut k: usize = n;
    proof {
        reveal_strlit(" ");
    }
    while k < width
        invariant
            n == s@.len(),
            n <= k,
            k <= width || n >= width,
            n >= width ==> k == n,
            out@ == old(out)@ + s@ + Seq::new((k - n) as nat, |i: int| ' '),
        decreases width - k,
    {
        let ghost prev = out@;
        out.append(" ");
        proof {
            reveal_strlit(" ");
        }
        assert(out@ =~= prev.push(' '));
        assert(Seq::new((k - n) as nat, |i: int| ' ').push(' ') =~= Seq::new(
            (k + 1 - n) as nat,
            |i: int| ' ',
        ));
        k = k + 1;
    }
    if n >= width {
        assert(Seq::new((k - n) as nat, |i: int| ' ') =~= Seq::<char>::empty());
        assert(out@ =~= old(out)@ + s@);
    } else {
        assert(out@ =~= old(out)@ + (s@ + Seq::new((width - n) as nat, |i: int| ' ')));
    }
}

/// The line that lists `goal`.
pub fn format_goal(goal: &GoalSummary, has_entry: bool) -> (r: GoalLine)
    ensures
        r.text@ == goal_text(goal.slug@, goal.limsum@, has_entry),
        r.color == color_for(goal.safebuf as int),
{
    let mut text = if has_entry {
        String::from_str("\u{2713}")
    } else {
        String::from_str(" ")
    };
    let ghost mark = text@;
    text.append(" ");
    pad_to(&mut text, goal.slug.as_str(), 20);
    text.append(" [");
    text.append(goal.limsum.as_str());
    text.append("]");
    proof {
        reveal_strlit(" ");
        assert(text@ =~= mark + seq![' '] + padded(goal.slug@, 20) + " ["@ + goal.limsum@ + "]"@);
    }
    GoalLine { text, color: safebuf_color(goal.safebuf) }
}

/// Goals are listed those without an entry today first, then by fewest
/// days of slack.
pub fn lists_before(a: &GoalSummary, a_entry: bool, b: &GoalSummary, b_entry: bool) -> (r: bool)
    ensures
        r == ((!a_entry && b_entry) || (a_entry == b_entry && a.safebuf < b.safebuf)),
{
    (!a_entry && b_entry) || (a_entry == b_entry && a.safebuf < b.safebuf)
}

} // verus!
