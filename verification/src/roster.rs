//! The roster query: for each tracked entity, the elapsed online duration
//! since its snapshot or notification instant, formatted as whole hours,
//! minutes and seconds, one line per entity.

use vstd::prelude::*;
use vstd::string::StringExecFns;

verus! {

/// The decimal digit character for `d`, for `d < 10`.
pub open spec fn digit_char(d: nat) -> char
    recommends
        d < 10,
{
    if d == 0 {
        '0'
    } else if d == 1 {
        '1'
    } else if d == 2 {
        '2'
    } else if d == 3 {
        '3'
    } else if d == 4 {
        '4'
    } else if d == 5 {
        '5'
    } else if d == 6 {
        '6'
    } else if d == 7 {
        '7'
    } else if d == 8 {
        '8'
    } else {
        '9'
    }
}

/// The decimal representation of `n`, most significant digit first and
/// without leading zeroes (a single `'0'` for zero itself).
pub open spec fn dec_rep(n: nat) -> Seq<char>
    decreases n,
{
    if n < 10 {
        seq![digit_char(n)]
    } else {
        dec_rep(n / 10) + seq![digit_char(n % 10)]
    }
}

/// An elapsed duration of `elapsed` seconds rendered as whole hours,
/// minutes-mod-60 and seconds-mod-60: for instance `"1h 1m 1s"` for 3661.
pub open spec fn duration_text(elapsed: nat) -> Seq<char> {
    dec_rep(elapsed / 3600) + "h "@ + dec_rep((elapsed / 60) % 60) + "m "@ + dec_rep(elapsed % 60)
        + "s"@
}

/// One roster line for an entity with display label `name`, online for
/// `elapsed` seconds.
pub open spec fn line_text(name: Seq<char>, elapsed: nat) -> Seq<char> {
    name + " has been connected for "@ + duration_text(elapsed) + "\n"@
}

/// The roster lines for labelled rows `(name, since)` read at instant
/// `now`, in row order.
pub open spec fn roster_lines_text(rows: Seq<(String, u64)>, now: u64) -> Seq<char>
    decreases rows.len(),
{
    if rows.len() == 0 {
        Seq::empty()
    } else {
        roster_lines_text(rows.drop_last(), now) + line_text(
            rows.last().0@,
            (now - rows.last().1) as nat,
        )
    }
}

/// The whole roster reply: a heading, then one line per row.
pub open spec fn roster_reply_text(rows: Seq<(String, u64)>, now: u64) -> Seq<char> {
    "the following users are online:\n"@ + roster_lines_text(rows, now)
}

/// Appends the single decimal digit `d` to `out`.
fn push_digit(out: &mut String, d: u64)
    requires
        d < 10,
    ensures
        final(out)@ == old(out)@ + seq![digit_char(d as nat)],
{
    proof {
        reveal_strlit("0");
        reveal_strlit("1");
        reveal_strlit("2");
        reveal_strlit("3");
        reveal_strlit("4");
        reveal_strlit("5");
        reveal_strlit("6");
        reveal_strlit("7");
        reveal_strlit("8");
        reveal_strlit("9");
    }
    let s: &str = if d == 0 {
        "0"
    } else if d == 1 {
        "1"
    } else if d == 2 {
        "2"
    } else if d == 3 {
        "3"
    } else if d == 4 {
        "4"
    } else if d == 5 {
        "5"
    } else if d == 6 {
        "6"
    } else if d == 7 {
        "7"
    } else if d == 8 {
        "8"
    } else {
        "9"
    };
    proof {
        assert(s@ =~= seq![digit_char(d as nat)]);
    }
    out.append(s);
}

/// Appends the decimal representation of `n` to `out`.
pub fn push_decimal(out: &mut String, n: u64)
    ensures
        final(out)@ == old(out)@ + dec_rep(n as nat),
    decreases n,
{
    if n < 10 {
        push_digit(out, n);
    } else {
        push_decimal(out, n / 10);
        push_digit(out, n % 10);
        proof {
            assert(out@ =~= old(out)@ + dec_rep(n as nat));
        }
    }
}

/// Formats an elapsed duration in seconds as whole hours, minutes-mod-60
/// and seconds-mod-60, exactly as `duration_text` states.
pub fn format_duration(elapsed: u64) -> (r: String)
    ensures
        r@ == duration_text(elapsed as nat),
{
    let hours = (elapsed / 60) / 60;
    let minutes = (elapsed / 60) % 60;
    let seconds = elapsed % 60;
    proof {
        assert(elapsed as nat / 60 / 60 == elapsed as nat / 3600) by (nonlinear_arith);
    }
    let mut r = String::new();
    push_decimal(&mut r, hours);
    r.append("h ");
    push_decimal(&mut r, minutes);
    r.append("m ");
    push_decimal(&mut r, seconds);
    r.append("s");
    proof {
        assert(r@ =~= duration_text(elapsed as nat));
    }
    r
}

/// One roster line: the display label, then the elapsed duration from
/// `since` to `now`.
pub fn roster_line(name: &str, since: u64, now: u64) -> (r: String)
    requires
        since <= now,
    ensures
        r@ == line_text(name@, (now - since) as nat),
{
    let mut r = name.to_owned();
    r.append(" has been connected for ");
    let d = format_duration(now - since);
    r.append(d.as_str());
    r.append("\n");
    proof {
        assert(r@ =~= line_text(name@, (now - since) as nat));
    }
    r
}

/// The whole roster reply at instant `now`, one line per `(name, since)`
/// row in row order, under the fixed heading.
pub fn roster_reply(rows: &Vec<(String, u64)>, now: u64) -> (r: String)
    requires
        forall|i: int| 0 <= i < rows@.len() ==> #[trigger] rows@[i].1 <= now,
    ensures
        r@ == roster_reply_text(rows@, now),
{
    let mut r = "the following users are online:\n".to_owned();
    let n = rows.len();
    for i in 0..n
        invariant
            n == rows@.len(),
            forall|j: int| 0 <= j < rows@.len() ==> #[trigger] rows@[j].1 <= now,
            r@ == "the following users are online:\n"@ + roster_lines_text(
                rows@.subrange(0, i as int),
                now,
            ),
    {
        let line = roster_line(rows[i].0.as_str(), rows[i].1, now);
        r.append(line.as_str());
        proof {
            assert(rows@.subrange(0, i + 1 as int).drop_last() =~= rows@.subrange(0, i as int));
            assert(rows@.subrange(0, i + 1 as int).last() == rows@[i as int]);
            assert(r@ =~= "the following users are online:\n"@ + roster_lines_text(
                rows@.subrange(0, i + 1 as int),
                now,
            ));
        }
    }
    proof {
        assert(rows@.subrange(0, n as int) =~= rows@);
    }
    r
}

} // verus!
