use crate::github_gate::SupportMode;
use crate::text::{decimal, push_decimal};
use vstd::prelude::*;

verus! {

/// `s` padded on the left with zeros to `width` characters, as the `{:0w}`
/// format writes a number.
pub open spec fn zero_pad(s: Seq<char>, width: nat) -> Seq<char> {
    if s.len() < width {
        Seq::new((width - s.len()) as nat, |i: int| '0') + s
    } else {
        s
    }
}

/// The score line at the top of the screen; the best shown is never below
/// the current score.
pub open spec fn score_line(best: u32, current: u32) -> Seq<char> {
    let shown_best = if current > best {
        current
    } else {
        best
    };
    "HI "@ + zero_pad(decimal(shown_best as nat), 5) + "  SCORE "@ + zero_pad(
        decimal(current as nat),
        5,
    )
}

/// Appends `n` in base ten, padded with zeros to five digits.
fn push_padded(out: &mut String, n: u32)
    ensures
        final(out)@ == old(out)@ + zero_pad(decimal(n as nat), 5),
{
    let mut digits = String::new();
    push_decimal(&mut digits, n);
    let ghost d = decimal(n as nat);
    assert(digits@ =~= d);
    let len = digits.as_str().unicode_len();
    let ghost start = old(out)@;
    let mut pad: usize = 0;
    let missing: usize = if len < 5 {
        5 - len
    } else {
        0
    };
    while pad < missing
        invariant
            pad <= missing,
            missing == (if d.len() < 5 {
                5 - d.len()
            } else {
                0
            }),
            out@ == start + Seq::new(pad as nat, |i: int| '0'),
        decreases missing - pad,
    {
        proof {
            reveal_strlit("0");
        }
        out.append("0");
        pad = pad + 1;
        assert(out@ =~= start + Seq::new(pad as nat, |i: int| '0'));
    }
    out.append(digits.as_str());
    assert(out@ =~= start + zero_pad(d, 5));
}

/// The score line for the stored best and the current run's score.
pub fn score_text(best: u32, current: u32) -> (s: String)
    ensures
        s@ == score_line(best, current),
        current >= best ==> s@ == "HI "@ + zero_pad(decimal(current as nat), 5) + "  SCORE "@
            + zero_pad(decimal(current as nat), 5),
        best >= current ==> s@ == "HI "@ + zero_pad(decimal(best as nat), 5) + "  SCORE "@
            + zero_pad(decimal(current as nat), 5),
{
    let shown_best = if current > best {
        current
    } else {
        best
    };
    let mut s = "HI ".to_owned();
    push_padded(&mut s, shown_best);
    s.append("  SCORE ");
    push_padded(&mut s, current);
    s
}

/// Title and subtitle of the game-over panel.
pub fn game_over_text(mode: &SupportMode) -> (text: (&'static str, &'static str))
    ensures
        mode@ is NotStarred ==> text.0@ == "YOU DID NOT STAR THE REPOSITORY"@ && text.1@
            == "You cannot keep this mode fair until you star the repo."@,
        !(mode@ is NotStarred) ==> text.0@ == "GAME OVER"@ && text.1@
            == "Press SPACE or ENTER to restart"@,
{
    if mode.is_penalty_mode() {
        (
            "YOU DID NOT STAR THE REPOSITORY",
            "You cannot keep this mode fair until you star the repo.",
        )
    } else {
        ("GAME OVER", "Press SPACE or ENTER to restart")
    }
}

/// The best shown on the score line is the larger of the stored best and
/// the current score: never below either of them, and one of the two.
pub proof fn lemma_score_line_shows_max(best: u32, current: u32)
    ensures
        exists|shown: u32|
            #![trigger decimal(shown as nat)]
            {
                &&& shown >= best
                &&& shown >= current
                &&& (shown == best || shown == current)
                &&& score_line(best, current) == "HI "@ + zero_pad(decimal(shown as nat), 5)
                    + "  SCORE "@ + zero_pad(decimal(current as nat), 5)
            },
{
    if current > best {
        assert(decimal(current as nat) == decimal(current as nat));
    } else {
        assert(decimal(best as nat) == decimal(best as nat));
    }
}

/// Padding keeps the digits at the end, fills only with zeros in front, and
/// gives at least `width` characters, adding none when there are enough.
pub proof fn lemma_zero_pad(s: Seq<char>, width: nat)
    ensures
        zero_pad(s, width).len() == if s.len() < width {
            width
        } else {
            s.len()
        },
        zero_pad(s, width).subrange(zero_pad(s, width).len() - s.len(), zero_pad(s, width).len() as int)
            == s,
        forall|i: int|
            0 <= i < zero_pad(s, width).len() - s.len() ==> #[trigger] zero_pad(s, width)[i] == '0',
{
    let p = zero_pad(s, width);
    assert(p.subrange(p.len() - s.len(), p.len() as int) =~= s);
}

} // verus!
