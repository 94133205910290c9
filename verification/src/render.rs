//! The canonical rendering of a poll and the fan-out plan.

use vstd::prelude::*;

verus! {

use crate::database::DBMessage;
use crate::database::User;
use crate::database::user_views;

/// The digit character for `d` (meaningful for `d < 10`).
pub open spec fn digit_char(d: nat) -> char {
    if d == 0 {
        '0'
    } else if d == 1 {
        '1'
    } else if d == 2 {
        '2'
    } else if d == 3 {
        '3'
    } else if d == 4 {
        '4'
    } else if d == 5 {
        '5'
    } else if d == 6 {
        '6'
    } else if d == 7 {
        '7'
    } else if d == 8 {
        '8'
    } else {
        '9'
    }
}

/// The decimal rendering of `n`, most significant digit first.
pub open spec fn dec_spec(n: nat) -> Seq<char>
    decreases n,
{
    if n < 10 {
        seq![digit_char(n)]
    } else {
        dec_spec(n / 10).push(digit_char(n % 10))
    }
}

/// One digit as a string slice.
fn digit_str(d: usize) -> (s: &'static str)
    requires
        d < 10,
    ensures
        s@ == seq![digit_char(d as nat)],
{
    proof {
        reveal_strlit("0");
        reveal_strlit("1");
        reveal_strlit("2");
        reveal_strlit("3");
        reveal_strlit("4");
        reveal_strlit("5");
        reveal_strlit("6");
        reveal_strlit("7");
        reveal_strlit("8");
        reveal_strlit("9");
    }
    let s = if d == 0 {
        "0"
    } else if d == 1 {
        "1"
    } else if d == 2 {
        "2"
    } else if d == 3 {
        "3"
    } else if d == 4 {
        "4"
    } else if d == 5 {
        "5"
    } else if d == 6 {
        "6"
    } else if d == 7 {
        "7"
    } else if d == 8 {
        "8"
    } else {
        "9"
    };
    proof {
        assert(s@ =~= seq![digit_char(d as nat)]);
    }
    s
}

/// Renders `n` in decimal.
pub fn usize_to_string(n: usize) -> (s: String)
    ensures
        s@ == dec_spec(n as nat),
    decreases n,
{
    let d = n % 10;
    if n < 10 {
        String::from_str(digit_str(d))
    } else {
        let mut s = usize_to_string(n / 10);
        let ds = digit_str(d);
        s.append(ds);
        proof {
            assert(s@ =~= dec_spec((n / 10) as nat).push(digit_char((n % 10) as nat)));
        }
        s
    }
}

/// One `@<voter>\n` line per voter, in list order.
pub open spec fn voter_lines(voters: Seq<Seq<char>>) -> Seq<char>
    decreases voters.len(),
{
    if voters.len() == 0 {
        Seq::empty()
    } else {
        voter_lines(voters.drop_last()) + seq!['@'] + voters.last() + seq!['\n']
    }
}

/// The suffix appended to a closed poll's rendering.
pub open spec fn closed_suffix(active: bool) -> Seq<char> {
    if active {
        Seq::empty()
    } else {
        "\nThe poll has been closed!"@
    }
}

/// The canonical rendering of a poll: the description, the attendee
/// count, one line per voter, and the closed suffix when inactive.
pub open spec fn render_spec(desc: Seq<char>, voters: Seq<Seq<char>>, active: bool) -> Seq<char> {
    desc + "\n\nAttendees: "@ + dec_spec(voters.len()) + "\n"@ + voter_lines(voters)
        + closed_suffix(active)
}

/// Renders the canonical text for a poll with the given description,
/// voter list and active flag (`is_active == 0` means closed).
pub fn render_poll(description: &str, votes: &Vec<User>, is_active: u32) -> (s: String)
    ensures
        s@ == render_spec(description@, user_views(votes@), is_active != 0),
{
    let mut s = String::from_str(description);
    s.append("\n\nAttendees: ");
    let count = usize_to_string(votes.len());
    s.append(count.as_str());
    s.append("\n");
    let ghost all = user_views(votes@);
    let ghost head = description@ + "\n\nAttendees: "@ + dec_spec(votes@.len()) + "\n"@;
    proof {
        assert(all.take(0) =~= Seq::<Seq<char>>::empty());
        assert(voter_lines(all.take(0)) =~= Seq::<char>::empty());
        assert(s@ =~= head + voter_lines(all.take(0)));
    }
    let n = votes.len();
    let mut i: usize = 0;
    while i < n
        invariant
            i <= n,
            n == votes@.len(),
            all == user_views(votes@),
            s@ == head + voter_lines(all.take(i as int)),
        decreases n - i,
    {
        s.append("@");
        s.append(votes[i].username.as_str());
        s.append("\n");
        proof {
            reveal_strlit("@");
            reveal_strlit("\n");
            assert("@"@ =~= seq!['@']);
            assert("\n"@ =~= seq!['\n']);
            let t = all.take(i + 1);
            assert(t.drop_last() =~= all.take(i as int));
            assert(t.last() == votes@[i as int].username@);
            assert(s@ =~= head + voter_lines(t));
        }
        i += 1;
    }
    proof {
        assert(all.take(n as int) =~= all);
    }
    if is_active == 0 {
        s.append("\nThe poll has been closed!");
    }
    proof {
        assert(s@ =~= render_spec(description@, user_views(votes@), is_active != 0));
    }
    s
}

/// One planned push to one surface: where to edit, the text to show,
/// and which actions stay available.
#[derive(Debug, Clone)]
pub struct SurfaceUpdate {
    pub chat_id: String,
    pub message_id: String,
    pub text: String,
    pub show_vote: bool,
    pub show_close: bool,
}

/// `u` is the right update for the surface `(loc, tok)`: same place,
/// the canonical text, a vote action only while the poll is open, and a
/// close action only on an open poll's chat surface (never inline).
pub open spec fn update_ok(
    u: SurfaceUpdate,
    loc: Seq<char>,
    tok: Seq<char>,
    text: Seq<char>,
    active: bool,
) -> bool {
    &&& u.chat_id@ == loc
    &&& u.message_id@ == tok
    &&& u.text@ == text
    &&& u.show_vote == active
    &&& u.show_close == (active && loc.len() > 0)
}

/// Computes the fan-out plan: exactly one update per registered
/// surface, each carrying the same canonical rendering.
pub fn plan_updates(messages: &Vec<DBMessage>, votes: &Vec<User>, description: &str, is_active: u32) -> (plan: Vec<
    SurfaceUpdate,
>)
    ensures
        plan@.len() == messages@.len(),
        forall|i: int|
            0 <= i < plan@.len() ==> update_ok(
                #[trigger] plan@[i],
                messages@[i].chat_id@,
                messages@[i].message_id@,
                render_spec(description@, user_views(votes@), is_active != 0),
                is_active != 0,
            ),
{
    let text = render_poll(description, votes, is_active);
    let active = is_active != 0;
    let n = messages.len();
    let mut plan: Vec<SurfaceUpdate> = Vec::new();
    let mut i: usize = 0;
    while i < n
        invariant
            i <= n,
            n == messages@.len(),
            text@ == render_spec(description@, user_views(votes@), is_active != 0),
            active == (is_active != 0),
            plan@.len() == i,
            forall|k: int|
                0 <= k < i ==> update_ok(
                    #[trigger] plan@[k],
                    messages@[k].chat_id@,
                    messages@[k].message_id@,
                    text@,
                    active,
                ),
        decreases n - i,
    {
        let inline = messages[i].chat_id.as_str().is_empty();
        plan.push(
            SurfaceUpdate {
                chat_id: messages[i].chat_id.clone(),
                message_id: messages[i].message_id.clone(),
                text: text.clone(),
                show_vote: active,
                show_close: active && !inline,
            },
        );
        i += 1;
    }
    plan
}

} // verus!
