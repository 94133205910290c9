//! The interaction router: maps each inbound event to exactly one
//! store-and-fan-out call sequence. The router mutates nothing itself;
//! every mutation goes through the store, and the fan-out plan it
//! returns covers every registered surface exactly once.

use vstd::prelude::*;

verus! {

use crate::database::DBMessage;
use crate::database::Database;
use crate::database::DbError;
use crate::database::User;
use crate::database::db_unchanged;
use crate::database::is_toggle;
use crate::database::lemma_resolution_stable;
use crate::database::message_views;
use crate::database::opt_view;
use crate::database::surfaces_for;
use crate::database::user_views;
use crate::database::votes_for;
use crate::database::poll_views;
use crate::database::open_polls_for;
use crate::render::SurfaceUpdate;
use crate::render::dec_spec;
use crate::render::plan_updates;
use crate::render::render_poll;
use crate::render::render_spec;
use crate::render::update_ok;
use crate::render::usize_to_string;

/// Whether `c` is a decimal digit.
pub open spec fn is_digit(c: char) -> bool {
    c == '0' || c == '1' || c == '2' || c == '3' || c == '4' || c == '5' || c == '6' || c == '7'
        || c == '8' || c == '9'
}

/// The value of a digit character (meaningful when `is_digit(c)`).
pub open spec fn digit_val(c: char) -> nat {
    if c == '0' {
        0
    } else if c == '1' {
        1
    } else if c == '2' {
        2
    } else if c == '3' {
        3
    } else if c == '4' {
        4
    } else if c == '5' {
        5
    } else if c == '6' {
        6
    } else if c == '7' {
        7
    } else if c == '8' {
        8
    } else {
        9
    }
}

/// Every character of `s` is a decimal digit.
pub open spec fn all_digits(s: Seq<char>) -> bool {
    forall|i: int| 0 <= i < s.len() ==> is_digit(#[trigger] s[i])
}

/// The numeric value of a digit string.
pub open spec fn dec_value(s: Seq<char>) -> nat
    decreases s.len(),
{
    if s.len() == 0 {
        0
    } else {
        dec_value(s.drop_last()) * 10 + digit_val(s.last())
    }
}

/// A digit string is worth at least any of its prefixes.
proof fn lemma_dec_value_prefix_le(s: Seq<char>, j: int)
    requires
        0 <= j <= s.len(),
    ensures
        dec_value(s.take(j)) <= dec_value(s),
    decreases s.len() - j,
{
    if j == s.len() {
        assert(s.take(j) =~= s);
    } else {
        let t = s.take(j + 1);
        assert(t.drop_last() =~= s.take(j));
        assert(t.last() == s[j]);
        assert(dec_value(s.take(j)) * 10 >= dec_value(s.take(j))) by (nonlinear_arith);
        lemma_dec_value_prefix_le(s, j + 1);
    }
}

/// Parses a non-empty all-digit string as a decimal number, if its
/// value fits; `None` exactly on an empty string, a non-digit, or a
/// value beyond `u32::MAX`.
pub fn parse_u32(s: &str) -> (r: Option<u32>)
    ensures
        r is Some <==> (s@.len() > 0 && all_digits(s@) && dec_value(s@) <= u32::MAX),
        r matches Some(v) ==> v == dec_value(s@),
{
    let n = s.unicode_len();
    if n == 0 {
        return None;
    }
    let mut acc: u64 = 0;
    let mut i: usize = 0;
    while i < n
        invariant
            0 < n == s@.len(),
            i <= n,
            acc <= u32::MAX,
            all_digits(s@.take(i as int)),
            acc == dec_value(s@.take(i as int)),
        decreases n - i,
    {
        let c = s.get_char(i);
        let d: u64 = match c {
            '0' => 0,
            '1' => 1,
            '2' => 2,
            '3' => 3,
            '4' => 4,
            '5' => 5,
            '6' => 6,
            '7' => 7,
            '8' => 8,
            '9' => 9,
            _ => {
                proof {
                    assert(!is_digit(s@[i as int]));
                }
                return None;
            },
        };
        proof {
            assert(d == digit_val(s@[i as int]));
            let t = s@.take(i + 1);
            assert(t.drop_last() =~= s@.take(i as int));
            assert(t.last() == s@[i as int]);
        }
        let next = acc * 10 + d;
        if next > u32::MAX as u64 {
            proof {
                lemma_dec_value_prefix_le(s@, i + 1);
            }
            return None;
        }
        acc = next;
        i += 1;
    }
    proof {
        assert(s@.take(n as int) =~= s@);
    }
    Some(acc as u32)
}

/// One pickable entry of the share list.
#[derive(Debug, Clone)]
pub struct ShareEntry {
    pub result_id: String,
    pub title: String,
    pub text: String,
}

/// `e` is the right share-list entry for an open poll: its id in
/// decimal, its description as title, and the rendering of the poll
/// with no votes yet.
pub open spec fn entry_ok(e: ShareEntry, id: u32, desc: Seq<char>) -> bool {
    &&& e.result_id@ == dec_spec(id as nat)
    &&& e.title@ == desc
    &&& e.text@ == render_spec(desc, Seq::<Seq<char>>::empty(), true)
}

/// `plan` covers every surface of poll `pid` in `db` exactly once, in
/// store order, each update carrying `text` and the actions of an
/// `active` poll.
pub open spec fn plan_ok_for(
    db: Database,
    pid: u32,
    plan: Seq<SurfaceUpdate>,
    text: Seq<char>,
    active: bool,
) -> bool {
    &&& plan.len() == surfaces_for(db.messages@, pid).len()
    &&& forall|i: int|
        0 <= i < plan.len() ==> update_ok(
            #[trigger] plan[i],
            surfaces_for(db.messages@, pid)[i].0,
            surfaces_for(db.messages@, pid)[i].1,
            text,
            active,
        )
}

/// Clones an optional chat id.
fn clone_opt(o: &Option<String>) -> (r: Option<String>)
    ensures
        opt_view(r) == opt_view(*o),
{
    match o {
        Some(s) => Some(s.clone()),
        None => None,
    }
}

/// A vote tap: resolve the poll, toggle the voter's vote, and plan the
/// fan-out.
///
/// A resolution miss is `NotFound`. On an inactive poll nothing
/// changes and no fan-out is planned (`Ok(None)`). On an active poll
/// the vote set is toggled and the plan covers every surface of the
/// poll with the fresh rendering.
pub fn handle_vote_tap(
    db: &mut Database,
    voter: String,
    token: String,
    location: Option<String>,
) -> (r: Result<Option<Vec<SurfaceUpdate>>, DbError>)
    requires
        old(db).wf(),
    ensures
        final(db).wf(),
        r is Ok <==> old(db).resolvable(token@, opt_view(location)),
        r is Err ==> r == Err::<Option<Vec<SurfaceUpdate>>, DbError>(DbError::NotFound)
            && db_unchanged(*old(db), *final(db)),
        r is Ok ==> ({
            let pid = old(db).resolved_pid(token@, opt_view(location));
            if old(db).poll_at(pid).is_active == 0 {
                r == Ok::<Option<Vec<SurfaceUpdate>>, DbError>(None) && db_unchanged(
                    *old(db),
                    *final(db),
                )
            } else {
                &&& final(db).polls@ == old(db).polls@
                &&& final(db).messages@ == old(db).messages@
                &&& final(db).next_id == old(db).next_id
                &&& is_toggle(old(db).votes@, final(db).votes@, voter@, pid)
                &&& (r matches Ok(Some(plan)) && plan_ok_for(
                    *final(db),
                    pid,
                    plan@,
                    render_spec(
                        old(db).poll_at(pid).description@,
                        votes_for(final(db).votes@, pid),
                        true,
                    ),
                    true,
                ))
            }
        }),
{
    let poll = match db.get_poll_id(token.clone(), clone_opt(&location)) {
        Ok(p) => p,
        Err(_) => {
            return Err(DbError::NotFound);
        },
    };
    if poll.is_active == 0 {
        return Ok(None);
    }
    match db.add_vote_for_poll_message(voter, token.clone(), clone_opt(&location)) {
        Ok(()) => (),
        Err(_) => {
            proof {
                assert(false);
            }
            return Err(DbError::NotFound);
        },
    };
    let messages = match db.get_messages_for_poll(poll.id) {
        Ok(v) => v,
        Err(_) => {
            proof {
                assert(false);
            }
            return Err(DbError::Store);
        },
    };
    proof {
        lemma_resolution_stable(*old(db), *db, token@, opt_view(location));
    }
    let votes = match db.get_votes_for_poll(token, location) {
        Ok(v) => v,
        Err(_) => {
            proof {
                assert(false);
            }
            return Err(DbError::Store);
        },
    };
    let plan = plan_updates(&messages, &votes, poll.description.as_str(), poll.is_active);
    proof {
        let pid = old(db).resolved_pid(token@, opt_view(location));
        let surf = surfaces_for(db.messages@, pid);
        assert(message_views(messages@).len() == messages@.len());
        assert forall|k: int| 0 <= k < plan@.len() implies update_ok(
            #[trigger] plan@[k],
            surf[k].0,
            surf[k].1,
            render_spec(
                old(db).poll_at(pid).description@,
                votes_for(db.votes@, pid),
                true,
            ),
            true,
        ) by {
            assert(message_views(messages@)[k] == (messages@[k].chat_id@, messages@[k].message_id@));
            assert(update_ok(
                plan@[k],
                messages@[k].chat_id@,
                messages@[k].message_id@,
                render_spec(poll.description@, user_views(votes@), true),
                true,
            ));
        }
    }
    Ok(Some(plan))
}

/// A close tap: resolve the poll, flip its active flag, and plan the
/// fan-out with the new state.
///
/// A resolution miss is `NotFound`. The flip is symmetric: a second
/// close tap reopens the poll. The plan covers every surface of the
/// poll; votes are never touched by a close tap.
pub fn handle_close_tap(db: &mut Database, token: String, location: Option<String>) -> (r: Result<
    Vec<SurfaceUpdate>,
    DbError,
>)
    requires
        old(db).wf(),
    ensures
        final(db).wf(),
        r is Ok <==> old(db).resolvable(token@, opt_view(location)),
        r is Err ==> r == Err::<Vec<SurfaceUpdate>, DbError>(DbError::NotFound) && db_unchanged(
            *old(db),
            *final(db),
        ),
        r is Ok ==> ({
            let pid = old(db).resolved_pid(token@, opt_view(location));
            let idx = old(db).poll_index(pid);
            let newv = if old(db).poll_at(pid).is_active == 0 {
                1u32
            } else {
                0u32
            };
            &&& final(db).messages@ == old(db).messages@
            &&& final(db).votes@ == old(db).votes@
            &&& final(db).next_id == old(db).next_id
            &&& final(db).polls@.len() == old(db).polls@.len()
            &&& (forall|k: int|
                0 <= k < old(db).polls@.len() && k != idx ==> final(db).polls@[k] == old(
                    db,
                ).polls@[k])
            &&& final(db).poll_at(pid).is_active == newv
            &&& final(db).poll_at(pid).description == old(db).poll_at(pid).description
            &&& (r matches Ok(plan) && plan_ok_for(
                *final(db),
                pid,
                plan@,
                render_spec(
                    old(db).poll_at(pid).description@,
                    votes_for(old(db).votes@, pid),
                    newv != 0,
                ),
                newv != 0,
            ))
        }),
{
    let poll = match db.get_poll_id(token.clone(), clone_opt(&location)) {
        Ok(p) => p,
        Err(_) => {
            return Err(DbError::NotFound);
        },
    };
    let new_active = match db.change_poll_is_active(poll.id) {
        Ok(v) => v,
        Err(_) => {
            proof {
                assert(false);
            }
            return Err(DbError::NotFound);
        },
    };
    let messages = match db.get_messages_for_poll(poll.id) {
        Ok(v) => v,
        Err(_) => {
            proof {
                assert(false);
            }
            return Err(DbError::Store);
        },
    };
    proof {
        lemma_resolution_stable(*old(db), *db, token@, opt_view(location));
    }
    let votes = match db.get_votes_for_poll(token, location) {
        Ok(v) => v,
        Err(_) => {
            proof {
                assert(false);
            }
            return Err(DbError::Store);
        },
    };
    let plan = plan_updates(&messages, &votes, poll.description.as_str(), new_active);
    proof {
        let pid = old(db).resolved_pid(token@, opt_view(location));
        let surf = surfaces_for(db.messages@, pid);
        assert(message_views(messages@).len() == messages@.len());
        assert forall|k: int| 0 <= k < plan@.len() implies update_ok(
            #[trigger] plan@[k],
            surf[k].0,
            surf[k].1,
            render_spec(
                old(db).poll_at(pid).description@,
                votes_for(old(db).votes@, pid),
                new_active != 0,
            ),
            new_active != 0,
        ) by {
            assert(message_views(messages@)[k] == (messages@[k].chat_id@, messages@[k].message_id@));
            assert(update_ok(
                plan@[k],
                messages@[k].chat_id@,
                messages@[k].message_id@,
                render_spec(poll.description@, user_views(votes@), new_active != 0),
                new_active != 0,
            ));
        }
    }
    Ok(plan)
}

/// A share-picker query: list the requester's open polls, each with
/// its picker id, its title, and the rendering of a fresh copy with no
/// votes.
pub fn handle_share_query(db: &Database, requester: String) -> (es: Vec<ShareEntry>)
    ensures
        ({
            let open = open_polls_for(db.polls@, requester@);
            &&& es@.len() == open.len()
            &&& forall|i: int| 0 <= i < es@.len() ==> entry_ok(#[trigger] es@[i], open[i].0, open[i].1)
        }),
{
    let polls = match db.find_active_polls(requester) {
        Ok(v) => v,
        Err(_) => {
            proof {
                assert(false);
            }
            Vec::new()
        },
    };
    let no_votes: Vec<User> = Vec::new();
    let ghost open = open_polls_for(db.polls@, requester@);
    proof {
        assert(poll_views(polls@).len() == polls@.len());
        assert(user_views(no_votes@) =~= Seq::<Seq<char>>::empty());
    }
    let n = polls.len();
    let mut es: Vec<ShareEntry> = Vec::new();
    let mut i: usize = 0;
    while i < n
        invariant
            i <= n,
            n == polls@.len(),
            poll_views(polls@) == open,
            user_views(no_votes@) == Seq::<Seq<char>>::empty(),
            es@.len() == i,
            forall|k: int| 0 <= k < i ==> entry_ok(#[trigger] es@[k], open[k].0, open[k].1),
        decreases n - i,
    {
        let id_text = usize_to_string(polls[i].id as usize);
        let text = render_poll(polls[i].description.as_str(), &no_votes, 1);
        es.push(
            ShareEntry {
                result_id: id_text,
                title: polls[i].description.clone(),
                text,
            },
        );
        proof {
            assert(poll_views(polls@)[i as int] == (polls@[i as int].id, polls@[i as int].description@));
        }
        i += 1;
    }
    es
}

/// A confirmed share: parse the picker id and register the new inline
/// surface for that poll.
///
/// An unparseable picker id is `Validation`; an unknown poll id is
/// `NotFound`; an already-taken inline token is `Store`. Any failure
/// leaves the store unchanged.
pub fn handle_chosen_share(db: &mut Database, token: String, result_id: String) -> (r: Result<
    (),
    DbError,
>)
    requires
        old(db).wf(),
    ensures
        final(db).wf(),
        !(result_id@.len() > 0 && all_digits(result_id@) && dec_value(result_id@) <= u32::MAX)
            ==> r == Err::<(), DbError>(DbError::Validation) && db_unchanged(
            *old(db),
            *final(db),
        ),
        (result_id@.len() > 0 && all_digits(result_id@) && dec_value(result_id@) <= u32::MAX)
            ==> ({
            let pid = dec_value(result_id@) as u32;
            &&& (!old(db).has_poll(pid) ==> r == Err::<(), DbError>(DbError::NotFound)
                && db_unchanged(*old(db), *final(db)))
            &&& (old(db).has_poll(pid) && old(db).has_surface(Seq::<char>::empty(), token@) ==> r
                == Err::<(), DbError>(DbError::Store) && db_unchanged(*old(db), *final(db)))
            &&& (old(db).has_poll(pid) && !old(db).has_surface(Seq::<char>::empty(), token@)
                ==> {
                &&& r is Ok
                &&& final(db).polls@ == old(db).polls@
                &&& final(db).votes@ == old(db).votes@
                &&& final(db).next_id == old(db).next_id
                &&& final(db).messages@.len() == old(db).messages@.len() + 1
                &&& (forall|i: int|
                    0 <= i < old(db).messages@.len() ==> final(db).messages@[i] == old(
                        db,
                    ).messages@[i])
                &&& final(db).messages@.last().chat_id@ == Seq::<char>::empty()
                &&& final(db).messages@.last().message_id@ == token@
                &&& final(db).messages@.last().poll_id == pid
            })
        }),
{
    let pid = match parse_u32(result_id.as_str()) {
        Some(v) => v,
        None => {
            return Err(DbError::Validation);
        },
    };
    proof {
        assert(pid == dec_value(result_id@) as u32);
    }
    db.link_inline_message_to_poll(token, pid)
}

} // verus!
