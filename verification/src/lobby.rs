//! Lobby and round flow on the client: the round-phase wire tags, the banner text, the level the
//! client must load, the once-per-lobby scripted requests, and the scripted skill rotation.

use vstd::prelude::*;
use crate::text::{str_eq, concat_str};
use crate::args::{is_digit, digits_value, parse_decimal_spec};

verus! {

/// Round phase wire tag: waiting in the lobby.
pub const PHASE_LOBBY: u8 = 0;
/// Round phase wire tag: pre-round countdown.
pub const PHASE_COUNTDOWN: u8 = 1;
/// Round phase wire tag: fighting.
pub const PHASE_ACTIVE: u8 = 2;
/// Round phase wire tag: a round just ended.
pub const PHASE_ROUND_OVER: u8 = 3;
/// Round phase wire tag: the match is decided.
pub const PHASE_MATCH_OVER: u8 = 4;

/// One frame of a once-per-lobby scripted request (auto-start a level, auto-equip a weapon):
/// leaving the lobby re-arms it; in the lobby it fires once, the first frame it is ready.
/// Returns `(send, sent_after)`.
pub open spec fn once_per_lobby_spec(phase: u8, sent: bool, ready: bool) -> (bool, bool) {
    if phase != PHASE_LOBBY {
        (false, false)
    } else if sent || !ready {
        (false, sent)
    } else {
        (true, true)
    }
}

/// One frame of a once-per-lobby request; see [`once_per_lobby_spec`].
pub fn once_per_lobby(phase: u8, sent: bool, ready: bool) -> (r: (bool, bool))
    ensures
        r == once_per_lobby_spec(phase, sent, ready),
{
    if phase != PHASE_LOBBY {
        (false, false)
    } else if sent || !ready {
        (false, sent)
    } else {
        (true, true)
    }
}

/// How many requests a run of frames sends, and the latch it ends with.
pub open spec fn once_per_lobby_run(frames: Seq<(u8, bool)>, sent: bool) -> (nat, bool)
    decreases frames.len(),
{
    if frames.len() == 0 {
        (0, sent)
    } else {
        let (send, s1) = once_per_lobby_spec(frames[0].0, sent, frames[0].1);
        let (n, s2) = once_per_lobby_run(frames.drop_first(), s1);
        (if send { n + 1 } else { n }, s2)
    }
}

/// Within one lobby visit (every frame in the lobby phase) at most one request is sent, and none
/// once one was already sent this visit.
pub proof fn lemma_at_most_one_request_per_lobby_visit(frames: Seq<(u8, bool)>, sent: bool)
    requires
        forall|i: int| 0 <= i < frames.len() ==> frames[i].0 == PHASE_LOBBY,
    ensures
        once_per_lobby_run(frames, sent).0 <= 1,
        sent ==> once_per_lobby_run(frames, sent).0 == 0,
    decreases frames.len(),
{
    if frames.len() > 0 {
        let (send, s1) = once_per_lobby_spec(frames[0].0, sent, frames[0].1);
        lemma_at_most_one_request_per_lobby_visit(frames.drop_first(), s1);
    }
}

/// The level part of a round-state message.
#[derive(Clone, Debug)]
pub struct RoundLevelInfo {
    pub phase: u8,
    pub host: u64,
    pub level: String,
}

/// The client's level-flow snapshot.
#[derive(Clone, Debug)]
pub struct ClientLevel {
    /// The locally-loaded level id (`None` until the first sync).
    pub current: Option<String>,
    /// Last received phase tag.
    pub phase: u8,
    /// Last received elected-host client id (0 = none).
    pub host: u64,
}

/// Whether a message names a level other than the one loaded.
pub open spec fn wants_level(current: Option<String>, level: Seq<char>) -> bool {
    level.len() > 0 && match current {
        Some(c) => c@ != level,
        None => true,
    }
}

/// The level to load after a batch of messages: the last message naming a non-empty level
/// different from the loaded one.
pub open spec fn level_target_spec(current: Option<String>, msgs: Seq<RoundLevelInfo>) -> Option<Seq<char>>
    decreases msgs.len(),
{
    if msgs.len() == 0 {
        None
    } else {
        match level_target_spec(current, msgs.drop_last()) {
            t => if wants_level(current, msgs.last().level@) {
                Some(msgs.last().level@)
            } else {
                t
            },
        }
    }
}

/// The level the client loads after a batch of round-state messages. When message `k` names a
/// non-empty level other than the loaded one (any level when none is loaded yet), and every later
/// message names no level or the loaded one, that level is loaded. When every message names no
/// level or the loaded one, nothing is loaded.
pub proof fn lemma_level_target_is_last_change(current: Option<String>, msgs: Seq<RoundLevelInfo>)
    ensures
        forall|k: int|
            #![trigger msgs[k]]
            0 <= k < msgs.len() && msgs[k].level@.len() > 0 && (match current {
                Some(c) => c@ != msgs[k].level@,
                None => true,
            }) && (forall|j: int|
                k < j < msgs.len() ==> msgs[j].level@.len() == 0 || (match current {
                    Some(c) => c@ == msgs[j].level@,
                    None => false,
                })) ==> level_target_spec(current, msgs) == Some(msgs[k].level@),
        (forall|j: int|
            0 <= j < msgs.len() ==> msgs[j].level@.len() == 0 || (match current {
                Some(c) => c@ == msgs[j].level@,
                None => false,
            })) ==> level_target_spec(current, msgs) is None,
    decreases msgs.len(),
{
    if msgs.len() > 0 {
        let p = msgs.drop_last();
        lemma_level_target_is_last_change(current, p);
        let last = msgs.len() - 1;
        assert forall|k: int|
            #![trigger msgs[k]]
            0 <= k < msgs.len() && msgs[k].level@.len() > 0 && (match current {
                Some(c) => c@ != msgs[k].level@,
                None => true,
            }) && (forall|j: int|
                k < j < msgs.len() ==> msgs[j].level@.len() == 0 || (match current {
                    Some(c) => c@ == msgs[j].level@,
                    None => false,
                })) implies level_target_spec(current, msgs) == Some(msgs[k].level@) by {
            if k < last {
                assert(p[k] == msgs[k]);
                assert forall|j: int| k < j < p.len() implies p[j].level@.len() == 0 || (match current {
                    Some(c) => c@ == p[j].level@,
                    None => false,
                }) by {
                    assert(p[j] == msgs[j]);
                }
                assert(msgs[last].level@.len() == 0 || (match current {
                    Some(c) => c@ == msgs[last].level@,
                    None => false,
                }));
            }
        }
        if forall|j: int|
            0 <= j < msgs.len() ==> msgs[j].level@.len() == 0 || (match current {
                Some(c) => c@ == msgs[j].level@,
                None => false,
            }) {
            assert forall|j: int| 0 <= j < p.len() implies p[j].level@.len() == 0 || (match current {
                Some(c) => c@ == p[j].level@,
                None => false,
            }) by {
                assert(p[j] == msgs[j]);
            }
            assert(msgs[last].level@.len() == 0 || (match current {
                Some(c) => c@ == msgs[last].level@,
                None => false,
            }));
        }
    }
}

impl ClientLevel {
    /// Nothing loaded yet, lobby phase, no host.
    pub fn new() -> (r: ClientLevel)
        ensures
            r.current is None,
            r.phase == 0,
            r.host == 0,
    {
        ClientLevel { current: None, phase: 0, host: 0 }
    }

    /// Absorb this frame's round-state messages: phase and host follow the latest message, and
    /// the returned level is the one to load (the caller records it in `current` once loaded).
    pub fn absorb(&mut self, msgs: &Vec<RoundLevelInfo>) -> (r: Option<String>)
        ensures
            final(self).current == old(self).current,
            msgs@.len() == 0 ==> final(self).phase == old(self).phase && final(self).host == old(self).host,
            msgs@.len() > 0 ==> final(self).phase == msgs@.last().phase && final(self).host == msgs@.last().host,
            match (r, level_target_spec(old(self).current, msgs@)) {
                (Some(a), Some(b)) => a@ == b,
                (None, None) => true,
                _ => false,
            },
    {
        let mut target: Option<String> = None;
        let mut i: usize = 0;
        while i < msgs.len()
            invariant
                i <= msgs@.len(),
                self.current == old(self).current,
                i == 0 ==> self.phase == old(self).phase && self.host == old(self).host,
                i > 0 ==> self.phase == msgs@[i - 1].phase && self.host == msgs@[i - 1].host,
                match (target, level_target_spec(self.current, msgs@.take(i as int))) {
                    (Some(a), Some(b)) => a@ == b,
                    (None, None) => true,
                    _ => false,
                },
            decreases msgs@.len() - i,
        {
            let m = &msgs[i];
            self.phase = m.phase;
            self.host = m.host;
            let differs = match &self.current {
                Some(c) => !str_eq(c.as_str(), m.level.as_str()),
                None => true,
            };
            if !m.level.as_str().is_empty() && differs {
                target = Some(m.level.clone());
            }
            proof {
                assert(msgs@.take(i + 1).drop_last() =~= msgs@.take(i as int));
                assert(msgs@.take(i + 1).last() == msgs@[i as int]);
            }
            i = i + 1;
        }
        proof {
            assert(msgs@.take(msgs@.len() as int) =~= msgs@);
        }
        target
    }
}

/// The decimal digits of `n`.
pub open spec fn decimal_of(n: nat) -> Seq<char>
    decreases n,
{
    if n < 10 {
        seq![digit_char(n)]
    } else {
        decimal_of(n / 10) + seq![digit_char(n % 10)]
    }
}

/// The character of a digit.
pub open spec fn digit_char(d: nat) -> char {
    (('0' as u32) + d) as char
}

/// Decimal text reads back as the number it was written from: every character is a digit, the
/// text is never empty, and its value is `n` (so the strict parser gives `n` back whenever `n`
/// fits the parser's limit).
pub proof fn lemma_decimal_round_trips(n: nat, max: int)
    ensures
        decimal_of(n).len() > 0,
        forall|i: int| 0 <= i < decimal_of(n).len() ==> is_digit(#[trigger] decimal_of(n)[i]),
        digits_value(decimal_of(n)) == n,
        n <= max ==> parse_decimal_spec(decimal_of(n), max) == Some(n as int),
    decreases n,
{
    let d = (n % 10) as nat;
    assert(('0' as u32) + d <= '9' as u32);
    let c = digit_char(d);
    assert(c as int == '0' as int + d);
    if n < 10 {
        assert(decimal_of(n) == seq![c]);
        assert(seq![c].drop_last() =~= Seq::<char>::empty());
        assert(digits_value(seq![c]) == digits_value(Seq::<char>::empty()) * 10 + (c as int - '0' as int));
        assert(d == n);
    } else {
        lemma_decimal_round_trips(n / 10, max);
        let h = decimal_of(n / 10);
        assert(decimal_of(n) == h + seq![c]);
        assert((h + seq![c]).drop_last() =~= h);
        assert((h + seq![c]).last() == c);
        assert forall|i: int| 0 <= i < decimal_of(n).len() implies is_digit(#[trigger] decimal_of(n)[i]) by {
            if i < h.len() {
                assert(decimal_of(n)[i] == h[i]);
            }
        }
        assert(digits_value(h + seq![c]) == digits_value(h) * 10 + (c as int - '0' as int));
        assert(n == (n / 10) * 10 + n % 10);
    }
    assert(decimal_of(n)[0] != '+') by {
        assert(is_digit(decimal_of(n)[0]));
    }
    assert(crate::args::decimal_body(decimal_of(n)) == decimal_of(n));
}

/// `n` written in decimal.
pub fn decimal_string(n: u64) -> (r: String)
    ensures
        r@ == decimal_of(n as nat),
    decreases n,
{
    let d = (n % 10) as usize;
    let table = "0123456789";
    proof {
        reveal_strlit("0123456789");
    }
    let one = table.substring_char(d, d + 1);
    proof {
        assert(one@ =~= seq![digit_char(d as nat)]);
    }
    if n < 10 {
        one.to_owned()
    } else {
        let mut head = decimal_string(n / 10);
        head.append(one);
        head
    }
}

/// The score line: `"<id0>:<wins0>  <id1>:<wins1>"`.
pub open spec fn score_line_spec(id0: Seq<char>, wins0: u8, id1: Seq<char>, wins1: u8) -> Seq<char> {
    id0 + ":"@ + decimal_of(wins0 as nat) + "  "@ + id1 + ":"@ + decimal_of(wins1 as nat)
}

/// The round banner for a phase: lobby waits, the countdown shows its whole seconds left, the
/// fight, round and match results carry the winner, and every non-lobby banner ends with the
/// score line (an unknown phase shows the score line alone).
pub open spec fn banner_spec(phase: u8, countdown_secs: u64, score: Seq<char>, winner: Seq<char>) -> Seq<char> {
    if phase == PHASE_LOBBY {
        "waiting for players…"@
    } else if phase == PHASE_COUNTDOWN {
        "round starting in "@ + decimal_of(countdown_secs as nat) + "…   "@ + score
    } else if phase == PHASE_ACTIVE {
        "FIGHT!   "@ + score
    } else if phase == PHASE_ROUND_OVER {
        "round won by "@ + winner + "   "@ + score
    } else if phase == PHASE_MATCH_OVER {
        "MATCH OVER — "@ + winner + " wins!   "@ + score
    } else {
        score
    }
}

/// The score line of the two players.
pub fn score_line(id0: &str, wins0: u8, id1: &str, wins1: u8) -> (r: String)
    ensures
        r@ == score_line_spec(id0@, wins0, id1@, wins1),
{
    let mut s = concat_str(id0, ":");
    let w0 = decimal_string(wins0 as u64);
    s.append(w0.as_str());
    s.append("  ");
    s.append(id1);
    s.append(":");
    let w1 = decimal_string(wins1 as u64);
    s.append(w1.as_str());
    s
}

/// The round banner; `countdown_secs` is the countdown rounded up to whole seconds.
pub fn round_banner(phase: u8, countdown_secs: u64, score: &str, winner: &str) -> (r: String)
    ensures
        r@ == banner_spec(phase, countdown_secs, score@, winner@),
{
    if phase == PHASE_LOBBY {
        "waiting for players…".to_owned()
    } else if phase == PHASE_COUNTDOWN {
        let mut s = String::from_str("round starting in ");
        let c = decimal_string(countdown_secs);
        s.append(c.as_str());
        s.append("…   ");
        s.append(score);
        s
    } else if phase == PHASE_ACTIVE {
        concat_str("FIGHT!   ", score)
    } else if phase == PHASE_ROUND_OVER {
        let mut s = concat_str("round won by ", winner);
        s.append("   ");
        s.append(score);
        s
    } else if phase == PHASE_MATCH_OVER {
        let mut s = concat_str("MATCH OVER — ", winner);
        s.append(" wins!   ");
        s.append(score);
        s
    } else {
        score.to_owned()
    }
}

/// The non-empty comma-separated pieces of the rest of a list, `cur` being the piece read so far.
pub open spec fn comma_pieces(s: Seq<char>, cur: Seq<char>) -> Seq<Seq<char>>
    decreases s.len(),
{
    if s.len() == 0 {
        if cur.len() > 0 { seq![cur] } else { Seq::empty() }
    } else if s[0] == ',' {
        (if cur.len() > 0 { seq![cur] } else { Seq::empty() }) + comma_pieces(s.drop_first(), Seq::empty())
    } else {
        comma_pieces(s.drop_first(), cur.push(s[0]))
    }
}

proof fn lemma_comma_step(s: Seq<char>, i: int, start: int)
    requires
        0 <= start <= i < s.len(),
    ensures
        comma_pieces(s.subrange(i, s.len() as int), s.subrange(start, i)) == (if s[i] == ',' {
            (if i > start { seq![s.subrange(start, i)] } else { Seq::<Seq<char>>::empty() })
                + comma_pieces(s.subrange(i + 1, s.len() as int), Seq::empty())
        } else {
            comma_pieces(s.subrange(i + 1, s.len() as int), s.subrange(start, i + 1))
        }),
{
    let t = s.subrange(i, s.len() as int);
    assert(t.drop_first() =~= s.subrange(i + 1, s.len() as int));
    assert(t[0] == s[i]);
    assert(s.subrange(start, i).push(s[i]) =~= s.subrange(start, i + 1));
}

/// The entries of a comma-separated list are its non-empty comma-free runs: every entry is
/// non-empty and holds no comma, and a list without a comma is its own single entry (none when
/// it is empty).
pub proof fn lemma_comma_pieces_are_runs(s: Seq<char>, cur: Seq<char>)
    requires
        forall|i: int| 0 <= i < cur.len() ==> cur[i] != ',',
    ensures
        forall|k: int|
            0 <= k < comma_pieces(s, cur).len() ==> (#[trigger] comma_pieces(s, cur)[k]).len() > 0
                && forall|i: int| 0 <= i < comma_pieces(s, cur)[k].len() ==> comma_pieces(s, cur)[k][i] != ',',
        (forall|i: int| 0 <= i < s.len() ==> s[i] != ',') ==> comma_pieces(s, cur) == (if cur + s
            =~= Seq::<char>::empty() {
            Seq::<Seq<char>>::empty()
        } else {
            seq![cur + s]
        }),
    decreases s.len(),
{
    if s.len() == 0 {
        assert(cur + s =~= cur);
    } else if s[0] == ',' {
        lemma_comma_pieces_are_runs(s.drop_first(), Seq::empty());
        let head: Seq<Seq<char>> = if cur.len() > 0 { seq![cur] } else { Seq::empty() };
        let rest = comma_pieces(s.drop_first(), Seq::empty());
        assert forall|k: int|
            0 <= k < (head + rest).len() implies (#[trigger] (head + rest)[k]).len() > 0
                && forall|i: int| 0 <= i < (head + rest)[k].len() ==> (head + rest)[k][i] != ',' by {
            if k < head.len() {
                assert((head + rest)[k] == cur);
            } else {
                assert((head + rest)[k] == rest[k - head.len()]);
            }
        }
    } else {
        let c2 = cur.push(s[0]);
        lemma_comma_pieces_are_runs(s.drop_first(), c2);
        assert(c2 + s.drop_first() =~= cur + s);
        if forall|i: int| 0 <= i < s.len() ==> s[i] != ',' {
            assert forall|i: int| 0 <= i < s.drop_first().len() implies s.drop_first()[i] != ',' by {
                assert(s.drop_first()[i] == s[i + 1]);
            }
            assert((cur + s).len() > 0);
        }
    }
}

/// The non-empty entries of a comma-separated list, in order.
pub fn split_commas(list: &str) -> (r: Vec<String>)
    ensures
        r@.len() == comma_pieces(list@, Seq::empty()).len(),
        forall|k: int| 0 <= k < r@.len() ==> r@[k]@ == comma_pieces(list@, Seq::empty())[k],
{
    let n = list.unicode_len();
    let mut out: Vec<String> = Vec::new();
    let mut start: usize = 0;
    let mut i: usize = 0;
    proof {
        assert(list@.subrange(0, n as int) =~= list@);
        assert(list@.subrange(0, 0) =~= Seq::<char>::empty());
    }
    while i < n
        invariant
            n == list@.len(),
            start <= i <= n,
            out@.map_values(|x: String| x@) + comma_pieces(
                list@.subrange(i as int, n as int),
                list@.subrange(start as int, i as int),
            ) == comma_pieces(list@, Seq::empty()),
        decreases n - i,
    {
        let c = list.get_char(i);
        proof {
            lemma_comma_step(list@, i as int, start as int);
        }
        let ghost before = out@.map_values(|x: String| x@);
        if c == ',' {
            if i > start {
                let piece = list.substring_char(start, i);
                out.push(piece.to_owned());
                proof {
                    assert(out@.map_values(|x: String| x@) =~= before.push(list@.subrange(start as int, i as int)));
                    assert(before + (seq![list@.subrange(start as int, i as int)] + comma_pieces(
                        list@.subrange(i + 1, n as int),
                        Seq::empty(),
                    )) =~= out@.map_values(|x: String| x@) + comma_pieces(
                        list@.subrange(i + 1, n as int),
                        Seq::empty(),
                    ));
                }
            } else {
                proof {
                    assert(Seq::<Seq<char>>::empty() + comma_pieces(list@.subrange(i + 1, n as int), Seq::empty())
                        =~= comma_pieces(list@.subrange(i + 1, n as int), Seq::empty()));
                }
            }
            start = i + 1;
            proof {
                assert(list@.subrange(start as int, start as int) =~= Seq::<char>::empty());
            }
        }
        i = i + 1;
    }
    let ghost before = out@.map_values(|x: String| x@);
    proof {
        assert(list@.subrange(n as int, n as int) =~= Seq::<char>::empty());
    }
    if i > start {
        let piece = list.substring_char(start, i);
        out.push(piece.to_owned());
        proof {
            assert(out@.map_values(|x: String| x@) =~= before.push(list@.subrange(start as int, i as int)));
            assert(before + seq![list@.subrange(start as int, i as int)] =~= out@.map_values(|x: String| x@));
        }
    } else {
        proof {
            assert(before + Seq::<Seq<char>>::empty() =~= before);
        }
    }
    proof {
        let v = out@.map_values(|x: String| x@);
        assert forall|k: int| 0 <= k < out@.len() implies out@[k]@ == comma_pieces(list@, Seq::empty())[k] by {
            assert(v[k] == out@[k]@);
        }
    }
    out
}

/// The skill a scripted caster selects on pulse number `pulses`: the list's non-empty entries
/// rotate, one per pulse; `None` when the list has none.
pub fn autocast_skill_for_pulse(list: &str, pulses: usize) -> (r: Option<String>)
    ensures
        match r {
            Some(s) => {
                let p = comma_pieces(list@, Seq::empty());
                p.len() > 0 && s@ == p[(pulses as int) % (p.len() as int)]
            },
            None => comma_pieces(list@, Seq::empty()).len() == 0,
        },
{
    let pieces = split_commas(list);
    if pieces.len() == 0 {
        None
    } else {
        let k = pulses % pieces.len();
        Some(pieces[k].clone())
    }
}

} // verus!
