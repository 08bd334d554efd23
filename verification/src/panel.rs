//! The keyboard-driven lobby list panels (the host's level select and the weapon select): a
//! toggle key opens a snapshot of the choices, arrows move a wrapping highlight, Enter confirms
//! the highlighted choice and closes, Escape or the toggle closes, and the panel force-closes as
//! soon as it is no longer allowed (the phase left the lobby, the host changed).

use vstd::prelude::*;
use crate::text::{position_of, views, first_index_of};

verus! {

/// The keys pressed this frame that the panel reacts to.
#[derive(Clone, Copy, PartialEq, Eq, Structural, Debug)]
pub struct PanelKeys {
    pub toggle: bool,
    pub escape: bool,
    pub down: bool,
    pub up: bool,
    pub enter: bool,
}

/// What the caller must do after a panel step.
#[derive(Clone, PartialEq, Eq, Debug)]
pub enum PanelAction {
    /// Nothing to do.
    Nothing,
    /// The panel opened: build its rows from `choices` with `highlighted` lit.
    Opened,
    /// The panel closed: tear its rows down.
    Closed,
    /// The toggle was pressed but there was nothing to choose from.
    NoChoices,
    /// The highlighted choice was confirmed (send the request); the panel closed.
    Confirmed(String),
}

/// A list panel's state. While open, `choices` is the snapshot taken at open and `highlighted`
/// indexes it.
#[derive(Clone, Debug)]
pub struct ListPanel {
    pub open: bool,
    pub highlighted: usize,
    pub choices: Vec<String>,
}

/// One frame of a list panel, over its state `(open, highlighted, choices)`: the state after the
/// frame and the action. `allowed` says whether the panel may be open now; `candidates` is what
/// an opening snapshots and `initial` the highlight it opens on (kept only when it indexes a
/// candidate, else 0).
/// - An open panel that is no longer allowed force-closes.
/// - The toggle closes an open panel; on a closed one it opens when allowed and there is
///   something to choose (`NoChoices` when the list is empty, nothing when not allowed).
/// - A closed panel ignores every other key.
/// - On an open, allowed panel Escape closes; otherwise Down then Up move the wrapping
///   highlight, and Enter confirms the (moved) highlighted choice and closes.
pub open spec fn panel_step_spec(
    open: bool,
    highlighted: usize,
    choices: Seq<String>,
    keys: PanelKeys,
    allowed: bool,
    candidates: Seq<String>,
    initial: usize,
) -> (bool, usize, Seq<String>, PanelAction) {
    if open && !allowed {
        (false, highlighted, choices, PanelAction::Closed)
    } else if keys.toggle {
        if open {
            (false, highlighted, choices, PanelAction::Closed)
        } else if !allowed {
            (open, highlighted, choices, PanelAction::Nothing)
        } else if candidates.len() == 0 {
            (open, highlighted, choices, PanelAction::NoChoices)
        } else {
            (true, if initial < candidates.len() { initial } else { 0 }, candidates, PanelAction::Opened)
        }
    } else if !open {
        (open, highlighted, choices, PanelAction::Nothing)
    } else if keys.escape {
        (false, highlighted, choices, PanelAction::Closed)
    } else {
        let n = choices.len() as int;
        let h1 = if keys.down { highlight_down(highlighted as int, n) } else { highlighted as int };
        let h2 = if keys.up { highlight_up(h1, n) } else { h1 };
        if keys.enter {
            (false, h2 as usize, choices, PanelAction::Confirmed(choices[h2]))
        } else {
            (true, h2 as usize, choices, PanelAction::Nothing)
        }
    }
}

impl ListPanel {
    /// Well-formed: an open panel has choices and highlights one of them.
    pub open spec fn wf(&self) -> bool {
        self.open ==> self.highlighted < self.choices.len()
    }

    /// A closed, empty panel.
    pub fn new() -> (r: ListPanel)
        ensures
            !r.open,
            r.highlighted == 0,
            r.choices@.len() == 0,
            r.wf(),
    {
        ListPanel { open: false, highlighted: 0, choices: Vec::new() }
    }

    /// One frame of the panel. `allowed` says whether the panel may be open now; `candidates`
    /// is what an opening snapshots, and `initial` the highlight it opens on (kept only when it
    /// indexes a candidate, else 0).
    pub fn step(&mut self, keys: PanelKeys, allowed: bool, candidates: &Vec<String>, initial: usize) -> (r: PanelAction)
        requires
            old(self).wf(),
        ensures
            final(self).wf(),
            (final(self).open, final(self).highlighted, final(self).choices@, r) == panel_step_spec(
                old(self).open,
                old(self).highlighted,
                old(self).choices@,
                keys,
                allowed,
                candidates@,
                initial,
            ),
    {
        if self.open && !allowed {
            self.open = false;
            return PanelAction::Closed;
        }
        if keys.toggle {
            if self.open {
                self.open = false;
                return PanelAction::Closed;
            } else if allowed {
                if candidates.len() == 0 {
                    return PanelAction::NoChoices;
                }
                self.highlighted = if initial < candidates.len() { initial } else { 0 };
                self.choices = candidates.clone();
                self.open = true;
                return PanelAction::Opened;
            }
            return PanelAction::Nothing;
        }
        if !self.open {
            return PanelAction::Nothing;
        }
        if keys.escape {
            self.open = false;
            return PanelAction::Closed;
        }
        let n = self.choices.len();
        proof {
            lemma_wrap(self.highlighted as int, n as int);
        }
        if keys.down {
            self.highlighted = if self.highlighted + 1 == n { 0 } else { self.highlighted + 1 };
        }
        proof {
            lemma_wrap(self.highlighted as int, n as int);
        }
        if keys.up {
            self.highlighted = if self.highlighted == 0 { n - 1 } else { self.highlighted - 1 };
        }
        if keys.enter {
            let chosen = self.choices[self.highlighted].clone();
            self.open = false;
            return PanelAction::Confirmed(chosen);
        }
        PanelAction::Nothing
    }
}

/// The wrapping moves, written without `%`.
proof fn lemma_wrap(h: int, n: int)
    requires
        0 <= h < n,
    ensures
        (h + 1) % n == (if h + 1 == n { 0 } else { h + 1 }),
        (h + n - 1) % n == (if h == 0 { n - 1 } else { h - 1 }),
{
    if h + 1 == n {
        assert((h + 1) % n == 0) by (nonlinear_arith)
            requires
                h + 1 == n,
                n > 0,
        ;
    } else {
        assert((h + 1) % n == h + 1) by (nonlinear_arith)
            requires
                0 <= h + 1 < n,
        ;
    }
    if h == 0 {
        assert((h + n - 1) % n == n - 1) by (nonlinear_arith)
            requires
                h == 0,
                n > 0,
        ;
    } else {
        assert((h + n - 1) % n == h - 1) by (nonlinear_arith)
            requires
                0 < h < n,
        ;
    }
}

/// The highlight after one Down press.
pub open spec fn highlight_down(h: int, n: int) -> int {
    (h + 1) % n
}

/// The highlight after one Up press.
pub open spec fn highlight_up(h: int, n: int) -> int {
    (h + n - 1) % n
}

/// Down and Up undo each other, and the highlight always stays on a row.
pub proof fn lemma_highlight_moves_are_inverse(h: int, n: int)
    requires
        0 <= h < n,
    ensures
        highlight_up(highlight_down(h, n), n) == h,
        highlight_down(highlight_up(h, n), n) == h,
        0 <= highlight_down(h, n) < n,
        0 <= highlight_up(h, n) < n,
{
    if h + 1 == n {
        assert((h + 1) % n == 0) by (nonlinear_arith)
            requires
                h + 1 == n,
                n > 0,
        ;
        assert((n - 1) % n == n - 1) by (nonlinear_arith)
            requires
                n > 0,
        ;
    } else {
        assert((h + 1) % n == h + 1) by (nonlinear_arith)
            requires
                0 <= h + 1 < n,
        ;
        assert((h + 1 + n - 1) % n == h) by (nonlinear_arith)
            requires
                0 <= h < n,
        ;
    }
    if h == 0 {
        assert((h + n - 1) % n == n - 1) by (nonlinear_arith)
            requires
                h == 0,
                n > 0,
        ;
        assert((n - 1 + 1) % n == 0) by (nonlinear_arith)
            requires
                n > 0,
        ;
    } else {
        assert((h + n - 1) % n == h - 1) by (nonlinear_arith)
            requires
                0 < h < n,
        ;
        assert((h - 1 + 1) % n == h) by (nonlinear_arith)
            requires
                0 < h < n,
        ;
    }
}

/// Arrow keys on an open, allowed panel of `n` choices with highlight `h` (no toggle, no
/// Escape): Down moves to the next row and wraps from the last to the first, Up moves to the
/// previous row and wraps from the first to the last, both together cancel out, and Enter in the
/// same frame confirms the choice under the moved highlight and closes the panel. Without Enter
/// the panel stays open on the moved highlight.
pub proof fn lemma_panel_arrows_move_one_row(
    h: usize,
    choices: Seq<String>,
    keys: PanelKeys,
    candidates: Seq<String>,
    initial: usize,
)
    requires
        h < choices.len(),
        choices.len() <= usize::MAX,
        !keys.toggle,
        !keys.escape,
    ensures
        ({
            let n = choices.len() as int;
            let moved: int = if keys.down && !keys.up {
                if h as int == n - 1 { 0 } else { h + 1 }
            } else if keys.up && !keys.down {
                if h == 0 { n - 1 } else { h - 1 }
            } else {
                h as int
            };
            let (open, hl, ch, act) = panel_step_spec(true, h, choices, keys, true, candidates, initial);
            &&& hl as int == moved
            &&& ch == choices
            &&& open == !keys.enter
            &&& act == (if keys.enter { PanelAction::Confirmed(choices[moved]) } else { PanelAction::Nothing })
        }),
{
    let n = choices.len() as int;
    lemma_highlight_moves_are_inverse(h as int, n);
    lemma_wrap(h as int, n);
    let h1 = if keys.down { highlight_down(h as int, n) } else { h as int };
    let h2 = if keys.up { highlight_up(h1, n) } else { h1 };
    assert(0 <= h2 < n);
    if keys.down && !keys.up {
        assert(h2 == (if h as int == n - 1 { 0 } else { h + 1 }));
    } else if keys.up && !keys.down {
        assert(h2 == (if h == 0 { n - 1 } else { h - 1 }));
    } else if keys.up && keys.down {
        assert(h2 == h);
    }
    assert((h2 as usize) as int == h2);
}

/// Opening and closing: a panel that is no longer allowed closes whatever is pressed; the toggle
/// closes an open panel and opens a closed allowed one on a snapshot of the candidates
/// (reporting an empty list instead of opening); Escape closes an open panel; a closed panel
/// ignores every key but the toggle. Closing keeps the snapshot and the highlight.
pub proof fn lemma_panel_open_close(
    open: bool,
    h: usize,
    choices: Seq<String>,
    keys: PanelKeys,
    allowed: bool,
    candidates: Seq<String>,
    initial: usize,
)
    ensures
        ({
            let (o2, h2, c2, act) = panel_step_spec(open, h, choices, keys, allowed, candidates, initial);
            &&& open && (!allowed || keys.toggle || keys.escape) ==> !o2 && act == PanelAction::Closed
                && h2 == h && c2 == choices
            &&& !open && keys.toggle && allowed && candidates.len() > 0 ==> o2 && act == PanelAction::Opened
                && c2 == candidates && (h2 == initial || (initial >= candidates.len() && h2 == 0))
            &&& !open && keys.toggle && allowed && candidates.len() == 0 ==> !o2
                && act == PanelAction::NoChoices
            &&& !open && (!keys.toggle || !allowed) ==> !o2 && act == PanelAction::Nothing && h2 == h
                && c2 == choices
        }),
{
}

/// The host of the lobby: the level panel is meaningful only for the elected host, in the lobby
/// phase (tag 0), and only while a host exists (host id 0 means none).
pub open spec fn is_lobby_host_spec(phase: u8, host: u64, me: u64) -> bool {
    phase == 0 && host != 0 && host == me
}

/// Whether this client is the lobby-phase host.
pub fn is_lobby_host(phase: u8, host: u64, me: u64) -> (r: bool)
    ensures
        r == is_lobby_host_spec(phase, host, me),
{
    phase == 0 && host != 0 && host == me
}

/// One frame of the host's level-select panel (`G`): a list panel allowed only for the
/// lobby-phase host, over the selectable levels, opening on the first one.
pub fn level_panel_step(panel: &mut ListPanel, keys: PanelKeys, phase: u8, host: u64, me: u64, selectable: &Vec<String>) -> (r: PanelAction)
    requires
        old(panel).wf(),
    ensures
        final(panel).wf(),
        (final(panel).open, final(panel).highlighted, final(panel).choices@, r) == panel_step_spec(
            old(panel).open,
            old(panel).highlighted,
            old(panel).choices@,
            keys,
            is_lobby_host_spec(phase, host, me),
            selectable@,
            0,
        ),
{
    let allowed = is_lobby_host(phase, host, me);
    panel.step(keys, allowed, selectable, 0)
}

/// The row the weapon panel opens on: the first row holding the equipped weapon, else 0.
pub open spec fn weapon_panel_initial(weapon_ids: Seq<String>, equipped: Option<Seq<char>>) -> usize {
    match equipped {
        Some(id) => if views(weapon_ids).contains(id) {
            choose|k: usize| first_index_of(views(weapon_ids), id, Some(k))
        } else {
            0
        },
        None => 0,
    }
}

/// The first index of an element is unique.
proof fn lemma_first_index_unique(list: Seq<Seq<char>>, x: Seq<char>, a: usize, b: usize)
    requires
        first_index_of(list, x, Some(a)),
        first_index_of(list, x, Some(b)),
    ensures
        a == b,
{
    if a < b {
        assert(list[a as int] == x);
    } else if b < a {
        assert(list[b as int] == x);
    }
}

/// One frame of the weapon panel (`I`): a list panel allowed in the lobby phase for any player,
/// over the catalog's weapon ids, opening on the equipped weapon when the catalog lists it (else
/// the first weapon).
pub fn weapon_panel_step(panel: &mut ListPanel, keys: PanelKeys, phase: u8, weapon_ids: &Vec<String>, equipped: Option<&str>) -> (r: PanelAction)
    requires
        old(panel).wf(),
    ensures
        final(panel).wf(),
        (final(panel).open, final(panel).highlighted, final(panel).choices@, r) == panel_step_spec(
            old(panel).open,
            old(panel).highlighted,
            old(panel).choices@,
            keys,
            phase == 0,
            weapon_ids@,
            weapon_panel_initial(
                weapon_ids@,
                match equipped {
                    Some(id) => Some(id@),
                    None => None,
                },
            ),
        ),
{
    let initial: usize = match equipped {
        Some(id) => match position_of(weapon_ids, id) {
            Some(i) => {
                proof {
                    assert(views(weapon_ids@)[i as int] == id@);
                    assert(views(weapon_ids@).contains(id@));
                    let k = choose|k: usize| first_index_of(views(weapon_ids@), id@, Some(k));
                    lemma_first_index_unique(views(weapon_ids@), id@, i, k);
                }
                i
            },
            None => 0,
        },
        None => 0,
    };
    panel.step(keys, phase == 0, weapon_ids, initial)
}

} // verus!
