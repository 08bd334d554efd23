//! The radial skill wheel: hold to open over the equipped weapon's skills (at most eight
//! segments), release to confirm the picked segment; plus the display label of a skill id.

use vstd::prelude::*;
use crate::text::concat_str;

verus! {

/// Most segments the wheel shows.
pub const MAX_SEGMENTS: usize = 8;

/// The characters `char::to_uppercase` yields for `c` (Unicode's uppercase mapping, which can be
/// more than one character).
pub uninterp spec fn uppercase_of(c: char) -> Seq<char>;

/// `c` uppercased, as std's `char::to_uppercase` gives it. Contract: the result is exactly the
/// sequence that iterator yields (named `uppercase_of`); for an ASCII lowercase letter that is the
/// single matching ASCII uppercase letter, as std's documentation states.
#[verifier::external_body]
fn char_to_uppercase(c: char) -> (r: String)
    ensures
        r@ == uppercase_of(c),
        'a' <= c && c <= 'z' ==> r@ == seq![((c as u32) - 32) as char],
{
    c.to_uppercase().collect::<String>()
}

/// The label of the rest of an id: `_` becomes a space and starts a new word; the first
/// character of each word is uppercased.
pub open spec fn label_spec(s: Seq<char>, at_word_start: bool) -> Seq<char>
    decreases s.len(),
{
    if s.len() == 0 {
        Seq::empty()
    } else if s[0] == '_' {
        seq![' '] + label_spec(s.drop_first(), true)
    } else if at_word_start {
        uppercase_of(s[0]) + label_spec(s.drop_first(), false)
    } else {
        seq![s[0]] + label_spec(s.drop_first(), false)
    }
}

proof fn lemma_label_step(s: Seq<char>, i: int, at: bool)
    requires
        0 <= i < s.len(),
    ensures
        label_spec(s.subrange(i, s.len() as int), at) == (if s[i] == '_' {
            seq![' '] + label_spec(s.subrange(i + 1, s.len() as int), true)
        } else if at {
            uppercase_of(s[i]) + label_spec(s.subrange(i + 1, s.len() as int), false)
        } else {
            seq![s[i]] + label_spec(s.subrange(i + 1, s.len() as int), false)
        }),
{
    let t = s.subrange(i, s.len() as int);
    assert(t.drop_first() =~= s.subrange(i + 1, s.len() as int));
    assert(t[0] == s[i]);
}

/// `s` holds only ASCII lowercase letters and `_`.
pub open spec fn is_snake_ascii(s: Seq<char>) -> bool {
    forall|i: int| 0 <= i < s.len() ==> ('a' <= #[trigger] s[i] && s[i] <= 'z') || s[i] == '_'
}

/// The label of an ASCII snake-case id: `_` becomes a space and starts a new word; the first
/// letter of each word becomes its ASCII capital.
pub open spec fn ascii_label_spec(s: Seq<char>, at_word_start: bool) -> Seq<char>
    decreases s.len(),
{
    if s.len() == 0 {
        Seq::empty()
    } else if s[0] == '_' {
        seq![' '] + ascii_label_spec(s.drop_first(), true)
    } else if at_word_start {
        seq![((s[0] as u32) - 32) as char] + ascii_label_spec(s.drop_first(), false)
    } else {
        seq![s[0]] + ascii_label_spec(s.drop_first(), false)
    }
}

proof fn lemma_ascii_label_step(s: Seq<char>, i: int, at: bool)
    requires
        0 <= i < s.len(),
    ensures
        ascii_label_spec(s.subrange(i, s.len() as int), at) == (if s[i] == '_' {
            seq![' '] + ascii_label_spec(s.subrange(i + 1, s.len() as int), true)
        } else if at {
            seq![((s[i] as u32) - 32) as char] + ascii_label_spec(s.subrange(i + 1, s.len() as int), false)
        } else {
            seq![s[i]] + ascii_label_spec(s.subrange(i + 1, s.len() as int), false)
        }),
{
    let t = s.subrange(i, s.len() as int);
    assert(t.drop_first() =~= s.subrange(i + 1, s.len() as int));
    assert(t[0] == s[i]);
}

/// The label of an ASCII snake-case id, character by character: it is as long as the id, every
/// `_` becomes a space, the first letter of each word (at the start, or right after a `_`)
/// becomes its capital, and every other letter is kept.
pub proof fn lemma_ascii_label_pointwise(s: Seq<char>, at_word_start: bool)
    requires
        is_snake_ascii(s),
    ensures
        ascii_label_spec(s, at_word_start).len() == s.len(),
        forall|i: int|
            0 <= i < s.len() ==> #[trigger] ascii_label_spec(s, at_word_start)[i] == (if s[i] == '_' {
                ' '
            } else if (i == 0 && at_word_start) || (i > 0 && s[i - 1] == '_') {
                ((s[i] as u32) - 32) as char
            } else {
                s[i]
            }),
    decreases s.len(),
{
    if s.len() > 0 {
        let t = s.drop_first();
        assert forall|i: int| 0 <= i < t.len() implies ('a' <= #[trigger] t[i] && t[i] <= 'z') || t[i] == '_' by {
            assert(t[i] == s[i + 1]);
        }
        let next_at = s[0] == '_';
        lemma_ascii_label_pointwise(t, next_at);
        let head: Seq<char> = if s[0] == '_' {
            seq![' ']
        } else if at_word_start {
            seq![((s[0] as u32) - 32) as char]
        } else {
            seq![s[0]]
        };
        assert(ascii_label_spec(s, at_word_start) == head + ascii_label_spec(t, next_at));
        assert forall|i: int| 0 <= i < s.len() implies #[trigger] ascii_label_spec(s, at_word_start)[i] == (if s[i] == '_' {
            ' '
        } else if (i == 0 && at_word_start) || (i > 0 && s[i - 1] == '_') {
            ((s[i] as u32) - 32) as char
        } else {
            s[i]
        }) by {
            if i > 0 {
                assert(ascii_label_spec(s, at_word_start)[i] == ascii_label_spec(t, next_at)[i - 1]);
                assert(t[i - 1] == s[i]);
                if i > 1 {
                    assert(t[i - 2] == s[i - 1]);
                }
            }
        }
    }
}

/// Display label for a skill id: `chain_lightning` → `Chain Lightning`.
pub fn skill_label(id: &str) -> (r: String)
    ensures
        r@ == label_spec(id@, true),
        is_snake_ascii(id@) ==> r@ == ascii_label_spec(id@, true),
{
    let n = id.unicode_len();
    let mut out = String::new();
    let mut at_start = true;
    let mut i: usize = 0;
    proof {
        assert(id@.subrange(0, n as int) =~= id@);
    }
    while i < n
        invariant
            n == id@.len(),
            i <= n,
            out@ + label_spec(id@.subrange(i as int, n as int), at_start) == label_spec(id@, true),
            is_snake_ascii(id@) ==> out@ + ascii_label_spec(id@.subrange(i as int, n as int), at_start)
                == ascii_label_spec(id@, true),
        decreases n - i,
    {
        let c = id.get_char(i);
        proof {
            lemma_label_step(id@, i as int, at_start);
            lemma_ascii_label_step(id@, i as int, at_start);
        }
        let ghost old_out = out@;
        if c == '_' {
            out.append(" ");
            proof {
                reveal_strlit(" ");
                assert(old_out + (seq![' '] + label_spec(id@.subrange(i + 1, n as int), true))
                    =~= out@ + label_spec(id@.subrange(i + 1, n as int), true));
                assert(old_out + (seq![' '] + ascii_label_spec(id@.subrange(i + 1, n as int), true))
                    =~= out@ + ascii_label_spec(id@.subrange(i + 1, n as int), true));
            }
            at_start = true;
        } else if at_start {
            let u = char_to_uppercase(c);
            out.append(u.as_str());
            proof {
                assert(old_out + (uppercase_of(c) + label_spec(id@.subrange(i + 1, n as int), false))
                    =~= out@ + label_spec(id@.subrange(i + 1, n as int), false));
                if is_snake_ascii(id@) {
                    assert('a' <= id@[i as int] && id@[i as int] <= 'z');
                    assert(old_out + (seq![((c as u32) - 32) as char] + ascii_label_spec(
                        id@.subrange(i + 1, n as int),
                        false,
                    )) =~= out@ + ascii_label_spec(id@.subrange(i + 1, n as int), false));
                }
            }
            at_start = false;
        } else {
            let one = id.substring_char(i, i + 1);
            out.append(one);
            proof {
                assert(one@ =~= seq![c]);
                assert(old_out + (seq![c] + label_spec(id@.subrange(i + 1, n as int), false))
                    =~= out@ + label_spec(id@.subrange(i + 1, n as int), false));
                assert(old_out + (seq![c] + ascii_label_spec(id@.subrange(i + 1, n as int), false))
                    =~= out@ + ascii_label_spec(id@.subrange(i + 1, n as int), false));
            }
            at_start = false;
        }
        i = i + 1;
    }
    proof {
        assert(id@.subrange(n as int, n as int) =~= Seq::<char>::empty());
        assert(out@ + Seq::<char>::empty() =~= out@);
    }
    out
}

/// The wheel's centre text: `"<weapon name> · <skill label>"`.
pub fn wheel_center_text(weapon_name: &str, selected_skill: &str) -> (r: String)
    ensures
        r@ == weapon_name@ + " · "@ + label_spec(selected_skill@, true),
{
    let mut out = concat_str(weapon_name, " · ");
    let label = skill_label(selected_skill);
    out.append(label.as_str());
    out
}

/// Wheel state. `skills` is snapshotted at open so a weapon change mid-hold cannot reshuffle
/// the segments under the cursor.
#[derive(Clone, Debug)]
pub struct RadialWheel {
    pub open: bool,
    pub selected: Option<usize>,
    pub skills: Vec<String>,
}

impl RadialWheel {
    /// A closed wheel.
    pub fn new() -> (r: RadialWheel)
        ensures
            !r.open,
            r.selected is None,
            r.skills@.len() == 0,
    {
        RadialWheel { open: false, selected: None, skills: Vec::new() }
    }

    /// Holding the wheel key opens the wheel over the weapon's first eight skills, unless it is
    /// already open or the weapon grants nothing. Returns whether it opened.
    pub fn open_over(&mut self, weapon_skills: &Vec<String>) -> (r: bool)
        ensures
            r == (!old(self).open && weapon_skills@.len() > 0),
            r ==> final(self).open && final(self).selected is None && final(self).skills@
                == weapon_skills@.take(
                if weapon_skills@.len() < 8 { weapon_skills@.len() as int } else { 8 },
            ),
            !r ==> *final(self) == *old(self),
    {
        if self.open || weapon_skills.len() == 0 {
            return false;
        }
        let k: usize = if weapon_skills.len() < MAX_SEGMENTS { weapon_skills.len() } else { MAX_SEGMENTS };
        let mut snap: Vec<String> = Vec::new();
        let mut i: usize = 0;
        while i < k
            invariant
                k <= weapon_skills@.len(),
                i <= k,
                snap@ == weapon_skills@.take(i as int),
            decreases k - i,
        {
            snap.push(weapon_skills[i].clone());
            proof {
                assert(snap@ =~= weapon_skills@.take(i + 1));
            }
            i = i + 1;
        }
        self.skills = snap;
        self.selected = None;
        self.open = true;
        true
    }

    /// Releasing the wheel key confirms: the picked segment's skill (if a segment is picked)
    /// becomes the new selection; the wheel closes either way. `None` when it was not open or
    /// nothing was picked.
    pub fn confirm(&mut self) -> (r: Option<String>)
        ensures
            !final(self).open,
            final(self).skills@ == old(self).skills@,
            final(self).selected == old(self).selected,
            match r {
                Some(s) => old(self).open && old(self).selected is Some
                    && old(self).selected->0 < old(self).skills@.len() && s == old(self).skills@[old(self).selected->0 as int],
                None => !old(self).open || match old(self).selected {
                    Some(i) => i >= old(self).skills@.len(),
                    None => true,
                },
            },
    {
        if !self.open {
            return None;
        }
        self.open = false;
        match self.selected {
            Some(i) => {
                if i < self.skills.len() {
                    Some(self.skills[i].clone())
                } else {
                    None
                }
            },
            None => None,
        }
    }
}

} // verus!
