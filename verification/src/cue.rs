//! Cue wire kinds and cue-id naming. A fired cue's id names its slot: `on_cast`,
//! `on_window_{id}`, `on_hit`, `on_end_{id}`, `emit_{id}`; only window-scoped cues
//! (`on_window_*`, `emit_*`) carry a collision-window id a cosmetic can follow.

use vstd::prelude::*;
use crate::text::{strip_prefix, concat_str, has_prefix, str_eq};

verus! {

/// Which slot of a cast timeline fired the cue.
#[derive(Clone, Copy, Debug, PartialEq, Eq, Structural)]
pub enum CueKind {
    OnCast,
    OnWindow,
    OnHit,
    OnEnd,
    OnEmit,
}

/// Why a hitbox ended (carried on `OnEnd` cues only).
#[derive(Clone, Copy, Debug, PartialEq, Eq, Structural)]
pub enum EndReasonWire {
    HitEntity,
    HitWorld,
    Fuse,
}

/// The window id of a window-scoped cue id: the text after an `on_window_` or `emit_` prefix.
pub open spec fn window_id_spec(cue_id: Seq<char>) -> Option<Seq<char>> {
    if has_prefix(cue_id, "on_window_"@) {
        Some(cue_id.subrange("on_window_"@.len() as int, cue_id.len() as int))
    } else if has_prefix(cue_id, "emit_"@) {
        Some(cue_id.subrange("emit_"@.len() as int, cue_id.len() as int))
    } else {
        None
    }
}

/// Strip a fired cue id's `on_window_`/`emit_` prefix down to its window id; `None` for every
/// other cue-id shape (`on_cast`, `on_hit`, `on_end_*`).
pub fn window_id_for_cue(cue_id: &str) -> (r: Option<&str>)
    ensures
        match (r, window_id_spec(cue_id@)) {
            (Some(w), Some(v)) => w@ == v,
            (None, None) => true,
            _ => false,
        },
{
    match strip_prefix(cue_id, "on_window_") {
        Some(w) => Some(w),
        None => strip_prefix(cue_id, "emit_"),
    }
}

/// The end-cue id that terminates a cosmetic flying along window `window_id`.
pub fn end_cue_for_window(window_id: &str) -> (r: String)
    ensures
        r@ == "on_end_"@ + window_id@,
{
    concat_str("on_end_", window_id)
}

/// An `OnEnd` cue retires exactly the cosmetic projectiles bound to its own id.
pub fn end_cue_retires(kind: CueKind, bound_end_cue: Option<&str>, cue_id: &str) -> (r: bool)
    ensures
        r == (kind == CueKind::OnEnd && match bound_end_cue {
            Some(b) => b@ == cue_id@,
            None => false,
        }),
{
    match kind {
        CueKind::OnEnd => match bound_end_cue {
            Some(b) => str_eq(b, cue_id),
            None => false,
        },
        _ => false,
    }
}

/// Only the cast slot's cue is lifted from the body centre to muzzle height.
pub fn lifts_to_muzzle(kind: CueKind) -> (r: bool)
    ensures
        r == (kind == CueKind::OnCast),
{
    match kind {
        CueKind::OnCast => true,
        _ => false,
    }
}

/// Window-scoped cue ids give back the window they were named for, and end cues are never
/// window-scoped: a cosmetic bound to `end_cue_for_window(w)` is never itself re-launched.
pub proof fn lemma_cue_naming_roundtrip(w: Seq<char>)
    ensures
        window_id_spec("on_window_"@ + w) == Some(w),
        window_id_spec("emit_"@ + w) == Some(w),
        window_id_spec("on_end_"@ + w) is None,
        window_id_spec("on_cast"@) is None,
        window_id_spec("on_hit"@) is None,
{
    reveal_strlit("on_window_");
    reveal_strlit("emit_");
    reveal_strlit("on_end_");
    reveal_strlit("on_cast");
    reveal_strlit("on_hit");
    let a = "on_window_"@ + w;
    assert(a.subrange(0, 10) =~= "on_window_"@);
    assert(a.subrange(10, a.len() as int) =~= w);
    let b = "emit_"@ + w;
    assert(b.subrange(0, 5) =~= "emit_"@);
    assert(b.subrange(5, b.len() as int) =~= w);
    assert(!has_prefix(b, "on_window_"@)) by {
        if has_prefix(b, "on_window_"@) {
            assert(b.subrange(0, 10)[0] == b[0]);
        }
    }
    let c = "on_end_"@ + w;
    assert(!has_prefix(c, "on_window_"@)) by {
        if has_prefix(c, "on_window_"@) {
            assert(c.subrange(0, 10)[3] == c[3]);
        }
    }
    assert(!has_prefix(c, "emit_"@)) by {
        if has_prefix(c, "emit_"@) {
            assert(c.subrange(0, 5)[0] == c[0]);
        }
    }
    let d = "on_cast"@;
    assert(!has_prefix(d, "emit_"@)) by {
        if has_prefix(d, "emit_"@) {
            assert(d.subrange(0, 5)[0] == d[0]);
        }
    }
    let e = "on_hit"@;
    assert(!has_prefix(e, "emit_"@)) by {
        if has_prefix(e, "emit_"@) {
            assert(e.subrange(0, 5)[0] == e[0]);
        }
    }
}

} // verus!
