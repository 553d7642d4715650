//! The scan core: a decoded payload resolves to an entity id, and a
//! rolling accumulator debounces a live scanner — an id is emitted once,
//! then suppressed until it ages out of the window of the last `window`
//! distinct ids.

use vstd::prelude::*;

use std::collections::VecDeque;

use crate::text::{occurs_at, rfind, rfind_pat, string_of, to_chars, trim, trim_bounds};

verus! {

/// The part after the last `/` (the whole text when there is none).
pub open spec fn last_segment(p: Seq<char>) -> Seq<char> {
    match rfind(p, "/"@) {
        Some(i) => p.skip(i + 1),
        None => p,
    }
}

/// The id a payload resolves to: trimmed, its last path segment, a `qx:`
/// prefix stripped, trimmed again; `None` when nothing is left.
pub open spec fn resolve_s(payload: Seq<char>) -> Option<Seq<char>> {
    let core = last_segment(trim(payload));
    let core = if occurs_at(core, "qx:"@, 0) { core.skip(3) } else { core };
    let t = trim(core);
    if t.len() == 0 { None } else { Some(t) }
}

/// Resolve a decoded payload to an entity id: the id itself, optionally
/// `qx:`-prefixed or the last segment of a URL path, trimmed.
pub fn resolve(payload: &str) -> (r: Option<String>)
    ensures
        match resolve_s(payload@) {
            Some(t) => r matches Some(s) && s@ == t,
            None => r is None,
        },
{
    let cs = to_chars(payload);
    let (lo, hi) = trim_bounds(&cs);
    let p: Vec<char> = {
        let s = string_of(&cs, lo, hi);
        to_chars(s.as_str())
    };
    let slash = to_chars("/");
    proof { reveal_strlit("/"); }
    let start = match rfind_pat(&p, &slash) {
        Some(i) => i + 1,
        None => 0,
    };
    let qx = to_chars("qx:");
    proof { reveal_strlit("qx:"); }
    let core_start = if crate::text::starts_at(&p, start, &qx) { start + 3 } else { start };
    proof {
        let core = last_segment(trim(payload@));
        assert(p@.skip(start as int) =~= core);
        if occurs_at(p@, qx@, start as int) {
            assert(core.subrange(0, 3) =~= p@.subrange(start as int, start + 3));
            assert(p@.skip(core_start as int) =~= core.skip(3));
        } else {
            if occurs_at(core, "qx:"@, 0) {
                assert(core.subrange(0, 3) =~= p@.subrange(start as int, start + 3));
            }
        }
    }
    let mut core: Vec<char> = Vec::new();
    let mut i = core_start;
    while i < p.len()
        invariant
            core_start <= i <= p@.len(),
            core@ == p@.subrange(core_start as int, i as int),
        decreases p@.len() - i,
    {
        core.push(p[i]);
        i = i + 1;
        assert(core@ =~= p@.subrange(core_start as int, i as int));
    }
    proof { assert(core@ =~= p@.skip(core_start as int)); }
    let (a, b) = trim_bounds(&core);
    if a == b {
        return None;
    }
    Some(string_of(&core, a, b))
}

/// Whether an offered id is new: not among the recent ones.
pub open spec fn accepted(recent: Seq<Seq<char>>, id: Seq<char>) -> bool {
    !recent.contains(id)
}

/// The recent ids after an offer: a new id joins at the back and the
/// oldest fall off beyond `window`; a duplicate changes nothing.
pub open spec fn after_offer(recent: Seq<Seq<char>>, window: nat, id: Seq<char>) -> Seq<Seq<char>> {
    if recent.contains(id) {
        recent
    } else {
        let r = recent.push(id);
        if r.len() > window { r.skip(r.len() - window) } else { r }
    }
}

/// Debounces repeated decodes of the same id across frames.
#[derive(Debug)]
pub struct RollingAccumulator {
    window: usize,
    recent: VecDeque<String>,
}

impl RollingAccumulator {
    /// The window size (at least 1).
    pub closed spec fn window_len(&self) -> nat {
        self.window as nat
    }

    /// The recent distinct ids, oldest first.
    pub closed spec fn recent_ids(&self) -> Seq<Seq<char>> {
        self.recent@.map_values(|s: String| s@)
    }

    /// A window of at least 1 holding at most `window` ids.
    pub closed spec fn wf(&self) -> bool {
        self.window >= 1 && self.recent@.len() <= self.window
    }

    /// An empty accumulator over a window of `window` ids (at least 1).
    pub fn new(window: usize) -> (r: Self)
        ensures
            r.wf(),
            r.window_len() == if window >= 1 { window as nat } else { 1 },
            r.recent_ids() == Seq::<Seq<char>>::empty(),
    {
        let r = RollingAccumulator { window: if window >= 1 { window } else { 1 }, recent: VecDeque::new() };
        proof { assert(r.recent_ids() =~= Seq::<Seq<char>>::empty()); }
        r
    }

    /// Offer an id: `true` when it is new (to be emitted), `false` when it
    /// is still in the window.
    pub fn accept(&mut self, id: &str) -> (r: bool)
        requires
            old(self).wf(),
        ensures
            final(self).wf(),
            final(self).window_len() == old(self).window_len(),
            r == accepted(old(self).recent_ids(), id@),
            final(self).recent_ids() == after_offer(old(self).recent_ids(), old(self).window_len(), id@),
            final(self).recent_ids().contains(id@),
    {
        let ghost ids = self.recent_ids();
        let key = id.to_owned();
        let mut i: usize = 0;
        let n = self.recent.len();
        while i < n
            invariant
                old(self).wf(),
                n == self.recent@.len(),
                self.window == old(self).window,
                self.recent@ == old(self).recent@,
                key@ == id@,
                i <= n,
                ids == self.recent@.map_values(|s: String| s@),
                forall|j: int| 0 <= j < i ==> ids[j] != id@,
            decreases n - i,
        {
            let same = self.recent[i].eq(&key);
            if same {
                proof { assert(ids[i as int] == id@); }
                return false;
            }
            proof { assert(ids[i as int] == self.recent@[i as int]@); }
            i = i + 1;
        }
        proof {
            assert(!ids.contains(id@)) by {
                if ids.contains(id@) {
                    let k = choose|k: int| 0 <= k < ids.len() && ids[k] == id@;
                    assert(ids[k] != id@);
                }
            }
        }
        self.recent.push_back(key);
        let ghost pushed = ids.push(id@);
        proof { assert(self.recent@.map_values(|s: String| s@) =~= pushed); }
        while self.recent.len() > self.window
            invariant
                self.window >= 1,
                self.window == old(self).window,
                1 <= self.recent@.len() <= pushed.len(),
                self.recent@.len() >= self.window || self.recent@.len() == pushed.len(),
                self.recent@.map_values(|s: String| s@) == pushed.skip(pushed.len() - self.recent@.len()),
            decreases self.recent@.len(),
        {
            let ghost before = self.recent@;
            self.recent.pop_front();
            proof {
                let k = pushed.len() - before.len();
                assert(self.recent@ == before.subrange(1, before.len() as int));
                let now = self.recent@.map_values(|s: String| s@);
                let was = before.map_values(|s: String| s@);
                assert forall|j: int| 0 <= j < now.len() implies #[trigger] now[j] == pushed.skip(k + 1)[j] by {
                    assert(self.recent@[j] == before[j + 1]);
                    assert(was[j + 1] == pushed.skip(k)[j + 1]);
                }
                assert(self.recent@.map_values(|s: String| s@) =~= pushed.skip(pushed.len() - self.recent@.len()));
            }
        }
        proof {
            let fin = self.recent@.map_values(|s: String| s@);
            if pushed.len() <= self.window {
                assert(self.recent@.len() == pushed.len());
                assert(pushed.skip(0) =~= pushed);
            } else {
                assert(self.recent@.len() == self.window);
            }
            assert(fin[fin.len() - 1] == id@);
        }
        true
    }
}

/// Law: an id just offered is in the window, so offering it again right
/// away is suppressed.
pub proof fn law_repeat_is_suppressed(recent: Seq<Seq<char>>, window: nat, id: Seq<char>)
    requires
        window >= 1,
    ensures
        after_offer(recent, window, id).contains(id),
        !accepted(after_offer(recent, window, id), id),
{
    if !recent.contains(id) {
        let r = recent.push(id);
        let out = if r.len() > window { r.skip(r.len() - window) } else { r };
        assert(out[out.len() - 1] == id);
    }
}

/// The recent ids after offering `offers` in turn to an empty window.
pub open spec fn replay(window: nat, offers: Seq<Seq<char>>) -> Seq<Seq<char>>
    decreases offers.len(),
{
    if offers.len() == 0 {
        Seq::empty()
    } else {
        after_offer(replay(window, offers.drop_last()), window, offers.last())
    }
}

/// Law: over any history of offers, the window holds at most `window`
/// ids, no id twice, each of them offered at some point, and the id
/// offered last among them.
pub proof fn law_window_over_history(window: nat, offers: Seq<Seq<char>>)
    requires
        window >= 1,
    ensures
        replay(window, offers).len() <= window,
        replay(window, offers).no_duplicates(),
        forall|i: int| 0 <= i < replay(window, offers).len() ==> offers.contains(#[trigger] replay(window, offers)[i]),
        offers.len() > 0 ==> replay(window, offers).contains(offers.last()),
    decreases offers.len(),
{
    if offers.len() > 0 {
        let prev = offers.drop_last();
        let id = offers.last();
        law_window_over_history(window, prev);
        let rec = replay(window, prev);
        law_repeat_is_suppressed(rec, window, id);
        let out = replay(window, offers);
        assert(out == after_offer(rec, window, id));
        if !rec.contains(id) {
            let r = rec.push(id);
            assert(r.no_duplicates()) by {
                assert forall|a: int, b: int| 0 <= a < r.len() && 0 <= b < r.len() && a != b implies r[a] != r[b] by {
                    if a < rec.len() && b < rec.len() {
                    } else if a == rec.len() {
                        assert(rec.contains(rec[b]));
                    } else {
                        assert(rec.contains(rec[a]));
                    }
                }
            }
            if r.len() > window {
                let d = r.len() - window;
                assert(out == r.skip(d));
                assert forall|a: int, b: int| 0 <= a < out.len() && 0 <= b < out.len() && a != b implies out[a] != out[b] by {
                    assert(out[a] == r[a + d] && out[b] == r[b + d]);
                }
                assert forall|i: int| 0 <= i < out.len() implies offers.contains(#[trigger] out[i]) by {
                    assert(out[i] == r[i + d]);
                    if i + d < rec.len() {
                        assert(offers.contains(rec[i + d]));
                        let j = choose|j: int| 0 <= j < offers.len() && offers[j] == rec[i + d];
                        assert(offers[j] == out[i]);
                    } else {
                        assert(offers[offers.len() - 1] == out[i]);
                    }
                }
            } else {
                assert(out == r);
                assert forall|i: int| 0 <= i < out.len() implies offers.contains(#[trigger] out[i]) by {
                    if i < rec.len() {
                        assert(prev.contains(rec[i]));
                        let j = choose|j: int| 0 <= j < prev.len() && prev[j] == rec[i];
                        assert(offers[j] == out[i]);
                    } else {
                        assert(offers[offers.len() - 1] == out[i]);
                    }
                }
            }
        } else {
            assert(out == rec);
            assert forall|i: int| 0 <= i < out.len() implies offers.contains(#[trigger] out[i]) by {
                assert(prev.contains(rec[i]));
                let j = choose|j: int| 0 <= j < prev.len() && prev[j] == rec[i];
                assert(offers[j] == out[i]);
            }
        }
    }
}

/// One scan step on a decoded payload: resolve it, then offer the id;
/// the id to emit, if any.
pub fn scan_step(acc: &mut RollingAccumulator, payload: &str) -> (r: Option<String>)
    requires
        old(acc).wf(),
    ensures
        final(acc).wf(),
        match resolve_s(payload@) {
            None => r is None && final(acc).recent_ids() == old(acc).recent_ids(),
            Some(id) => final(acc).recent_ids() == after_offer(old(acc).recent_ids(), old(acc).window_len(), id)
                && (if accepted(old(acc).recent_ids(), id) { r matches Some(s) && s@ == id } else { r is None }),
        },
{
    let id = match resolve(payload) {
        Some(id) => id,
        None => return None,
    };
    if acc.accept(id.as_str()) {
        Some(id)
    } else {
        None
    }
}

/// A source of camera or video frames as encoded image bytes (PNG/JPEG);
/// the per-shell input. `None` when the stream ends.
pub trait FrameSource {
    fn next_frame(&mut self) -> Option<Vec<u8>>;
}

/// A sink for resolved entity ids; the per-shell output (a queue, an
/// endpoint, stdout, ...).
pub trait Sink {
    fn emit(&mut self, id: &str);
}

/// One frame through the shared core: decode it, resolve the payload and
/// offer the id; the id to emit, if any. A frame that does not decode is
/// skipped and leaves the accumulator as it was.
pub fn scan_frame(acc: &mut RollingAccumulator, frame: &[u8]) -> (r: Option<String>)
    requires
        old(acc).wf(),
    ensures
        final(acc).wf(),
        match crate::qr::qr_decoding(frame@) {
            Err(_) => r is None && final(acc).recent_ids() == old(acc).recent_ids(),
            Ok(payload) => match resolve_s(payload) {
                None => r is None && final(acc).recent_ids() == old(acc).recent_ids(),
                Some(id) => final(acc).recent_ids() == after_offer(old(acc).recent_ids(), old(acc).window_len(), id)
                    && (if accepted(old(acc).recent_ids(), id) { r matches Some(s) && s@ == id } else { r is None }),
            },
        },
{
    match crate::qr::decode_qr(frame) {
        Ok(payload) => scan_step(acc, payload.as_str()),
        Err(_) => None,
    }
}

} // verus!
