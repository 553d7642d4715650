//! The crypto re-open trigger survey: cross-checks the trigger ids an ADR
//! defines against the watcher registry, so that no trigger is silently
//! resolved and no watcher is orphaned.
//!
//! Reading the ADR and the registry file happens outside; this module takes
//! the ADR text and the registry rows.

use crate::obligations::{digit_run, lemma_digit_run};
use crate::text::{dec, is_white_space, is_ws, lead_ws, lemma_lead_ws, push_dec, push_str, push_string,
    split_by, split_chars, string_of, to_chars, views, eq_lit};
use crate::textset::{TextSet, texts};
use vstd::prelude::*;

verus! {

/// The marker a trigger definition line starts with, after indentation.
pub open spec fn trigger_marker() -> Seq<char> {
    seq!['-', ' ', '*', '*', 'T']
}

/// The trigger id `T<n>` a line defines (`- **T1 — …**`), if any.
pub open spec fn trigger_of(line: Seq<char>) -> Option<Seq<char>> {
    let t = line.skip(lead_ws(line) as int);
    let body = t.skip(5);
    if t.len() >= 5 && t.take(5) == trigger_marker() && digit_run(body) > 0 {
        Some(seq!['T'] + body.take(digit_run(body) as int))
    } else {
        None
    }
}

/// Some line of `adr` defines trigger `x`. (Splitting at `\n` finds the
/// same ids as `str::lines`: a trailing `\r` or a final empty line never
/// carries one.)
pub open spec fn defines_trigger(adr: Seq<char>, x: Seq<char>) -> bool {
    exists|k: int| 0 <= k < split_by(adr, '\n').len() && trigger_of(#[trigger] split_by(adr, '\n')[k]) == Some(x)
}

fn line_trigger(cs: &Vec<char>) -> (r: Option<String>)
    ensures
        match r {
            Some(s) => trigger_of(cs@) == Some(s@),
            None => trigger_of(cs@) is None,
        },
{
    let n = cs.len();
    let mut lo: usize = 0;
    while lo < n && is_ws(cs[lo])
        invariant
            lo <= n == cs@.len(),
            forall|j: int| 0 <= j < lo ==> is_white_space(#[trigger] cs@[j]),
        decreases n - lo,
    {
        lo = lo + 1;
    }
    proof {
        lemma_lead_ws(cs@, lo as int);
    }
    let ghost t = cs@.skip(lo as int);
    if n - lo < 5 || cs[lo] != '-' || cs[lo + 1] != ' ' || cs[lo + 2] != '*' || cs[lo + 3] != '*'
        || cs[lo + 4] != 'T' {
        proof {
            if n - lo >= 5 {
                let h = t.take(5);
                assert(h[0] == cs@[lo as int] && h[1] == cs@[lo + 1] && h[2] == cs@[lo + 2]
                    && h[3] == cs@[lo + 3] && h[4] == cs@[lo + 4]);
                assert(h != trigger_marker()) by {
                    if h == trigger_marker() {
                        assert(trigger_marker()[0] == '-' && trigger_marker()[1] == ' '
                            && trigger_marker()[2] == '*' && trigger_marker()[3] == '*'
                            && trigger_marker()[4] == 'T');
                    }
                }
            }
        }
        return None;
    }
    assert(t.take(5) =~= trigger_marker());
    let start = lo + 5;
    let ghost body = t.skip(5);
    assert(body =~= cs@.skip(start as int));
    let mut d = start;
    while d < n && '0' <= cs[d] && cs[d] <= '9'
        invariant
            start <= d <= n,
            n == cs@.len(),
            body == cs@.skip(start as int),
            forall|j: int| start <= j < d ==> crate::text::is_digit(#[trigger] cs@[j]),
        decreases n - d,
    {
        d = d + 1;
    }
    proof {
        let run = digit_run(body);
        assert(run == d - start) by {
            lemma_digit_run(body, 0);
            if run < d - start {
                lemma_digit_run(body, run as int);
                assert(body[run as int] == cs@[start + run as int]);
            } else if run > d - start {
                lemma_digit_run(body, (d - start) as int);
                assert(body[(d - start) as int] == cs@[d as int]);
            }
        }
    }
    if d == start {
        return None;
    }
    let digits = string_of(cs, start, d);
    let mut id = "T".to_owned();
    push_string(&mut id, &digits);
    proof {
        reveal_strlit("T");
        assert(body.take((d - start) as int) =~= cs@.subrange(start as int, d as int));
        assert(id@ =~= seq!['T'] + body.take((d - start) as int));
    }
    Some(id)
}

/// The trigger ids `T<n>` defined in an ADR's text: every line that,
/// after leading white space, reads `- **T` and a run of digits.
pub fn adr_trigger_ids(adr: &str) -> (r: TextSet)
    ensures
        r.wf(),
        forall|x: Seq<char>| #[trigger] r@.contains(x) <==> defines_trigger(adr@, x),
{
    let cs = to_chars(adr);
    let lines = split_chars(&cs, '\n');
    let ghost ls = split_by(adr@, '\n');
    assert(views(lines@) == ls);
    let mut ids = TextSet::new();
    let mut i: usize = 0;
    while i < lines.len()
        invariant
            i <= lines@.len(),
            views(lines@) == ls,
            ls == split_by(adr@, '\n'),
            ids.wf(),
            forall|x: Seq<char>| #[trigger] ids@.contains(x)
                <==> exists|k: int| 0 <= k < i && trigger_of(#[trigger] ls[k]) == Some(x),
        decreases lines.len() - i,
    {
        let ghost before = ids@;
        assert(ls[i as int] == lines@[i as int]@);
        match line_trigger(&lines[i]) {
            Some(id) => {
                let ghost v = id@;
                ids.insert(id);
                assert forall|x: Seq<char>| #[trigger] ids@.contains(x)
                    <==> exists|k: int| 0 <= k < i + 1 && trigger_of(#[trigger] ls[k]) == Some(x) by {
                    if ids@.contains(x) && x != v {
                        assert(before.contains(x));
                    }
                    if exists|k: int| 0 <= k < i + 1 && trigger_of(#[trigger] ls[k]) == Some(x) {
                        let k = choose|k: int| 0 <= k < i + 1 && trigger_of(#[trigger] ls[k]) == Some(x);
                        if k < i {
                            assert(before.contains(x));
                        }
                    }
                    if x == v {
                        assert(trigger_of(ls[i as int]) == Some(x));
                    }
                }
            },
            None => {
                assert forall|x: Seq<char>| #[trigger] ids@.contains(x)
                    <==> exists|k: int| 0 <= k < i + 1 && trigger_of(#[trigger] ls[k]) == Some(x) by {
                    if exists|k: int| 0 <= k < i + 1 && trigger_of(#[trigger] ls[k]) == Some(x) {
                        let k = choose|k: int| 0 <= k < i + 1 && trigger_of(#[trigger] ls[k]) == Some(x);
                        assert(k < i);
                    }
                }
            },
        }
        i = i + 1;
    }
    ids
}

/// One watcher row of the registry (also a watched trigger of a report).
#[derive(Debug, Clone)]
pub struct TriggerRow {
    pub id: String,
    pub status: String,
}

/// The outcome of a survey.
#[derive(Debug)]
pub struct Report {
    /// Triggers both defined and watched, by id, with the status of the
    /// last registry row for the id.
    pub watched: Vec<TriggerRow>,
    /// Defined but without a watcher row.
    pub missing: TextSet,
    /// Watched but not defined.
    pub orphan: TextSet,
    /// Registry rows whose status is neither `watching` nor `fired`.
    pub bad_status: Vec<String>,
    /// Registry rows whose status is `fired`.
    pub fired: Vec<String>,
}

/// The registry has a row for `x`.
pub open spec fn in_registry(reg: Seq<TriggerRow>, x: Seq<char>) -> bool {
    exists|j: int| 0 <= j < reg.len() && #[trigger] reg[j].id@ == x
}

/// The status of the last of the first `k` rows for `x`.
pub open spec fn last_status(reg: Seq<TriggerRow>, x: Seq<char>, k: int) -> Option<Seq<char>>
    decreases k,
{
    if k <= 0 {
        None
    } else if reg[k - 1].id@ == x {
        Some(reg[k - 1].status@)
    } else {
        last_status(reg, x, k - 1)
    }
}

/// `(id, status)` of the watched triggers among the first `k` defined ones.
pub open spec fn watched_upto(defined: Seq<Seq<char>>, reg: Seq<TriggerRow>, k: int) -> Seq<(Seq<char>, Seq<char>)>
    decreases k,
{
    if k <= 0 {
        Seq::empty()
    } else {
        let x = defined[k - 1];
        let prev = watched_upto(defined, reg, k - 1);
        match last_status(reg, x, reg.len() as int) {
            Some(st) => prev.push((x, st)),
            None => prev,
        }
    }
}

/// The models of watched rows.
pub open spec fn pairs(v: Seq<TriggerRow>) -> Seq<(Seq<char>, Seq<char>)> {
    v.map_values(|t: TriggerRow| (t.id@, t.status@))
}

/// The complaint about an unrecognised status.
pub open spec fn bad_status_msg(t: TriggerRow) -> Seq<char> {
    t.id@ + " has unrecognised status `"@ + t.status@ + "`"@
}

/// Complaints about the first `k` registry rows.
pub open spec fn bad_upto(reg: Seq<TriggerRow>, k: int) -> Seq<Seq<char>>
    decreases k,
{
    if k <= 0 {
        Seq::empty()
    } else {
        let t = reg[k - 1];
        bad_upto(reg, k - 1) + (if t.status@ != "watching"@ && t.status@ != "fired"@ {
            seq![bad_status_msg(t)]
        } else {
            Seq::empty()
        })
    }
}

/// Ids of the fired rows among the first `k`.
pub open spec fn fired_upto(reg: Seq<TriggerRow>, k: int) -> Seq<Seq<char>>
    decreases k,
{
    if k <= 0 {
        Seq::empty()
    } else {
        let t = reg[k - 1];
        fired_upto(reg, k - 1) + (if t.status@ == "fired"@ { seq![t.id@] } else { Seq::empty() })
    }
}

fn status_of(reg: &Vec<TriggerRow>, x: &String) -> (r: Option<String>)
    ensures
        match r {
            Some(s) => last_status(reg@, x@, reg@.len() as int) == Some(s@),
            None => last_status(reg@, x@, reg@.len() as int) is None,
        },
{
    let mut k = reg.len();
    while k > 0
        invariant
            k <= reg@.len(),
            last_status(reg@, x@, reg@.len() as int) == last_status(reg@, x@, k as int),
        decreases k,
    {
        if reg[k - 1].id == *x {
            return Some(reg[k - 1].status.clone());
        }
        k = k - 1;
    }
    None
}

proof fn lemma_last_status(reg: Seq<TriggerRow>, x: Seq<char>, k: int)
    requires
        0 <= k <= reg.len(),
    ensures
        (last_status(reg, x, k) is Some) <==> exists|j: int| 0 <= j < k && #[trigger] reg[j].id@ == x,
    decreases k,
{
    if k > 0 {
        lemma_last_status(reg, x, k - 1);
    }
}

/// Surveys the triggers `adr` defines against the registry rows `reg`.
/// Fails when the ADR defines no trigger at all (the parser no longer
/// recognises it).
pub fn survey(adr: &str, reg: &Vec<TriggerRow>) -> (r: Result<Report, String>)
    ensures
        match r {
            Ok(rep) => {
                &&& exists|x: Seq<char>| defines_trigger(adr@, x)
                &&& rep.missing.wf() && rep.orphan.wf()
                &&& forall|x: Seq<char>| #[trigger] rep.missing@.contains(x)
                    <==> (defines_trigger(adr@, x) && !in_registry(reg@, x))
                &&& forall|x: Seq<char>| #[trigger] rep.orphan@.contains(x)
                    <==> (in_registry(reg@, x) && !defines_trigger(adr@, x))
                &&& exists|d: TextSet| #![trigger d.wf()] d.wf()
                    && (forall|x: Seq<char>| #[trigger] d@.contains(x) <==> defines_trigger(adr@, x))
                    && pairs(rep.watched@) == watched_upto(d@, reg@, d@.len() as int)
                &&& texts(rep.bad_status@) == bad_upto(reg@, reg@.len() as int)
                &&& texts(rep.fired@) == fired_upto(reg@, reg@.len() as int)
            },
            Err(e) => {
                &&& forall|x: Seq<char>| !defines_trigger(adr@, x)
                &&& e@ == "no T<n> triggers found in ADR-023 (parser drift?)"@
            },
        },
{
    let defined = adr_trigger_ids(adr);
    if defined.is_empty() {
        assert forall|x: Seq<char>| !defines_trigger(adr@, x) by {
            assert(!defined@.contains(x));
        }
        return Err("no T<n> triggers found in ADR-023 (parser drift?)".to_owned());
    }
    assert(defined@.contains(defined@[0]));
    assert(defines_trigger(adr@, defined@[0]));
    let mut registry_ids = TextSet::new();
    let mut bad_status: Vec<String> = Vec::new();
    let mut fired: Vec<String> = Vec::new();
    let n = reg.len();
    let mut i: usize = 0;
    while i < n
        invariant
            n == reg@.len(),
            i <= n,
            registry_ids.wf(),
            forall|x: Seq<char>| #[trigger] registry_ids@.contains(x)
                <==> exists|j: int| 0 <= j < i && #[trigger] reg@[j].id@ == x,
            texts(bad_status@) == bad_upto(reg@, i as int),
            texts(fired@) == fired_upto(reg@, i as int),
        decreases n - i,
    {
        let t = &reg[i];
        proof {
            reveal_strlit("watching");
            reveal_strlit("fired");
        }
        let st = to_chars(t.status.as_str());
        let ghost bb = bad_status@;
        let ghost fb = fired@;
        if eq_lit(&st, "watching") {
            assert(t.status@ != "fired"@) by {
                assert("watching"@.len() == 8);
                assert("fired"@.len() == 5);
            }
        } else if eq_lit(&st, "fired") {
            let c = t.id.clone();
            fired.push(c);
            proof {
                crate::textset::lemma_texts_push(fb, c);
                reveal_strlit("watching");
                reveal_strlit("fired");
            }
        } else {
            let mut m = t.id.clone();
            push_str(&mut m, " has unrecognised status `");
            push_string(&mut m, &t.status);
            push_str(&mut m, "`");
            assert(m@ =~= bad_status_msg(*t));
            bad_status.push(m);
            proof {
                crate::textset::lemma_texts_push(bb, m);
            }
        }
        assert(texts(bad_status@) =~= bad_upto(reg@, i + 1));
        assert(texts(fired@) =~= fired_upto(reg@, i + 1));
        let ghost before = registry_ids@;
        let id = t.id.clone();
        let ghost v = id@;
        registry_ids.insert(id);
        assert forall|x: Seq<char>| #[trigger] registry_ids@.contains(x)
            <==> exists|j: int| 0 <= j < i + 1 && #[trigger] reg@[j].id@ == x by {
            if registry_ids@.contains(x) && x != v {
                assert(before.contains(x));
            }
            if exists|j: int| 0 <= j < i + 1 && #[trigger] reg@[j].id@ == x {
                let j = choose|j: int| 0 <= j < i + 1 && #[trigger] reg@[j].id@ == x;
                if j < i {
                    assert(before.contains(x));
                }
            }
        }
        i = i + 1;
    }
    // watched and missing, walking the defined ids in order
    let mut watched: Vec<TriggerRow> = Vec::new();
    let mut missing = TextSet::new();
    let m = defined.len();
    let mut k: usize = 0;
    while k < m
        invariant
            m == defined@.len(),
            k <= m,
            missing.wf(),
            forall|x: Seq<char>| #[trigger] missing@.contains(x)
                <==> exists|j: int| 0 <= j < k && defined@[j] == x && !in_registry(reg@, x),
            pairs(watched@) == watched_upto(defined@, reg@, k as int),
        decreases m - k,
    {
        let x = defined.get(k);
        let ghost before = missing@;
        proof {
            lemma_last_status(reg@, x@, reg@.len() as int);
        }
        match status_of(reg, x) {
            Some(st) => {
                let ghost wb = watched@;
                watched.push(TriggerRow { id: x.clone(), status: st });
                assert(pairs(watched@) =~= pairs(wb).push((x@, st@)));
                assert forall|y: Seq<char>| #[trigger] missing@.contains(y)
                    <==> exists|j: int| 0 <= j < k + 1 && defined@[j] == y && !in_registry(reg@, y) by {
                    if exists|j: int| 0 <= j < k + 1 && defined@[j] == y && !in_registry(reg@, y) {
                        let j = choose|j: int| 0 <= j < k + 1 && defined@[j] == y && !in_registry(reg@, y);
                        assert(j < k);
                    }
                }
            },
            None => {
                let ghost v = x@;
                missing.insert(x.clone());
                assert forall|y: Seq<char>| #[trigger] missing@.contains(y)
                    <==> exists|j: int| 0 <= j < k + 1 && defined@[j] == y && !in_registry(reg@, y) by {
                    if missing@.contains(y) && y != v {
                        assert(before.contains(y));
                    }
                    if exists|j: int| 0 <= j < k + 1 && defined@[j] == y && !in_registry(reg@, y) {
                        let j = choose|j: int| 0 <= j < k + 1 && defined@[j] == y && !in_registry(reg@, y);
                        if j < k {
                            assert(before.contains(y));
                        }
                    }
                    if y == v {
                        assert(defined@[k as int] == y && !in_registry(reg@, y));
                    }
                }
            },
        }
        k = k + 1;
    }
    // orphans, walking the registry ids in order
    let mut orphan = TextSet::new();
    let q = registry_ids.len();
    let mut k: usize = 0;
    while k < q
        invariant
            q == registry_ids@.len(),
            k <= q,
            orphan.wf(),
            forall|x: Seq<char>| #[trigger] orphan@.contains(x)
                <==> exists|j: int| 0 <= j < k && registry_ids@[j] == x && !defined@.contains(x),
        decreases q - k,
    {
        let x = registry_ids.get(k);
        let ghost before = orphan@;
        if !defined.contains(x.as_str()) {
            let ghost v = x@;
            orphan.insert(x.clone());
            assert forall|y: Seq<char>| #[trigger] orphan@.contains(y)
                <==> exists|j: int| 0 <= j < k + 1 && registry_ids@[j] == y && !defined@.contains(y) by {
                if orphan@.contains(y) && y != v {
                    assert(before.contains(y));
                }
                if exists|j: int| 0 <= j < k + 1 && registry_ids@[j] == y && !defined@.contains(y) {
                    let j = choose|j: int| 0 <= j < k + 1 && registry_ids@[j] == y && !defined@.contains(y);
                    if j < k {
                        assert(before.contains(y));
                    }
                }
                if y == v {
                    assert(registry_ids@[k as int] == y);
                }
            }
        } else {
            assert forall|y: Seq<char>| #[trigger] orphan@.contains(y)
                <==> exists|j: int| 0 <= j < k + 1 && registry_ids@[j] == y && !defined@.contains(y) by {
                if exists|j: int| 0 <= j < k + 1 && registry_ids@[j] == y && !defined@.contains(y) {
                    let j = choose|j: int| 0 <= j < k + 1 && registry_ids@[j] == y && !defined@.contains(y);
                    assert(j < k);
                }
            }
        }
        k = k + 1;
    }
    proof {
        assert forall|x: Seq<char>| #[trigger] missing@.contains(x)
            <==> (defines_trigger(adr@, x) && !in_registry(reg@, x)) by {
            if defines_trigger(adr@, x) && !in_registry(reg@, x) {
                assert(defined@.contains(x));
                let j = choose|j: int| 0 <= j < defined@.len() && defined@[j] == x;
            }
            if missing@.contains(x) {
                let j = choose|j: int| 0 <= j < m && defined@[j] == x && !in_registry(reg@, x);
                assert(defined@.contains(x));
            }
        }
        assert forall|x: Seq<char>| #[trigger] orphan@.contains(x)
            <==> (in_registry(reg@, x) && !defines_trigger(adr@, x)) by {
            if orphan@.contains(x) {
                let j = choose|j: int| 0 <= j < q && registry_ids@[j] == x && !defined@.contains(x);
                assert(registry_ids@.contains(x));
            }
            if in_registry(reg@, x) && !defines_trigger(adr@, x) {
                let j = choose|j: int| 0 <= j < reg@.len() && #[trigger] reg@[j].id@ == x;
                assert(registry_ids@.contains(x));
                let i = choose|i: int| 0 <= i < registry_ids@.len() && registry_ids@[i] == x;
            }
        }
    }
    Ok(Report { watched, missing, orphan, bad_status, fired })
}

/// `pre + item + post` for each of the first `k` items.
pub open spec fn lines(items: Seq<Seq<char>>, pre: Seq<char>, post: Seq<char>, k: int) -> Seq<char>
    decreases k,
{
    if k <= 0 {
        Seq::empty()
    } else {
        lines(items, pre, post, k - 1) + pre + items[k - 1] + post
    }
}

/// `  id: status` lines for the first `k` watched triggers.
pub open spec fn watched_lines(w: Seq<(Seq<char>, Seq<char>)>, k: int) -> Seq<char>
    decreases k,
{
    if k <= 0 {
        Seq::empty()
    } else {
        watched_lines(w, k - 1) + "  "@ + w[k - 1].0 + ": "@ + w[k - 1].1 + "\n"@
    }
}

fn push_set_lines(out: &mut String, set: &TextSet, pre: &str, post: &str)
    ensures
        final(out)@ == old(out)@ + lines(set@, pre@, post@, set@.len() as int),
{
    let ghost start = out@;
    let mut i: usize = 0;
    while i < set.len()
        invariant
            i <= set@.len(),
            out@ == start + lines(set@, pre@, post@, i as int),
        decreases set@.len() - i,
    {
        push_str(out, pre);
        push_string(out, set.get(i));
        push_str(out, post);
        i = i + 1;
    }
}

fn push_vec_lines(out: &mut String, v: &Vec<String>, pre: &str, post: &str)
    ensures
        final(out)@ == old(out)@ + lines(texts(v@), pre@, post@, v@.len() as int),
{
    let ghost start = out@;
    let mut i: usize = 0;
    while i < v.len()
        invariant
            i <= v@.len(),
            out@ == start + lines(texts(v@), pre@, post@, i as int),
        decreases v.len() - i,
    {
        push_str(out, pre);
        push_string(out, &v[i]);
        push_str(out, post);
        i = i + 1;
    }
}

impl Report {
    /// Some trigger is missing, orphaned or carries an unknown status.
    pub open spec fn is_drifted(&self) -> bool {
        self.missing@.len() > 0 || self.orphan@.len() > 0 || self.bad_status@.len() > 0
    }

    /// The survey's text report.
    pub open spec fn report_text(&self) -> Seq<char> {
        "crypto re-open triggers: "@ + dec(self.watched@.len()) + " watched\n"@
            + watched_lines(pairs(self.watched@), self.watched@.len() as int)
            + lines(self.missing@, "  DRIFT: "@,
                " is defined in ADR-023 but has no watcher row (silently resolved?)\n"@, self.missing@.len() as int)
            + lines(self.orphan@, "  DRIFT: "@,
                " has a watcher row but is not defined in ADR-023 (orphan)\n"@, self.orphan@.len() as int)
            + lines(texts(self.bad_status@), "  DRIFT: "@, "\n"@, self.bad_status@.len() as int)
            + lines(texts(self.fired@), "  FIRED: "@,
                " — its deferred control(s) owe activation (see LOG.md)\n"@, self.fired@.len() as int)
            + (if !self.is_drifted() && self.fired@.len() == 0 {
                "OK: every ADR-023 re-open trigger is watched.\n"@
            } else {
                Seq::empty()
            })
    }

    /// Whether the survey found drift.
    pub fn drifted(&self) -> (r: bool)
        ensures
            r == self.is_drifted(),
    {
        !self.missing.is_empty() || !self.orphan.is_empty() || self.bad_status.len() > 0
    }

    /// The survey's exit code: 1 on drift, else 2 when a trigger fired,
    /// else 0.
    pub fn exit_code(&self) -> (r: u8)
        ensures
            r == (if self.is_drifted() { 1u8 } else if self.fired@.len() > 0 { 2u8 } else { 0u8 }),
    {
        if self.drifted() {
            1
        } else if self.fired.len() > 0 {
            2
        } else {
            0
        }
    }

    /// The text report: a header with the watched count, one line per
    /// watched trigger, then drift and fired lines, and an all-clear line
    /// when there is neither.
    pub fn render(&self) -> (r: String)
        ensures
            r@ == self.report_text(),
    {
        let mut s = String::new();
        push_str(&mut s, "crypto re-open triggers: ");
        push_dec(&mut s, self.watched.len() as u128);
        push_str(&mut s, " watched\n");
        let ghost w = pairs(self.watched@);
        let ghost head = s@;
        let mut i: usize = 0;
        while i < self.watched.len()
            invariant
                i <= self.watched@.len(),
                w == pairs(self.watched@),
                s@ == head + watched_lines(w, i as int),
            decreases self.watched.len() - i,
        {
            push_str(&mut s, "  ");
            push_string(&mut s, &self.watched[i].id);
            push_str(&mut s, ": ");
            push_string(&mut s, &self.watched[i].status);
            push_str(&mut s, "\n");
            i = i + 1;
        }
        push_set_lines(&mut s, &self.missing, "  DRIFT: ",
            " is defined in ADR-023 but has no watcher row (silently resolved?)\n");
        push_set_lines(&mut s, &self.orphan, "  DRIFT: ",
            " has a watcher row but is not defined in ADR-023 (orphan)\n");
        push_vec_lines(&mut s, &self.bad_status, "  DRIFT: ", "\n");
        push_vec_lines(&mut s, &self.fired, "  FIRED: ",
            " — its deferred control(s) owe activation (see LOG.md)\n");
        if !self.drifted() && self.fired.len() == 0 {
            push_str(&mut s, "OK: every ADR-023 re-open trigger is watched.\n");
        }
        assert(s@ =~= self.report_text());
        s
    }
}

proof fn lemma_watched(d: Seq<Seq<char>>, reg: Seq<TriggerRow>, k: int, x: Seq<char>)
    requires
        0 <= k <= d.len(),
        d.take(k).contains(x),
        in_registry(reg, x),
    ensures
        exists|i: int| 0 <= i < watched_upto(d, reg, k).len() && (#[trigger] watched_upto(d, reg, k)[i]).0 == x
            && last_status(reg, x, reg.len() as int) == Some(watched_upto(d, reg, k)[i].1),
    decreases k,
{
    let w = watched_upto(d, reg, k);
    let prev = watched_upto(d, reg, k - 1);
    lemma_last_status(reg, d[k - 1], reg.len() as int);
    lemma_last_status(reg, x, reg.len() as int);
    if d[k - 1] == x {
        let st = last_status(reg, x, reg.len() as int)->0;
        assert(w == prev.push((x, st)));
        assert(w[prev.len() as int].0 == x);
    } else {
        let t = d.take(k);
        let i = choose|i: int| 0 <= i < t.len() && t[i] == x;
        assert(i < k - 1);
        assert(d.take(k - 1)[i] == x);
        lemma_watched(d, reg, k - 1, x);
        let j = choose|j: int| 0 <= j < prev.len() && (#[trigger] prev[j]).0 == x
            && last_status(reg, x, reg.len() as int) == Some(prev[j].1);
        match last_status(reg, d[k - 1], reg.len() as int) {
            Some(st) => {
                assert(w == prev.push((d[k - 1], st)));
                assert(w[j] == prev[j]);
            },
            None => {
                assert(w == prev);
            },
        }
    }
}

/// No trigger is silently resolved: every trigger the ADR defines that
/// has a watcher row is reported as watched, with the status of its last
/// row (one without a row is reported missing by [`survey`]).
pub proof fn law_defined_triggers_are_watched(d: Seq<Seq<char>>, reg: Seq<TriggerRow>, x: Seq<char>)
    requires
        d.contains(x),
        in_registry(reg, x),
    ensures
        exists|i: int| 0 <= i < watched_upto(d, reg, d.len() as int).len()
            && (#[trigger] watched_upto(d, reg, d.len() as int)[i]).0 == x
            && last_status(reg, x, reg.len() as int) == Some(watched_upto(d, reg, d.len() as int)[i].1),
{
    assert(d.take(d.len() as int) =~= d);
    lemma_watched(d, reg, d.len() as int, x);
}

} // verus!
