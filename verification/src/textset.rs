//! Ordered sets of texts: the lexicographic order on character sequences
//! and a sorted, duplicate-free string set that iterates in that order.

use crate::text::to_chars;
use vstd::prelude::*;

verus! {

/// Lexicographic order on texts, character by character (shorter prefix
/// first). On `str` this is the order `<` gives, since UTF-8 byte order
/// agrees with code-point order.
pub open spec fn text_lt(a: Seq<char>, b: Seq<char>) -> bool
    decreases a.len(),
{
    if b.len() == 0 {
        false
    } else if a.len() == 0 {
        true
    } else if a[0] != b[0] {
        (a[0] as u32) < (b[0] as u32)
    } else {
        text_lt(a.drop_first(), b.drop_first())
    }
}

/// No text is below itself.
pub proof fn lemma_text_lt_irreflexive(a: Seq<char>)
    ensures
        !text_lt(a, a),
    decreases a.len(),
{
    if a.len() > 0 {
        lemma_text_lt_irreflexive(a.drop_first());
    }
}

/// Two distinct texts are ordered one way or the other, never both.
pub proof fn lemma_text_lt_total(a: Seq<char>, b: Seq<char>)
    ensures
        a != b ==> (text_lt(a, b) || text_lt(b, a)),
        !(text_lt(a, b) && text_lt(b, a)),
    decreases a.len(),
{
    if a.len() > 0 && b.len() > 0 {
        if a[0] == b[0] {
            lemma_text_lt_total(a.drop_first(), b.drop_first());
            if a != b {
                assert(a.drop_first() != b.drop_first()) by {
                    if a.drop_first() == b.drop_first() {
                        assert(a =~= seq![a[0]] + a.drop_first());
                        assert(b =~= seq![b[0]] + b.drop_first());
                    }
                }
            }
        } else {
            let u = a[0] as u32;
            vstd::utf8::char_u32_cast(a[0], u);
            if u == b[0] as u32 {
                vstd::utf8::char_u32_cast(b[0], u);
            }
        }
    } else if a.len() == 0 && b.len() == 0 {
        assert(a =~= b);
    }
}

/// The order is transitive.
pub proof fn lemma_text_lt_transitive(a: Seq<char>, b: Seq<char>, c: Seq<char>)
    requires
        text_lt(a, b),
        text_lt(b, c),
    ensures
        text_lt(a, c),
    decreases a.len(),
{
    if a.len() > 0 && a[0] == b[0] && b[0] == c[0] {
        lemma_text_lt_transitive(a.drop_first(), b.drop_first(), c.drop_first());
    }
}

/// Deciding `text_lt` from offset `i` on.
fn lt_from(a: &Vec<char>, b: &Vec<char>, i: usize) -> (r: bool)
    requires
        i <= a@.len(),
        i <= b@.len(),
    ensures
        r == text_lt(a@.skip(i as int), b@.skip(i as int)),
    decreases a@.len() - i,
{
    let ghost sa = a@.skip(i as int);
    let ghost sb = b@.skip(i as int);
    if i == b.len() {
        false
    } else if i == a.len() {
        true
    } else if a[i] != b[i] {
        assert(sa[0] == a@[i as int] && sb[0] == b@[i as int]);
        (a[i] as u32) < (b[i] as u32)
    } else {
        assert(sa.drop_first() =~= a@.skip(i + 1));
        assert(sb.drop_first() =~= b@.skip(i + 1));
        lt_from(a, b, i + 1)
    }
}

/// Whether `a` sorts strictly before `b`.
pub fn text_less(a: &str, b: &str) -> (r: bool)
    ensures
        r == text_lt(a@, b@),
{
    let ca = to_chars(a);
    let cb = to_chars(b);
    assert(ca@.skip(0) =~= a@);
    assert(cb@.skip(0) =~= b@);
    lt_from(&ca, &cb, 0)
}

/// Every text before a later one.
pub open spec fn strictly_sorted(s: Seq<Seq<char>>) -> bool {
    forall|i: int, j: int| 0 <= i < j < s.len() ==> text_lt(#[trigger] s[i], #[trigger] s[j])
}

/// The texts a vector of strings holds.
pub open spec fn texts(v: Seq<String>) -> Seq<Seq<char>> {
    v.map_values(|s: String| s@)
}

/// Pushing a string pushes its text.
pub proof fn lemma_texts_push(v: Seq<String>, x: String)
    ensures
        texts(v.push(x)) == texts(v).push(x@),
{
    assert(texts(v.push(x)) =~= texts(v).push(x@));
}

/// A set of strings, kept sorted by [`text_lt`] without duplicates, so that
/// walking it visits each member once, in order.
#[derive(Debug, Clone)]
pub struct TextSet {
    items: Vec<String>,
}

impl View for TextSet {
    type V = Seq<Seq<char>>;

    closed spec fn view(&self) -> Seq<Seq<char>> {
        texts(self.items@)
    }
}

impl TextSet {
    /// Sorted and free of duplicates.
    pub open spec fn wf(&self) -> bool {
        strictly_sorted(self@)
    }

    /// The empty set.
    pub fn new() -> (r: Self)
        ensures
            r.wf(),
            r@ == Seq::<Seq<char>>::empty(),
    {
        let r = TextSet { items: Vec::new() };
        assert(r@ =~= Seq::<Seq<char>>::empty());
        r
    }

    /// Number of members.
    pub fn len(&self) -> (r: usize)
        ensures
            r == self@.len(),
    {
        self.items.len()
    }

    /// Whether the set is empty.
    pub fn is_empty(&self) -> (r: bool)
        ensures
            r == (self@.len() == 0),
    {
        self.items.len() == 0
    }

    /// The `i`-th member in order.
    pub fn get(&self, i: usize) -> (r: &String)
        requires
            i < self@.len(),
        ensures
            r@ == self@[i as int],
    {
        &self.items[i]
    }

    /// Whether `s` is a member.
    pub fn contains(&self, s: &str) -> (r: bool)
        ensures
            r == self@.contains(s@),
    {
        let mut i: usize = 0;
        while i < self.items.len()
            invariant
                i <= self.items@.len(),
                self@ == texts(self.items@),
                forall|j: int| 0 <= j < i ==> self@[j] != s@,
            decreases self.items.len() - i,
        {
            let same = crate::text::eq_lit(&to_chars(self.items[i].as_str()), s);
            if same {
                assert(self@[i as int] == s@);
                return true;
            }
            i = i + 1;
        }
        false
    }

    /// Adds `s` (no change if it is already a member), keeping the order.
    pub fn insert(&mut self, s: String)
        requires
            old(self).wf(),
        ensures
            final(self).wf(),
            forall|x: Seq<char>| #[trigger] final(self)@.contains(x) <==> (old(self)@.contains(x) || x == s@),
    {
        let ghost before = self@;
        let n = self.items.len();
        let mut p: usize = 0;
        while p < n
            invariant
                n == self.items@.len(),
                p <= n,
                before == self@,
                self@ == texts(self.items@),
                strictly_sorted(self@),
                forall|j: int| 0 <= j < p ==> text_lt(#[trigger] self@[j], s@),
            ensures
                p <= n,
                forall|j: int| 0 <= j < p ==> text_lt(#[trigger] self@[j], s@),
                p < n ==> !text_lt(self@[p as int], s@),
            decreases n - p,
        {
            if !text_less(self.items[p].as_str(), s.as_str()) {
                break;
            }
            p = p + 1;
        }
        if p < n && crate::text::eq_lit(&to_chars(self.items[p].as_str()), s.as_str()) {
            assert(self@[p as int] == s@);
            assert(forall|x: Seq<char>| #[trigger] self@.contains(x) <==> (before.contains(x) || x == s@));
            return;
        }
        proof {
            if p < n {
                lemma_text_lt_total(self@[p as int], s@);
            }
        }
        let ghost sv = s@;
        self.items.insert(p, s);
        proof {
            let v = self@;
            assert(v =~= before.insert(p as int, sv));
            assert forall|i: int, j: int| 0 <= i < j < v.len() implies text_lt(#[trigger] v[i], #[trigger] v[j]) by {
                if j > p {
                    assert(v[j] == before[j - 1]);
                    if j > p + 1 {
                        lemma_text_lt_transitive(sv, before[p as int], before[j - 1]);
                    }
                    assert(text_lt(sv, v[j]));
                    if i < p {
                        lemma_text_lt_transitive(v[i], sv, v[j]);
                    } else if i > p {
                        assert(v[i] == before[i - 1]);
                    }
                }
            }
            assert forall|x: Seq<char>| #[trigger] v.contains(x) <==> (before.contains(x) || x == sv) by {
                if v.contains(x) {
                    let k = choose|k: int| 0 <= k < v.len() && v[k] == x;
                    if k < p {
                        assert(before[k] == x);
                    } else if k > p {
                        assert(before[k - 1] == x);
                    }
                }
                if before.contains(x) {
                    let k = choose|k: int| 0 <= k < before.len() && before[k] == x;
                    if k < p {
                        assert(v[k] == x);
                    } else {
                        assert(v[k + 1] == x);
                    }
                }
                if x == sv {
                    assert(v[p as int] == x);
                }
            }
        }
    }
}

} // verus!
