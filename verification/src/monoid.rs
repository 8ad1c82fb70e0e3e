//! Free monoid on a set of annotated strings
//!
//! A [`FreeMonoid`] is a sequence of text fragments, each carrying a label.
//! The identity element is `FreeMonoid::default()` and the binary operation is
//! concatenation of the fragment sequences (`add` / `add_assign`).

use crate::text::{chars_string, push_chars, str_chars};
use vstd::prelude::*;

verus! {

/// Labels that can be compared for equality, so that adjacent fragments
/// with the same label can be merged.
pub trait Label: Copy {
    /// `true` exactly when both labels are the same value.
    fn same_label(&self, other: &Self) -> (r: bool)
        ensures
            r == (*self == *other),
    ;
}

impl Label for char {
    fn same_label(&self, other: &Self) -> (r: bool) {
        *self == *other
    }
}

/// A Free Monoid on set of annotated string slices
///
/// Where identity element is `FreeMonoid::default` and binary operation is `+`
pub struct FreeMonoid<T> {
    payload: Vec<char>,
    labels: Vec<(usize, usize, T)>,
    /// Merge adjacent fields with the same metadata together during insertion
    pub squash: bool,
}

impl<T> FreeMonoid<T> {
    /// Labels cover the payload with contiguous, ordered ranges.
    pub closed spec fn wf(&self) -> bool {
        let n = self.labels@.len();
        &&& n == 0 ==> self.payload@.len() == 0
        &&& n > 0 ==> self.labels@[0].0 == 0 && self.labels@[n - 1].1 == self.payload@.len()
        &&& forall|i: int| 0 <= i < n ==> #[trigger] self.labels@[i].0 <= self.labels@[i].1
        &&& forall|i: int|
            0 <= i < n - 1 ==> #[trigger] self.labels@[i].1 == self.labels@[i + 1].0
    }

    /// The annotated fragments, in order.
    pub closed spec fn frags(&self) -> Seq<(Seq<char>, T)> {
        Seq::new(
            self.labels@.len(),
            |i: int|
                (
                    self.payload@.subrange(self.labels@[i].0 as int, self.labels@[i].1 as int),
                    self.labels@[i].2,
                ),
        )
    }

    /// Whether adjacent fragments with equal labels are merged on insertion.
    pub closed spec fn squashing(&self) -> bool {
        self.squash
    }

    /// All stored text.
    pub closed spec fn text(&self) -> Seq<char> {
        self.payload@
    }
}

/// Concatenation of the texts of a fragment sequence.
pub open spec fn concat_text<T>(frags: Seq<(Seq<char>, T)>) -> Seq<char>
    decreases frags.len(),
{
    if frags.len() == 0 {
        Seq::empty()
    } else {
        concat_text(frags.drop_last()) + frags.last().0
    }
}

/// The fragment sequence after appending `(text, meta)` to `frags`, merging it into
/// the last fragment when `squash` is set and the labels agree.
pub open spec fn appended<T>(frags: Seq<(Seq<char>, T)>, squash: bool, meta: T, text: Seq<char>) -> Seq<
    (Seq<char>, T),
> {
    if squash && frags.len() > 0 && frags.last().1 == meta {
        frags.update(frags.len() - 1, (frags.last().0 + text, meta))
    } else {
        frags.push((text, meta))
    }
}

proof fn lemma_concat_text_append<T>(a: Seq<(Seq<char>, T)>, b: Seq<(Seq<char>, T)>)
    ensures
        concat_text(a + b) == concat_text(a) + concat_text(b),
    decreases b.len(),
{
    if b.len() == 0 {
        assert(a + b =~= a);
    } else {
        lemma_concat_text_append(a, b.drop_last());
        assert((a + b).drop_last() =~= a + b.drop_last());
    }
}

impl<T: Label> FreeMonoid<T> {
    proof fn lemma_prefix_text(&self, k: int)
        requires
            self.wf(),
            0 <= k <= self.labels@.len(),
        ensures
            concat_text(self.frags().take(k)) == self.payload@.subrange(
                0,
                if k == 0 { 0 } else { self.labels@[k - 1].1 as int },
            ),
        decreases k,
    {
        if k == 0 {
            assert(self.frags().take(0) =~= Seq::<(Seq<char>, T)>::empty());
            assert(self.payload@.subrange(0, 0) =~= Seq::<char>::empty());
        } else {
            self.lemma_prefix_text(k - 1);
            assert(self.frags().take(k).drop_last() =~= self.frags().take(k - 1));
            let prev_end: int = if k - 1 == 0 { 0 } else { self.labels@[k - 2].1 as int };
            assert(self.labels@[k - 1].0 == prev_end);
            self.lemma_bounded(k - 1);
            assert(self.payload@.subrange(0, prev_end) + self.payload@.subrange(
                prev_end,
                self.labels@[k - 1].1 as int,
            ) =~= self.payload@.subrange(0, self.labels@[k - 1].1 as int));
        }
    }

    /// The empty monoid, identity of `+`.
    pub fn new() -> (m: Self)
        ensures
            m.wf(),
            m.frags() == Seq::<(Seq<char>, T)>::empty(),
            m.text() == Seq::<char>::empty(),
            !m.squashing(),
    {
        let m = FreeMonoid { payload: Vec::new(), labels: Vec::new(), squash: false };
        assert(m.frags() =~= Seq::<(Seq<char>, T)>::empty());
        m
    }

    /// Length of stored text in bytes
    ///
    /// Does not account for space required to render the annotations
    pub fn payload_size(&self) -> (n: usize)
        requires
            crate::console::utf8_len(self.text()) <= usize::MAX,
        ensures
            n == crate::console::utf8_len(self.text()),
    {
        crate::console::utf8_width(&self.payload) as usize
    }

    /// Fragments `0..m` are unchanged when labels `0..m` are unchanged and text is only appended.
    proof fn lemma_frags_prefix(a: &Self, b: &Self, m: int)
        requires
            a.wf(),
            0 <= m <= a.labels@.len(),
            m <= b.labels@.len(),
            a.payload@.len() <= b.payload@.len(),
            b.payload@.subrange(0, a.payload@.len() as int) == a.payload@,
            forall|i: int| 0 <= i < m ==> #[trigger] b.labels@[i] == a.labels@[i],
        ensures
            forall|i: int| 0 <= i < m ==> #[trigger] b.frags()[i] == a.frags()[i],
    {
        assert forall|i: int| 0 <= i < m implies #[trigger] b.frags()[i] == a.frags()[i] by {
            a.lemma_bounded(i);
            assert(b.payload@.subrange(a.labels@[i].0 as int, a.labels@[i].1 as int)
                =~= a.payload@.subrange(a.labels@[i].0 as int, a.labels@[i].1 as int));
        }
    }

    /// Append an annotated character sequence
    pub fn push_vec(&mut self, meta: T, payload: &Vec<char>)
        requires
            old(self).wf(),
        ensures
            final(self).wf(),
            final(self).squashing() == old(self).squashing(),
            final(self).frags() == appended(old(self).frags(), old(self).squashing(), meta, payload@),
            final(self).text() == old(self).text() + payload@,
    {
        let r = self.payload.len();
        push_chars(&mut self.payload, payload);
        let end = self.payload.len();
        let n = self.labels.len();
        let ghost old_frags = old(self).frags();
        proof {
            assert(self.payload@.subrange(0, r as int) =~= old(self).payload@);
        }
        if n > 0 && self.squash {
            let (s, _e, prev) = self.labels[n - 1];
            if prev.same_label(&meta) {
                self.labels.set(n - 1, (s, end, prev));
                proof {
                    Self::lemma_frags_prefix(old(self), self, n - 1);
                    old(self).lemma_bounded(n - 1);
                    assert(old(self).payload@.subrange(s as int, r as int) + payload@
                        =~= self.payload@.subrange(s as int, end as int));
                    assert(self.frags() =~= old_frags.update(
                        old_frags.len() - 1,
                        (old_frags.last().0 + payload@, meta),
                    ));
                }
                return;
            }
        }
        self.labels.push((r, end, meta));
        proof {
            Self::lemma_frags_prefix(old(self), self, n as int);
            assert(self.payload@.subrange(r as int, end as int) =~= payload@);
            assert(self.frags() =~= old_frags.push((payload@, meta)));
        }
    }

    proof fn lemma_bounded(&self, i: int)
        requires
            self.wf(),
            0 <= i < self.labels@.len(),
        ensures
            self.labels@[i].1 <= self.payload@.len(),
        decreases self.labels@.len() - i,
    {
        if i < self.labels@.len() - 1 {
            self.lemma_bounded(i + 1);
        }
    }

    proof fn lemma_ordered(&self, i: int, j: int)
        requires
            self.wf(),
            0 <= i <= j < self.labels@.len(),
        ensures
            self.labels@[i].1 <= self.labels@[j].1,
            i < j ==> self.labels@[i].1 <= self.labels@[j].0,
        decreases j - i,
    {
        if i < j {
            self.lemma_ordered(i + 1, j);
        }
    }

    /// Append an annotated string slice
    pub fn push_str(&mut self, meta: T, payload: &str) -> (r: &mut Self)
        requires
            old(self).wf(),
        ensures
            r.wf(),
            r.squashing() == old(self).squashing(),
            r.frags() == appended(old(self).frags(), old(self).squashing(), meta, payload@),
            r.text() == old(self).text() + payload@,
            *final(self) == *final(r),
    {
        let v = str_chars(payload);
        self.push_vec(meta, &v);
        self
    }

    /// Append an annotated char
    pub fn push(&mut self, meta: T, payload: char) -> (r: &mut Self)
        requires
            old(self).wf(),
        ensures
            r.wf(),
            r.squashing() == old(self).squashing(),
            r.frags() == appended(old(self).frags(), old(self).squashing(), meta, seq![payload]),
            r.text() == old(self).text().push(payload),
            *final(self) == *final(r),
    {
        let mut v = Vec::new();
        v.push(payload);
        assert(v@ =~= seq![payload]);
        self.push_vec(meta, &v);
        assert(old(self).text() + seq![payload] =~= old(self).text().push(payload));
        self
    }

    /// Bounds and label of fragment `ix`: its text is `text()[start..end]`.
    pub fn span(&self, ix: usize) -> (r: (usize, usize, T))
        requires
            self.wf(),
            ix < self.frags().len(),
        ensures
            r.0 <= r.1 <= self.text().len(),
            self.frags()[ix as int].0 == self.text().subrange(r.0 as int, r.1 as int),
            self.frags()[ix as int].1 == r.2,
    {
        proof {
            self.lemma_bounded(ix as int);
        }
        self.labels[ix]
    }

    /// Character at position `i` of the stored text.
    pub fn char_at(&self, i: usize) -> (c: char)
        requires
            i < self.text().len(),
        ensures
            c == self.text()[i as int],
    {
        self.payload[i]
    }

    /// Number of annotated fragments.
    pub fn len(&self) -> (n: usize)
        ensures
            n == self.frags().len(),
    {
        self.labels.len()
    }

    /// The fragment at position `ix`: its label and its text.
    pub fn get(&self, ix: usize) -> (r: Option<(T, String)>)
        requires
            self.wf(),
        ensures
            ix < self.frags().len() ==> (r matches Some(p) && p.0 == self.frags()[ix as int].1
                && p.1@ == self.frags()[ix as int].0),
            ix >= self.frags().len() ==> r is None,
    {
        if ix >= self.labels.len() {
            return None;
        }
        let (s, e, l) = self.labels[ix];
        proof {
            self.lemma_bounded(ix as int);
        }
        let mut v = Vec::new();
        crate::text::push_range(&mut v, &self.payload, s, e);
        assert(v@ =~= self.payload@.subrange(s as int, e as int));
        Some((l, chars_string(&v)))
    }

    /// Iterate over annotated fragments
    pub fn iter(&self) -> (it: AnnotatedSlicesIter<'_, T>)
        ensures
            it.position() == 0,
            it.source() == self,
    {
        AnnotatedSlicesIter { current: 0, items: self }
    }

    /// Append all fragments of `rhs` after the fragments of `self`.
    pub fn add_assign(&mut self, rhs: &Self)
        requires
            old(self).wf(),
            rhs.wf(),
            old(self).text().len() + rhs.text().len() <= usize::MAX,
        ensures
            final(self).wf(),
            final(self).squashing() == old(self).squashing(),
            final(self).frags() == old(self).frags() + rhs.frags(),
            final(self).text() == old(self).text() + rhs.text(),
    {
        let len = self.payload.len();
        push_chars(&mut self.payload, &rhs.payload);
        let n = self.labels.len();
        let mut i: usize = 0;
        while i < rhs.labels.len()
            invariant
                self.payload@ == old(self).payload@ + rhs.payload@,
                len == old(self).payload@.len(),
                n == old(self).labels@.len(),
                rhs.wf(),
                old(self).wf(),
                len + rhs.payload@.len() <= usize::MAX,
                i <= rhs.labels@.len(),
                self.labels@.len() == n + i,
                self.squash == old(self).squash,
                forall|k: int| 0 <= k < n ==> #[trigger] self.labels@[k] == old(self).labels@[k],
                forall|k: int|
                    0 <= k < i ==> #[trigger] self.labels@[n + k] == (
                        (rhs.labels@[k].0 + len) as usize,
                        (rhs.labels@[k].1 + len) as usize,
                        rhs.labels@[k].2,
                    ),
            decreases rhs.labels.len() - i,
        {
            let (s, e, l) = rhs.labels[i];
            proof {
                rhs.lemma_bounded(i as int);
            }
            self.labels.push((s + len, e + len, l));
            i = i + 1;
        }
        proof {
            Self::lemma_concat_wf(old(self), rhs, self);
            Self::lemma_concat_frags(old(self), rhs, self);
        }
    }

    /// Shape of the result of `add_assign`: the labels of `a` followed by the shifted labels of `b`.
    closed spec fn is_concat(a: &Self, b: &Self, c: &Self) -> bool {
        let n = a.labels@.len();
        let len = a.payload@.len();
        &&& c.payload@ == a.payload@ + b.payload@
        &&& c.labels@.len() == n + b.labels@.len()
        &&& forall|k: int| 0 <= k < n ==> #[trigger] c.labels@[k] == a.labels@[k]
        &&& forall|k: int|
            0 <= k < b.labels@.len() ==> #[trigger] c.labels@[n + k] == (
                (b.labels@[k].0 + len) as usize,
                (b.labels@[k].1 + len) as usize,
                b.labels@[k].2,
            )
    }

    proof fn lemma_concat_wf(a: &Self, b: &Self, c: &Self)
        requires
            a.wf(),
            b.wf(),
            a.payload@.len() + b.payload@.len() <= usize::MAX,
            Self::is_concat(a, b, c),
        ensures
            c.wf(),
    {
        let n = a.labels@.len();
        let m = b.labels@.len();
        let len = a.payload@.len();
        assert forall|k: int| 0 <= k < n implies a.labels@[k].1 <= len by {
            a.lemma_bounded(k);
        }
        assert forall|k: int| 0 <= k < m implies b.labels@[k].1 <= b.payload@.len() by {
            b.lemma_bounded(k);
        }
        if n > 0 && m > 0 {
            assert(c.labels@[n - 1].1 == len);
            assert(c.labels@[n + 0int].0 == len);
        }
        assert forall|k: int| 0 <= k < c.labels@.len() - 1 implies #[trigger] c.labels@[k].1
            == c.labels@[k + 1].0 by {
            if k < n - 1 {
            } else if k == n - 1 {
                assert(c.labels@[k + 1] == c.labels@[n + 0int]);
            } else {
                assert(c.labels@[k] == c.labels@[n + (k - n)]);
                assert(c.labels@[k + 1] == c.labels@[n + (k - n + 1)]);
            }
        }
        assert forall|k: int| 0 <= k < c.labels@.len() implies #[trigger] c.labels@[k].0
            <= c.labels@[k].1 by {
            if k >= n {
                assert(c.labels@[k] == c.labels@[n + (k - n)]);
            }
        }
        if m > 0 {
            assert(c.labels@[n + m - 1] == c.labels@[n + (m - 1)]);
        }
    }

    proof fn lemma_concat_frags(a: &Self, b: &Self, c: &Self)
        requires
            a.wf(),
            b.wf(),
            a.payload@.len() + b.payload@.len() <= usize::MAX,
            Self::is_concat(a, b, c),
        ensures
            c.frags() == a.frags() + b.frags(),
    {
        let n = a.labels@.len();
        let m = b.labels@.len();
        assert forall|k: int| 0 <= k < n + m implies #[trigger] c.frags()[k] == (a.frags()
            + b.frags())[k] by {
            if k < n {
                a.lemma_bounded(k);
                assert(c.payload@.subrange(c.labels@[k].0 as int, c.labels@[k].1 as int)
                    =~= a.payload@.subrange(c.labels@[k].0 as int, c.labels@[k].1 as int));
            } else {
                let j = k - n;
                b.lemma_bounded(j);
                assert(c.labels@[k] == c.labels@[n + j]);
                assert(c.payload@.subrange(c.labels@[k].0 as int, c.labels@[k].1 as int)
                    =~= b.payload@.subrange(b.labels@[j].0 as int, b.labels@[j].1 as int));
            }
        }
        assert(c.frags() =~= a.frags() + b.frags());
    }

    /// Concatenation: all fragments of `self` followed by all fragments of `rhs`.
    pub fn add(self, rhs: &Self) -> (m: Self)
        requires
            self.wf(),
            rhs.wf(),
            self.text().len() + rhs.text().len() <= usize::MAX,
        ensures
            m.wf(),
            m.squashing() == self.squashing(),
            m.frags() == self.frags() + rhs.frags(),
            m.text() == self.text() + rhs.text(),
    {
        let mut m = self;
        m.add_assign(rhs);
        m
    }
}

impl<T: Label> Default for FreeMonoid<T> {
    fn default() -> (m: Self)
        ensures
            m.wf(),
            m.frags() == Seq::<(Seq<char>, T)>::empty(),
            m.text() == Seq::<char>::empty(),
            !m.squashing(),
    {
        FreeMonoid::new()
    }
}

/// Identity: appending the empty monoid on either side changes no fragment.
pub proof fn law_identity<T>(a: Seq<(Seq<char>, T)>)
    ensures
        Seq::<(Seq<char>, T)>::empty() + a == a,
        a + Seq::<(Seq<char>, T)>::empty() == a,
{
    assert(Seq::<(Seq<char>, T)>::empty() + a =~= a);
    assert(a + Seq::<(Seq<char>, T)>::empty() =~= a);
}

/// Associativity of `+` on fragment sequences, which is what `add` computes.
pub proof fn law_associative<T>(a: Seq<(Seq<char>, T)>, b: Seq<(Seq<char>, T)>, c: Seq<(Seq<char>, T)>)
    ensures
        (a + b) + c == a + (b + c),
        concat_text((a + b) + c) == concat_text(a) + concat_text(b) + concat_text(c),
{
    assert((a + b) + c =~= a + (b + c));
    lemma_concat_text_append(a + b, c);
    lemma_concat_text_append(a, b);
}

/// The byte size of appended text is the sum of the sizes: after `a += &b` the payload size
/// of `a` is its old size plus that of `b`.
pub proof fn law_size_adds(a: Seq<char>, b: Seq<char>)
    ensures
        crate::console::utf8_len(a + b) == crate::console::utf8_len(a) + crate::console::utf8_len(b),
    decreases b.len(),
{
    if b.len() > 0 {
        law_size_adds(a, b.drop_last());
        assert((a + b).drop_last() =~= a + b.drop_last());
        assert((a + b).last() == b.last());
    } else {
        assert(a + b =~= a);
    }
}

/// Iterate over annotated string slices contained in a [`FreeMonoid`].
///
/// Create with [`FreeMonoid::iter`]
pub struct AnnotatedSlicesIter<'a, T> {
    current: usize,
    items: &'a FreeMonoid<T>,
}

impl<'a, T: Label> AnnotatedSlicesIter<'a, T> {
    /// Number of fragments handed out so far.
    pub closed spec fn position(&self) -> nat {
        self.current as nat
    }

    /// The monoid being iterated over.
    pub closed spec fn source(&self) -> &'a FreeMonoid<T> {
        self.items
    }

    /// The next fragment, if any: its label and its text.
    pub fn next(&mut self) -> (r: Option<(T, String)>)
        requires
            old(self).source().wf(),
        ensures
            final(self).source() == old(self).source(),
            old(self).position() < old(self).source().frags().len() ==> {
                &&& r matches Some(p)
                &&& p.0 == old(self).source().frags()[old(self).position() as int].1
                &&& p.1@ == old(self).source().frags()[old(self).position() as int].0
                &&& final(self).position() == old(self).position() + 1
            },
            old(self).position() >= old(self).source().frags().len() ==> r is None
                && final(self).position() == old(self).position(),
    {
        if self.current >= self.items.len() {
            return None;
        }
        let r = self.items.get(self.current);
        self.current = self.current + 1;
        r
    }
}

} // verus!
