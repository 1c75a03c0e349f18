//! The container itself: an ordered sequence of opaque element handles with
//! an optional capacity bound and a host-assigned identity.
//!
//! The bound is applied lazily, at push time only: construction takes a
//! source sequence whole, even one longer than the bound, and a push evicts
//! from the opposite end exactly when the length sits at the bound.

use vstd::prelude::*;

use crate::cmp::common_len;
use crate::cmp::first_failing_pair;
use crate::cmp::first_mismatch;
use crate::cmp::lex_calls_ok;
use crate::cmp::mismatch_scan_ok;
use crate::cmp::seq_eq;
use crate::cmp::seq_ge;
use crate::cmp::seq_gt;
use crate::cmp::seq_le;
use crate::cmp::seq_lt;
use crate::cmp::spec_lex_eq;
use crate::cmp::spec_lex_ge;
use crate::cmp::spec_lex_gt;
use crate::cmp::spec_lex_le;
use crate::cmp::spec_lex_lt;
use crate::errors::DequeError;
use crate::errors::HostError;
use crate::guard::ReprGuard;
use crate::host::Host;
use crate::policy::at_capacity;
use crate::policy::eviction_end;
use crate::policy::End;
use crate::render::render;
use crate::render::spec_render;
use crate::resolve::clamp_insert_index;
use crate::resolve::spec_clamp_index;
use crate::rotation::lemma_left_rot_index;
use crate::rotation::lemma_step_left;
use crate::rotation::lemma_step_right;
use crate::rotation::rot_amount;
use crate::rotation::spec_rotate;
use crate::search::first_failing_eq;
use crate::search::lemma_count_step;
use crate::search::lemma_failing_eq_characterizes;
use crate::search::lemma_find_characterizes;
use crate::search::scan_ok;
use crate::search::spec_count;
use crate::search::spec_find;
use vstd::string::StringExecFns;

verus! {

/// A bounded double-ended queue of opaque element handles.
pub struct BoundedDeque {
    /// The element handles, head first; their order is the iteration order.
    pub elements: Vec<u64>,
    /// The optional capacity bound; `None` means unbounded.
    pub bound: Option<usize>,
    /// The identity of this container in the host's object space, used for
    /// the comparison fast path and as the rendering guard key.
    pub id: u64,
}

impl View for BoundedDeque {
    type V = Seq<u64>;

    open spec fn view(&self) -> Seq<u64> {
        self.elements@
    }
}

/// The lower edge of a search window: an explicit start, or the head.
pub open spec fn resolve_start(start: Option<usize>) -> int {
    match start {
        Some(s) => s as int,
        None => 0,
    }
}

/// The upper edge of a search window: an explicit stop, or the length.
pub open spec fn resolve_stop(stop: Option<usize>, len: int) -> int {
    match stop {
        Some(s) => s as int,
        None => len,
    }
}

/// The elements of the half-open window `[start, stop)` of `s`, each edge
/// clipped to the length.
pub open spec fn spec_window(s: Seq<u64>, start: int, stop: int) -> Seq<u64>
    recommends
        0 <= start <= stop,
{
    let lo = if start <= s.len() {
        start
    } else {
        s.len() as int
    };
    let hi = if stop <= s.len() {
        stop
    } else {
        s.len() as int
    };
    s.subrange(lo, hi)
}

/// `s` after a tail push of `x` under `bound`: at capacity, the head leaves
/// first.
pub open spec fn spec_push_back(s: Seq<u64>, bound: Option<usize>, x: u64) -> Seq<u64> {
    if at_capacity(s.len(), bound) && s.len() > 0 {
        s.drop_first().push(x)
    } else {
        s.push(x)
    }
}

/// `s` after a head push of `x` under `bound`: at capacity, the tail leaves
/// first.
pub open spec fn spec_push_front(s: Seq<u64>, bound: Option<usize>, x: u64) -> Seq<u64> {
    if at_capacity(s.len(), bound) && s.len() > 0 {
        seq![x] + s.drop_last()
    } else {
        seq![x] + s
    }
}

/// `s` after tail pushes of every element of `xs`, left to right, each one
/// evicting independently.
pub open spec fn spec_extend_back(s: Seq<u64>, bound: Option<usize>, xs: Seq<u64>) -> Seq<u64>
    decreases xs.len(),
{
    if xs.len() == 0 {
        s
    } else {
        spec_extend_back(spec_push_back(s, bound, xs[0]), bound, xs.skip(1))
    }
}

/// `s` after head pushes of every element of `xs`, left to right.
pub open spec fn spec_extend_front(s: Seq<u64>, bound: Option<usize>, xs: Seq<u64>) -> Seq<u64>
    decreases xs.len(),
{
    if xs.len() == 0 {
        s
    } else {
        spec_extend_front(spec_push_front(s, bound, xs[0]), bound, xs.skip(1))
    }
}

/// Extending by `xs` and then pushing `x` is extending by `xs.push(x)`.
pub proof fn lemma_extend_back_snoc(s: Seq<u64>, bound: Option<usize>, xs: Seq<u64>, x: u64)
    ensures
        spec_extend_back(s, bound, xs.push(x)) == spec_push_back(
            spec_extend_back(s, bound, xs),
            bound,
            x,
        ),
    decreases xs.len(),
{
    if xs.len() == 0 {
        assert(xs.push(x).skip(1) =~= Seq::<u64>::empty());
        assert(xs.push(x)[0] == x);
        assert(spec_extend_back(s, bound, xs.push(x)) == spec_extend_back(
            spec_push_back(s, bound, x),
            bound,
            Seq::<u64>::empty(),
        ));
        assert(spec_extend_back(spec_push_back(s, bound, x), bound, Seq::<u64>::empty())
            == spec_push_back(s, bound, x));
    } else {
        assert(xs.push(x).skip(1) =~= xs.skip(1).push(x));
        lemma_extend_back_snoc(spec_push_back(s, bound, xs[0]), bound, xs.skip(1), x);
    }
}

/// The head-push counterpart of `lemma_extend_back_snoc`.
pub proof fn lemma_extend_front_snoc(s: Seq<u64>, bound: Option<usize>, xs: Seq<u64>, x: u64)
    ensures
        spec_extend_front(s, bound, xs.push(x)) == spec_push_front(
            spec_extend_front(s, bound, xs),
            bound,
            x,
        ),
    decreases xs.len(),
{
    if xs.len() == 0 {
        assert(xs.push(x).skip(1) =~= Seq::<u64>::empty());
        assert(xs.push(x)[0] == x);
        assert(spec_extend_front(s, bound, xs.push(x)) == spec_extend_front(
            spec_push_front(s, bound, x),
            bound,
            Seq::<u64>::empty(),
        ));
        assert(spec_extend_front(spec_push_front(s, bound, x), bound, Seq::<u64>::empty())
            == spec_push_front(s, bound, x));
    } else {
        assert(xs.push(x).skip(1) =~= xs.skip(1).push(x));
        lemma_extend_front_snoc(spec_push_front(s, bound, xs[0]), bound, xs.skip(1), x);
    }
}

/// The position of the first element whose rendering hook fails under
/// `guard`, or `s.len()` when every hook returns.
pub open spec fn first_failing_repr<H: Host>(h: &H, guard: Seq<u64>, s: Seq<u64>) -> int
    decreases s.len(),
{
    if s.len() == 0 {
        0
    } else if !h.repr_ok(guard, s[0]) {
        0
    } else {
        1 + first_failing_repr(h, guard, s.skip(1))
    }
}

/// What the first failing rendering position means position by position.
pub proof fn lemma_failing_repr_characterizes<H: Host>(h: &H, guard: Seq<u64>, s: Seq<u64>)
    ensures
        0 <= first_failing_repr(h, guard, s) <= s.len(),
        forall|j: int| 0 <= j < first_failing_repr(h, guard, s) ==> h.repr_ok(guard, s[j]),
        first_failing_repr(h, guard, s) < s.len() ==> !h.repr_ok(
            guard,
            s[first_failing_repr(h, guard, s)],
        ),
    decreases s.len(),
{
    if s.len() == 0 {
    } else if !h.repr_ok(guard, s[0]) {
    } else {
        lemma_failing_repr_characterizes(h, guard, s.skip(1));
        assert forall|j: int| 0 <= j < first_failing_repr(h, guard, s) implies h.repr_ok(
            guard,
            s[j],
        ) by {
            if j > 0 {
                assert(s.skip(1)[j - 1] == s[j]);
            }
        }
    }
}

impl BoundedDeque {
    /// Builds a container from an already collected source sequence, an
    /// optional bound and a host-assigned identity.  The bound is not
    /// enforced here: a source longer than the bound is taken whole, and the
    /// bound acts only on subsequent pushes.
    pub fn new(id: u64, elements: Vec<u64>, maxlen: Option<usize>) -> (d: BoundedDeque)
        ensures
            d@ == elements@,
            d.bound == maxlen,
            d.id == id,
    {
        BoundedDeque { elements, bound: maxlen, id }
    }

    /// Drops one element at end `e`; on an empty container this is a no-op,
    /// as a pop at either end of nothing is.
    fn evict_at(&mut self, e: End)
        ensures
            final(self).bound == old(self).bound,
            final(self).id == old(self).id,
            old(self)@.len() == 0 ==> final(self)@ == old(self)@,
            old(self)@.len() > 0 ==> final(self)@ == (match e {
                End::Head => old(self)@.drop_first(),
                End::Tail => old(self)@.drop_last(),
            }),
    {
        if self.elements.len() > 0 {
            match e {
                End::Head => {
                    let _ = self.elements.remove(0);
                    assert(self@ =~= old(self)@.drop_first());
                },
                End::Tail => {
                    let _ = self.elements.pop();
                },
            }
        }
    }

    /// Adds `x` at the tail.  At capacity, the head element leaves first, so
    /// a saturated container slides.  Never fails.
    pub fn append(&mut self, x: u64)
        ensures
            final(self)@ == spec_push_back(old(self)@, old(self).bound, x),
            final(self).bound == old(self).bound,
            final(self).id == old(self).id,
    {
        match eviction_end(self.bound, self.elements.len(), End::Tail) {
            Some(e) => self.evict_at(e),
            None => {},
        }
        self.elements.push(x);
    }

    /// Adds `x` at the head.  At capacity, the tail element leaves first.
    /// Never fails.
    pub fn appendleft(&mut self, x: u64)
        ensures
            final(self)@ == spec_push_front(old(self)@, old(self).bound, x),
            final(self).bound == old(self).bound,
            final(self).id == old(self).id,
    {
        match eviction_end(self.bound, self.elements.len(), End::Head) {
            Some(e) => self.evict_at(e),
            None => {},
        }
        self.elements.insert(0, x);
        assert(self@ =~= spec_push_front(old(self)@, old(self).bound, x));
    }

    /// Removes and returns the tail element; the only failure is on an empty
    /// container.
    pub fn pop(&mut self) -> (r: Result<u64, DequeError>)
        ensures
            final(self).bound == old(self).bound,
            final(self).id == old(self).id,
            old(self)@.len() == 0 ==> r == Err::<u64, DequeError>(DequeError::EmptyContainer)
                && final(self)@ == old(self)@,
            old(self)@.len() > 0 ==> r == Ok::<u64, DequeError>(old(self)@.last())
                && final(self)@ == old(self)@.drop_last(),
    {
        match self.elements.pop() {
            Some(x) => {
                assert(self@ =~= old(self)@.drop_last());
                Ok(x)
            },
            None => Err(DequeError::EmptyContainer),
        }
    }

    /// Removes and returns the head element; the only failure is on an empty
    /// container.
    pub fn popleft(&mut self) -> (r: Result<u64, DequeError>)
        ensures
            final(self).bound == old(self).bound,
            final(self).id == old(self).id,
            old(self)@.len() == 0 ==> r == Err::<u64, DequeError>(DequeError::EmptyContainer)
                && final(self)@ == old(self)@,
            old(self)@.len() > 0 ==> r == Ok::<u64, DequeError>(old(self)@.first())
                && final(self)@ == old(self)@.drop_first(),
    {
        if self.elements.len() == 0 {
            return Err(DequeError::EmptyContainer);
        }
        let x = self.elements.remove(0);
        assert(self@ =~= old(self)@.drop_first());
        Ok(x)
    }

    /// Empties the sequence; the bound is unchanged.
    pub fn clear(&mut self)
        ensures
            final(self)@ == Seq::<u64>::empty(),
            final(self).bound == old(self).bound,
            final(self).id == old(self).id,
    {
        self.elements.clear();
    }

    /// A new, independent container under the identity `id`, with the same
    /// bound and a shallow duplicate of the handle sequence: the handles are
    /// shared, the sequences are not, so mutating the copy leaves this
    /// container untouched.
    pub fn copy(&self, id: u64) -> (d: BoundedDeque)
        ensures
            d@ == self@,
            d.bound == self.bound,
            d.id == id,
    {
        let mut elements: Vec<u64> = Vec::new();
        assert(elements@ =~= self@.take(0));
        let mut i: usize = 0;
        while i < self.elements.len()
            invariant
                i <= self.elements.len(),
                elements@ == self@.take(i as int),
            decreases self.elements.len() - i,
        {
            elements.push(self.elements[i]);
            assert(elements@ =~= self@.take(i as int + 1));
            i += 1;
        }
        assert(elements@ =~= self@);
        BoundedDeque { elements, bound: self.bound, id }
    }

    /// Pushes every element of `items` at the tail, left to right, each push
    /// evicting independently under the bound.  A lazy source that can fail
    /// mid-way is driven by its consumer one `append` at a time instead;
    /// elements already pushed stay pushed.
    pub fn extend(&mut self, items: &Vec<u64>)
        ensures
            final(self)@ == spec_extend_back(old(self)@, old(self).bound, items@),
            final(self).bound == old(self).bound,
            final(self).id == old(self).id,
    {
        let mut i: usize = 0;
        while i < items.len()
            invariant
                i <= items@.len(),
                self.bound == old(self).bound,
                self.id == old(self).id,
                self@ == spec_extend_back(old(self)@, old(self).bound, items@.take(i as int)),
            decreases items@.len() - i,
        {
            self.append(items[i]);
            proof {
                assert(items@.take(i as int + 1) =~= items@.take(i as int).push(items@[i as int]));
                lemma_extend_back_snoc(
                    old(self)@,
                    old(self).bound,
                    items@.take(i as int),
                    items@[i as int],
                );
            }
            i += 1;
        }
        assert(items@.take(items@.len() as int) =~= items@);
    }

    /// Pushes every element of `items` at the head, left to right; the last
    /// element of `items` therefore ends up foremost.
    pub fn extendleft(&mut self, items: &Vec<u64>)
        ensures
            final(self)@ == spec_extend_front(old(self)@, old(self).bound, items@),
            final(self).bound == old(self).bound,
            final(self).id == old(self).id,
    {
        let mut i: usize = 0;
        while i < items.len()
            invariant
                i <= items@.len(),
                self.bound == old(self).bound,
                self.id == old(self).id,
                self@ == spec_extend_front(old(self)@, old(self).bound, items@.take(i as int)),
            decreases items@.len() - i,
        {
            self.appendleft(items[i]);
            proof {
                assert(items@.take(i as int + 1) =~= items@.take(i as int).push(items@[i as int]));
                lemma_extend_front_snoc(
                    old(self)@,
                    old(self).bound,
                    items@.take(i as int),
                    items@[i as int],
                );
            }
            i += 1;
        }
        assert(items@.take(items@.len() as int) =~= items@);
    }

    /// Inserts `x` at the clamped position for `idx`.  Fails with
    /// `ContainerFull` when the container sits exactly at its bound; the
    /// requirement excludes only the position `length - 1` of an empty
    /// container, which does not exist.
    pub fn insert(&mut self, idx: i32, x: u64) -> (r: Result<(), DequeError>)
        requires
            at_capacity(old(self)@.len(), old(self).bound) || idx < 0 || old(self)@.len() > 0,
        ensures
            final(self).bound == old(self).bound,
            final(self).id == old(self).id,
            at_capacity(old(self)@.len(), old(self).bound) ==> r == Err::<(), DequeError>(
                DequeError::ContainerFull,
            ) && final(self)@ == old(self)@,
            !at_capacity(old(self)@.len(), old(self).bound) ==> r == Ok::<(), DequeError>(())
                && final(self)@ == old(self)@.insert(
                spec_clamp_index(idx as int, old(self)@.len() as int),
                x,
            ),
    {
        match self.bound {
            Some(b) => {
                if self.elements.len() == b {
                    return Err(DequeError::ContainerFull);
                }
            },
            None => {},
        }
        let k = clamp_insert_index(idx, self.elements.len());
        self.elements.insert(k, x);
        Ok(())
    }

    /// Reverses the element order in place.
    pub fn reverse(&mut self)
        ensures
            final(self)@ == old(self)@.reverse(),
            final(self).bound == old(self).bound,
            final(self).id == old(self).id,
    {
        let mut out: Vec<u64> = Vec::new();
        let mut i: usize = self.elements.len();
        while i > 0
            invariant
                i <= self@.len(),
                self == old(self),
                out@.len() == self@.len() - i,
                forall|j: int| 0 <= j < out@.len() ==> out@[j] == self@[self@.len() - 1 - j],
            decreases i,
        {
            i -= 1;
            out.push(self.elements[i]);
        }
        self.elements = out;
        assert(self@ =~= old(self)@.reverse());
    }

    /// Rotates: a positive `mid` moves the last `mid` elements to the front,
    /// one tail-pop/head-push pair at a time; a negative `mid` moves the
    /// first `|mid|` elements to the back symmetrically.  Rotating by more
    /// than the length wraps; an empty container is left alone.
    pub fn rotate(&mut self, mid: isize)
        ensures
            final(self)@ == spec_rotate(old(self)@, mid as int),
            final(self).bound == old(self).bound,
            final(self).id == old(self).id,
    {
        if self.elements.len() == 0 {
            return ;
        }
        proof {
            lemma_left_rot_index(old(self)@, rot_amount(0, old(self)@.len() as int));
            vstd::arithmetic::div_mod::lemma_small_mod(0, old(self)@.len() as nat);
            assert(spec_rotate(old(self)@, 0) =~= old(self)@);
        }
        if mid < 0 {
            let mut i: isize = mid;
            while i < 0
                invariant
                    mid <= i <= 0,
                    self@.len() == old(self)@.len() > 0,
                    self.bound == old(self).bound,
                    self.id == old(self).id,
                    self@ == spec_rotate(old(self)@, mid - i),
                decreases 0 - i,
            {
                let ghost prev = self@;
                let x = self.elements.remove(0);
                self.elements.push(x);
                proof {
                    assert(self@ =~= crate::rotation::rot1_left(prev));
                    lemma_step_left(old(self)@, mid - i);
                }
                i += 1;
            }
        } else {
            let mut i: isize = mid;
            while i > 0
                invariant
                    0 <= i <= mid,
                    self@.len() == old(self)@.len() > 0,
                    self.bound == old(self).bound,
                    self.id == old(self).id,
                    self@ == spec_rotate(old(self)@, mid - i),
                decreases i,
            {
                let ghost prev = self@;
                let popped = self.elements.pop();
                let x = match popped {
                    Some(v) => v,
                    None => 0,
                };
                self.elements.insert(0, x);
                proof {
                    assert(self@ =~= crate::rotation::rot1_right(prev));
                    lemma_step_right(old(self)@, mid - i);
                }
                i -= 1;
            }
        }
    }

    /// How many elements the host considers equal to `x`, scanning the whole
    /// container.  There is no "not found" failure; the only failure is a
    /// host equality hook's own, which propagates.
    pub fn count<H: Host>(&self, x: u64, host: &H) -> (r: Result<usize, HostError>)
        ensures
            r is Ok <==> (forall|j: int| 0 <= j < self@.len() ==> host.eq_ok(self@[j], x)),
            r is Ok ==> r->Ok_0 == spec_count(host, self@, x),
            r is Err ==> r->Err_0 == host.eq_err(
                self@[first_failing_eq(host, self@, x)],
                x,
            ),
    {
        let mut c: usize = 0;
        let mut i: usize = 0;
        assert(self@.take(0) =~= Seq::<u64>::empty());
        while i < self.elements.len()
            invariant
                i <= self@.len(),
                c <= i,
                c as nat == spec_count(host, self@.take(i as int), x),
                forall|j: int| 0 <= j < i ==> host.eq_ok(self@[j], x),
            decreases self@.len() - i,
        {
            match host.host_eq(self.elements[i], x) {
                Ok(true) => {
                    proof {
                        lemma_count_step(host, self@, x, i as int);
                    }
                    c += 1;
                },
                Ok(false) => {
                    proof {
                        lemma_count_step(host, self@, x, i as int);
                    }
                },
                Err(e) => {
                    proof {
                        lemma_failing_eq_characterizes(host, self@, x);
                        assert(first_failing_eq(host, self@, x) == i);
                    }
                    return Err(e);
                },
            }
            i += 1;
        }
        assert(self@.take(self@.len() as int) =~= self@);
        Ok(c)
    }

    /// The first position within the window `[start, stop)` — edges clipped
    /// to the length, defaulting to the whole container — whose element the
    /// host considers equal to `x`, counted from the window's start.  Fails
    /// with `ValueNotFound` when nothing in the window matches.
    pub fn index<H: Host>(
        &self,
        x: u64,
        start: Option<usize>,
        stop: Option<usize>,
        host: &H,
    ) -> (r: Result<usize, DequeError>)
        requires
            resolve_start(start) <= resolve_stop(stop, self@.len() as int),
        ensures
            ({
                let w = spec_window(
                    self@,
                    resolve_start(start),
                    resolve_stop(stop, self@.len() as int),
                );
                &&& (r is Ok <==> scan_ok(host, w, x) && spec_find(host, w, x) < w.len())
                &&& (r is Ok ==> r->Ok_0 == spec_find(host, w, x))
                &&& (scan_ok(host, w, x) && spec_find(host, w, x) == w.len() ==> r == Err::<
                    usize,
                    DequeError,
                >(DequeError::ValueNotFound))
                &&& (!scan_ok(host, w, x) ==> r == Err::<usize, DequeError>(DequeError::Host(
                    host.eq_err(w[first_failing_eq(host, w, x)], x),
                )))
            }),
    {
        let len = self.elements.len();
        let st = match start {
            Some(s) => s,
            None => 0,
        };
        let sp = match stop {
            Some(s) => s,
            None => len,
        };
        let lo = if st <= len {
            st
        } else {
            len
        };
        let hi = if sp <= len {
            sp
        } else {
            len
        };
        let ghost w = spec_window(self@, resolve_start(start), resolve_stop(stop, self@.len() as int));
        let mut i: usize = lo;
        while i < hi
            invariant
                lo <= i <= hi <= len,
                len == self@.len(),
                w == spec_window(self@, resolve_start(start), resolve_stop(stop, self@.len() as int)),
                w == self@.subrange(lo as int, hi as int),
                forall|j: int| 0 <= j < i - lo ==> !host.eq_spec(w[j], x) && host.eq_ok(w[j], x),
            decreases hi - i,
        {
            match host.host_eq(self.elements[i], x) {
                Ok(true) => {
                    proof {
                        lemma_find_characterizes(host, w, x);
                        assert(w[i - lo] == self@[i as int]);
                    }
                    return Ok(i - lo);
                },
                Ok(false) => {
                    proof {
                        assert(w[i - lo] == self@[i as int]);
                    }
                },
                Err(e) => {
                    proof {
                        lemma_find_characterizes(host, w, x);
                        lemma_failing_eq_characterizes(host, w, x);
                        assert(w[i - lo] == self@[i as int]);
                        assert(first_failing_eq(host, w, x) == i - lo);
                    }
                    return Err(DequeError::Host(e));
                },
            }
            i += 1;
        }
        proof {
            lemma_find_characterizes(host, w, x);
        }
        Err(DequeError::ValueNotFound)
    }

    /// Scans from the head and removes the first element the host considers
    /// equal to `x`, returning its handle; the rest keep their relative
    /// order.  Fails with `ValueNotFound` when no element matches.
    pub fn remove<H: Host>(&mut self, x: u64, host: &H) -> (r: Result<u64, DequeError>)
        ensures
            ({
                let s = old(self)@;
                let k = spec_find(host, s, x);
                &&& final(self).bound == old(self).bound
                &&& final(self).id == old(self).id
                &&& (scan_ok(host, s, x) && k < s.len() ==> r == Ok::<u64, DequeError>(s[k])
                    && final(self)@ == s.remove(k))
                &&& (scan_ok(host, s, x) && k == s.len() ==> r == Err::<u64, DequeError>(
                    DequeError::ValueNotFound,
                ) && final(self)@ == s)
                &&& (!scan_ok(host, s, x) ==> r == Err::<u64, DequeError>(DequeError::Host(
                    host.eq_err(s[first_failing_eq(host, s, x)], x),
                )) && final(self)@ == s)
                &&& (r is Ok <==> scan_ok(host, s, x) && k < s.len())
            }),
    {
        let mut i: usize = 0;
        while i < self.elements.len()
            invariant
                self == old(self),
                i <= self@.len(),
                forall|j: int|
                    0 <= j < i ==> !host.eq_spec(self@[j], x) && host.eq_ok(self@[j], x),
            decreases self@.len() - i,
        {
            match host.host_eq(self.elements[i], x) {
                Ok(true) => {
                    proof {
                        lemma_find_characterizes(host, self@, x);
                    }
                    let v = self.elements.remove(i);
                    return Ok(v);
                },
                Ok(false) => {},
                Err(e) => {
                    proof {
                        lemma_find_characterizes(host, self@, x);
                        lemma_failing_eq_characterizes(host, self@, x);
                        assert(first_failing_eq(host, self@, x) == i);
                    }
                    return Err(DequeError::Host(e));
                },
            }
            i += 1;
        }
        proof {
            lemma_find_characterizes(host, self@, x);
        }
        Err(DequeError::ValueNotFound)
    }

    /// Host lexicographic equality against another container.  Two handles
    /// of the same container are equal at once, without consulting the host.
    pub fn eq<H: Host>(&self, other: &BoundedDeque, host: &H) -> (r: Result<bool, HostError>)
        ensures
            self.id == other.id ==> r == Ok::<bool, HostError>(true),
            self.id != other.id ==> (r is Ok <==> (self@.len() != other@.len()
                || mismatch_scan_ok(host, self@, other@))),
            self.id != other.id && r is Ok ==> r->Ok_0 == spec_lex_eq(host, self@, other@),
            r is Err ==> r->Err_0 == host.eq_err(
                self@[first_failing_pair(host, self@, other@)],
                other@[first_failing_pair(host, self@, other@)],
            ),
    {
        if self.id == other.id {
            return Ok(true);
        }
        seq_eq(host, &self.elements, &other.elements)
    }

    /// Host lexicographic strict "less than" against another container.
    /// Two handles of the same container compare not-less at once, without
    /// consulting the host: no sequence is strictly below itself.
    pub fn lt<H: Host>(&self, other: &BoundedDeque, host: &H) -> (r: Result<bool, HostError>)
        ensures
            self.id == other.id ==> r == Ok::<bool, HostError>(false),
            self.id != other.id ==> (r is Ok <==> lex_calls_ok(
                host,
                self@,
                other@,
                |a: u64, b: u64| host.lt_ok(a, b),
            )),
            self.id != other.id && r is Ok ==> r->Ok_0 == spec_lex_lt(host, self@, other@),
            self.id != other.id ==> ({
                let k = first_mismatch(host, self@, other@);
                let f = first_failing_pair(host, self@, other@);
                &&& (!mismatch_scan_ok(host, self@, other@) ==> r == Err::<bool, HostError>(
                    host.eq_err(self@[f], other@[f]),
                ))
                &&& (mismatch_scan_ok(host, self@, other@) && k < common_len(self@, other@)
                    && !host.lt_ok(self@[k], other@[k]) ==> r == Err::<bool, HostError>(
                    host.lt_err(self@[k], other@[k]),
                ))
            }),
    {
        if self.id == other.id {
            return Ok(false);
        }
        seq_lt(host, &self.elements, &other.elements)
    }

    /// Host lexicographic "less than or equal" against another container.
    pub fn le<H: Host>(&self, other: &BoundedDeque, host: &H) -> (r: Result<bool, HostError>)
        ensures
            self.id == other.id ==> r == Ok::<bool, HostError>(true),
            self.id != other.id ==> (r is Ok <==> lex_calls_ok(
                host,
                self@,
                other@,
                |a: u64, b: u64| host.le_ok(a, b),
            )),
            self.id != other.id && r is Ok ==> r->Ok_0 == spec_lex_le(host, self@, other@),
            self.id != other.id ==> ({
                let k = first_mismatch(host, self@, other@);
                let f = first_failing_pair(host, self@, other@);
                &&& (!mismatch_scan_ok(host, self@, other@) ==> r == Err::<bool, HostError>(
                    host.eq_err(self@[f], other@[f]),
                ))
                &&& (mismatch_scan_ok(host, self@, other@) && k < common_len(self@, other@)
                    && !host.le_ok(self@[k], other@[k]) ==> r == Err::<bool, HostError>(
                    host.le_err(self@[k], other@[k]),
                ))
            }),
    {
        if self.id == other.id {
            return Ok(true);
        }
        seq_le(host, &self.elements, &other.elements)
    }

    /// Host lexicographic strict "greater than" against another container.
    /// Two handles of the same container compare not-greater at once: no
    /// sequence is strictly above itself.
    pub fn gt<H: Host>(&self, other: &BoundedDeque, host: &H) -> (r: Result<bool, HostError>)
        ensures
            self.id == other.id ==> r == Ok::<bool, HostError>(false),
            self.id != other.id ==> (r is Ok <==> lex_calls_ok(
                host,
                self@,
                other@,
                |a: u64, b: u64| host.gt_ok(a, b),
            )),
            self.id != other.id && r is Ok ==> r->Ok_0 == spec_lex_gt(host, self@, other@),
            self.id != other.id ==> ({
                let k = first_mismatch(host, self@, other@);
                let f = first_failing_pair(host, self@, other@);
                &&& (!mismatch_scan_ok(host, self@, other@) ==> r == Err::<bool, HostError>(
                    host.eq_err(self@[f], other@[f]),
                ))
                &&& (mismatch_scan_ok(host, self@, other@) && k < common_len(self@, other@)
                    && !host.gt_ok(self@[k], other@[k]) ==> r == Err::<bool, HostError>(
                    host.gt_err(self@[k], other@[k]),
                ))
            }),
    {
        if self.id == other.id {
            return Ok(false);
        }
        seq_gt(host, &self.elements, &other.elements)
    }

    /// Host lexicographic "greater than or equal" against another container.
    pub fn ge<H: Host>(&self, other: &BoundedDeque, host: &H) -> (r: Result<bool, HostError>)
        ensures
            self.id == other.id ==> r == Ok::<bool, HostError>(true),
            self.id != other.id ==> (r is Ok <==> lex_calls_ok(
                host,
                self@,
                other@,
                |a: u64, b: u64| host.ge_ok(a, b),
            )),
            self.id != other.id && r is Ok ==> r->Ok_0 == spec_lex_ge(host, self@, other@),
            self.id != other.id ==> ({
                let k = first_mismatch(host, self@, other@);
                let f = first_failing_pair(host, self@, other@);
                &&& (!mismatch_scan_ok(host, self@, other@) ==> r == Err::<bool, HostError>(
                    host.eq_err(self@[f], other@[f]),
                ))
                &&& (mismatch_scan_ok(host, self@, other@) && k < common_len(self@, other@)
                    && !host.ge_ok(self@[k], other@[k]) ==> r == Err::<bool, HostError>(
                    host.ge_err(self@[k], other@[k]),
                ))
            }),
    {
        if self.id == other.id {
            return Ok(true);
        }
        seq_ge(host, &self.elements, &other.elements)
    }

    /// The container rendered as text.  While this container's identity is
    /// already being rendered further up the call stack — its elements lead
    /// back to it — a fixed placeholder comes back instead of recursing.
    /// The guard is restored on every exit path, including a hook failure.
    pub fn repr<H: Host>(&self, host: &H, guard: &mut ReprGuard) -> (r: Result<String, HostError>)
        ensures
            final(guard)@ == old(guard)@,
            old(guard)@.contains(self.id) ==> r is Ok && r->Ok_0@ == "[...]"@,
            !old(guard)@.contains(self.id) ==> (r is Ok <==> (forall|j: int|
                0 <= j < self@.len() ==> host.repr_ok(old(guard)@.push(self.id), self@[j]))),
            !old(guard)@.contains(self.id) && r is Ok ==> r->Ok_0@ == spec_render(
                self@.map_values(|x: u64| host.repr_spec(old(guard)@.push(self.id), x)),
                self.bound,
            ),
            !old(guard)@.contains(self.id) && r is Err ==> r->Err_0 == host.repr_err(
                old(guard)@.push(self.id),
                self@[first_failing_repr(host, old(guard)@.push(self.id), self@)],
            ),
    {
        if self.holds_identity(guard) {
            return Ok(String::from_str("[...]"));
        }
        guard.enter(self.id);
        let mut parts: Vec<String> = Vec::new();
        let mut i: usize = 0;
        while i < self.elements.len()
            invariant
                !old(guard)@.contains(self.id),
                i <= self@.len(),
                guard@ == old(guard)@.push(self.id),
                parts@.len() == i,
                forall|j: int| 0 <= j < i ==> host.repr_ok(old(guard)@.push(self.id), self@[j]),
                forall|j: int|
                    0 <= j < i ==> parts@[j]@ == host.repr_spec(
                        old(guard)@.push(self.id),
                        self@[j],
                    ),
            decreases self@.len() - i,
        {
            match host.host_repr(guard, self.elements[i]) {
                Ok(s) => {
                    parts.push(s);
                },
                Err(e) => {
                    guard.leave();
                    proof {
                        assert(old(guard)@.push(self.id).drop_last() =~= old(guard)@);
                        lemma_failing_repr_characterizes(
                            host,
                            old(guard)@.push(self.id),
                            self@,
                        );
                        assert(first_failing_repr(host, old(guard)@.push(self.id), self@) == i);
                    }
                    return Err(e);
                },
            }
            i += 1;
        }
        let out = render(&parts, self.maxlen());
        guard.leave();
        assert(old(guard)@.push(self.id).drop_last() =~= old(guard)@);
        proof {
            assert(parts@.map_values(|p: String| p@) =~= self@.map_values(
                |x: u64| host.repr_spec(old(guard)@.push(self.id), x),
            ));
        }
        Ok(out)
    }

    /// Whether this container's identity is currently held by the guard.
    fn holds_identity(&self, guard: &ReprGuard) -> (r: bool)
        ensures
            r == guard@.contains(self.id),
    {
        guard.holds(self.id)
    }

    /// The configured bound, or `None` for "no bound".
    pub fn maxlen(&self) -> (r: Option<usize>)
        ensures
            r == self.bound,
    {
        self.bound
    }

    /// How many elements the container holds.
    pub fn len(&self) -> (r: usize)
        ensures
            r == self@.len(),
    {
        self.elements.len()
    }

    /// The elements in iteration order, head first, for the host's generic
    /// iteration protocol.
    pub fn to_vec(&self) -> (r: Vec<u64>)
        ensures
            r@ == self@,
    {
        let d = self.copy(self.id);
        d.elements
    }
}

} // verus!
