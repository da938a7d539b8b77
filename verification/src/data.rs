//! Bounded history of counter deltas and the averages drawn from it.

use vstd::prelude::*;

verus! {

/// Number of deltas a tracker remembers: fifteen minutes at one sample per second.
pub const CAPACITY: usize = 900;

/// Distance from `prev` to `raw` on a counter that wraps at 2^64.
pub open spec fn wrapped_delta(raw: u64, prev: u64) -> u64 {
    if raw >= prev {
        (raw - prev) as u64
    } else {
        (raw + 0x1_0000_0000_0000_0000 - prev) as u64
    }
}

/// Sum of a window of deltas.
pub open spec fn total(window: Seq<u64>) -> nat
    decreases window.len(),
{
    if window.len() == 0 {
        0
    } else {
        total(window.drop_last()) + window.last() as nat
    }
}

/// An exact quotient `num / den`. With `den == 0` it is no number at all, and
/// compares neither above nor below anything.
pub struct Ratio {
    /// What is divided.
    pub num: nat,
    /// What it is divided by.
    pub den: nat,
}

impl Ratio {
    /// The quotient that stands for "no data yet".
    pub open spec fn nan() -> Ratio {
        Ratio { num: 0, den: 0 }
    }

    /// The mean of a window: its sum over its length.
    pub open spec fn mean(window: Seq<u64>) -> Ratio {
        Ratio { num: total(window), den: window.len() }
    }

    /// Whether this is no number.
    pub open spec fn is_nan(self) -> bool {
        self.den == 0
    }

    /// `self >= threshold`; never so for no number.
    pub open spec fn at_least(self, threshold: nat) -> bool {
        !self.is_nan() && self.num >= threshold * self.den
    }

    /// `self < threshold`; never so for no number.
    pub open spec fn below(self, threshold: nat) -> bool {
        !self.is_nan() && self.num < threshold * self.den
    }

    /// `self + other`; no number as soon as one of the two is none.
    pub open spec fn plus(self, other: Ratio) -> Ratio {
        if self.is_nan() || other.is_nan() {
            Ratio::nan()
        } else {
            Ratio { num: self.num * other.den + other.num * self.den, den: self.den * other.den }
        }
    }
}

/// The slot one backward from `pos` in the ring: from slot 0 it is the last.
pub open spec fn slot_before(pos: int) -> int {
    if pos == 0 {
        CAPACITY - 1
    } else {
        pos - 1
    }
}

/// The `CAPACITY` newest of a run of deltas that has the newest first.
pub open spec fn newest(deltas: Seq<u64>) -> Seq<u64> {
    if deltas.len() <= CAPACITY {
        deltas
    } else {
        deltas.take(CAPACITY as int)
    }
}

/// What a tracker stands for: the last raw counter reading, if any, the
/// remembered deltas with the newest first, and where in its ring they lie.
pub struct History {
    /// The last raw reading; none before the first.
    pub last: Option<u64>,
    /// The deltas that are remembered, the newest first.
    pub deltas: Seq<u64>,
    /// The slot of the ring that was written last.
    pub write_pos: int,
    /// The ring as it lies in memory, slot by slot.
    pub ring: Seq<u64>,
}

impl History {
    /// A tracker that has seen nothing: it starts at slot 0 of a ring of
    /// zeros.
    pub open spec fn fresh() -> History {
        History {
            last: None,
            deltas: Seq::empty(),
            write_pos: 0,
            ring: Seq::new(CAPACITY as nat, |i: int| 0u64),
        }
    }

    /// The slot in which the delta lies that is `age` ticks old: the newest
    /// in the slot written last, each older one a slot further on, going
    /// round at the ring's end.
    pub open spec fn slot(self, age: int) -> int {
        (self.write_pos + age) % (CAPACITY as int)
    }

    /// At most `CAPACITY` deltas are remembered, the write position is a
    /// slot of the ring, and the deltas are what the ring holds from there
    /// on.
    pub open spec fn wf(self) -> bool {
        &&& self.deltas.len() <= CAPACITY
        &&& 0 <= self.write_pos < CAPACITY
        &&& self.ring.len() == CAPACITY
        &&& forall|age: int|
            0 <= age < self.deltas.len() ==> #[trigger] self.deltas[age] == self.ring[self.slot(
                age,
            )]
    }

    /// The history after one more delta: it becomes the newest, and the oldest
    /// is forgotten once `CAPACITY` deltas are held. In the ring the write
    /// position goes one slot back, that slot takes the delta, and the other
    /// slots stay as they are.
    pub open spec fn push_diff(self, diff: u64) -> History {
        History {
            last: self.last,
            deltas: newest(seq![diff] + self.deltas),
            write_pos: slot_before(self.write_pos),
            ring: self.ring.update(slot_before(self.write_pos), diff),
        }
    }

    /// The delta that a raw reading yields: none for the first reading.
    pub open spec fn delta(self, raw: u64) -> Option<u64> {
        match self.last {
            Some(prev) => Some(wrapped_delta(raw, prev)),
            None => None,
        }
    }

    /// The history after a raw reading. The first one is remembered and
    /// changes nothing else; every later one is remembered and its delta
    /// pushed.
    pub open spec fn push(self, raw: u64) -> History {
        match self.delta(raw) {
            Some(diff) => History { last: Some(raw), ..self.push_diff(diff) },
            None => History { last: Some(raw), ..self },
        }
    }

    /// The most recent `window` deltas, newest first; all of them where fewer
    /// are held.
    pub open spec fn take(self, window: nat) -> Seq<u64> {
        if window <= self.deltas.len() {
            self.deltas.take(window as int)
        } else {
            self.deltas
        }
    }

    /// The mean of the most recent `window` deltas.
    pub open spec fn moving_average(self, window: nat) -> Ratio {
        Ratio::mean(self.take(window))
    }

    /// The history after a run of deltas, the first of `diffs` pushed first.
    pub open spec fn push_diffs(self, diffs: Seq<u64>) -> History
        decreases diffs.len(),
    {
        if diffs.len() == 0 {
            self
        } else {
            self.push_diffs(diffs.drop_last()).push_diff(diffs.last())
        }
    }

    /// The history after a run of raw readings, the first of `raws` pushed first.
    pub open spec fn pushes(self, raws: Seq<u64>) -> History
        decreases raws.len(),
    {
        if raws.len() == 0 {
            self
        } else {
            self.pushes(raws.drop_last()).push(raws.last())
        }
    }
}

/// Fixed-capacity ring of per-tick deltas for one counter. A delta is written
/// one slot before the one written last, so that the newest deltas are read
/// from the write position onward.
pub struct Historical {
    last: Option<u64>,
    hist: [u64; CAPACITY],
    pos: usize,
    len: usize,
}

impl View for Historical {
    type V = History;

    closed spec fn view(&self) -> History {
        History {
            last: self.last,
            deltas: Seq::new(
                self.len as nat,
                |i: int| self.hist@[(self.pos + i) % (CAPACITY as int)],
            ),
            write_pos: self.pos as int,
            ring: self.hist@,
        }
    }
}

impl Historical {
    #[verifier::type_invariant]
    spec fn inv(&self) -> bool {
        self.pos < CAPACITY && self.len <= CAPACITY
    }

    /// A tracker that has seen nothing.
    pub fn new() -> (h: Self)
        ensures
            h@ == History::fresh(),
            h@.wf(),
    {
        let h = Self { last: None, hist: [0; CAPACITY], pos: 0, len: 0 };
        assert(h@.deltas =~= Seq::<u64>::empty());
        assert(h@.ring =~= Seq::new(CAPACITY as nat, |i: int| 0u64));
        h
    }

    /// The slot of the ring that was written last.
    pub fn write_pos(&self) -> (pos: usize)
        ensures
            pos == self@.write_pos,
            pos < CAPACITY,
            self@.wf(),
    {
        proof {
            use_type_invariant(self);
        }
        self.pos
    }

    /// Takes a raw counter reading. The first one is only remembered. Every
    /// later one yields the delta to the reading before it, taken modulo
    /// 2^64 so that a counter which wrapped or was reset still gives one;
    /// the delta goes into the history and is returned.
    pub fn push(&mut self, val: u64) -> (diff: Option<u64>)
        ensures
            diff == old(self)@.delta(val),
            final(self)@ == old(self)@.push(val),
            final(self)@.wf(),
    {
        proof {
            use_type_invariant(&*self);
        }
        let previous = self.last;
        self.last = Some(val);
        if let Some(last) = previous {
            let diff = val.wrapping_sub(last);
            self.push_diff(diff);
            Some(diff)
        } else {
            None
        }
    }

    /// Puts a delta into the history as its newest. Once `CAPACITY` deltas
    /// are held, the oldest makes room for it.
    pub fn push_diff(&mut self, diff: u64)
        ensures
            final(self)@ == old(self)@.push_diff(diff),
            final(self)@.wf(),
    {
        proof {
            use_type_invariant(&*self);
        }
        self.pos = self.pos.wrapping_sub(1).min(self.hist.len() - 1);
        self.hist[self.pos] = diff;
        self.len = (self.len + 1).min(self.hist.len());
        assert(self@.deltas =~= old(self)@.push_diff(diff).deltas);
        assert(self@.ring =~= old(self)@.push_diff(diff).ring);
    }

    /// Number of deltas held.
    pub fn filled(&self) -> (n: usize)
        ensures
            n == self@.deltas.len(),
            n <= CAPACITY,
            self@.wf(),
    {
        proof {
            use_type_invariant(self);
        }
        self.len
    }

    /// The last raw reading, if there was one.
    pub fn last(&self) -> (raw: Option<u64>)
        ensures
            raw == self@.last,
    {
        self.last
    }

    /// The delta that is `age` ticks old.
    fn nth(&self, age: usize) -> (diff: u64)
        requires
            age < self@.deltas.len(),
        ensures
            diff == self@.deltas[age as int],
    {
        proof {
            use_type_invariant(self);
        }
        let at: usize = if age < self.hist.len() - self.pos {
            self.pos + age
        } else {
            age - (self.hist.len() - self.pos)
        };
        self.hist[at]
    }

    /// The most recent deltas, newest first: `len` of them, or all where fewer
    /// are held.
    pub fn take(&self, len: usize) -> (taken: Vec<u64>)
        ensures
            taken@ == self@.take(len as nat),
    {
        let count: usize = len.min(self.filled());
        let mut taken: Vec<u64> = Vec::with_capacity(count);
        let mut age: usize = 0;
        while age < count
            invariant
                age <= count <= self@.deltas.len(),
                taken@ == self@.deltas.take(age as int),
            decreases count - age,
        {
            taken.push(self.nth(age));
            age += 1;
        }
        taken
    }

    /// Mean of the most recent deltas: of `len` of them, or of all where fewer
    /// are held. With none to take it is no number.
    pub fn moving_average(&self, len: usize) -> (mean: Average)
        ensures
            mean@ == self@.moving_average(len as nat),
    {
        let count: usize = len.min(self.filled());
        let mut sum: u128 = 0;
        let mut age: usize = 0;
        while age < count
            invariant
                age <= count <= self@.deltas.len() <= CAPACITY,
                sum == total(self@.deltas.take(age as int)),
                sum <= age * u64::MAX,
            decreases count - age,
        {
            assert(self@.deltas.take(age + 1).drop_last() =~= self@.deltas.take(age as int));
            sum += self.nth(age) as u128;
            age += 1;
        }
        assert(self@.deltas.take(self@.deltas.len() as int) =~= self@.deltas);
        Average { sum, count }
    }
}

/// Mean of a window of deltas, held exactly as a sum and a count.
pub struct Average {
    sum: u128,
    count: usize,
}

impl View for Average {
    type V = Ratio;

    closed spec fn view(&self) -> Ratio {
        Ratio { num: self.sum as nat, den: self.count as nat }
    }
}

impl Average {
    #[verifier::type_invariant]
    spec fn inv(&self) -> bool {
        self.count <= CAPACITY && self.sum <= self.count * u64::MAX
    }

    /// Sum of the window.
    pub fn sum(&self) -> (sum: u128)
        ensures
            sum == self@.num,
            sum <= self@.den * u64::MAX,
    {
        proof {
            use_type_invariant(self);
        }
        self.sum
    }

    /// Number of deltas in the window.
    pub fn count(&self) -> (count: usize)
        ensures
            count == self@.den,
            count <= CAPACITY,
    {
        proof {
            use_type_invariant(self);
        }
        self.count
    }

    /// Whether the window was empty, so that there is no mean.
    pub fn is_nan(&self) -> (nan: bool)
        ensures
            nan == self@.is_nan(),
    {
        self.count == 0
    }
}

/// Sum of two means, held exactly as one quotient.
pub struct Combined {
    num: u128,
    den: u128,
}

impl View for Combined {
    type V = Ratio;

    closed spec fn view(&self) -> Ratio {
        Ratio { num: self.num as nat, den: self.den as nat }
    }
}

impl Combined {
    #[verifier::type_invariant]
    spec fn inv(&self) -> bool {
        self.den <= CAPACITY * CAPACITY && self.num <= 2 * self.den * u64::MAX
    }

    /// Adds the inbound and the outbound mean.
    pub fn new(inbound: &Average, outbound: &Average) -> (combined: Self)
        ensures
            combined@ == inbound@.plus(outbound@),
    {
        if inbound.is_nan() || outbound.is_nan() {
            return Combined { num: 0, den: 0 };
        }
        let in_sum: u128 = inbound.sum();
        let in_count: u128 = inbound.count() as u128;
        let out_sum: u128 = outbound.sum();
        let out_count: u128 = outbound.count() as u128;
        assert(in_sum * out_count <= in_count * out_count * u64::MAX && out_sum * in_count
            <= in_count * out_count * u64::MAX && in_count * out_count <= CAPACITY * CAPACITY)
            by (nonlinear_arith)
            requires
                in_sum <= in_count * u64::MAX,
                out_sum <= out_count * u64::MAX,
                in_count <= CAPACITY,
                out_count <= CAPACITY,
        ;
        Combined { num: in_sum * out_count + out_sum * in_count, den: in_count * out_count }
    }

    /// Numerator of the quotient.
    pub fn numerator(&self) -> (num: u128)
        ensures
            num == self@.num,
    {
        self.num
    }

    /// Denominator of the quotient; zero where there is no number.
    pub fn denominator(&self) -> (den: u128)
        ensures
            den == self@.den,
    {
        self.den
    }

    /// Whether one of the two means was missing.
    pub fn is_nan(&self) -> (nan: bool)
        ensures
            nan == self@.is_nan(),
    {
        self.den == 0
    }

    /// `self >= threshold`, which no number never is.
    pub fn at_least(&self, threshold: u64) -> (yes: bool)
        ensures
            yes == self@.at_least(threshold as nat),
    {
        proof {
            use_type_invariant(self);
            assert(threshold * self.den <= u64::MAX * (CAPACITY * CAPACITY)) by (nonlinear_arith)
                requires
                    threshold <= u64::MAX,
                    self.den <= CAPACITY * CAPACITY,
            ;
        }
        self.den != 0 && self.num >= threshold as u128 * self.den
    }

    /// `self < threshold`, which no number never is.
    pub fn below(&self, threshold: u64) -> (yes: bool)
        ensures
            yes == self@.below(threshold as nat),
    {
        proof {
            use_type_invariant(self);
            assert(threshold * self.den <= u64::MAX * (CAPACITY * CAPACITY)) by (nonlinear_arith)
                requires
                    threshold <= u64::MAX,
                    self.den <= CAPACITY * CAPACITY,
            ;
        }
        self.den != 0 && self.num < threshold as u128 * self.den
    }
}

/// The reading that came before `raws[k]`: the one before it in the run, or
/// for the first of the run the one that the tracker had already seen.
pub open spec fn reading_before(seen: Option<u64>, raws: Seq<u64>, k: int) -> Option<u64> {
    if k == 0 {
        seen
    } else {
        Some(raws[k - 1])
    }
}

/// A tracker that has seen nothing has no moving average, whatever the
/// window, and its first reading yields no delta and still no average.
pub proof fn lemma_fresh_tracker(window: nat, raw: u64)
    ensures
        History::fresh().wf(),
        History::fresh().moving_average(window).is_nan(),
        History::fresh().delta(raw) is None,
        History::fresh().push(raw).moving_average(window).is_nan(),
{
}

/// A reading equal to the one before yields delta zero. A smaller one yields
/// the distance through the wrap at 2^64, so that from the largest reading
/// to zero it is one. In every case the delta is the difference modulo 2^64.
pub proof fn lemma_wraparound(history: History, prev: u64, raw: u64)
    ensures
        history.push(prev).delta(prev) == Some(0u64),
        history.push(prev).delta(raw) == Some(wrapped_delta(raw, prev)),
        raw < prev ==> wrapped_delta(raw, prev) == 0x1_0000_0000_0000_0000 - prev + raw,
        wrapped_delta(raw, prev) == (raw - prev) % 0x1_0000_0000_0000_0000,
        wrapped_delta(0, u64::MAX) == 1,
{
}

/// Pushing keeps a history as it must be: within its capacity, with the
/// write position on a slot of the ring, and with the deltas in the ring
/// from there on.
pub proof fn lemma_push_keeps_capacity(history: History, diff: u64, raw: u64)
    requires
        history.wf(),
    ensures
        history.push_diff(diff).wf(),
        history.push(raw).wf(),
{
}

/// A delta moves the write position one slot backward, from slot 0 round to
/// the last, and is written there; every other slot stays as it was. A first
/// reading is only remembered: it moves nothing and writes nothing.
pub proof fn lemma_push_writes_one_slot(history: History, diff: u64, raw: u64)
    requires
        history.wf(),
    ensures
        history.push_diff(diff).write_pos == history.slot(CAPACITY - 1),
        history.push_diff(diff).ring[history.push_diff(diff).write_pos] == diff,
        history.push_diff(diff).deltas[0] == diff,
        forall|i: int|
            0 <= i < CAPACITY && i != history.push_diff(diff).write_pos
                ==> #[trigger] history.push_diff(diff).ring[i] == history.ring[i],
        history.last is None ==> history.push(raw).write_pos == history.write_pos
            && history.push(raw).ring == history.ring && history.push(raw).deltas
            == history.deltas && history.push(raw).last == Some(raw),
{
}

/// After a run of deltas a history holds the run newest first, then what it
/// held before, cut off at `CAPACITY`: once more than `CAPACITY` deltas were
/// pushed, exactly the newest `CAPACITY` of them are left.
pub proof fn lemma_ring_capacity(history: History, diffs: Seq<u64>)
    requires
        history.wf(),
    ensures
        history.push_diffs(diffs).wf(),
        history.push_diffs(diffs).last == history.last,
        history.push_diffs(diffs).deltas == newest(diffs.reverse() + history.deltas),
        diffs.len() >= CAPACITY ==> history.push_diffs(diffs).deltas == newest(diffs.reverse()),
        diffs.len() >= CAPACITY ==> forall|window: nat|
            window >= CAPACITY ==> #[trigger] history.push_diffs(diffs).take(window)
                == diffs.reverse().take(CAPACITY as int),
    decreases diffs.len(),
{
    if diffs.len() > 0 {
        lemma_ring_capacity(history, diffs.drop_last());
    }
}

/// After a run of raw readings the `i`-th newest delta is the wrapped
/// difference between the `i`-th newest reading and the one before it, for
/// every `i` below the number of deltas held; and that number never exceeds
/// `CAPACITY`, however long the run.
pub proof fn lemma_pushes_keep_newest(history: History, raws: Seq<u64>, i: int)
    requires
        history.wf(),
        0 <= i < history.pushes(raws).deltas.len(),
        i < raws.len(),
        (reading_before(history.last, raws, raws.len() - 1 - i) is Some),
    ensures
        history.pushes(raws).wf(),
        history.pushes(raws).deltas[i] == wrapped_delta(
            raws[raws.len() - 1 - i],
            reading_before(history.last, raws, raws.len() - 1 - i).unwrap(),
        ),
    decreases raws.len(),
{
    let before = raws.drop_last();
    lemma_pushes_shape(history, before);
    if i > 0 {
        lemma_pushes_keep_newest(history, before, i - 1);
    }
}

/// After a run of raw readings a history is within its capacity, remembers
/// the last of them, and holds one delta for each reading that had one
/// before it, up to `CAPACITY`.
pub proof fn lemma_pushes_shape(history: History, raws: Seq<u64>)
    requires
        history.wf(),
    ensures
        history.pushes(raws).wf(),
        raws.len() > 0 ==> history.pushes(raws).last == Some(raws.last()),
        raws.len() == 0 ==> history.pushes(raws) == history,
        history.last is Some ==> history.pushes(raws).deltas.len() == if history.deltas.len()
            + raws.len() <= CAPACITY {
            history.deltas.len() + raws.len()
        } else {
            CAPACITY as nat
        },
        history.last is None && raws.len() > 0 ==> history.pushes(raws).deltas.len()
            == if history.deltas.len() + raws.len() - 1 <= CAPACITY {
            (history.deltas.len() + raws.len() - 1) as nat
        } else {
            CAPACITY as nat
        },
    decreases raws.len(),
{
    if raws.len() > 0 {
        lemma_pushes_shape(history, raws.drop_last());
    }
}

} // verus!
