use vstd::prelude::*;
use crate::models::Phase;

verus! {

/// Why a phase table could not be built.
#[derive(Debug, PartialEq, Eq)]
pub enum PhaseError {
    DbError,
    SequenceError,
    Empty,
}

/// The validated, ordered sequence of phases. Entry `k` carries the number
/// `first + k`, where `first` is the smallest number of the sequence.
pub struct Phases {
    phases: Vec<Phase>,
    pub count: usize,
}

/// No two entries share a number.
pub open spec fn distinct_numbers(s: Seq<Phase>) -> bool {
    forall|i: int, j: int| 0 <= i < j < s.len() ==> s[i].number != s[j].number
}

/// Every number lies in `lo .. lo + s.len()`, and every number of that window occurs.
pub open spec fn fills_window(s: Seq<Phase>, lo: int) -> bool {
    &&& forall|i: int| 0 <= i < s.len() ==> lo <= #[trigger] s[i].number < lo + s.len()
    &&& forall|n: int| lo <= n < lo + s.len() ==> #[trigger] has_number(s, n)
}

/// Some entry carries the number `n`.
pub open spec fn has_number(s: Seq<Phase>, n: int) -> bool {
    exists|i: int| 0 <= i < s.len() && s[i].number == n
}

/// The numbers form one contiguous run: no gaps, no duplicates, and at least one entry.
pub open spec fn is_run(s: Seq<Phase>) -> bool {
    &&& s.len() > 0
    &&& distinct_numbers(s)
    &&& exists|lo: int| fills_window(s, lo)
}

/// Each number of `t` is one more than the number before it.
pub open spec fn ascending_by_one(t: Seq<Phase>) -> bool {
    forall|k: int| 0 <= k < t.len() ==> #[trigger] t[k].number == t[0].number + k
}

/// `t` holds the entries of `s` ordered by number: the entry numbered `m`
/// stands at position `m - t[0].number`.
pub open spec fn arranged(s: Seq<Phase>, t: Seq<Phase>) -> bool {
    &&& t.len() == s.len()
    &&& t.len() > 0
    &&& ascending_by_one(t)
    &&& forall|i: int|
        0 <= i < s.len() ==> 0 <= #[trigger] s[i].number - t[0].number < t.len()
            && t[s[i].number - t[0].number] == s[i]
}

/// The first entry of `s` numbered `n`, if any.
pub open spec fn lookup(s: Seq<Phase>, n: int) -> Option<Phase>
    decreases s.len(),
{
    if s.len() == 0 {
        None
    } else if s[0].number == n {
        Some(s[0])
    } else {
        lookup(s.drop_first(), n)
    }
}

impl View for Phases {
    type V = Seq<Phase>;

    closed spec fn view(&self) -> Seq<Phase> {
        self.phases@
    }
}

impl Phases {
    /// A table is well formed when it is non-empty, ordered with step one,
    /// and `count` gives its length.
    pub closed spec fn wf(&self) -> bool {
        &&& self@.len() > 0
        &&& self.count == self@.len()
        &&& ascending_by_one(self@)
    }

    /// Builds the table from phases in any order. Fails with `Empty` on no
    /// phases, and with `SequenceError` when their numbers have a gap or a
    /// duplicate.
    pub fn new(phases: Vec<Phase>) -> (r: Result<Phases, PhaseError>)
        ensures
            r is Ok <==> is_run(phases@),
            match r {
                Ok(t) => t.wf() && arranged(phases@, t@),
                Err(PhaseError::Empty) => phases@.len() == 0,
                Err(PhaseError::SequenceError) => phases@.len() > 0 && !is_run(phases@),
                Err(PhaseError::DbError) => false,
            },
    {
        let n = phases.len();
        if n == 0 {
            return Err(PhaseError::Empty);
        }
        let lo = smallest_number(&phases);
        let ghost m = choose|m: int| 0 <= m < n && phases@[m].number == lo;
        if repeated_number(&phases).is_some() {
            return Err(PhaseError::SequenceError);
        }
        // Every number must lie within `n` of the smallest one.
        let mut i: usize = 0;
        while i < n
            invariant
                n == phases@.len(),
                i <= n,
                forall|j: int| 0 <= j < i ==> #[trigger] phases@[j].number - lo < n,
                forall|j: int| 0 <= j < n ==> lo <= #[trigger] phases@[j].number,
                0 <= m < n,
                phases@[m].number == lo,
            decreases n - i,
        {
            let offset = (phases[i].number as i64 - lo as i64) as u64;
            if offset >= n as u64 {
                proof {
                    lemma_not_run_past_window(phases@, lo as int, m, i as int);
                }
                return Err(PhaseError::SequenceError);
            }
            i = i + 1;
        }
        // Place the phase numbered `lo + k` at position `k`; `src` records where it came from.
        let mut table: Vec<Phase> = Vec::new();
        let ghost mut src: Seq<int> = Seq::empty();
        let mut k: usize = 0;
        while k < n
            invariant
                n == phases@.len(),
                k <= n,
                forall|j: int| 0 <= j < n ==> lo <= #[trigger] phases@[j].number,
                table@.len() == k,
                src.len() == k,
                forall|kk: int| 0 <= kk < k ==> #[trigger] table@[kk].number == lo + kk,
                forall|kk: int|
                    0 <= kk < k ==> 0 <= #[trigger] src[kk] < n && table@[kk] == phases@[src[kk]],
                0 <= m < n,
                phases@[m].number == lo,
                distinct_numbers(phases@),
                forall|j: int| 0 <= j < n ==> #[trigger] phases@[j].number - lo < n,
            decreases n - k,
        {
            match position_of_offset(&phases, lo, k as u64) {
                Some(j) => {
                    table.push(phases[j]);
                    proof {
                        src = src.push(j as int);
                    }
                },
                None => {
                    proof {
                        lemma_not_run_missing(phases@, lo as int, m, k as int);
                    }
                    return Err(PhaseError::SequenceError);
                },
            }
            k = k + 1;
        }
        let ghost t = table@;
        assert(ascending_by_one(t)) by {
            assert forall|kk: int| 0 <= kk < t.len() implies #[trigger] t[kk].number == t[0].number
                + kk by {
                assert(t[0].number == lo + 0);
            }
        }
        assert forall|i: int| 0 <= i < n implies 0 <= #[trigger] phases@[i].number - t[0].number
            < t.len() && t[phases@[i].number - t[0].number] == phases@[i] by {
            assert(t[0].number == lo + 0);
            let kk = phases@[i].number - lo;
            let j = src[kk];
            assert(table@[kk] == phases@[j]);
            if j != i {
                if j < i {
                    assert(phases@[j].number != phases@[i].number);
                } else {
                    assert(phases@[i].number != phases@[j].number);
                }
            }
        }
        assert(fills_window(phases@, lo as int)) by {
            assert forall|v: int| lo <= v < lo + n implies #[trigger] has_number(phases@, v) by {
                let j = src[v - lo];
                assert(phases@[j].number == v);
            }
        }
        Ok(Phases { phases: table, count: n })
    }

    /// The number of phases in the table; a table built by `new` holds one
    /// entry for each phase it was given.
    pub fn len(&self) -> (r: usize)
        ensures
            r == self@.len(),
    {
        self.phases.len()
    }

    /// The phase numbered `phase_num`, or `None` when the table has none.
    pub fn get(&self, phase_num: i32) -> (r: Option<&Phase>)
        ensures
            match r {
                Some(p) => lookup(self@, phase_num as int) == Some(*p),
                None => lookup(self@, phase_num as int) is None,
            },
    {
        let n = self.phases.len();
        let mut i: usize = 0;
        assert(self@.subrange(0, n as int) =~= self@);
        while i < n
            invariant
                n == self@.len(),
                i <= n,
                self@ == self.phases@,
                lookup(self@, phase_num as int) == lookup(self@.subrange(i as int, n as int), phase_num as int),
            decreases n - i,
        {
            if self.phases[i].number == phase_num {
                return Some(&self.phases[i]);
            }
            assert(self@.subrange(i as int, n as int).drop_first() =~= self@.subrange(i + 1, n as int));
            i = i + 1;
        }
        None
    }
}

/// The smallest number among the phases.
fn smallest_number(phases: &Vec<Phase>) -> (lo: i32)
    requires
        phases@.len() > 0,
    ensures
        exists|m: int| 0 <= m < phases@.len() && phases@[m].number == lo,
        forall|j: int| 0 <= j < phases@.len() ==> lo <= #[trigger] phases@[j].number,
{
    let mut lo = phases[0].number;
    let mut i: usize = 1;
    while i < phases.len()
        invariant
            1 <= i <= phases@.len(),
            exists|m: int| 0 <= m < i && phases@[m].number == lo,
            forall|j: int| 0 <= j < i ==> lo <= #[trigger] phases@[j].number,
        decreases phases@.len() - i,
    {
        if phases[i].number < lo {
            lo = phases[i].number;
        }
        i = i + 1;
    }
    lo
}

/// Two positions whose phases share a number, if there are any.
fn repeated_number(phases: &Vec<Phase>) -> (r: Option<(usize, usize)>)
    ensures
        match r {
            Some((i, j)) => i < j < phases@.len() && phases@[i as int].number == phases@[j as int].number,
            None => distinct_numbers(phases@),
        },
{
    let n = phases.len();
    let mut i: usize = 0;
    while i < n
        invariant
            n == phases@.len(),
            i <= n,
            forall|a: int, b: int| 0 <= a < i && a < b < n ==> phases@[a].number != phases@[b].number,
        decreases n - i,
    {
        let mut j: usize = i + 1;
        while j < n
            invariant
                n == phases@.len(),
                i < n,
                i + 1 <= j <= n,
                forall|a: int, b: int| 0 <= a < i && a < b < n ==> phases@[a].number != phases@[b].number,
                forall|b: int| i < b < j ==> phases@[i as int].number != phases@[b].number,
            decreases n - j,
        {
            if phases[i].number == phases[j].number {
                return Some((i, j));
            }
            j = j + 1;
        }
        i = i + 1;
    }
    None
}

/// The position of a phase whose number is `lo + offset`, if any.
fn position_of_offset(phases: &Vec<Phase>, lo: i32, offset: u64) -> (r: Option<usize>)
    requires
        forall|j: int| 0 <= j < phases@.len() ==> lo <= #[trigger] phases@[j].number,
    ensures
        match r {
            Some(j) => j < phases@.len() && phases@[j as int].number == lo + offset,
            None => forall|j: int| 0 <= j < phases@.len() ==> #[trigger] phases@[j].number != lo + offset,
        },
{
    let n = phases.len();
    let mut j: usize = 0;
    while j < n
        invariant
            n == phases@.len(),
            j <= n,
            forall|a: int| 0 <= a < phases@.len() ==> lo <= #[trigger] phases@[a].number,
            forall|a: int| 0 <= a < j ==> #[trigger] phases@[a].number != lo + offset,
        decreases n - j,
    {
        if (phases[j].number as i64 - lo as i64) as u64 == offset {
            return Some(j);
        }
        j = j + 1;
    }
    None
}

/// In a table without repeated numbers, looking up the number of an entry finds that entry.
pub proof fn lemma_lookup_at(t: Seq<Phase>, k: int)
    requires
        0 <= k < t.len(),
        distinct_numbers(t),
    ensures
        lookup(t, t[k].number as int) == Some(t[k]),
    decreases k,
{
    if k > 0 {
        assert(t[0].number != t[k].number);
        let rest = t.drop_first();
        assert(rest[k - 1] == t[k]);
        assert(distinct_numbers(rest)) by {
            assert forall|i: int, j: int| 0 <= i < j < rest.len() implies rest[i].number
                != rest[j].number by {
                assert(rest[i] == t[i + 1] && rest[j] == t[j + 1]);
            }
        }
        lemma_lookup_at(rest, k - 1);
    }
}

/// Looking up a number that no entry carries finds nothing.
pub proof fn lemma_lookup_none(t: Seq<Phase>, n: int)
    requires
        forall|i: int| 0 <= i < t.len() ==> #[trigger] t[i].number != n,
    ensures
        lookup(t, n) is None,
    decreases t.len(),
{
    if t.len() > 0 {
        let rest = t.drop_first();
        assert forall|i: int| 0 <= i < rest.len() implies #[trigger] rest[i].number != n by {
            assert(rest[i] == t[i + 1]);
        }
        lemma_lookup_none(rest, n);
    }
}

/// A table built from a run answers each number of the run with the phase
/// that carries it, and every other number with nothing.
pub proof fn lemma_run_lookup(s: Seq<Phase>, t: Seq<Phase>, n: int)
    requires
        is_run(s),
        arranged(s, t),
    ensures
        forall|i: int| 0 <= i < s.len() ==> lookup(t, #[trigger] s[i].number as int) == Some(s[i]),
        !has_number(s, n) ==> lookup(t, n) is None,
{
    assert(distinct_numbers(t)) by {
        assert forall|i: int, j: int| 0 <= i < j < t.len() implies t[i].number != t[j].number by {
            assert(t[i].number == t[0].number + i);
            assert(t[j].number == t[0].number + j);
        }
    }
    assert forall|i: int| 0 <= i < s.len() implies lookup(t, #[trigger] s[i].number as int) == Some(
        s[i],
    ) by {
        lemma_lookup_at(t, s[i].number - t[0].number);
    }
    if !has_number(s, n) {
        let lo = choose|lo: int| fills_window(s, lo);
        assert(has_number(s, lo));
        assert(has_number(s, lo + s.len() - 1));
        let a = choose|a: int| 0 <= a < s.len() && s[a].number == lo;
        let b = choose|b: int| 0 <= b < s.len() && s[b].number == lo + s.len() - 1;
        assert(0 <= s[a].number - t[0].number);
        assert(s[b].number - t[0].number < t.len());
        assert forall|k: int| 0 <= k < t.len() implies #[trigger] t[k].number != n by {
            assert(t[k].number == t[0].number + k);
            if t[k].number == n {
                assert(has_number(s, lo + k));
            }
        }
        lemma_lookup_none(t, n);
    }
}

/// Phases with a repeated number, or with a number missing between two
/// numbers that occur, do not form a run.
pub proof fn lemma_gap_or_duplicate_not_run(s: Seq<Phase>)
    requires
        !distinct_numbers(s) || exists|i: int, j: int, v: int|
            #![trigger s[i], s[j], has_number(s, v)]
            0 <= i < s.len() && 0 <= j < s.len() && s[i].number < v < s[j].number
                && !has_number(s, v),
    ensures
        !is_run(s),
{
    if distinct_numbers(s) && is_run(s) {
        let (i, j, v) = choose|i: int, j: int, v: int|
            #![trigger s[i], s[j], has_number(s, v)]
            0 <= i < s.len() && 0 <= j < s.len() && s[i].number < v < s[j].number
                && !has_number(s, v);
        let lo = choose|lo: int| fills_window(s, lo);
        assert(lo <= s[i].number && s[j].number < lo + s.len());
        assert(has_number(s, v));
    }
}

/// A window that the numbers fill starts at their smallest number.
proof fn lemma_window_start(s: Seq<Phase>, lo: int, m: int)
    requires
        fills_window(s, lo),
        0 <= m < s.len(),
        forall|j: int| 0 <= j < s.len() ==> s[m].number <= #[trigger] s[j].number,
    ensures
        lo == s[m].number,
{
    assert(has_number(s, lo));
    let i = choose|i: int| 0 <= i < s.len() && s[i].number == lo;
    assert(s[m].number <= s[i].number);
    assert(lo <= s[m].number);
}

/// A number at or past `smallest + len` rules out a run.
proof fn lemma_not_run_past_window(s: Seq<Phase>, lo: int, m: int, i: int)
    requires
        0 <= m < s.len(),
        s[m].number == lo,
        forall|j: int| 0 <= j < s.len() ==> lo <= #[trigger] s[j].number,
        0 <= i < s.len(),
        s[i].number - lo >= s.len(),
    ensures
        !is_run(s),
{
    if is_run(s) {
        let w = choose|w: int| fills_window(s, w);
        lemma_window_start(s, w, m);
        assert(s[i].number < w + s.len());
    }
}

/// A number of the window from the smallest number on that no phase carries rules out a run.
proof fn lemma_not_run_missing(s: Seq<Phase>, lo: int, m: int, k: int)
    requires
        0 <= m < s.len(),
        s[m].number == lo,
        forall|j: int| 0 <= j < s.len() ==> lo <= #[trigger] s[j].number,
        0 <= k < s.len(),
        forall|j: int| 0 <= j < s.len() ==> #[trigger] s[j].number != lo + k,
    ensures
        !is_run(s),
{
    if is_run(s) {
        let w = choose|w: int| fills_window(s, w);
        lemma_window_start(s, w, m);
        assert(has_number(s, w + k));
        let i = choose|i: int| 0 <= i < s.len() && s[i].number == w + k;
        assert(s[i].number != lo + k);
    }
}

} // verus!
