//! The state of one rolling pass: the current window and its extremum.

use crate::bitmap::{
    all_null, count_nulls, count_valid, lemma_count_nulls_bound, lemma_count_nulls_split, Bitmap,
};
use crate::extremum::{
    is_extremum_at, is_extremum_of, is_last_extremum_at, lemma_extremum_matches_naive_scan,
    lemma_last_extremum_is_naive, lemma_naive_extremum_is_last, naive_extremum, same_extremum,
};
use crate::native::NativeType;
use crate::order::{precedes, Direction};
use crate::scan::{
    init_get_m_m_idx_and_null_count, lemma_first_valid, lemma_run_end_exists,
    lemma_scan_choice_single, n_sorted_past, run_end, run_sorted, scan_candidate, scan_choice,
    sorted_between,
};
use vstd::prelude::*;

verus! {

/// What a window knows between two moves.
pub struct WindowState {
    /// Where the current window starts.
    pub last_start: int,
    /// Where the current window ends (exclusive).
    pub last_end: int,
    /// The index of the entry that is reported as the extremum, if one is.
    pub extremum_at: Option<int>,
    /// Up to where the entries behind the extremum are known to be sorted.
    pub sorted_to: int,
}

impl WindowState {
    /// The value that is reported as the extremum.
    pub open spec fn extremum<T: NativeType>(self, values: Seq<T>) -> Option<T> {
        match self.extremum_at {
            Some(at) => Some(values[at]),
            None => None,
        }
    }

    /// What holds of the state throughout a pass.
    ///
    /// The window is a range of the buffer. An extremum is reported exactly
    /// when the window holds a present entry; it is then a present entry of
    /// the window against which no present entry of the window wins, and the
    /// entries behind it are sorted up to `sorted_to`. Without an extremum,
    /// the entries behind the window are sorted up to `sorted_to`.
    pub open spec fn consistent<T: NativeType>(
        self,
        direction: Direction,
        values: Seq<T>,
        validity: Seq<bool>,
    ) -> bool {
        &&& values.len() == validity.len()
        &&& 0 <= self.last_start <= self.last_end <= values.len()
        &&& match self.extremum_at {
            None => {
                &&& all_null(validity, self.last_start, self.last_end)
                &&& sorted_between(direction, values, validity, self.last_end, self.sorted_to)
            },
            Some(at) => {
                &&& self.last_start <= at < self.last_end
                &&& at <= self.sorted_to
                &&& run_sorted(direction, values, validity, at, self.sorted_to)
                &&& is_extremum_at(
                    direction,
                    values,
                    validity,
                    self.last_start,
                    self.last_end,
                    at,
                )
            },
        }
    }

    /// The state of a pass that starts with the window `[start, end)`: the
    /// whole window is scanned, and the sorted run behind its extremum found.
    pub open spec fn initial<T: NativeType>(
        direction: Direction,
        values: Seq<T>,
        validity: Seq<bool>,
        start: int,
        end: int,
    ) -> WindowState {
        match scan_choice(direction, values, validity, start, end, 0) {
            Some(at) => WindowState {
                last_start: start,
                last_end: end,
                extremum_at: Some(at),
                sorted_to: run_end(direction, values, validity, at),
            },
            None => WindowState { last_start: start, last_end: end, extremum_at: None, sorted_to: 1 },
        }
    }

    /// The state with the window at `[start, end)` and the extremum at `at`.
    /// The sorted run is found anew if `at` lies behind the known one.
    pub open spec fn moved_to<T: NativeType>(
        self,
        direction: Direction,
        values: Seq<T>,
        validity: Seq<bool>,
        at: int,
        start: int,
        end: int,
    ) -> WindowState {
        WindowState {
            last_start: start,
            last_end: end,
            extremum_at: Some(at),
            sorted_to: if self.sorted_to <= at {
                run_end(direction, values, validity, at)
            } else {
                self.sorted_to
            },
        }
    }

    /// Whether the extremum of the entering entries takes the place of the
    /// window's extremum without a look at the rest of the window: there was
    /// no extremum, or the new window shares no entry with the previous one,
    /// or the entering extremum wins or ties against it.
    pub open spec fn takes_entering<T: NativeType>(
        self,
        direction: Direction,
        values: Seq<T>,
        entering: Option<int>,
        start: int,
    ) -> bool {
        entering matches Some(em) && match self.extremum_at {
            None => true,
            Some(m) => self.last_end <= start || precedes(direction, values[em], values[m]),
        }
    }

    /// Whether what is left of the previous window must be scanned: the
    /// extremum has left at the front of a window that overlaps the previous
    /// one, and the entering entries do not make up for it.
    pub open spec fn rescans_overlap<T: NativeType>(
        self,
        direction: Direction,
        values: Seq<T>,
        entering: Option<int>,
        start: int,
    ) -> bool {
        &&& !self.takes_entering(direction, values, entering, start)
        &&& self.extremum_at matches Some(m)
        &&& m < start < self.last_end
    }

    /// The state after the window has moved to `[start, end)`, given the
    /// entry `entering` that a scan of the entering entries settled on and
    /// the entry `previous` that a scan of what is left of the previous
    /// window settles on.
    ///
    /// The entering extremum becomes the window's if it takes its place
    /// outright. Otherwise, a window that shares no entry with the previous
    /// one holds no present entry and has no extremum. Otherwise the
    /// previous extremum stays if it is still inside the window. Otherwise
    /// the better of `previous` and `entering` is taken, `entering` on a tie.
    pub open spec fn settle<T: NativeType>(
        self,
        direction: Direction,
        values: Seq<T>,
        validity: Seq<bool>,
        entering: Option<int>,
        previous: Option<int>,
        start: int,
        end: int,
    ) -> WindowState {
        let kept = WindowState { last_start: start, last_end: end, ..self };
        if self.takes_entering(direction, values, entering, start) {
            self.moved_to(direction, values, validity, entering.unwrap(), start, end)
        } else if self.last_end <= start {
            WindowState { extremum_at: None, ..kept }
        } else if !self.rescans_overlap(direction, values, entering, start) {
            kept
        } else {
            match (previous, entering) {
                (Some(pm), Some(em)) => if precedes(direction, values[em], values[pm]) {
                    self.moved_to(direction, values, validity, em, start, end)
                } else {
                    self.moved_to(direction, values, validity, pm, start, end)
                },
                (Some(pm), None) => self.moved_to(direction, values, validity, pm, start, end),
                (None, Some(em)) => self.moved_to(direction, values, validity, em, start, end),
                (None, None) => WindowState { extremum_at: None, ..kept },
            }
        }
    }

    /// Where the entries that enter a window at `[start, end)` begin.
    pub open spec fn entering_start(self, start: int) -> int {
        if self.last_end > start {
            self.last_end
        } else {
            start
        }
    }

    /// The state after the window has moved to `[start, end)`.
    ///
    /// The entries that enter, and if need be what is left of the previous
    /// window, are scanned with what is known of the sorted run.
    pub open spec fn slide<T: NativeType>(
        self,
        direction: Direction,
        values: Seq<T>,
        validity: Seq<bool>,
        start: int,
        end: int,
    ) -> WindowState {
        self.settle(
            direction,
            values,
            validity,
            scan_choice(direction, values, validity, self.entering_start(start), end, self.sorted_to),
            scan_choice(direction, values, validity, start, self.last_end, self.sorted_to),
            start,
            end,
        )
    }

    /// Behind the window the entries are sorted up to `sorted_to`.
    pub proof fn lemma_sorted_behind<T: NativeType>(
        self,
        direction: Direction,
        values: Seq<T>,
        validity: Seq<bool>,
        from: int,
    )
        requires
            self.consistent(direction, values, validity),
            self.last_end <= from || (self.extremum_at matches Some(m) && m <= from),
        ensures
            sorted_between(direction, values, validity, from, self.sorted_to),
    {
    }

    /// A window in a consistent state reports the extremum of its entries,
    /// and nothing exactly when it holds no present entry.
    pub proof fn lemma_reports_extremum<T: NativeType>(
        self,
        direction: Direction,
        values: Seq<T>,
        validity: Seq<bool>,
    )
        requires
            self.consistent(direction, values, validity),
        ensures
            is_extremum_of(
                direction,
                values,
                validity,
                self.last_start,
                self.last_end,
                self.extremum(values),
            ),
            self.extremum_at is None <==> all_null(validity, self.last_start, self.last_end),
    {
        if let Some(at) = self.extremum_at {
            assert(is_extremum_at(
                direction,
                values,
                validity,
                self.last_start,
                self.last_end,
                at,
            ));
            assert(validity[at]);
        }
    }

    /// Moving the window forward keeps the state consistent, whatever the
    /// scans settled on, as long as they settled on extrema of their ranges.
    pub proof fn lemma_settle_consistent<T: NativeType>(
        self,
        direction: Direction,
        values: Seq<T>,
        validity: Seq<bool>,
        entering: Option<int>,
        previous: Option<int>,
        start: int,
        end: int,
    )
        requires
            self.consistent(direction, values, validity),
            self.last_start <= start,
            self.last_end <= end,
            start <= end <= values.len(),
            match entering {
                None => all_null(validity, self.entering_start(start), end),
                Some(em) => is_extremum_at(
                    direction,
                    values,
                    validity,
                    self.entering_start(start),
                    end,
                    em,
                ),
            },
            self.rescans_overlap(direction, values, entering, start) ==> match previous {
                None => all_null(validity, start, self.last_end),
                Some(pm) => is_extremum_at(direction, values, validity, start, self.last_end, pm),
            },
        ensures
            self.settle(direction, values, validity, entering, previous, start, end).consistent(
                direction,
                values,
                validity,
            ),
    {
        let after = self.settle(direction, values, validity, entering, previous, start, end);
        let es = self.entering_start(start);
        if self.takes_entering(direction, values, entering, start) {
            let em = entering.unwrap();
            self.lemma_moved_to(direction, values, validity, em, start, end);
            assert(is_extremum_at(direction, values, validity, start, end, em));
        } else if self.last_end <= start {
            assert(all_null(validity, start, end));
        } else if !self.rescans_overlap(direction, values, entering, start) {
            if let Some(m) = self.extremum_at {
                assert(is_extremum_at(direction, values, validity, start, end, m));
            }
        } else {
            let m = self.extremum_at.unwrap();
            match (previous, entering) {
                (Some(pm), Some(em)) => {
                    self.lemma_moved_to(direction, values, validity, em, start, end);
                    self.lemma_moved_to(direction, values, validity, pm, start, end);
                    if precedes(direction, values[em], values[pm]) {
                        assert(is_extremum_at(direction, values, validity, start, end, em));
                    } else {
                        assert(is_extremum_at(direction, values, validity, start, end, pm));
                    }
                },
                (Some(pm), None) => {
                    self.lemma_moved_to(direction, values, validity, pm, start, end);
                    assert(is_extremum_at(direction, values, validity, start, end, pm));
                },
                (None, Some(em)) => {
                    self.lemma_moved_to(direction, values, validity, em, start, end);
                    assert(is_extremum_at(direction, values, validity, start, end, em));
                },
                (None, None) => {
                    assert(all_null(validity, start, end));
                },
            }
        }
    }

    /// Behind a new extremum that lies behind the previous one the entries
    /// are sorted up to the new `sorted_to`.
    proof fn lemma_moved_to<T: NativeType>(
        self,
        direction: Direction,
        values: Seq<T>,
        validity: Seq<bool>,
        at: int,
        start: int,
        end: int,
    )
        requires
            self.consistent(direction, values, validity),
            0 <= at < values.len(),
            validity[at],
            self.last_end <= at || (self.extremum_at matches Some(m) && m <= at),
        ensures
            at <= self.moved_to(direction, values, validity, at, start, end).sorted_to,
            run_sorted(
                direction,
                values,
                validity,
                at,
                self.moved_to(direction, values, validity, at, start, end).sorted_to,
            ),
    {
        if self.sorted_to <= at {
            lemma_run_end_exists(direction, values, validity, at, at);
        }
    }
}

/// A window that slides forward over a buffer and tracks the minimum or the
/// maximum of its present entries.
pub struct MinMaxWindow<'a, T: NativeType> {
    direction: Direction,
    slice: &'a [T],
    validity: &'a Bitmap,
    m: Option<T>,
    m_idx: usize,
    sorted_to: usize,
    last_start: usize,
    last_end: usize,
    null_count: usize,
}

impl<'a, T: NativeType> View for MinMaxWindow<'a, T> {
    type V = WindowState;

    closed spec fn view(&self) -> WindowState {
        WindowState {
            last_start: self.last_start as int,
            last_end: self.last_end as int,
            extremum_at: if self.m is Some {
                Some(self.m_idx as int)
            } else {
                None
            },
            sorted_to: self.sorted_to as int,
        }
    }
}

impl<'a, T: NativeType> MinMaxWindow<'a, T> {
    /// The buffer the window slides over.
    pub closed spec fn values(&self) -> Seq<T> {
        self.slice@
    }

    /// The validity of each entry of the buffer.
    pub closed spec fn validity(&self) -> Seq<bool> {
        self.validity@
    }

    /// Which extremum the window tracks.
    pub closed spec fn direction(&self) -> Direction {
        self.direction
    }

    /// Where the current window starts.
    pub open spec fn last_start(&self) -> int {
        self@.last_start
    }

    /// Where the current window ends (exclusive).
    pub open spec fn last_end(&self) -> int {
        self@.last_end
    }

    /// The extremum the window currently reports.
    pub open spec fn extremum(&self) -> Option<T> {
        self@.extremum(self.values())
    }

    /// The number of nulls in the current window.
    pub open spec fn null_count(&self) -> nat {
        count_nulls(self.validity(), self.last_start(), self.last_end())
    }

    /// The window holds what its state says and the state is consistent.
    pub closed spec fn wf(&self) -> bool {
        &&& self@.consistent(self.direction, self.slice@, self.validity@)
        &&& self.null_count == count_nulls(
            self.validity@,
            self.last_start as int,
            self.last_end as int,
        )
        &&& self.m matches Some(v) ==> v == self.slice@[self.m_idx as int]
    }

    /// The state of a well-formed window is consistent with its buffer.
    pub proof fn lemma_wf_consistent(&self)
        requires
            self.wf(),
        ensures
            self@.consistent(self.direction(), self.values(), self.validity()),
    {
    }

    fn get_m_m_idx_and_null_count(&self, start: usize, end: usize) -> (r: (
        Option<(usize, T)>,
        usize,
    ))
        requires
            self.slice@.len() == self.validity@.len(),
            start <= end <= self.slice@.len(),
        ensures
            r.1 == count_nulls(self.validity@, start as int, end as int),
            r.0 is None <==> all_null(self.validity@, start as int, end as int),
            r.0 is None <==> scan_choice(
                self.direction,
                self.slice@,
                self.validity@,
                start as int,
                end as int,
                self.sorted_to as int,
            ) is None,
            r.0 matches Some((at, m)) ==> {
                &&& start <= at < end
                &&& self.validity@[at as int]
                &&& m == self.slice@[at as int]
                &&& scan_choice(
                    self.direction,
                    self.slice@,
                    self.validity@,
                    start as int,
                    end as int,
                    self.sorted_to as int,
                ) == Some(at as int)
                &&& sorted_between(
                    self.direction,
                    self.slice@,
                    self.validity@,
                    start as int,
                    self.sorted_to as int,
                ) ==> is_extremum_at(
                    self.direction,
                    self.slice@,
                    self.validity@,
                    start as int,
                    end as int,
                    at as int,
                )
            },
    {
        let r = init_get_m_m_idx_and_null_count(
            self.direction,
            self.slice,
            self.validity,
            start,
            end,
            self.sorted_to,
        );
        proof {
            lemma_first_valid(self.validity@, start as int, end as int);
        }
        r
    }

    fn update_m_and_m_idx(&mut self, m_and_idx: (usize, T))
        requires
            old(self).slice@.len() == old(self).validity@.len(),
            m_and_idx.0 < old(self).slice@.len(),
        ensures
            final(self).m == Some(m_and_idx.1),
            final(self).m_idx == m_and_idx.0,
            final(self).sorted_to == if old(self).sorted_to <= m_and_idx.0 {
                run_end(
                    old(self).direction,
                    old(self).slice@,
                    old(self).validity@,
                    m_and_idx.0 as int,
                )
            } else {
                old(self).sorted_to as int
            },
            final(self).direction == old(self).direction,
            final(self).slice == old(self).slice,
            final(self).validity == old(self).validity,
            final(self).last_start == old(self).last_start,
            final(self).last_end == old(self).last_end,
            final(self).null_count == old(self).null_count,
    {
        self.m = Some(m_and_idx.1);
        self.m_idx = m_and_idx.0;
        if self.sorted_to <= self.m_idx {
            // The new extremum lies behind the known run: find the run that follows it.
            self.sorted_to = n_sorted_past(self.direction, self.slice, self.validity, self.m_idx);
        }
    }

    /// Starts a pass with the window `[start, end)`.
    ///
    /// The extremum is the best present entry of the window, and among
    /// equally good ones the last: what a plain scan from front to back finds.
    pub fn new(
        direction: Direction,
        slice: &'a [T],
        validity: &'a Bitmap,
        start: usize,
        end: usize,
    ) -> (window: Self)
        requires
            slice.len() == validity@.len(),
            start <= end <= slice.len(),
        ensures
            window.wf(),
            window.direction() == direction,
            window.values() == slice@,
            window.validity() == validity@,
            window@ == WindowState::initial(
                direction,
                slice@,
                validity@,
                start as int,
                end as int,
            ),
            window.last_start() == start,
            window.last_end() == end,
            window.extremum() == naive_extremum(
                direction,
                slice@,
                validity@,
                start as int,
                end as int,
            ),
            is_extremum_of(
                direction,
                slice@,
                validity@,
                start as int,
                end as int,
                window.extremum(),
            ),
    {
        let (m_idx, null_count) = init_get_m_m_idx_and_null_count(
            direction,
            slice,
            validity,
            start,
            end,
            0,
        );
        proof {
            lemma_first_valid(validity@, start as int, end as int);
            lemma_naive_extremum_is_last(direction, slice@, validity@, start as int, end as int);
        }
        match m_idx {
            Some((idx, m)) => {
                let sorted_to = n_sorted_past(direction, slice, validity, idx);
                proof {
                    assert(scan_candidate(validity@, start as int, end as int, 0, idx as int));
                    assert forall|k: int| idx < k < end && validity@[k] implies !precedes(
                        direction,
                        #[trigger] slice@[k],
                        slice@[idx as int],
                    ) by {
                        assert(scan_candidate(validity@, start as int, end as int, 0, k));
                    }
                    assert(is_last_extremum_at(
                        direction,
                        slice@,
                        validity@,
                        start as int,
                        end as int,
                        idx as int,
                    ));
                    lemma_last_extremum_is_naive(
                        direction,
                        slice@,
                        validity@,
                        start as int,
                        end as int,
                        idx as int,
                    );
                }
                MinMaxWindow {
                    direction,
                    slice,
                    validity,
                    m: Some(m),
                    m_idx: idx,
                    sorted_to,
                    last_start: start,
                    last_end: end,
                    null_count,
                }
            },
            None => {
                proof {
                    if let Some(v) = naive_extremum(
                        direction,
                        slice@,
                        validity@,
                        start as int,
                        end as int,
                    ) {
                        let at = choose|at: int|
                            #[trigger] is_last_extremum_at(
                                direction,
                                slice@,
                                validity@,
                                start as int,
                                end as int,
                                at,
                            ) && slice@[at] == v;
                        assert(validity@[at]);
                    }
                }
                MinMaxWindow {
                    direction,
                    slice,
                    validity,
                    m: None,
                    m_idx: 0,
                    sorted_to: 1,
                    last_start: start,
                    last_end: end,
                    null_count,
                }
            },
        }
    }

    /// Slides the window forward to `[start, end)` and returns its extremum.
    ///
    /// Neither bound may move backward. The new window need not touch the
    /// previous one. Only the entries that enter are scanned, unless the
    /// extremum has left at the front and nothing that entered makes up for
    /// it: then what is left of the previous window is scanned once more.
    ///
    /// A window with a present entry yields the value of one of its extrema,
    /// a window without one yields nothing.
    pub fn update(&mut self, start: usize, end: usize) -> (r: Option<T>)
        requires
            old(self).wf(),
            old(self).last_start() <= start,
            old(self).last_end() <= end,
            start <= end <= old(self).values().len(),
        ensures
            final(self).wf(),
            final(self).direction() == old(self).direction(),
            final(self).values() == old(self).values(),
            final(self).validity() == old(self).validity(),
            final(self)@ == old(self)@.slide(
                old(self).direction(),
                old(self).values(),
                old(self).validity(),
                start as int,
                end as int,
            ),
            final(self).last_start() == start,
            final(self).last_end() == end,
            r == final(self).extremum(),
            is_extremum_of(
                old(self).direction(),
                old(self).values(),
                old(self).validity(),
                start as int,
                end as int,
                r,
            ),
            same_extremum(
                r,
                naive_extremum(
                    old(self).direction(),
                    old(self).values(),
                    old(self).validity(),
                    start as int,
                    end as int,
                ),
            ),
            r is None <==> all_null(old(self).validity(), start as int, end as int),
    {
        let ghost values = self.slice@;
        let ghost validity = self.validity@;
        let ghost direction = self.direction;
        let ghost before = self@;
        let old_last_start = self.last_start;
        let old_last_end = self.last_end;
        let empty_overlap = old_last_end <= start;
        // Entries that leave at the front; behind a gap the whole previous window leaves.
        let leaving_end = if empty_overlap {
            old_last_end
        } else {
            start
        };
        let leaving_nc = self.validity.null_count_range(
            old_last_start,
            leaving_end - old_last_start,
        );
        self.last_start = start;
        self.last_end = end;
        let entering_start = if old_last_end > start {
            old_last_end
        } else {
            start
        };
        let ghost entering_at = scan_choice(
            direction,
            values,
            validity,
            entering_start as int,
            end as int,
            before.sorted_to,
        );
        let ghost previous_at = scan_choice(
            direction,
            values,
            validity,
            start as int,
            old_last_end as int,
            before.sorted_to,
        );
        let (entering, entering_nc) = if end - entering_start == 1 {
            // A window of fixed size that rolls by one: a single bit decides.
            if self.validity.get_bit(entering_start) {
                (Some((entering_start, self.slice[entering_start])), 0)
            } else {
                (None, 1)
            }
        } else {
            self.get_m_m_idx_and_null_count(entering_start, end)
        };
        proof {
            let ls = old_last_start as int;
            let le = old_last_end as int;
            let es = entering_start as int;
            lemma_count_nulls_split(validity, ls, le, es);
            lemma_count_nulls_split(validity, ls, es, end as int);
            lemma_count_nulls_split(validity, ls, leaving_end as int, le);
            lemma_count_nulls_split(validity, start as int, es, end as int);
            lemma_count_nulls_bound(validity, ls, end as int);
            before.lemma_sorted_behind(direction, values, validity, es);
            if end - es == 1 {
                lemma_scan_choice_single(direction, values, validity, es, before.sorted_to);
                if validity[es] {
                    assert(!all_null(validity, es, end as int));
                }
            }
        }
        assert(entering_nc == count_nulls(validity, entering_start as int, end as int));
        assert(match entering {
            Some((at, v)) => entering_at == Some(at as int) && v == values[at as int]
                && is_extremum_at(
                direction,
                values,
                validity,
                entering_start as int,
                end as int,
                at as int,
            ),
            None => entering_at is None && all_null(validity, entering_start as int, end as int),
        });
        self.null_count = (self.null_count + entering_nc) - leaving_nc;

        let take_entering = match entering {
            Some(em) => match self.m {
                None => true,
                Some(cur) => empty_overlap || self.direction.replaces(&cur, &em.1),
            },
            None => false,
        };
        assert(take_entering == before.takes_entering(direction, values, entering_at, start as int));
        if take_entering {
            // What entered wins against the previous extremum: the overlap need not be looked at.
            match entering {
                Some(em) => {
                    self.update_m_and_m_idx(em);
                },
                None => {},
            }
        } else if empty_overlap {
            // Nothing of the previous window is left and nothing present entered.
            self.m = None;
        } else if self.m_idx >= start {
            // The previous extremum is still inside the window.
        } else {
            // The extremum left at the front. Take the better of what is left of the
            // previous window and of what entered; if the previous window held no
            // present entry, what is left of it holds none either.
            let previous = match self.m {
                None => None,
                Some(_) => {
                    proof {
                        before.lemma_sorted_behind(direction, values, validity, start as int);
                    }
                    self.get_m_m_idx_and_null_count(start, old_last_end).0
                },
            };
            assert(before.extremum_at is Some ==> match previous {
                Some((at, v)) => previous_at == Some(at as int) && v == values[at as int]
                    && is_extremum_at(
                    direction,
                    values,
                    validity,
                    start as int,
                    old_last_end as int,
                    at as int,
                ),
                None => previous_at is None && all_null(
                    validity,
                    start as int,
                    old_last_end as int,
                ),
            });
            match (previous, entering) {
                (Some(pm), Some(em)) => {
                    if self.direction.replaces(&pm.1, &em.1) {
                        self.update_m_and_m_idx(em);
                    } else {
                        self.update_m_and_m_idx(pm);
                    }
                },
                (Some(pm), None) => self.update_m_and_m_idx(pm),
                (None, Some(em)) => self.update_m_and_m_idx(em),
                // Neither what is left nor what entered holds a present entry.
                (None, None) => self.m = None,
            }
        }
        proof {
            let after = before.settle(
                direction,
                values,
                validity,
                entering_at,
                previous_at,
                start as int,
                end as int,
            );
            before.lemma_settle_consistent(
                direction,
                values,
                validity,
                entering_at,
                previous_at,
                start as int,
                end as int,
            );
            assert(self@ == after);
            after.lemma_reports_extremum(direction, values, validity);
            lemma_extremum_matches_naive_scan(
                direction,
                values,
                validity,
                start as int,
                end as int,
                self.m,
            );
        }
        self.m
    }

    /// Whether the current window holds at least `min_periods` present entries.
    pub fn is_valid(&self, min_periods: usize) -> (valid: bool)
        requires
            self.wf(),
        ensures
            valid == (count_valid(self.validity(), self.last_start(), self.last_end())
                >= min_periods),
            valid == (self.last_end() - self.last_start() - self.null_count() >= min_periods),
    {
        proof {
            lemma_count_nulls_bound(self.validity@, self.last_start as int, self.last_end as int);
        }
        ((self.last_end - self.last_start) - self.null_count) >= min_periods
    }
}

} // verus!
