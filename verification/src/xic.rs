//! The chromatogram of one ion: its matched samples in scan order, held in
//! a two-row array, and the peak among them.

use vstd::prelude::*;

verus! {

/// A matched sample: the acquisition time of the scan that owns it and its
/// intensity.
pub struct Hit {
    pub time: i64,
    pub intensity: i64,
}

/// The intensities of a sequence of matched samples.
pub open spec fn intensities_of(h: Seq<Hit>) -> Seq<i64> {
    h.map_values(|x: Hit| x.intensity)
}

/// The acquisition times of a sequence of matched samples.
pub open spec fn times_of(h: Seq<Hit>) -> Seq<i64> {
    h.map_values(|x: Hit| x.time)
}

/// The terms of an ion's summed intensity: the intensities of its matched
/// samples in scan order. Without a matched sample there is no sum at all,
/// which is not the same as a sum of zero.
pub open spec fn matched_terms(h: Seq<Hit>) -> Option<Seq<i64>> {
    if h.len() == 0 {
        None
    } else {
        Some(intensities_of(h))
    }
}

/// `k` is the place of the largest value of `s`, and the first such place
/// where the largest value occurs more than once.
pub open spec fn is_first_max(s: Seq<i64>, k: int) -> bool {
    &&& 0 <= k < s.len()
    &&& forall|j: int| 0 <= j < s.len() ==> s[j] <= s[k]
    &&& forall|j: int| 0 <= j < k ==> s[j] < s[k]
}

/// The first place of the largest value of a non-empty `s`.
pub open spec fn first_max_index(s: Seq<i64>) -> int {
    choose|k: int| is_first_max(s, k)
}

/// The retention time of an ion: the acquisition time of the scan that owns
/// the largest matched intensity, the earliest such scan among equals. One
/// matched sample alone does not make a peak.
pub open spec fn peak_time(h: Seq<Hit>) -> Option<i64> {
    if h.len() < 2 {
        None
    } else {
        Some(h[first_max_index(intensities_of(h))].time)
    }
}

/// At most one place is the first place of the largest value.
pub proof fn lemma_first_max_unique(s: Seq<i64>, a: int, b: int)
    requires
        is_first_max(s, a),
        is_first_max(s, b),
    ensures
        a == b,
{
    if a < b {
        assert(s[a] < s[b]);
        assert(s[b] <= s[a]);
    } else if b < a {
        assert(s[b] < s[a]);
        assert(s[a] <= s[b]);
    }
}

/// A non-empty sequence has a first place of its largest value.
pub proof fn lemma_first_max_exists(s: Seq<i64>)
    requires
        s.len() > 0,
    ensures
        is_first_max(s, first_max_index(s)),
    decreases s.len(),
{
    if s.len() == 1 {
        assert(is_first_max(s, 0));
    } else {
        let front = s.drop_last();
        lemma_first_max_exists(front);
        let k = first_max_index(front);
        assert(is_first_max(front, k));
        assert forall|j: int| 0 <= j < front.len() implies s[j] <= front[k] by {
            assert(front[j] <= front[k]);
        }
        assert forall|j: int| 0 <= j < k implies s[j] < front[k] by {
            assert(front[j] < front[k]);
        }
        assert(front[k] == s[k]);
        if s.last() > front[k] {
            assert(is_first_max(s, s.len() - 1));
        } else {
            assert(is_first_max(s, k));
        }
    }
}

/// The place of the largest of `values`, the earliest one among equals;
/// `None` exactly when there are no values.
pub fn peak_index(values: &[i64]) -> (r: Option<usize>)
    ensures
        r is None <==> values@.len() == 0,
        r matches Some(k) ==> is_first_max(values@, k as int) && k as int == first_max_index(
            values@,
        ),
{
    if values.len() == 0 {
        return None;
    }
    let mut best: usize = 0;
    let mut i: usize = 1;
    while i < values.len()
        invariant
            1 <= i <= values.len(),
            is_first_max(values@.take(i as int), best as int),
        decreases values.len() - i,
    {
        if values[i] > values[best] {
            best = i;
        }
        i += 1;
        assert(is_first_max(values@.take(i as int), best as int));
    }
    proof {
        assert(values@.take(values.len() as int) =~= values@);
        lemma_first_max_unique(values@, best as int, first_max_index(values@));
    }
    Some(best)
}

/// A two-dimensional array of ranks: an `ndarray::Array2`. The array type
/// itself cannot be declared to Verus, because its definition is bound by
/// a trait of ndarray; so the array sits in this struct, of which nothing
/// is seen but through the functions below.
#[verifier::external_body]
pub struct XicArray {
    cells: ndarray::Array2<i64>,
}

/// The rows of an array, each with its cells in column order.
pub uninterp spec fn array_rows(array: XicArray) -> Seq<Seq<i64>>;

/// An array of two rows from its cells in row-major order:
/// `Array2::from_shape_vec` with the shape `(2, columns)`. That function
/// takes the cells in row-major order. It fails where their number is not
/// that of the shape, or where the shape has more cells than a vector can
/// hold; the precondition rules out both.
#[verifier::external_body]
fn array_of_two_rows(columns: usize, cells: Vec<i64>) -> (array: XicArray)
    requires
        cells@.len() == 2 * columns,
    ensures
        array_rows(array) == seq![cells@.take(columns as int), cells@.skip(columns as int)],
{
    XicArray {
        cells: ndarray::Array2::from_shape_vec((2, columns), cells).expect("two rows of cells"),
    }
}

/// Whether an array has no cell: `is_empty` of the array, which compares
/// the number of its cells with zero.
#[verifier::external_body]
fn array_is_empty(array: &XicArray) -> (r: bool)
    ensures
        r == (array_rows(*array).len() == 0 || array_rows(*array)[0].len() == 0),
{
    array.cells.is_empty()
}

/// The number of columns of an array: the second entry of its `shape`.
#[verifier::external_body]
fn array_columns(array: &XicArray) -> (r: usize)
    requires
        array_rows(*array).len() > 0,
    ensures
        r == array_rows(*array)[0].len(),
{
    array.cells.shape()[1]
}

/// The cell in row `row` and column `column`: indexing of the array, which
/// panics outside its bounds; the precondition keeps inside them.
#[verifier::external_body]
fn array_cell(array: &XicArray, row: usize, column: usize) -> (r: i64)
    requires
        row < array_rows(*array).len(),
        column < array_rows(*array)[row as int].len(),
    ensures
        r == array_rows(*array)[row as int][column as int],
{
    array.cells[[row, column]]
}

/// The extracted ion chromatogram of one ion: the acquisition times of its
/// matched samples in the first row of an array and, column by column below
/// them, their intensities.
pub struct Xic {
    array: XicArray,
}

impl View for Xic {
    type V = Seq<Hit>;

    closed spec fn view(&self) -> Seq<Hit> {
        Seq::new(
            array_rows(self.array)[0].len(),
            |i: int|
                Hit {
                    time: array_rows(self.array)[0][i],
                    intensity: array_rows(self.array)[1][i],
                },
        )
    }
}

impl Xic {
    /// The array has two rows of the same length.
    #[verifier::type_invariant]
    spec fn two_even_rows(self) -> bool {
        &&& array_rows(self.array).len() == 2
        &&& array_rows(self.array)[0].len() == array_rows(self.array)[1].len()
    }

    /// The chromatogram of the matched samples whose acquisition times and
    /// intensities are given side by side; `None` exactly when the two lists
    /// differ in length.
    pub fn from_matches(scan_times: Vec<i64>, intensities: Vec<i64>) -> (r: Option<Xic>)
        ensures
            r is Some <==> scan_times@.len() == intensities@.len(),
            r matches Some(xic) ==> {
                &&& times_of(xic@) == scan_times@
                &&& intensities_of(xic@) == intensities@
            },
    {
        let columns = intensities.len();
        if scan_times.len() != columns {
            return None;
        }
        let mut cells = scan_times;
        let mut second_row = intensities;
        cells.append(&mut second_row);
        let array = array_of_two_rows(columns, cells);
        let xic = Xic { array };
        proof {
            assert(array_rows(xic.array)[0] =~= scan_times@);
            assert(array_rows(xic.array)[1] =~= intensities@);
            assert(times_of(xic@) =~= scan_times@);
            assert(intensities_of(xic@) =~= intensities@);
        }
        Some(xic)
    }

    /// Whether the chromatogram has no sample.
    pub fn is_empty(&self) -> (b: bool)
        ensures
            b == (self@.len() == 0),
    {
        proof {
            use_type_invariant(self);
        }
        array_is_empty(&self.array)
    }

    /// The number of samples of the chromatogram.
    pub fn len(&self) -> (n: usize)
        ensures
            n == self@.len(),
    {
        proof {
            use_type_invariant(self);
        }
        array_columns(&self.array)
    }

    /// The acquisition time of sample `i`.
    pub fn time(&self, i: usize) -> (t: i64)
        requires
            i < self@.len(),
        ensures
            t == self@[i as int].time,
    {
        proof {
            use_type_invariant(self);
        }
        array_cell(&self.array, 0, i)
    }

    /// The intensity of sample `i`.
    pub fn intensity(&self, i: usize) -> (v: i64)
        requires
            i < self@.len(),
        ensures
            v == self@[i as int].intensity,
    {
        proof {
            use_type_invariant(self);
        }
        array_cell(&self.array, 1, i)
    }

    /// The intensities of the samples, in scan order.
    pub fn intensities(&self) -> (r: Vec<i64>)
        ensures
            r@ == intensities_of(self@),
    {
        let n = self.len();
        let mut values: Vec<i64> = Vec::new();
        let mut i: usize = 0;
        while i < n
            invariant
                i <= n,
                n == self@.len(),
                values@.len() == i,
                forall|j: int| 0 <= j < i ==> values@[j] == self@[j].intensity,
            decreases n - i,
        {
            values.push(self.intensity(i));
            i += 1;
        }
        assert(values@ =~= intensities_of(self@));
        values
    }

    /// The terms of the summed intensity: the intensities of the samples,
    /// or `None` where the chromatogram has no sample.
    pub fn terms(&self) -> (r: Option<Vec<i64>>)
        ensures
            r.deep_view() == matched_terms(self@),
    {
        if self.is_empty() {
            None
        } else {
            let values = self.intensities();
            assert(values.deep_view() =~= values@);
            Some(values)
        }
    }

    /// The retention time: the acquisition time of the sample of largest
    /// intensity, the first one among equals, or `None` where the
    /// chromatogram has fewer than two samples.
    pub fn retention_time(&self) -> (r: Option<i64>)
        ensures
            r == peak_time(self@),
    {
        if !self.is_empty() && self.len() >= 2 {
            let values = self.intensities();
            match peak_index(values.as_slice()) {
                Some(index) => Some(self.time(index)),
                None => None,
            }
        } else {
            None
        }
    }
}

} // verus!
