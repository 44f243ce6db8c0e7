//! Spectra of one acquisition.
//!
//! Every measured quantity (a mass-to-charge ratio, an intensity, an
//! acquisition time) is carried as a *rank*: an `i64` that compares as the
//! quantity does, with `0` standing for the zero quantity. The library
//! compares ranks and hands them back; it never does arithmetic on them.

use vstd::prelude::*;

verus! {

/// One sample of a scan: a mass-to-charge rank and the intensity rank
/// recorded for it.
pub struct Peak {
    pub mz: i64,
    pub intensity: i64,
}

/// The mathematical content of a [`Spectrum`].
pub struct SpectrumView {
    /// Acquisition time.
    pub start_time: i64,
    /// MS level of the scan.
    pub ms_level: u8,
    /// The samples in array order, or `None` where the scan carries no arrays.
    pub peaks: Option<Seq<Peak>>,
}

impl SpectrumView {
    /// The samples of the scan; a scan without arrays has none.
    pub open spec fn samples(self) -> Seq<Peak> {
        match self.peaks {
            Some(p) => p,
            None => Seq::empty(),
        }
    }
}

/// One acquired scan: its acquisition time, its MS level and, where peak
/// data was recorded, two index-aligned arrays of masses and intensities.
#[derive(Debug, PartialEq, Eq)]
pub struct Spectrum {
    start_time: i64,
    ms_level: u8,
    arrays: Option<(Vec<i64>, Vec<i64>)>,
}

impl View for Spectrum {
    type V = SpectrumView;

    closed spec fn view(&self) -> SpectrumView {
        SpectrumView {
            start_time: self.start_time,
            ms_level: self.ms_level,
            peaks: match self.arrays {
                Some((mzs, intensities)) => Some(
                    Seq::new(
                        mzs@.len(),
                        |i: int| Peak { mz: mzs@[i], intensity: intensities@[i] },
                    ),
                ),
                None => None,
            },
        }
    }
}

impl DeepView for Spectrum {
    type V = SpectrumView;

    open spec fn deep_view(&self) -> SpectrumView {
        self@
    }
}

impl Clone for Spectrum {
    fn clone(&self) -> (s: Spectrum)
        ensures
            s@ == self@,
    {
        proof {
            use_type_invariant(self);
        }
        match &self.arrays {
            Some((mzs, intensities)) => {
                let m = mzs.clone();
                let v = intensities.clone();
                assert(m@ =~= mzs@);
                assert(v@ =~= intensities@);
                Spectrum {
                    start_time: self.start_time,
                    ms_level: self.ms_level,
                    arrays: Some((m, v)),
                }
            },
            None => Spectrum { start_time: self.start_time, ms_level: self.ms_level, arrays: None },
        }
    }
}

impl Spectrum {
    /// The two arrays of a scan have the same length.
    #[verifier::type_invariant]
    spec fn aligned(self) -> bool {
        match self.arrays {
            Some((mzs, intensities)) => mzs@.len() == intensities@.len(),
            None => true,
        }
    }

    /// A scan without peak data.
    pub fn new(start_time: i64, ms_level: u8) -> (s: Spectrum)
        ensures
            s@ == (SpectrumView { start_time, ms_level, peaks: None }),
    {
        Spectrum { start_time, ms_level, arrays: None }
    }

    /// A scan with peak data. The arrays must be index-aligned: the result is
    /// `None` exactly when their lengths differ.
    pub fn with_arrays(
        start_time: i64,
        ms_level: u8,
        mzs: Vec<i64>,
        intensities: Vec<i64>,
    ) -> (r: Option<Spectrum>)
        ensures
            r is Some <==> mzs@.len() == intensities@.len(),
            r matches Some(s) ==> {
                &&& s@.start_time == start_time
                &&& s@.ms_level == ms_level
                &&& s@.peaks matches Some(p)
                &&& p.len() == mzs@.len()
                &&& forall|i: int|
                    0 <= i < p.len() ==> #[trigger] p[i] == (Peak {
                        mz: mzs@[i],
                        intensity: intensities@[i],
                    })
            },
    {
        if mzs.len() == intensities.len() {
            Some(Spectrum { start_time, ms_level, arrays: Some((mzs, intensities)) })
        } else {
            None
        }
    }

    /// Acquisition time of the scan.
    pub fn start_time(&self) -> (t: i64)
        ensures
            t == self@.start_time,
    {
        self.start_time
    }

    /// MS level of the scan.
    pub fn ms_level(&self) -> (l: u8)
        ensures
            l == self@.ms_level,
    {
        self.ms_level
    }

    /// Whether the scan carries peak arrays.
    pub fn has_arrays(&self) -> (b: bool)
        ensures
            b == self@.peaks is Some,
    {
        self.arrays.is_some()
    }

    /// Number of samples of the scan; zero where it carries no arrays.
    pub fn peak_count(&self) -> (n: usize)
        ensures
            n == self@.samples().len(),
    {
        match &self.arrays {
            Some((mzs, _)) => mzs.len(),
            None => 0,
        }
    }

    /// The mass-to-charge rank of sample `i`.
    pub fn mz(&self, i: usize) -> (m: i64)
        requires
            i < self@.samples().len(),
        ensures
            m == self@.samples()[i as int].mz,
    {
        match &self.arrays {
            Some((mzs, _)) => mzs[i],
            None => 0,
        }
    }

    /// The intensity rank of sample `i`.
    pub fn intensity(&self, i: usize) -> (v: i64)
        requires
            i < self@.samples().len(),
        ensures
            v == self@.samples()[i as int].intensity,
    {
        proof {
            use_type_invariant(self);
        }
        match &self.arrays {
            Some((_, intensities)) => intensities[i],
            None => 0,
        }
    }
}

} // verus!
