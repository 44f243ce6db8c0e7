//! The engine that runs the ion matcher over every ion of every compound
//! of a catalog.

use crate::matching::{ion_hits, process_ion, MatchError};
use crate::measurements::{
    distinct_names, Compound, CompoundView, Ion, IonData, IonDataView, IonView,
};
use crate::parallel::par_map;
use crate::spectrum::{Spectrum, SpectrumView};
use crate::xic::{matched_terms, peak_time};
use vstd::prelude::*;

verus! {

/// Why a run over a catalog was given up.
#[derive(Clone, Copy, Debug, PartialEq, Eq)]
pub enum XicError {
    /// The label of ion `ion` of compound `compound` is not the mass of an
    /// ion, so no mass range is known for it.
    MalformedLabel { compound: usize, ion: usize },
}

/// An ion after a run over `data` with the window `mass_range`, before
/// clamping. The summed intensity and the retention time are what the
/// matcher found, absent where it found none, whatever the ion held before;
/// the rest of the ion is as it was.
pub open spec fn updated_ion(
    data: Seq<SpectrumView>,
    ion: IonView,
    mass_range: (i64, i64),
) -> IonView {
    let h = ion_hits(data, mass_range);
    IonView {
        name: ion.name,
        data: IonDataView {
            mz: ion.data.mz,
            rt: peak_time(h),
            ms_intensity: matched_terms(h),
            lc_intensity: ion.data.lc_intensity,
        },
    }
}

/// Whether `ranges` holds a mass range for the ion at place `i`.
pub open spec fn has_range(ranges: Seq<Option<(i64, i64)>>, i: int) -> bool {
    0 <= i < ranges.len() && ranges[i] is Some
}

/// A compound after a run: each ion updated with its own mass range, the
/// ions in the order they had, and everything else as it was.
pub open spec fn updated_compound(
    data: Seq<SpectrumView>,
    compound: CompoundView,
    ranges: Seq<Option<(i64, i64)>>,
) -> CompoundView {
    CompoundView {
        name: compound.name,
        ions: Seq::new(
            compound.ions.len(),
            |i: int| updated_ion(data, compound.ions[i], ranges[i].unwrap()),
        ),
        ms2: compound.ms2,
        ion_info: compound.ion_info,
        calibration_curve: compound.calibration_curve,
    }
}

/// The ranges that go with compound `c` of a catalog; none where `ranges`
/// is shorter than the catalog.
pub open spec fn ranges_of(ranges: Seq<Seq<Option<(i64, i64)>>>, c: int) -> Seq<
    Option<(i64, i64)>,
> {
    if 0 <= c < ranges.len() {
        ranges[c]
    } else {
        Seq::empty()
    }
}

/// A catalog after a run: each compound updated, in catalog order.
pub open spec fn updated_catalog(
    data: Seq<SpectrumView>,
    catalog: Seq<CompoundView>,
    ranges: Seq<Seq<Option<(i64, i64)>>>,
) -> Seq<CompoundView> {
    Seq::new(catalog.len(), |c: int| updated_compound(data, catalog[c], ranges_of(ranges, c)))
}

/// Every ion of the compound has a mass range.
pub open spec fn compound_ranged(compound: CompoundView, ranges: Seq<Option<(i64, i64)>>) -> bool {
    forall|i: int| 0 <= i < compound.ions.len() ==> has_range(ranges, i)
}

/// Every ion of every compound of the catalog has a mass range.
pub open spec fn catalog_ranged(
    catalog: Seq<CompoundView>,
    ranges: Seq<Seq<Option<(i64, i64)>>>,
) -> bool {
    forall|c: int| 0 <= c < catalog.len() ==> compound_ranged(catalog[c], ranges_of(ranges, c))
}

/// Ion `i` of compound `c` is the first ion of the catalog, in catalog
/// order, without a mass range.
pub open spec fn is_first_unranged(
    catalog: Seq<CompoundView>,
    ranges: Seq<Seq<Option<(i64, i64)>>>,
    c: int,
    i: int,
) -> bool {
    &&& 0 <= c < catalog.len()
    &&& 0 <= i < catalog[c].ions.len()
    &&& !has_range(ranges_of(ranges, c), i)
    &&& forall|j: int| 0 <= j < i ==> has_range(ranges_of(ranges, c), j)
    &&& forall|b: int| 0 <= b < c ==> compound_ranged(catalog[b], ranges_of(ranges, b))
}

/// What a run hands back, with the catalog taken by its content.
pub open spec fn outcome_view(r: Result<Vec<Compound>, XicError>) -> Result<
    Seq<CompoundView>,
    XicError,
> {
    match r {
        Ok(compounds) => Ok(compounds.deep_view()),
        Err(e) => Err(e),
    }
}

/// `outcome` is what a run over `data` gives for `catalog` with `ranges`:
/// the updated catalog where every ion has a mass range, and otherwise the
/// error that names the first ion without one.
pub open spec fn is_run_outcome(
    data: Seq<SpectrumView>,
    catalog: Seq<CompoundView>,
    ranges: Seq<Seq<Option<(i64, i64)>>>,
    outcome: Result<Seq<CompoundView>, XicError>,
) -> bool {
    match outcome {
        Ok(compounds) => {
            &&& catalog_ranged(catalog, ranges)
            &&& compounds == updated_catalog(data, catalog, ranges)
        },
        Err(XicError::MalformedLabel { compound, ion }) => is_first_unranged(
            catalog,
            ranges,
            compound as int,
            ion as int,
        ),
    }
}

/// Runs the ion matcher for one ion and writes the outcome into a copy of
/// the ion. An ion without a mass range is refused.
pub fn process_target(data: &[Spectrum], ion: &Ion, mass_range: Option<(i64, i64)>) -> (r: Result<
    Ion,
    MatchError,
>)
    ensures
        match r {
            Ok(done) => {
                &&& mass_range matches Some(range)
                &&& done@ == updated_ion(data.deep_view(), ion@, range)
            },
            Err(e) => mass_range is None,
        },
{
    match process_ion(ion.name.as_str(), data, mass_range) {
        Ok((name, ms_intensity, rt)) => {
            proof {
                if ms_intensity is Some {
                    assert(ms_intensity->0.deep_view() =~= ms_intensity->0@);
                }
            }
            Ok(
                Ion {
                    name,
                    data: IonData {
                        mz: ion.data.mz,
                        rt,
                        ms_intensity,
                        lc_intensity: ion.data.lc_intensity,
                    },
                },
            )
        },
        Err(e) => Err(e),
    }
}

/// The place of the first ion of `compound` without a mass range, if there
/// is one.
fn first_unranged(compound: &Compound, ranges: &[Option<(i64, i64)>]) -> (r: Option<usize>)
    ensures
        r is None <==> compound_ranged(compound@, ranges@),
        r matches Some(i) ==> {
            &&& i < compound.ions.len()
            &&& !has_range(ranges@, i as int)
            &&& forall|j: int| 0 <= j < i ==> has_range(ranges@, j)
        },
{
    let mut i: usize = 0;
    assert(compound@.ions.len() == compound.ions.len());
    while i < compound.ions.len()
        invariant
            i <= compound.ions.len(),
            compound@.ions.len() == compound.ions.len(),
            forall|j: int| 0 <= j < i ==> has_range(ranges@, j),
        decreases compound.ions.len() - i,
    {
        if i >= ranges.len() || ranges[i].is_none() {
            assert(!has_range(ranges@, i as int));
            return Some(i);
        }
        i += 1;
    }
    None
}

/// Runs the ion matcher for every ion of one compound, the ions side by
/// side, and gives back a copy of the compound with the outcomes.
pub(crate) fn process_compound(
    data: &[Spectrum],
    compound: &Compound,
    ranges: &[Option<(i64, i64)>],
) -> (r: Compound)
    requires
        compound_ranged(compound@, ranges@),
    ensures
        r@ == updated_compound(data.deep_view(), compound@, ranges@),
{
    let n = compound.ions.len();
    assert(compound@.ions.len() == n);
    let one_ion = |i: usize| -> (ion: Ion)
        requires
            i < n,
        ensures
            ion@ == updated_ion(
                data.deep_view(),
                compound.ions@[i as int]@,
                ranges@[i as int].unwrap(),
            ),
        {
            assert(has_range(ranges@, i as int));
            process_target(data, &compound.ions[i], ranges[i]).unwrap()
        };
    let ions = par_map(n, one_ion);
    let mut out = compound.clone();
    out.ions = ions;
    proof {
        let want = updated_compound(data.deep_view(), compound@, ranges@);
        assert forall|i: int| 0 <= i < n implies out.ions.deep_view()[i] == want.ions[i] by {
            assert(call_ensures(one_ion, (i as usize,), out.ions@[i as usize as int]));
        }
        assert(out.ions.deep_view() =~= want.ions);
    }
    out
}

/// Constructs the extracted ion chromatograms of a catalog: runs the ion
/// matcher over `data` once for every ion of every compound of `ion_list`,
/// compounds and ions side by side, and gives back the catalog with the
/// outcomes, compounds and ions in the order they came in.
///
/// `ranges[c][i]` is the mass window of ion `i` of compound `c` before
/// clamping, or `None` where the ion's label is not a mass. An ion without
/// a range, the first in catalog order, ends the run with an error.
pub fn construct_xics(
    data: &[Spectrum],
    ion_list: &[Compound],
    ranges: &[Vec<Option<(i64, i64)>>],
) -> (r: Result<Vec<Compound>, XicError>)
    ensures
        is_run_outcome(
            data.deep_view(),
            ion_list.deep_view(),
            ranges.deep_view(),
            outcome_view(r),
        ),
{
    let ghost catalog = ion_list.deep_view();
    let ghost all_ranges = ranges.deep_view();
    let no_ranges: Vec<Option<(i64, i64)>> = Vec::new();
    let mut c: usize = 0;
    while c < ion_list.len()
        invariant
            c <= ion_list.len(),
            catalog == ion_list.deep_view(),
            all_ranges == ranges.deep_view(),
            catalog.len() == ion_list.len(),
            no_ranges@.len() == 0,
            forall|b: int| 0 <= b < c ==> compound_ranged(catalog[b], ranges_of(all_ranges, b)),
        decreases ion_list.len() - c,
    {
        let these: &[Option<(i64, i64)>] = if c < ranges.len() {
            ranges[c].as_slice()
        } else {
            no_ranges.as_slice()
        };
        proof {
            assert(these@ =~= ranges_of(all_ranges, c as int));
        }
        match first_unranged(&ion_list[c], these) {
            Some(i) => {
                return Err(XicError::MalformedLabel { compound: c, ion: i });
            },
            None => {},
        }
        c += 1;
    }
    let n = ion_list.len();
    let one_compound = |c: usize| -> (out: Compound)
        requires
            c < n,
        ensures
            out@ == updated_compound(
                data.deep_view(),
                ion_list@[c as int]@,
                ranges_of(ranges.deep_view(), c as int),
            ),
        {
            let these: &[Option<(i64, i64)>] = if c < ranges.len() {
                ranges[c].as_slice()
            } else {
                no_ranges.as_slice()
            };
            proof {
                assert(these@ =~= ranges_of(ranges.deep_view(), c as int));
                assert(compound_ranged(
                    ion_list.deep_view()[c as int],
                    ranges_of(ranges.deep_view(), c as int),
                ));
            }
            process_compound(data, &ion_list[c], these)
        };
    let compounds = par_map(n, one_compound);
    proof {
        let want = updated_catalog(data.deep_view(), catalog, all_ranges);
        assert forall|c: int| 0 <= c < n implies compounds.deep_view()[c] == want[c] by {
            assert(call_ensures(one_compound, (c as usize,), compounds@[c as usize as int]));
        }
        assert(compounds.deep_view() =~= want);
    }
    Ok(compounds)
}

/// A run is a function of its inputs: two runs over the same scans, for
/// the same catalog with the same ranges, give the same outcome.
pub proof fn lemma_run_is_deterministic(
    data: Seq<SpectrumView>,
    catalog: Seq<CompoundView>,
    ranges: Seq<Seq<Option<(i64, i64)>>>,
    first: Result<Seq<CompoundView>, XicError>,
    second: Result<Seq<CompoundView>, XicError>,
)
    requires
        is_run_outcome(data, catalog, ranges, first),
        is_run_outcome(data, catalog, ranges, second),
    ensures
        first == second,
{
    match (first, second) {
        (Ok(_), Ok(_)) => {},
        (Ok(_), Err(XicError::MalformedLabel { compound, ion })) => {
            assert(compound_ranged(catalog[compound as int], ranges_of(ranges, compound as int)));
        },
        (Err(XicError::MalformedLabel { compound, ion }), Ok(_)) => {
            assert(compound_ranged(catalog[compound as int], ranges_of(ranges, compound as int)));
        },
        (
            Err(XicError::MalformedLabel { compound: c1, ion: i1 }),
            Err(XicError::MalformedLabel { compound: c2, ion: i2 }),
        ) => {
            if c1 < c2 {
                assert(compound_ranged(catalog[c1 as int], ranges_of(ranges, c1 as int)));
            } else if c2 < c1 {
                assert(compound_ranged(catalog[c2 as int], ranges_of(ranges, c2 as int)));
            }
        },
    }
}

/// A second run changes nothing: the catalog that a run gives, run again
/// over the same scans with the same ranges, comes back as it is.
pub proof fn lemma_second_run_changes_nothing(
    data: Seq<SpectrumView>,
    catalog: Seq<CompoundView>,
    ranges: Seq<Seq<Option<(i64, i64)>>>,
)
    ensures
        updated_catalog(data, updated_catalog(data, catalog, ranges), ranges) == updated_catalog(
            data,
            catalog,
            ranges,
        ),
{
    let once = updated_catalog(data, catalog, ranges);
    let twice = updated_catalog(data, once, ranges);
    assert forall|c: int| 0 <= c < once.len() implies twice[c] == once[c] by {
        assert(twice[c].ions =~= once[c].ions);
    }
    assert(twice =~= once);
}

/// A run keeps the order of the catalog: the compounds come back in the
/// places they had, with the names they had, and so do the ions of each
/// compound.
pub proof fn lemma_order_kept(
    data: Seq<SpectrumView>,
    catalog: Seq<CompoundView>,
    ranges: Seq<Seq<Option<(i64, i64)>>>,
)
    ensures
        updated_catalog(data, catalog, ranges).len() == catalog.len(),
        forall|c: int|
            0 <= c < catalog.len() ==> {
                &&& (#[trigger] updated_catalog(data, catalog, ranges)[c]).name == catalog[c].name
                &&& updated_catalog(data, catalog, ranges)[c].ions.len() == catalog[c].ions.len()
            },
        forall|c: int, i: int|
            0 <= c < catalog.len() && 0 <= i < catalog[c].ions.len() ==> (
            #[trigger] updated_catalog(data, catalog, ranges)[c].ions[i]).name
                == catalog[c].ions[i].name,
{
}

/// A run keeps the names of the ions of a compound distinct.
pub proof fn lemma_distinct_names_kept(
    data: Seq<SpectrumView>,
    compound: CompoundView,
    ranges: Seq<Option<(i64, i64)>>,
)
    requires
        distinct_names(compound.ions),
    ensures
        distinct_names(updated_compound(data, compound, ranges).ions),
{
}

} // verus!
