//! The catalog of target compounds and the measurement of one file.

use crate::spectrum::{Spectrum, SpectrumView};
use vstd::prelude::*;

verus! {

/// The mathematical content of an [`IonData`].
pub struct IonDataView {
    pub mz: Option<i64>,
    pub rt: Option<i64>,
    pub ms_intensity: Option<Seq<i64>>,
    pub lc_intensity: Option<i64>,
}

/// What is known of one target ion. Each field is absent until it has been
/// measured.
#[derive(Debug, PartialEq, Eq)]
pub struct IonData {
    /// The ion's mass-to-charge ratio.
    pub mz: Option<i64>,
    /// Retention time: the acquisition time at which the ion's signal peaked.
    pub rt: Option<i64>,
    /// Summed intensity, held as the terms of the sum in scan order.
    pub ms_intensity: Option<Vec<i64>>,
    /// Intensity from liquid chromatography; nothing in this library fills it.
    pub lc_intensity: Option<i64>,
}

impl DeepView for IonData {
    type V = IonDataView;

    open spec fn deep_view(&self) -> IonDataView {
        IonDataView {
            mz: self.mz,
            rt: self.rt,
            ms_intensity: match self.ms_intensity {
                Some(terms) => Some(terms@),
                None => None,
            },
            lc_intensity: self.lc_intensity,
        }
    }
}

impl View for IonData {
    type V = IonDataView;

    open spec fn view(&self) -> IonDataView {
        self.deep_view()
    }
}

impl Clone for IonData {
    fn clone(&self) -> (r: IonData)
        ensures
            r@ == self@,
    {
        let ms_intensity = match &self.ms_intensity {
            Some(terms) => {
                let t = terms.clone();
                assert(t@ =~= terms@);
                Some(t)
            },
            None => None,
        };
        IonData { mz: self.mz, rt: self.rt, ms_intensity, lc_intensity: self.lc_intensity }
    }
}

/// The data of an ion of which only the mass is known.
pub open spec fn fresh_data(mz: i64) -> IonDataView {
    IonDataView { mz: Some(mz), rt: None, ms_intensity: None, lc_intensity: None }
}

impl IonData {
    /// The data of an ion of which only the mass is known.
    pub fn new(mz: i64) -> (r: IonData)
        ensures
            r@ == fresh_data(mz),
    {
        IonData { mz: Some(mz), rt: None, ms_intensity: None, lc_intensity: None }
    }
}

/// The mathematical content of an [`Ion`].
pub struct IonView {
    pub name: Seq<char>,
    pub data: IonDataView,
}

/// A target ion of a compound: its label, which is its mass written out,
/// and what is known of it.
#[derive(Debug, PartialEq, Eq)]
pub struct Ion {
    pub name: String,
    pub data: IonData,
}

impl DeepView for Ion {
    type V = IonView;

    open spec fn deep_view(&self) -> IonView {
        IonView { name: self.name@, data: self.data@ }
    }
}

impl View for Ion {
    type V = IonView;

    open spec fn view(&self) -> IonView {
        self.deep_view()
    }
}

impl Clone for Ion {
    fn clone(&self) -> (r: Ion)
        ensures
            r@ == self@,
    {
        Ion { name: self.name.clone(), data: self.data.clone() }
    }
}

/// The mathematical content of a [`Compound`].
pub struct CompoundView {
    pub name: Seq<char>,
    pub ions: Seq<IonView>,
    pub ms2: Seq<()>,
    pub ion_info: Seq<Seq<char>>,
    pub calibration_curve: Seq<(Seq<char>, i64)>,
}

/// A target compound: a name, its ions in catalog order and descriptive
/// data that is carried along unchanged.
#[derive(Debug, PartialEq, Eq)]
pub struct Compound {
    /// The name of the compound.
    pub name: String,
    /// The ions of the compound, in catalog order.
    pub ions: Vec<Ion>,
    /// MS2 data of the compound.
    pub ms2: Vec<()>,
    /// Descriptive text for the ions.
    pub ion_info: Vec<String>,
    /// Calibration curve data, by name.
    pub calibration_curve: Vec<(String, i64)>,
}

impl DeepView for Compound {
    type V = CompoundView;

    open spec fn deep_view(&self) -> CompoundView {
        CompoundView {
            name: self.name@,
            ions: self.ions.deep_view(),
            ms2: self.ms2@,
            ion_info: self.ion_info.deep_view(),
            calibration_curve: self.calibration_curve.deep_view(),
        }
    }
}

impl View for Compound {
    type V = CompoundView;

    open spec fn view(&self) -> CompoundView {
        self.deep_view()
    }
}

/// Copies a list of texts.
pub fn clone_texts(texts: &Vec<String>) -> (r: Vec<String>)
    ensures
        r.deep_view() == texts.deep_view(),
{
    let mut out: Vec<String> = Vec::new();
    let mut i: usize = 0;
    while i < texts.len()
        invariant
            i <= texts.len(),
            out.len() == i,
            forall|j: int| 0 <= j < i ==> out@[j]@ == texts@[j]@,
        decreases texts.len() - i,
    {
        out.push(texts[i].clone());
        i += 1;
    }
    assert(out.deep_view() =~= texts.deep_view());
    out
}

impl Clone for Compound {
    fn clone(&self) -> (r: Compound)
        ensures
            r@ == self@,
    {
        let mut ions: Vec<Ion> = Vec::new();
        let mut i: usize = 0;
        while i < self.ions.len()
            invariant
                i <= self.ions.len(),
                ions.len() == i,
                forall|j: int| 0 <= j < i ==> ions@[j]@ == self.ions@[j]@,
            decreases self.ions.len() - i,
        {
            ions.push(self.ions[i].clone());
            i += 1;
        }
        let mut ms2: Vec<()> = Vec::new();
        let mut k: usize = 0;
        while k < self.ms2.len()
            invariant
                k <= self.ms2.len(),
                ms2.len() == k,
            decreases self.ms2.len() - k,
        {
            ms2.push(());
            k += 1;
        }
        let mut calibration_curve: Vec<(String, i64)> = Vec::new();
        let mut c: usize = 0;
        while c < self.calibration_curve.len()
            invariant
                c <= self.calibration_curve.len(),
                calibration_curve.len() == c,
                forall|j: int|
                    0 <= j < c ==> calibration_curve@[j].deep_view()
                        == self.calibration_curve@[j].deep_view(),
            decreases self.calibration_curve.len() - c,
        {
            let entry = &self.calibration_curve[c];
            calibration_curve.push((entry.0.clone(), entry.1));
            c += 1;
        }
        let ion_info = clone_texts(&self.ion_info);
        let r = Compound { name: self.name.clone(), ions, ms2, ion_info, calibration_curve };
        proof {
            assert(r.ions.deep_view() =~= self.ions.deep_view());
            assert(r.ms2@ =~= self.ms2@);
            assert(r.calibration_curve.deep_view() =~= self.calibration_curve.deep_view());
        }
        r
    }
}

/// The ion at place `k` of `ions` is called `name`.
pub open spec fn named(ions: Seq<IonView>, name: Seq<char>, k: int) -> bool {
    0 <= k < ions.len() && ions[k].name == name
}

/// No two ions of the list have the same name.
pub open spec fn distinct_names(ions: Seq<IonView>) -> bool {
    forall|i: int, j: int| 0 <= i < j < ions.len() ==> ions[i].name != ions[j].name
}

/// The list `ions` with `ion` put in under its name: in the place of the
/// ion of that name where there is one, at the end where there is none.
pub open spec fn with_ion(ions: Seq<IonView>, ion: IonView) -> Seq<IonView> {
    if exists|k: int| named(ions, ion.name, k) {
        ions.update(choose|k: int| named(ions, ion.name, k), ion)
    } else {
        ions.push(ion)
    }
}

/// The ions that a list of labels and masses gives: one ion for each
/// label, in the order in which the labels first occur, with the mass that
/// the label's last entry gives.
pub open spec fn ions_from(entries: Seq<(Seq<char>, i64)>) -> Seq<IonView>
    decreases entries.len(),
{
    if entries.len() == 0 {
        Seq::empty()
    } else {
        with_ion(
            ions_from(entries.drop_last()),
            IonView { name: entries.last().0, data: fresh_data(entries.last().1) },
        )
    }
}

/// Putting an ion in under its name keeps the names distinct.
pub proof fn lemma_with_ion_distinct(ions: Seq<IonView>, ion: IonView)
    requires
        distinct_names(ions),
    ensures
        distinct_names(with_ion(ions, ion)),
{
    if exists|k: int| named(ions, ion.name, k) {
        let k = choose|k: int| named(ions, ion.name, k);
        assert(named(ions, ion.name, k));
    } else {
        let longer = ions.push(ion);
        assert forall|i: int, j: int| 0 <= i < j < longer.len() implies longer[i].name
            != longer[j].name by {
            if j == ions.len() {
                assert(!named(ions, ion.name, i));
            }
        }
    }
}

/// The ions that a list of labels and masses gives have distinct names.
pub proof fn lemma_ions_from_distinct(entries: Seq<(Seq<char>, i64)>)
    ensures
        distinct_names(ions_from(entries)),
    decreases entries.len(),
{
    if entries.len() > 0 {
        lemma_ions_from_distinct(entries.drop_last());
        lemma_with_ion_distinct(
            ions_from(entries.drop_last()),
            IonView { name: entries.last().0, data: fresh_data(entries.last().1) },
        );
    }
}

/// The place of the ion called `name`, if there is one.
pub fn find_ion(ions: &Vec<Ion>, name: &String) -> (r: Option<usize>)
    ensures
        r is None <==> !exists|k: int| named(ions.deep_view(), name@, k),
        r matches Some(k) ==> named(ions.deep_view(), name@, k as int) && forall|j: int|
            0 <= j < k ==> !named(ions.deep_view(), name@, j),
{
    let mut i: usize = 0;
    while i < ions.len()
        invariant
            i <= ions.len(),
            ions.deep_view().len() == ions.len(),
            forall|j: int| 0 <= j < i ==> !named(ions.deep_view(), name@, j),
        decreases ions.len() - i,
    {
        if ions[i].name == *name {
            assert(named(ions.deep_view(), name@, i as int));
            return Some(i);
        }
        i += 1;
    }
    None
}

impl Compound {
    /// A compound of which only the masses of its ions are known. `ions`
    /// gives each ion's label, which is its mass written out, and its mass.
    /// A label that occurs again stands for the same ion.
    pub fn new(name: String, ions: Vec<(String, i64)>, ion_info: Vec<String>) -> (r: Compound)
        ensures
            r@.name == name@,
            r@.ions == ions_from(ions.deep_view()),
            distinct_names(r@.ions),
            r@.ms2.len() == 0,
            r@.ion_info == ion_info.deep_view(),
            r@.calibration_curve.len() == 0,
    {
        let ghost entries = ions.deep_view();
        let mut list: Vec<Ion> = Vec::new();
        proof {
            assert(entries.take(0) =~= Seq::empty());
            assert(list.deep_view() =~= ions_from(entries.take(0)));
        }
        for entry in it: ions
            invariant
                it.seq().len() == entries.len(),
                forall|j: int| 0 <= j < entries.len() ==> it.seq()[j].deep_view() == entries[j],
                list.deep_view() == ions_from(entries.take(it.index() as int)),
        {
            let ghost done = it.index() as int;
            let ghost before = list.deep_view();
            proof {
                assert(entries.take(done + 1).drop_last() =~= entries.take(done));
                lemma_ions_from_distinct(entries.take(done));
            }
            let (label, mz) = entry;
            let ghost ion = IonView { name: label@, data: fresh_data(mz) };
            match find_ion(&list, &label) {
                Some(k) => {
                    list.set(k, Ion { name: label, data: IonData::new(mz) });
                    proof {
                        let c = choose|c: int| named(before, ion.name, c);
                        assert(named(before, ion.name, k as int));
                        assert(c == k);
                        assert(list.deep_view() =~= before.update(k as int, ion));
                    }
                },
                None => {
                    list.push(Ion { name: label, data: IonData::new(mz) });
                    proof {
                        assert(list.deep_view() =~= before.push(ion));
                    }
                },
            }
        }
        proof {
            assert(entries.take(entries.len() as int) =~= entries);
            lemma_ions_from_distinct(entries);
        }
        Compound { name, ions: list, ms2: Vec::new(), ion_info, calibration_curve: Vec::new() }
    }

    /// A compound from an entry of an ion list: as [`Compound::new`], from
    /// borrowed lists.
    pub fn from_ion_list_entry(
        name: String,
        ions: &Vec<(String, i64)>,
        ion_info: &Vec<String>,
    ) -> (r: Compound)
        ensures
            r@.name == name@,
            r@.ions == ions_from(ions.deep_view()),
            distinct_names(r@.ions),
            r@.ms2.len() == 0,
            r@.ion_info == ion_info.deep_view(),
            r@.calibration_curve.len() == 0,
    {
        let mut entries: Vec<(String, i64)> = Vec::new();
        let mut i: usize = 0;
        while i < ions.len()
            invariant
                i <= ions.len(),
                entries.len() == i,
                forall|j: int| 0 <= j < i ==> entries@[j].deep_view() == ions@[j].deep_view(),
            decreases ions.len() - i,
        {
            let entry = &ions[i];
            entries.push((entry.0.clone(), entry.1));
            i += 1;
        }
        assert(entries.deep_view() =~= ions.deep_view());
        Compound::new(name, entries, clone_texts(ion_info))
    }
}

/// The mathematical content of an [`MSMeasurement`].
pub struct MSMeasurementView {
    pub mass_accuracy: i64,
    pub ms1_scans: Seq<SpectrumView>,
    pub ms2_scans: Seq<SpectrumView>,
    pub xics: Seq<CompoundView>,
}

/// What one acquisition file gave: its scans of level 1 and of level 2, the
/// mass accuracy that was used, and the catalog with the results of the run.
#[derive(Debug, PartialEq, Eq)]
pub struct MSMeasurement {
    pub mass_accuracy: i64,
    pub ms1_scans: Vec<Spectrum>,
    pub ms2_scans: Vec<Spectrum>,
    pub xics: Vec<Compound>,
}

impl DeepView for MSMeasurement {
    type V = MSMeasurementView;

    open spec fn deep_view(&self) -> MSMeasurementView {
        MSMeasurementView {
            mass_accuracy: self.mass_accuracy,
            ms1_scans: self.ms1_scans.deep_view(),
            ms2_scans: self.ms2_scans.deep_view(),
            xics: self.xics.deep_view(),
        }
    }
}

impl View for MSMeasurement {
    type V = MSMeasurementView;

    open spec fn view(&self) -> MSMeasurementView {
        self.deep_view()
    }
}

/// Copies a list of scans.
pub fn clone_scans(scans: &Vec<Spectrum>) -> (r: Vec<Spectrum>)
    ensures
        r.deep_view() == scans.deep_view(),
{
    let mut out: Vec<Spectrum> = Vec::new();
    let mut i: usize = 0;
    while i < scans.len()
        invariant
            i <= scans.len(),
            out.len() == i,
            forall|j: int| 0 <= j < i ==> out@[j]@ == scans@[j]@,
        decreases scans.len() - i,
    {
        out.push(scans[i].clone());
        i += 1;
    }
    assert(out.deep_view() =~= scans.deep_view());
    out
}

/// Copies a catalog.
pub fn clone_catalog(catalog: &Vec<Compound>) -> (r: Vec<Compound>)
    ensures
        r.deep_view() == catalog.deep_view(),
{
    let mut out: Vec<Compound> = Vec::new();
    let mut i: usize = 0;
    while i < catalog.len()
        invariant
            i <= catalog.len(),
            out.len() == i,
            forall|j: int| 0 <= j < i ==> out@[j]@ == catalog@[j]@,
        decreases catalog.len() - i,
    {
        out.push(catalog[i].clone());
        i += 1;
    }
    assert(out.deep_view() =~= catalog.deep_view());
    out
}

impl Clone for MSMeasurement {
    fn clone(&self) -> (r: MSMeasurement)
        ensures
            r@ == self@,
    {
        MSMeasurement {
            mass_accuracy: self.mass_accuracy,
            ms1_scans: clone_scans(&self.ms1_scans),
            ms2_scans: clone_scans(&self.ms2_scans),
            xics: clone_catalog(&self.xics),
        }
    }
}

impl MSMeasurement {
    /// Puts the scans of a file, the catalog with its results and the mass
    /// accuracy together.
    pub fn from_data(
        ms1_scans: Vec<Spectrum>,
        ms2_scans: Vec<Spectrum>,
        xics: Vec<Compound>,
        mass_accuracy: i64,
    ) -> (m: MSMeasurement)
        ensures
            m.mass_accuracy == mass_accuracy,
            m.ms1_scans == ms1_scans,
            m.ms2_scans == ms2_scans,
            m.xics == xics,
    {
        MSMeasurement { ms1_scans, ms2_scans, xics, mass_accuracy }
    }
}

/// The scans of a liquid-chromatography measurement.
#[derive(Debug, PartialEq, Eq)]
pub struct LCMeasurement {
    pub lc_scans: Vec<u32>,
}

} // verus!
