//! What is computed when a file has been read: the list of files to work
//! through, the scans of a file by MS level, and the measurement of a file.

use crate::batching::{
    batch_content, batches, gathered, lemma_batches_cover, lemma_flatten_related,
};
use crate::measurements::{ions_from, Compound, CompoundView, MSMeasurement};
use crate::processing::{construct_xics, is_run_outcome, XicError};
use crate::spectrum::{Spectrum, SpectrumView};
use vstd::prelude::*;

verus! {

/// What `str::trim` gives for a text: the text without the whitespace at
/// its beginning and at its end.
pub uninterp spec fn trimmed(line: Seq<char>) -> Seq<char>;

/// A line without the whitespace around it: `str::trim`, which depends on
/// the text alone.
#[verifier::external_body]
fn trim_line(line: &String) -> (r: String)
    ensures
        r@ == trimmed(line@),
{
    line.trim().to_string()
}

/// The file paths that the lines of a file list give: each line without
/// the whitespace around it, in the order of the lines, and no empty one.
pub open spec fn paths_of(lines: Seq<Seq<char>>) -> Seq<Seq<char>> {
    lines.map_values(|l: Seq<char>| trimmed(l)).filter(|p: Seq<char>| p.len() > 0)
}

/// The texts among `trimmed` that are not empty, in their order.
pub fn non_empty_paths(trimmed: Vec<String>) -> (r: Vec<String>)
    ensures
        r.deep_view() == trimmed.deep_view().filter(|p: Seq<char>| p.len() > 0),
{
    let ghost all = trimmed.deep_view();
    let ghost keep = |p: Seq<char>| p.len() > 0;
    let mut paths: Vec<String> = Vec::new();
    proof {
        assert(all.take(0) =~= Seq::empty());
        assert(paths.deep_view() =~= all.take(0).filter(keep));
    }
    for path in it: trimmed
        invariant
            it.seq().len() == all.len(),
            forall|j: int| 0 <= j < all.len() ==> it.seq()[j]@ == all[j],
            keep == |p: Seq<char>| p.len() > 0,
            paths.deep_view() == all.take(it.index() as int).filter(keep),
    {
        let ghost done = it.index() as int;
        let ghost before = paths.deep_view();
        proof {
            assert(all.take(done + 1) =~= all.take(done).push(path@));
            all.take(done).lemma_filter_push(path@, keep);
        }
        if !path.as_str().is_empty() {
            paths.push(path);
            proof {
                assert(paths.deep_view() =~= before.push(path@));
            }
        }
    }
    proof {
        assert(all.take(all.len() as int) =~= all);
    }
    paths
}

/// Reads the file paths off the lines of a file list: trims each line and
/// leaves out the lines that are empty then.
pub fn file_paths_from_lines(lines: &[String]) -> (r: Vec<String>)
    ensures
        r.deep_view() == paths_of(lines.deep_view()),
{
    let mut trimmed_lines: Vec<String> = Vec::new();
    let mut i: usize = 0;
    while i < lines.len()
        invariant
            i <= lines.len(),
            trimmed_lines.len() == i,
            forall|j: int| 0 <= j < i ==> trimmed_lines@[j]@ == trimmed(lines@[j]@),
        decreases lines.len() - i,
    {
        trimmed_lines.push(trim_line(&lines[i]));
        i += 1;
    }
    proof {
        assert(trimmed_lines.deep_view() =~= lines.deep_view().map_values(
            |l: Seq<char>| trimmed(l),
        ));
    }
    non_empty_paths(trimmed_lines)
}

/// One entry of an ion list as it was read: the name of a compound and,
/// where the entry has them, the labels and masses of its ions and the
/// texts that describe them.
#[derive(Debug, PartialEq, Eq)]
pub struct IonListEntry {
    pub name: String,
    pub ions: Option<Vec<(String, i64)>>,
    pub info: Option<Vec<String>>,
}

/// The compound that an entry of an ion list stands for. An entry without
/// ions is a compound without ions, and one without texts has none.
pub open spec fn entry_compound(entry: IonListEntry) -> CompoundView {
    CompoundView {
        name: entry.name@,
        ions: match entry.ions {
            Some(ions) => ions_from(ions.deep_view()),
            None => Seq::empty(),
        },
        ms2: Seq::empty(),
        ion_info: match entry.info {
            Some(info) => info.deep_view(),
            None => Seq::empty(),
        },
        calibration_curve: Seq::empty(),
    }
}

/// The catalog that the entries of an ion list give: one compound for each
/// entry, in the order of the entries.
pub fn compounds_from_entries(entries: &[IonListEntry]) -> (r: Vec<Compound>)
    ensures
        r.deep_view() == entries@.map_values(|e: IonListEntry| entry_compound(e)),
{
    let no_ions: Vec<(String, i64)> = Vec::new();
    let no_info: Vec<String> = Vec::new();
    let mut catalog: Vec<Compound> = Vec::new();
    let mut i: usize = 0;
    while i < entries.len()
        invariant
            i <= entries.len(),
            catalog.len() == i,
            no_ions@.len() == 0,
            no_info@.len() == 0,
            forall|k: int| 0 <= k < i ==> catalog@[k]@ == entry_compound(entries@[k]),
        decreases entries.len() - i,
    {
        let entry = &entries[i];
        let ions = match &entry.ions {
            Some(ions) => ions,
            None => &no_ions,
        };
        let info = match &entry.info {
            Some(info) => info,
            None => &no_info,
        };
        let compound = Compound::from_ion_list_entry(entry.name.clone(), ions, info);
        proof {
            if entry.ions is None {
                assert(no_ions.deep_view() =~= Seq::empty());
                assert(ions_from(no_ions.deep_view()) =~= Seq::empty());
            }
            if entry.info is None {
                assert(no_info.deep_view() =~= Seq::empty());
            }
            assert(compound@.ms2 =~= Seq::empty());
            assert(compound@.calibration_curve =~= Seq::empty());
            assert(compound@ == entry_compound(*entry));
        }
        catalog.push(compound);
        i += 1;
    }
    assert(catalog.deep_view() =~= entries@.map_values(|e: IonListEntry| entry_compound(e)));
    catalog
}

/// The scans of MS level `level` among `scans`, in their order.
pub open spec fn of_level(scans: Seq<SpectrumView>, level: u8) -> Seq<SpectrumView> {
    scans.filter(|s: SpectrumView| s.ms_level == level)
}

/// Sorts the scans of a file by MS level: those of level 1 and those of
/// level 2, each in acquisition order. Scans of other levels are dropped.
pub fn split_ms_levels(scans: Vec<Spectrum>) -> (r: (Vec<Spectrum>, Vec<Spectrum>))
    ensures
        r.0.deep_view() == of_level(scans.deep_view(), 1),
        r.1.deep_view() == of_level(scans.deep_view(), 2),
{
    let ghost all = scans.deep_view();
    let ghost one = |s: SpectrumView| s.ms_level == 1u8;
    let ghost two = |s: SpectrumView| s.ms_level == 2u8;
    let mut ms1_scans: Vec<Spectrum> = Vec::new();
    let mut ms2_scans: Vec<Spectrum> = Vec::new();
    proof {
        assert(all.take(0) =~= Seq::empty());
        assert(ms1_scans.deep_view() =~= all.take(0).filter(one));
        assert(ms2_scans.deep_view() =~= all.take(0).filter(two));
    }
    for scan in it: scans
        invariant
            it.seq().len() == all.len(),
            forall|j: int| 0 <= j < all.len() ==> it.seq()[j]@ == all[j],
            one == |s: SpectrumView| s.ms_level == 1u8,
            two == |s: SpectrumView| s.ms_level == 2u8,
            ms1_scans.deep_view() == all.take(it.index() as int).filter(one),
            ms2_scans.deep_view() == all.take(it.index() as int).filter(two),
    {
        let ghost done = it.index() as int;
        let ghost before1 = ms1_scans.deep_view();
        let ghost before2 = ms2_scans.deep_view();
        proof {
            assert(all.take(done + 1) =~= all.take(done).push(scan@));
            all.take(done).lemma_filter_push(scan@, one);
            all.take(done).lemma_filter_push(scan@, two);
        }
        let level = scan.ms_level();
        if level == 1 {
            ms1_scans.push(scan);
            proof {
                assert(ms1_scans.deep_view() =~= before1.push(scan@));
            }
        } else if level == 2 {
            ms2_scans.push(scan);
            proof {
                assert(ms2_scans.deep_view() =~= before2.push(scan@));
            }
        }
    }
    proof {
        assert(all.take(all.len() as int) =~= all);
    }
    (ms1_scans, ms2_scans)
}

/// `m` is the measurement of the file whose scans of level 1 and of level
/// 2 are `file`: it holds those scans, the mass accuracy, and the catalog
/// as a run over the scans of level 1 gives it.
pub open spec fn measures(
    m: MSMeasurement,
    file: (Vec<Spectrum>, Vec<Spectrum>),
    catalog: Seq<CompoundView>,
    ranges: Seq<Seq<Option<(i64, i64)>>>,
    mass_accuracy: i64,
) -> bool {
    &&& m.ms1_scans == file.0
    &&& m.ms2_scans == file.1
    &&& m.mass_accuracy == mass_accuracy
    &&& is_run_outcome(file.0.deep_view(), catalog, ranges, Ok(m.xics.deep_view()))
}

/// Measures one file whose scans have been read: runs the catalog over the
/// scans of level 1 and puts the outcome together with the scans and the
/// mass accuracy. A file that gave no scans gives a measurement without
/// scans, in which no ion has a summed intensity.
pub fn process_file(
    ms1_scans: Vec<Spectrum>,
    ms2_scans: Vec<Spectrum>,
    ion_list: &[Compound],
    ranges: &[Vec<Option<(i64, i64)>>],
    mass_accuracy: i64,
) -> (r: Result<MSMeasurement, XicError>)
    ensures
        match r {
            Ok(m) => measures(
                m,
                (ms1_scans, ms2_scans),
                ion_list.deep_view(),
                ranges.deep_view(),
                mass_accuracy,
            ),
            Err(e) => is_run_outcome(
                ms1_scans.deep_view(),
                ion_list.deep_view(),
                ranges.deep_view(),
                Err(e),
            ),
        },
{
    match construct_xics(ms1_scans.as_slice(), ion_list, ranges) {
        Ok(xics) => Ok(MSMeasurement::from_data(ms1_scans, ms2_scans, xics, mass_accuracy)),
        Err(e) => Err(e),
    }
}

/// Measures the files of one batch, one after the other in the order of the
/// batch: one measurement for each file, at the file's place. The run ends
/// with an error at the first file where the catalog has an ion without a
/// mass range, which is the first file of the batch.
pub fn process_file_batch(
    files: Vec<(Vec<Spectrum>, Vec<Spectrum>)>,
    ion_list: &[Compound],
    ranges: &[Vec<Option<(i64, i64)>>],
    mass_accuracy: i64,
) -> (r: Result<Vec<MSMeasurement>, XicError>)
    ensures
        match r {
            Ok(results) => {
                &&& results@.len() == files@.len()
                &&& forall|k: int|
                    0 <= k < files@.len() ==> measures(
                        #[trigger] results@[k],
                        files@[k],
                        ion_list.deep_view(),
                        ranges.deep_view(),
                        mass_accuracy,
                    )
            },
            Err(e) => {
                &&& files@.len() > 0
                &&& is_run_outcome(
                    files@[0].0.deep_view(),
                    ion_list.deep_view(),
                    ranges.deep_view(),
                    Err(e),
                )
            },
        },
{
    let ghost all = files@;
    let mut results: Vec<MSMeasurement> = Vec::new();
    for file in it: files
        invariant
            it.seq() == all,
            results@.len() == it.index(),
            forall|k: int|
                0 <= k < it.index() ==> measures(
                    #[trigger] results@[k],
                    all[k],
                    ion_list.deep_view(),
                    ranges.deep_view(),
                    mass_accuracy,
                ),
    {
        let ghost before = results@;
        let (ms1_scans, ms2_scans) = file;
        match process_file(ms1_scans, ms2_scans, ion_list, ranges, mass_accuracy) {
            Ok(m) => {
                results.push(m);
                proof {
                    assert(forall|k: int| 0 <= k < before.len() ==> results@[k] == before[k]);
                }
            },
            Err(e) => {
                return Err(e);
            },
        }
    }
    Ok(results)
}

/// One measurement for each file, wherever the batches are cut: when a list
/// of files is cut into batches of any size and every batch comes back
/// with the measurements of its files in their order, the gathered
/// measurements are those of the files of the list, each file once and at
/// its own place.
pub proof fn lemma_every_file_measured_once(
    files: Seq<(Vec<Spectrum>, Vec<Spectrum>)>,
    size: int,
    results: Seq<Option<Vec<MSMeasurement>>>,
    catalog: Seq<CompoundView>,
    ranges: Seq<Seq<Option<(i64, i64)>>>,
    mass_accuracy: i64,
)
    requires
        size >= 1,
        results.len() == batches(files, size).len(),
        forall|k: int|
            0 <= k < results.len() ==> batch_content(#[trigger] results[k]).len() == batches(
                files,
                size,
            )[k].len(),
        forall|k: int, j: int|
            0 <= k < results.len() && 0 <= j < batches(files, size)[k].len() ==> measures(
                #[trigger] batch_content(results[k])[j],
                batches(files, size)[k][j],
                catalog,
                ranges,
                mass_accuracy,
            ),
    ensures
        gathered(results).len() == files.len(),
        forall|i: int|
            0 <= i < files.len() ==> measures(
                #[trigger] gathered(results)[i],
                files[i],
                catalog,
                ranges,
                mass_accuracy,
            ),
{
    let contents = results.map_values(|b: Option<Vec<MSMeasurement>>| batch_content(b));
    let related = |m: MSMeasurement, file: (Vec<Spectrum>, Vec<Spectrum>)|
        measures(m, file, catalog, ranges, mass_accuracy);
    assert forall|k: int, j: int| 0 <= k < contents.len() && 0 <= j < contents[k].len() implies related(
        contents[k][j],
        batches(files, size)[k][j],
    ) by {
        assert(contents[k] == batch_content(results[k]));
    }
    lemma_flatten_related(contents, batches(files, size), related);
    lemma_batches_cover(files, size);
}

} // verus!
