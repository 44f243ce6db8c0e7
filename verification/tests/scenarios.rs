use lcmspector::batching::{gather_batches, plan_batches, split_batches};
use lcmspector::loading::process_file_batch;
use lcmspector::measurements::{Compound, Ion, IonData, MSMeasurement};
use lcmspector::processing::{construct_xics, process_target, XicError};
use lcmspector::spectrum::Spectrum;

/// The rank of a real number: an integer that compares as the number does.
fn rank(x: f64) -> i64 {
    let bits = x.to_bits();
    let magnitude = (bits & 0x7fff_ffff_ffff_ffff) as i64;
    if bits >> 63 == 0 {
        magnitude
    } else {
        -magnitude
    }
}

/// The real number of a rank.
fn value(r: i64) -> f64 {
    if r >= 0 {
        f64::from_bits(r as u64)
    } else {
        -f64::from_bits((-r) as u64)
    }
}

fn total(terms: &Option<Vec<i64>>) -> Option<f64> {
    terms.as_ref().map(|t| t.iter().map(|r| value(*r)).sum())
}

fn window(mass: f64, accuracy: f64) -> Option<(i64, i64)> {
    Some((rank(mass - 3.0 * accuracy), rank(mass + 3.0 * accuracy)))
}

fn scan(time: f64, samples: &[(f64, f64)]) -> Spectrum {
    let mzs = samples.iter().map(|s| rank(s.0)).collect();
    let intensities = samples.iter().map(|s| rank(s.1)).collect();
    Spectrum::with_arrays(rank(time), 1, mzs, intensities).unwrap()
}

fn ion(label: &str) -> Ion {
    Ion { name: label.to_string(), data: IonData::new(rank(label.parse().unwrap())) }
}

fn compound(name: &str, labels: &[&str]) -> Compound {
    Compound {
        name: name.to_string(),
        ions: labels.iter().map(|l| ion(l)).collect(),
        ms2: Vec::new(),
        ion_info: vec![format!("about {name}")],
        calibration_curve: Vec::new(),
    }
}

fn windows(catalog: &[Compound], accuracy: f64) -> Vec<Vec<Option<(i64, i64)>>> {
    catalog
        .iter()
        .map(|c| c.ions.iter().map(|i| window(i.name.parse().unwrap(), accuracy)).collect())
        .collect()
}

fn fatty_acids() -> Vec<Compound> {
    vec![
        compound("Acetate", &["59.0139", "61.0284"]),
        compound("Propionate", &["73.0295"]),
        compound("Butyrate", &["87.04515", "89.0597", "88.0"]),
        compound("Nothing", &[]),
    ]
}

fn run() -> Vec<Spectrum> {
    vec![
        scan(0.5, &[(59.0139, 10.0), (73.0295, 4.0), (87.04515, 1.0)]),
        scan(1.0, &[(59.0140, 30.0), (73.0296, 8.0), (87.04515, 6.0)]),
        Spectrum::new(rank(1.5), 1),
        scan(2.0, &[(59.0138, 30.0), (73.0290, 99.0), (87.04515, 6.0), (61.0284, 2.5)]),
    ]
}

#[test]
fn three_equal_peaks_sum_and_earliest_time() {
    let data = vec![
        scan(1.0, &[(59.0139, 50.0)]),
        scan(2.0, &[(59.0139, 50.0)]),
        scan(3.0, &[(59.0139, 50.0)]),
    ];
    let catalog = vec![compound("Acetate", &["59.0139"])];
    let ranges = vec![vec![window(59.0139, 0.0001)]];
    let result = construct_xics(&data, &catalog, &ranges).unwrap();
    assert_eq!(result.len(), 1);
    assert_eq!(result[0].name, "Acetate");
    assert_eq!(result[0].ions.len(), 1);
    let ion = &result[0].ions[0];
    assert_eq!(ion.name, "59.0139");
    assert_eq!(ion.data.ms_intensity, Some(vec![rank(50.0), rank(50.0), rank(50.0)]));
    assert_eq!(total(&ion.data.ms_intensity), Some(150.0));
    assert_eq!(ion.data.rt.map(value), Some(1.0));
    assert_eq!(ion.data.mz.map(value), Some(59.0139));
    assert_eq!(ion.data.lc_intensity, None);
}

#[test]
fn no_sample_in_window_gives_nothing() {
    let data = vec![
        scan(1.0, &[(59.0137, 50.0), (59.0141, 20.0)]),
        scan(2.0, &[(58.0, 50.0)]),
        scan(3.0, &[]),
        Spectrum::new(rank(4.0), 1),
    ];
    let catalog = vec![compound("Acetate", &["59.0139"])];
    let ranges = vec![vec![Some((rank(59.0138), rank(59.0140)))]];
    let result = construct_xics(&data, &catalog, &ranges).unwrap();
    let ion = &result[0].ions[0];
    assert_eq!(ion.data.ms_intensity, None);
    assert_eq!(ion.data.rt, None);
}

/// The scans of a file, told apart by the number in its name.
fn scans_of(path: &str) -> (Vec<Spectrum>, Vec<Spectrum>) {
    let number: f64 = path[4..6].parse().unwrap();
    (vec![scan(number, &[(59.0139, number)])], vec![Spectrum::new(rank(number), 2)])
}

#[test]
fn thirty_files_in_batches_give_thirty_measurements() {
    let files: Vec<String> = (0..30).map(|i| format!("run_{i:02}.mzml")).collect();
    let catalog = vec![compound("Acetate", &["59.0139"])];
    let ranges = windows(&catalog, 0.0001);
    for size in [1usize, 4, 5, 7, 15, 29, 30, 31, 1000] {
        let batches = split_batches(&files, size);
        let laid_out: Vec<String> = batches.iter().flatten().cloned().collect();
        assert_eq!(laid_out, files);
        let results: Vec<Option<Vec<MSMeasurement>>> = batches
            .iter()
            .map(|batch| {
                let read = batch.iter().map(|path| scans_of(path)).collect();
                Some(process_file_batch(read, &catalog, &ranges, rank(0.0001)).unwrap())
            })
            .collect();
        let measurements = gather_batches(results);
        assert_eq!(measurements.len(), 30);
        for (path, m) in files.iter().zip(measurements.iter()) {
            let (ms1_scans, ms2_scans) = scans_of(path);
            assert_eq!(m.ms1_scans, ms1_scans);
            assert_eq!(m.ms2_scans, ms2_scans);
            assert_eq!(m.xics.len(), 1);
        }
    }
    let planned = plan_batches(&files);
    assert_eq!(planned.iter().map(|b| b.len()).sum::<usize>(), 30);
    assert_eq!(planned.concat(), files);
}

#[test]
fn ion_without_range_is_an_error() {
    let data = vec![scan(1.0, &[(59.0139, 50.0)])];
    let catalog = vec![compound("Acetate", &["59.0139"])];
    let ranges = vec![vec![None]];
    assert_eq!(
        construct_xics(&data, &catalog, &ranges).unwrap_err(),
        XicError::MalformedLabel { compound: 0, ion: 0 }
    );
    let short: Vec<Vec<Option<(i64, i64)>>> = Vec::new();
    assert_eq!(
        construct_xics(&data, &catalog, &short).unwrap_err(),
        XicError::MalformedLabel { compound: 0, ion: 0 }
    );
}

#[test]
fn first_ion_without_range_is_named() {
    let catalog = fatty_acids();
    let mut ranges = windows(&catalog, 0.0001);
    ranges[2][1] = None;
    ranges[2][2] = None;
    assert_eq!(
        construct_xics(&run(), &catalog, &ranges).unwrap_err(),
        XicError::MalformedLabel { compound: 2, ion: 1 }
    );
    ranges[0][1] = None;
    assert_eq!(
        construct_xics(&run(), &catalog, &ranges).unwrap_err(),
        XicError::MalformedLabel { compound: 0, ion: 1 }
    );
    let mut cut = windows(&catalog, 0.0001);
    cut[2].truncate(2);
    assert_eq!(
        construct_xics(&run(), &catalog, &cut).unwrap_err(),
        XicError::MalformedLabel { compound: 2, ion: 2 }
    );
    cut.truncate(1);
    assert_eq!(
        construct_xics(&run(), &catalog, &cut).unwrap_err(),
        XicError::MalformedLabel { compound: 1, ion: 0 }
    );
}

#[test]
fn ranges_beyond_the_catalog_are_ignored() {
    let catalog = vec![compound("Acetate", &["59.0139"])];
    let mut ranges = windows(&catalog, 0.0001);
    ranges[0].push(None);
    ranges.push(vec![None]);
    let result = construct_xics(&run(), &catalog, &ranges).unwrap();
    assert_eq!(total(&result[0].ions[0].data.ms_intensity), Some(70.0));
}

#[test]
fn catalog_run_fills_every_ion() {
    let catalog = fatty_acids();
    let ranges = windows(&catalog, 0.0001);
    let result = construct_xics(&run(), &catalog, &ranges).unwrap();
    assert_eq!(result.len(), 4);

    let acetate = &result[0];
    assert_eq!(total(&acetate.ions[0].data.ms_intensity), Some(70.0));
    assert_eq!(acetate.ions[0].data.rt.map(value), Some(1.0));
    assert_eq!(total(&acetate.ions[1].data.ms_intensity), Some(2.5));
    assert_eq!(acetate.ions[1].data.rt, None);

    let propionate = &result[1];
    assert_eq!(total(&propionate.ions[0].data.ms_intensity), Some(12.0));
    assert_eq!(propionate.ions[0].data.rt.map(value), Some(1.0));

    let butyrate = &result[2];
    assert_eq!(total(&butyrate.ions[0].data.ms_intensity), Some(13.0));
    assert_eq!(butyrate.ions[0].data.rt.map(value), Some(1.0));
    assert_eq!(butyrate.ions[1].data.ms_intensity, None);
    assert_eq!(butyrate.ions[1].data.rt, None);
    assert_eq!(butyrate.ions[2].data.ms_intensity, None);

    assert_eq!(result[3].name, "Nothing");
    assert!(result[3].ions.is_empty());
}

#[test]
fn catalog_order_is_kept() {
    let catalog = fatty_acids();
    let ranges = windows(&catalog, 0.0001);
    let result = construct_xics(&run(), &catalog, &ranges).unwrap();
    assert_eq!(result.len(), catalog.len());
    for (before, after) in catalog.iter().zip(result.iter()) {
        assert_eq!(before.name, after.name);
        assert_eq!(before.ion_info, after.ion_info);
        assert_eq!(before.ms2, after.ms2);
        assert_eq!(before.calibration_curve, after.calibration_curve);
        let names_before: Vec<&String> = before.ions.iter().map(|i| &i.name).collect();
        let names_after: Vec<&String> = after.ions.iter().map(|i| &i.name).collect();
        assert_eq!(names_before, names_after);
        for (a, b) in before.ions.iter().zip(after.ions.iter()) {
            assert_eq!(a.data.mz, b.data.mz);
            assert_eq!(a.data.lc_intensity, b.data.lc_intensity);
        }
    }
}

#[test]
fn large_catalog_keeps_its_order() {
    let labels: Vec<String> = (0..40).map(|i| format!("{}.5", 100 + i)).collect();
    let catalog: Vec<Compound> = (0..60)
        .map(|c| {
            let own: Vec<&str> = labels.iter().skip(c % 7).map(|l| l.as_str()).collect();
            compound(&format!("compound {c}"), &own)
        })
        .collect();
    let data: Vec<Spectrum> = (0..50)
        .map(|t| {
            let samples: Vec<(f64, f64)> =
                (0..40).map(|i| (100.5 + i as f64, (t * i % 11) as f64)).collect();
            scan(t as f64, &samples)
        })
        .collect();
    let ranges = windows(&catalog, 0.001);
    let result = construct_xics(&data, &catalog, &ranges).unwrap();
    assert_eq!(result.len(), 60);
    for (c, out) in result.iter().enumerate() {
        assert_eq!(out.name, format!("compound {c}"));
        assert_eq!(out.ions.len(), catalog[c].ions.len());
        for (i, done) in out.ions.iter().enumerate() {
            assert_eq!(done.name, catalog[c].ions[i].name);
            let alone = process_target(&data, &catalog[c].ions[i], ranges[c][i]);
            assert_eq!(Ok(done), alone.as_ref());
            assert_eq!(done.data.ms_intensity.as_ref().map(|t| t.len()), Some(50));
        }
    }
}

#[test]
fn same_inputs_same_results() {
    let catalog = fatty_acids();
    let ranges = windows(&catalog, 0.0001);
    let first = construct_xics(&run(), &catalog, &ranges);
    let second = construct_xics(&run(), &catalog, &ranges);
    assert_eq!(first, second);
    let again = construct_xics(&run(), &first.clone().unwrap(), &ranges);
    assert_eq!(again, first);
}

#[test]
fn results_replace_what_the_ion_held() {
    let mut catalog = vec![compound("Acetate", &["59.0139", "61.0284"])];
    for ion in catalog[0].ions.iter_mut() {
        ion.data.rt = Some(rank(7.0));
        ion.data.ms_intensity = Some(vec![rank(1.0)]);
        ion.data.lc_intensity = Some(rank(3.0));
    }
    let ranges = windows(&catalog, 0.0001);
    let nothing = construct_xics(&[], &catalog, &ranges).unwrap();
    for ion in &nothing[0].ions {
        assert_eq!(ion.data.ms_intensity, None);
        assert_eq!(ion.data.rt, None);
        assert_eq!(ion.data.lc_intensity.map(value), Some(3.0));
    }
    let found = construct_xics(&run(), &catalog, &ranges).unwrap();
    assert_eq!(found[0].ions[0].data.rt.map(value), Some(1.0));
    assert_eq!(total(&found[0].ions[0].data.ms_intensity), Some(70.0));
    // One matched sample: a sum, and no retention time in place of the old one.
    assert_eq!(total(&found[0].ions[1].data.ms_intensity), Some(2.5));
    assert_eq!(found[0].ions[1].data.rt, None);
    assert_eq!(found[0].ions[1].data.lc_intensity.map(value), Some(3.0));
}
