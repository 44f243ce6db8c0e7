//! The ion matcher: which samples of a run fall into a mass window, and
//! what they say of an ion.

use crate::spectrum::{Peak, Spectrum, SpectrumView};
use crate::xic::{
    first_max_index, intensities_of, lemma_first_max_exists, matched_terms, peak_time, times_of,
    Hit, Xic,
};
use vstd::prelude::*;
use vstd::seq_lib::{
    lemma_flatten_concat, lemma_multiset_commutative, to_multiset_contains, to_multiset_len,
    to_multiset_remove,
};

verus! {

/// Whether `mz` lies in the closed window `range.0 ..= range.1`.
pub open spec fn in_window(mz: i64, range: (i64, i64)) -> bool {
    range.0 <= mz && mz <= range.1
}

/// The matched samples of one scan, in array order.
pub open spec fn spectrum_hits(s: SpectrumView, range: (i64, i64)) -> Seq<Hit> {
    s.samples().filter(|p: Peak| in_window(p.mz, range)).map_values(
        |p: Peak| Hit { time: s.start_time, intensity: p.intensity },
    )
}

/// The matched samples of a run, scan by scan in the order of the scans.
pub open spec fn hits(data: Seq<SpectrumView>, range: (i64, i64)) -> Seq<Hit> {
    data.map_values(|s: SpectrumView| spectrum_hits(s, range)).flatten()
}

/// The policy on the low end of a mass window: masses are never negative,
/// so a window that would begin below zero begins at zero.
pub open spec fn clamp_low(range: (i64, i64)) -> (i64, i64) {
    if range.0 < 0 {
        (0i64, range.1)
    } else {
        range
    }
}

/// The samples that count for an ion whose window, before clamping, is
/// `mass_range`.
pub open spec fn ion_hits(data: Seq<SpectrumView>, mass_range: (i64, i64)) -> Seq<Hit> {
    hits(data, clamp_low(mass_range))
}

/// The scans of the run stand in the order of their acquisition times.
pub open spec fn time_ordered(data: Seq<SpectrumView>) -> bool {
    forall|a: int, b: int| 0 <= a <= b < data.len() ==> data[a].start_time <= data[b].start_time
}

/// Sample `j` of scan `i` of the run lies in the window, and `h` is that
/// sample as a matched sample: its intensity, with the acquisition time of
/// scan `i`.
pub open spec fn comes_from(
    data: Seq<SpectrumView>,
    range: (i64, i64),
    i: int,
    j: int,
    h: Hit,
) -> bool {
    &&& 0 <= i < data.len()
    &&& 0 <= j < data[i].samples().len()
    &&& in_window(data[i].samples()[j].mz, range)
    &&& h == Hit { time: data[i].start_time, intensity: data[i].samples()[j].intensity }
}

/// Extending a run by one scan appends that scan's matched samples.
pub proof fn lemma_hits_push(data: Seq<SpectrumView>, s: SpectrumView, range: (i64, i64))
    ensures
        hits(data.push(s), range) == hits(data, range) + spectrum_hits(s, range),
{
    let f = |s: SpectrumView| spectrum_hits(s, range);
    assert(data.push(s).map_values(f) =~= data.map_values(f).push(f(s)));
    data.map_values(f).lemma_flatten_push(f(s));
}

/// The scan `s` cut down to its first `n` samples.
spec fn first_samples(s: SpectrumView, n: int) -> SpectrumView {
    SpectrumView {
        start_time: s.start_time,
        ms_level: s.ms_level,
        peaks: Some(s.samples().take(n)),
    }
}

/// Extending a scan by one sample appends that sample where it matches.
proof fn lemma_spectrum_hits_push(
    time: i64,
    level: u8,
    peaks: Seq<Peak>,
    p: Peak,
    range: (i64, i64),
)
    ensures
        spectrum_hits(
            SpectrumView { start_time: time, ms_level: level, peaks: Some(peaks.push(p)) },
            range,
        ) == if in_window(p.mz, range) {
            spectrum_hits(
                SpectrumView { start_time: time, ms_level: level, peaks: Some(peaks) },
                range,
            ).push(Hit { time, intensity: p.intensity })
        } else {
            spectrum_hits(
                SpectrumView { start_time: time, ms_level: level, peaks: Some(peaks) },
                range,
            )
        },
{
    let pred = |p: Peak| in_window(p.mz, range);
    let conv = |p: Peak| Hit { time, intensity: p.intensity };
    peaks.lemma_filter_push(p, pred);
    if in_window(p.mz, range) {
        assert(peaks.filter(pred).push(p).map_values(conv) =~= peaks.filter(pred).map_values(
            conv,
        ).push(conv(p)));
    }
}

/// Collects, over every scan of `data` in order and every sample of a scan
/// in array order, the samples whose mass lies in `mass_range`: their
/// intensities, and beside each the acquisition time of its scan.
pub fn find_matching_intensities(data: &[Spectrum], mass_range: (i64, i64)) -> (r: (
    Vec<i64>,
    Vec<i64>,
))
    ensures
        r.0@ == intensities_of(hits(data.deep_view(), mass_range)),
        r.1@ == times_of(hits(data.deep_view(), mass_range)),
{
    let mut intensities: Vec<i64> = Vec::new();
    let mut scan_times: Vec<i64> = Vec::new();
    let ghost run = data.deep_view();
    let mut k: usize = 0;
    proof {
        assert(run.take(0) =~= Seq::<SpectrumView>::empty());
        assert(hits(run.take(0), mass_range) =~= Seq::<Hit>::empty());
    }
    while k < data.len()
        invariant
            k <= data.len(),
            run == data.deep_view(),
            run.len() == data.len(),
            intensities@ == intensities_of(hits(run.take(k as int), mass_range)),
            scan_times@ == times_of(hits(run.take(k as int), mass_range)),
        decreases data.len() - k,
    {
        let spectrum = &data[k];
        let scan_time = spectrum.start_time();
        let n = spectrum.peak_count();
        let ghost sv = spectrum@;
        let ghost before = hits(run.take(k as int), mass_range);
        let mut i: usize = 0;
        proof {
            assert(run[k as int] == sv);
            assert(sv.samples().take(0) =~= Seq::<Peak>::empty());
            assert(spectrum_hits(first_samples(sv, 0), mass_range) =~= Seq::<Hit>::empty());
            assert(before + spectrum_hits(first_samples(sv, 0), mass_range) =~= before);
        }
        while i < n
            invariant
                i <= n,
                n == sv.samples().len(),
                sv == spectrum@,
                scan_time == sv.start_time,
                intensities@ == intensities_of(
                    before + spectrum_hits(first_samples(sv, i as int), mass_range),
                ),
                scan_times@ == times_of(
                    before + spectrum_hits(first_samples(sv, i as int), mass_range),
                ),
            decreases n - i,
        {
            let mz_value = spectrum.mz(i);
            let ghost p = sv.samples()[i as int];
            proof {
                assert(sv.samples().take(i as int + 1) =~= sv.samples().take(i as int).push(p));
                lemma_spectrum_hits_push(
                    sv.start_time,
                    sv.ms_level,
                    sv.samples().take(i as int),
                    p,
                    mass_range,
                );
            }
            if mz_value >= mass_range.0 && mz_value <= mass_range.1 {
                let value = spectrum.intensity(i);
                intensities.push(value);
                scan_times.push(scan_time);
                proof {
                    let old_hits = spectrum_hits(first_samples(sv, i as int), mass_range);
                    let hit = Hit { time: scan_time, intensity: value };
                    assert(before + old_hits.push(hit) =~= (before + old_hits).push(hit));
                    assert(intensities_of((before + old_hits).push(hit)) =~= intensities_of(
                        before + old_hits,
                    ).push(value));
                    assert(times_of((before + old_hits).push(hit)) =~= times_of(
                        before + old_hits,
                    ).push(scan_time));
                }
            }
            i += 1;
        }
        proof {
            assert(sv.samples().take(n as int) =~= sv.samples());
            assert(spectrum_hits(first_samples(sv, n as int), mass_range) == spectrum_hits(
                sv,
                mass_range,
            ));
            assert(run.take(k as int + 1) =~= run.take(k as int).push(sv));
            lemma_hits_push(run.take(k as int), sv, mass_range);
        }
        k += 1;
    }
    proof {
        assert(run.take(data.len() as int) =~= run);
    }
    (intensities, scan_times)
}

/// Clamps the low end of a mass window at zero.
pub fn mass_window(mass_range: (i64, i64)) -> (r: (i64, i64))
    ensures
        r == clamp_low(mass_range),
{
    if mass_range.0 < 0 {
        (0, mass_range.1)
    } else {
        mass_range
    }
}

/// Why an ion was not matched.
#[derive(Clone, Copy, Debug, PartialEq, Eq)]
pub enum MatchError {
    /// The ion's label is not the mass of an ion, so there is no window to
    /// match in.
    MalformedLabel,
}

/// Matches one ion against a run. `mass_range` is the ion's window before
/// clamping, or `None` where the ion's label is not a mass: such an ion is
/// refused. Returns the ion's name, the terms of its summed intensity and
/// its retention time.
pub fn process_ion(ion_name: &str, data: &[Spectrum], mass_range: Option<(i64, i64)>) -> (r: Result<
    (String, Option<Vec<i64>>, Option<i64>),
    MatchError,
>)
    ensures
        match r {
            Ok(found) => {
                &&& mass_range matches Some(range)
                &&& found.0@ == ion_name@
                &&& found.1.deep_view() == matched_terms(ion_hits(data.deep_view(), range))
                &&& found.2 == peak_time(ion_hits(data.deep_view(), range))
            },
            Err(e) => mass_range is None,
        },
{
    let range = match mass_range {
        Some(range) => range,
        None => {
            return Err(MatchError::MalformedLabel);
        },
    };
    let window = mass_window(range);
    let (intensities, scan_times) = find_matching_intensities(data, window);
    let ghost h = ion_hits(data.deep_view(), range);

    // Skip processing if no intensities found
    if intensities.len() == 0 {
        return Ok((ion_name.to_owned(), None, None));
    }
    // Create the XIC array
    match Xic::from_matches(scan_times, intensities) {
        Some(xic) => {
            proof {
                assert(xic@.len() == times_of(xic@).len());
                assert forall|i: int| 0 <= i < h.len() implies xic@[i] == h[i] by {
                    assert(times_of(xic@)[i] == times_of(h)[i]);
                    assert(intensities_of(xic@)[i] == intensities_of(h)[i]);
                }
                assert(xic@ =~= h);
            }
            Ok((ion_name.to_owned(), xic.terms(), xic.retention_time()))
        },
        None => Ok((ion_name.to_owned(), None, None)),
    }
}

/// Every matched sample of a scan is a sample of that scan whose mass lies
/// in the window.
proof fn lemma_spectrum_hit_origin(s: SpectrumView, range: (i64, i64), k: int)
    requires
        0 <= k < spectrum_hits(s, range).len(),
    ensures
        exists|j: int|
            0 <= j < s.samples().len() && in_window(#[trigger] s.samples()[j].mz, range)
                && spectrum_hits(s, range)[k] == (Hit {
                time: s.start_time,
                intensity: s.samples()[j].intensity,
            }),
{
    let pred = |p: Peak| in_window(p.mz, range);
    let kept = s.samples().filter(pred);
    s.samples().lemma_filter_pred(pred, k);
    assert(kept.contains(kept[k]));
    s.samples().lemma_filter_contains_rev(pred, kept[k]);
    let j = choose|j: int| 0 <= j < s.samples().len() && s.samples()[j] == kept[k];
    assert(in_window(s.samples()[j].mz, range));
}

/// Only samples inside the window contribute: every matched sample of a
/// run is a sample of one of its scans whose mass lies in the window, and
/// it carries that scan's acquisition time.
pub proof fn lemma_hit_origin(data: Seq<SpectrumView>, range: (i64, i64), k: int)
    requires
        0 <= k < hits(data, range).len(),
    ensures
        exists|i: int, j: int| comes_from(data, range, i, j, hits(data, range)[k]),
    decreases data.len(),
{
    if data.len() == 0 {
        assert(data.map_values(|s: SpectrumView| spectrum_hits(s, range)) =~= Seq::empty());
    } else {
        let front = data.drop_last();
        let last = data.last();
        assert(data =~= front.push(last));
        lemma_hits_push(front, last, range);
        let h = hits(data, range)[k];
        if k < hits(front, range).len() {
            lemma_hit_origin(front, range, k);
            let (i, j) = choose|i: int, j: int| comes_from(front, range, i, j, h);
            assert(comes_from(data, range, i, j, h));
        } else {
            let k2 = k - hits(front, range).len();
            lemma_spectrum_hit_origin(last, range, k2);
            let j = choose|j: int|
                0 <= j < last.samples().len() && in_window(#[trigger] last.samples()[j].mz, range)
                    && spectrum_hits(last, range)[k2] == (Hit {
                    time: last.start_time,
                    intensity: last.samples()[j].intensity,
                });
            assert(comes_from(data, range, data.len() - 1, j, h));
        }
    }
}

/// The matched samples of two runs laid end to end are those of the first
/// followed by those of the second.
pub proof fn lemma_hits_concat(a: Seq<SpectrumView>, b: Seq<SpectrumView>, range: (i64, i64))
    ensures
        hits(a + b, range) == hits(a, range) + hits(b, range),
{
    let f = |s: SpectrumView| spectrum_hits(s, range);
    assert((a + b).map_values(f) =~= a.map_values(f) + b.map_values(f));
    lemma_flatten_concat(a.map_values(f), b.map_values(f));
}

/// Every sample inside the window contributes: a sample of a scan of the
/// run whose mass lies in the window is among the matched samples, with the
/// acquisition time of its scan.
pub proof fn lemma_sample_in_window_is_hit(
    data: Seq<SpectrumView>,
    range: (i64, i64),
    i: int,
    j: int,
)
    requires
        0 <= i < data.len(),
        0 <= j < data[i].samples().len(),
        in_window(data[i].samples()[j].mz, range),
    ensures
        hits(data, range).contains(
            Hit { time: data[i].start_time, intensity: data[i].samples()[j].intensity },
        ),
{
    let s = data[i];
    let hit = Hit { time: s.start_time, intensity: s.samples()[j].intensity };
    let pred = |p: Peak| in_window(p.mz, range);
    let kept = s.samples().filter(pred);
    s.samples().lemma_filter_contains(pred, j);
    let at = choose|at: int| 0 <= at < kept.len() && kept[at] == s.samples()[j];
    assert(spectrum_hits(s, range)[at] == hit);

    let before = data.take(i);
    let after = data.skip(i + 1);
    assert(data =~= before.push(s) + after);
    lemma_hits_concat(before.push(s), after, range);
    lemma_hits_push(before, s, range);
    let place = hits(before, range).len() + at;
    assert(hits(data, range)[place] == hit);
}

/// The terms that two runs give together are, as a multiset, the terms of
/// the one and the terms of the other.
proof fn lemma_terms_concat(a: Seq<SpectrumView>, b: Seq<SpectrumView>, range: (i64, i64))
    ensures
        intensities_of(hits(a + b, range)).to_multiset() == intensities_of(
            hits(a, range),
        ).to_multiset().add(intensities_of(hits(b, range)).to_multiset()),
{
    lemma_hits_concat(a, b, range);
    assert(intensities_of(hits(a, range) + hits(b, range)) =~= intensities_of(hits(a, range))
        + intensities_of(hits(b, range)));
    lemma_multiset_commutative(intensities_of(hits(a, range)), intensities_of(hits(b, range)));
}

/// The order of the scans does not decide which intensities are summed:
/// two runs that hold the same scans, in whatever order, give the same
/// terms, each as often in the one as in the other.
pub proof fn lemma_terms_of_permuted_run(
    data: Seq<SpectrumView>,
    permuted: Seq<SpectrumView>,
    range: (i64, i64),
)
    requires
        data.to_multiset() == permuted.to_multiset(),
    ensures
        intensities_of(hits(data, range)).to_multiset() == intensities_of(
            hits(permuted, range),
        ).to_multiset(),
    decreases data.len(),
{
    to_multiset_len(data);
    to_multiset_len(permuted);
    if data.len() == 0 {
        assert(data =~= permuted);
    } else {
        let last = data.last();
        let front = data.drop_last();
        assert(data.contains(last));
        to_multiset_contains(data, last);
        to_multiset_contains(permuted, last);
        let at = choose|at: int| 0 <= at < permuted.len() && permuted[at] == last;
        let before = permuted.take(at);
        let after = permuted.skip(at + 1);
        assert(front =~= data.remove(data.len() - 1));
        to_multiset_remove(data, data.len() - 1);
        to_multiset_remove(permuted, at);
        assert(permuted.remove(at) =~= before + after);
        lemma_terms_of_permuted_run(front, before + after, range);
        assert(data =~= front + seq![last]);
        assert(permuted =~= (before + seq![last]) + after);
        lemma_terms_concat(front, seq![last], range);
        lemma_terms_concat(before, after, range);
        lemma_terms_concat(before, seq![last], range);
        lemma_terms_concat(before + seq![last], after, range);
        assert(intensities_of(hits(data, range)).to_multiset() =~= intensities_of(
            hits(permuted, range),
        ).to_multiset());
    }
}

/// Where no sample of the run lies in the ion's window the ion has no
/// summed intensity, not a sum of zero, and no retention time; and only
/// there is the summed intensity absent.
pub proof fn lemma_no_match(data: Seq<SpectrumView>, mass_range: (i64, i64))
    ensures
        ion_hits(data, mass_range).len() == 0 <==> matched_terms(
            ion_hits(data, mass_range),
        ) is None,
        ion_hits(data, mass_range).len() == 0 ==> peak_time(ion_hits(data, mass_range)) is None,
{
}

/// Where exactly one sample of the run lies in the ion's window the ion
/// has a summed intensity, of that one term, and no retention time.
pub proof fn lemma_single_match(data: Seq<SpectrumView>, mass_range: (i64, i64))
    requires
        ion_hits(data, mass_range).len() == 1,
    ensures
        matched_terms(ion_hits(data, mass_range)) == Some(
            seq![ion_hits(data, mass_range)[0].intensity],
        ),
        peak_time(ion_hits(data, mass_range)) is None,
{
    let h = ion_hits(data, mass_range);
    assert(intensities_of(h) =~= seq![h[0].intensity]);
}

/// Where two or more samples of the run lie in the ion's window, the
/// retention time is the acquisition time of the scan that owns the largest
/// matched intensity; where the largest occurs more than once, of the one
/// that comes first in scan order.
pub proof fn lemma_peak_of_matches(data: Seq<SpectrumView>, mass_range: (i64, i64))
    requires
        ion_hits(data, mass_range).len() >= 2,
    ensures
        exists|k: int|
            {
                &&& 0 <= k < ion_hits(data, mass_range).len()
                &&& peak_time(ion_hits(data, mass_range)) == Some(
                    #[trigger] ion_hits(data, mass_range)[k].time,
                )
                &&& forall|j: int|
                    0 <= j < ion_hits(data, mass_range).len() ==> ion_hits(
                        data,
                        mass_range,
                    )[j].intensity <= ion_hits(data, mass_range)[k].intensity
                &&& forall|j: int|
                    0 <= j < k ==> ion_hits(data, mass_range)[j].intensity < ion_hits(
                        data,
                        mass_range,
                    )[k].intensity
            },
{
    let h = ion_hits(data, mass_range);
    lemma_first_max_exists(intensities_of(h));
    let k = first_max_index(intensities_of(h));
    assert(peak_time(h) == Some(h[k].time));
    assert forall|j: int| 0 <= j < h.len() implies h[j].intensity <= h[k].intensity by {
        assert(intensities_of(h)[j] <= intensities_of(h)[k]);
    }
    assert forall|j: int| 0 <= j < k implies h[j].intensity < h[k].intensity by {
        assert(intensities_of(h)[j] < intensities_of(h)[k]);
    }
}

/// The matched samples of a run whose scans stand in time order stand in
/// time order too.
pub proof fn lemma_hits_time_ordered(data: Seq<SpectrumView>, range: (i64, i64))
    requires
        time_ordered(data),
    ensures
        forall|a: int, b: int|
            0 <= a <= b < hits(data, range).len() ==> hits(data, range)[a].time <= hits(
                data,
                range,
            )[b].time,
    decreases data.len(),
{
    if data.len() == 0 {
        assert(data.map_values(|s: SpectrumView| spectrum_hits(s, range)) =~= Seq::empty());
    } else {
        let front = data.drop_last();
        let last = data.last();
        assert(data =~= front.push(last));
        lemma_hits_push(front, last, range);
        assert(time_ordered(front)) by {
            assert forall|a: int, b: int| 0 <= a <= b < front.len() implies front[a].start_time
                <= front[b].start_time by {
                assert(data[a].start_time <= data[b].start_time);
            }
        }
        lemma_hits_time_ordered(front, range);
        let n = hits(front, range).len();
        assert forall|a: int, b: int| 0 <= a <= b < hits(data, range).len() implies hits(
            data,
            range,
        )[a].time <= hits(data, range)[b].time by {
            if b < n {
                assert(hits(front, range)[a].time <= hits(front, range)[b].time);
            } else {
                assert(hits(data, range)[b] == spectrum_hits(last, range)[b - n]);
                assert(hits(data, range)[b].time == last.start_time);
                if a < n {
                    lemma_hit_origin(front, range, a);
                    let (i, j) = choose|i: int, j: int|
                        comes_from(front, range, i, j, hits(front, range)[a]);
                    assert(data[i].start_time <= data[data.len() - 1].start_time);
                } else {
                    assert(hits(data, range)[a] == spectrum_hits(last, range)[a - n]);
                }
            }
        }
    }
}

/// In a run whose scans stand in time order, the retention time of an ion
/// is the earliest acquisition time at which its largest matched intensity
/// was recorded: no matched sample of that intensity is earlier.
pub proof fn lemma_peak_is_earliest(data: Seq<SpectrumView>, mass_range: (i64, i64), j: int)
    requires
        time_ordered(data),
        ion_hits(data, mass_range).len() >= 2,
        0 <= j < ion_hits(data, mass_range).len(),
        forall|i: int|
            0 <= i < ion_hits(data, mass_range).len() ==> ion_hits(data, mass_range)[i].intensity
                <= ion_hits(data, mass_range)[j].intensity,
    ensures
        peak_time(ion_hits(data, mass_range)) matches Some(t) && t <= ion_hits(
            data,
            mass_range,
        )[j].time,
{
    let h = ion_hits(data, mass_range);
    lemma_first_max_exists(intensities_of(h));
    let k = first_max_index(intensities_of(h));
    assert(h[k].intensity <= h[j].intensity);
    assert(intensities_of(h)[j] <= intensities_of(h)[k]);
    if j < k {
        assert(intensities_of(h)[j] < intensities_of(h)[k]);
    }
    lemma_hits_time_ordered(data, clamp_low(mass_range));
}

} // verus!
