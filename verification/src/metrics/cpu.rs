//! The processor: temperature, frequency and load.

use crate::binary64::Real;
use crate::number::{i64_written, parse_i64};
use crate::snapshot::Cpu;
use crate::text::{contains, occurs, same, small_text, starts_with, strip_both, to_small, trim, Class};
use vstd::prelude::*;

verus! {

/// A temperature sensor.
pub struct Sensor {
    pub label: String,
    /// Degrees Celsius.
    pub temp: Real,
}

/// Whether `needle` occurs in the label, in any case.
pub open spec fn labelled(sensor: Sensor, needle: Seq<char>) -> bool {
    occurs(small_text(sensor.label@), needle)
}

/// The reading of the first sensor that has a finite one and whose label holds
/// `needle`.
pub open spec fn first_labelled(sensors: Seq<Sensor>, needle: Seq<char>) -> Option<Real>
    decreases sensors.len(),
{
    if sensors.len() == 0 {
        None
    } else if sensors[0].temp.finite() && labelled(sensors[0], needle) {
        Some(sensors[0].temp)
    } else {
        first_labelled(sensors.skip(1), needle)
    }
}

/// The reading of the first sensor that has a finite one.
pub open spec fn first_finite(sensors: Seq<Sensor>) -> Option<Real>
    decreases sensors.len(),
{
    if sensors.len() == 0 {
        None
    } else if sensors[0].temp.finite() {
        Some(sensors[0].temp)
    } else {
        first_finite(sensors.skip(1))
    }
}

/// The first of two readings that is there.
pub open spec fn or_else(a: Option<Real>, b: Option<Real>) -> Option<Real> {
    if a is Some {
        a
    } else {
        b
    }
}

/// The temperature of the processor. A sensor of the package comes first, then
/// those of AMD's control and die temperatures, then any other of the
/// processor; if there is none of these, the first sensor counts.
pub open spec fn sensor_choice(sensors: Seq<Sensor>) -> Option<Real> {
    or_else(
        first_labelled(sensors, "package"@),
        or_else(
            first_labelled(sensors, "tctl"@),
            or_else(
                first_labelled(sensors, "tdie"@),
                or_else(first_labelled(sensors, "cpu"@), first_finite(sensors)),
            ),
        ),
    )
}

fn find_labelled(sensors: &Vec<Sensor>, needle: &str) -> (r: Option<Real>)
    ensures
        r == first_labelled(sensors@, needle@),
{
    let mut i: usize = 0;
    assert(sensors@.skip(0) =~= sensors@);
    while i < sensors.len()
        invariant
            i <= sensors.len(),
            first_labelled(sensors@, needle@) == first_labelled(sensors@.skip(i as int), needle@),
        decreases sensors.len() - i,
    {
        let s = &sensors[i];
        assert(sensors@.skip(i as int)[0] == *s);
        assert(sensors@.skip(i as int).skip(1) =~= sensors@.skip(i as int + 1));
        if s.temp.is_finite() && contains(to_small(s.label.as_str()).as_str(), needle) {
            return Some(s.temp);
        }
        i += 1;
    }
    None
}

fn find_finite(sensors: &Vec<Sensor>) -> (r: Option<Real>)
    ensures
        r == first_finite(sensors@),
{
    let mut i: usize = 0;
    assert(sensors@.skip(0) =~= sensors@);
    while i < sensors.len()
        invariant
            i <= sensors.len(),
            first_finite(sensors@) == first_finite(sensors@.skip(i as int)),
        decreases sensors.len() - i,
    {
        assert(sensors@.skip(i as int)[0] == sensors@[i as int]);
        assert(sensors@.skip(i as int).skip(1) =~= sensors@.skip(i as int + 1));
        if sensors[i].temp.is_finite() {
            return Some(sensors[i].temp);
        }
        i += 1;
    }
    None
}

/// Chooses the temperature of the processor among the sensors.
pub fn read_via_components(sensors: &Vec<Sensor>) -> (r: Option<Real>)
    ensures
        r == sensor_choice(sensors@),
{
    let package = find_labelled(sensors, "package");
    if package.is_some() {
        return package;
    }
    let control = find_labelled(sensors, "tctl");
    if control.is_some() {
        return control;
    }
    let die = find_labelled(sensors, "tdie");
    if die.is_some() {
        return die;
    }
    let cpu = find_labelled(sensors, "cpu");
    if cpu.is_some() {
        return cpu;
    }
    find_finite(sensors)
}

/// A thermal zone of the kernel; a file that could not be read is absent.
pub struct Zone {
    pub name: String,
    pub kind: Option<String>,
    pub temp: Option<String>,
}

/// Whether a zone of that kind measures the processor.
pub open spec fn cpu_zone_kind(kind: Seq<char>) -> bool {
    kind == "x86_pkg_temp"@ || kind == "cpu-thermal"@ || kind == "cpu_thermal"@ || kind
        == "soc_thermal"@
}

/// The temperature in thousandths of a degree that a zone gives, if it is one
/// of the processor's and can be read.
pub open spec fn zone_reading(z: Zone) -> Option<i64> {
    if "thermal_zone"@.is_prefix_of(z.name@) && z.kind is Some && cpu_zone_kind(
        strip_both(z.kind->0@, Class::Space),
    ) && z.temp is Some {
        i64_written(strip_both(z.temp->0@, Class::Space))
    } else {
        None
    }
}

/// The reading of the first zone that gives one.
pub open spec fn zone_choice(zones: Seq<Zone>) -> Option<i64>
    decreases zones.len(),
{
    if zones.len() == 0 {
        None
    } else if zone_reading(zones[0]) is Some {
        zone_reading(zones[0])
    } else {
        zone_choice(zones.skip(1))
    }
}

fn read_zone(z: &Zone) -> (r: Option<i64>)
    ensures
        r == zone_reading(*z),
{
    if !starts_with(z.name.as_str(), "thermal_zone") {
        return None;
    }
    match &z.kind {
        Some(kind) => {
            let k = trim(kind.as_str());
            if !same(k.as_str(), "x86_pkg_temp") && !same(k.as_str(), "cpu-thermal") && !same(
                k.as_str(),
                "cpu_thermal",
            ) && !same(k.as_str(), "soc_thermal") {
                return None;
            }
        },
        None => {
            return None;
        },
    }
    match &z.temp {
        Some(raw) => parse_i64(trim(raw.as_str()).as_str()),
        None => None,
    }
}

/// Chooses the temperature of the processor, in thousandths of a degree, among
/// the thermal zones.
pub fn read_via_thermal_zones(zones: &Vec<Zone>) -> (r: Option<i64>)
    ensures
        r == zone_choice(zones@),
{
    let mut i: usize = 0;
    assert(zones@.skip(0) =~= zones@);
    while i < zones.len()
        invariant
            i <= zones.len(),
            zone_choice(zones@.skip(i as int)) == zone_choice(zones@),
        decreases zones.len() - i,
    {
        assert(zones@.skip(i as int)[0] == zones@[i as int]);
        assert(zones@.skip(i as int).skip(1) =~= zones@.skip(i as int + 1));
        match read_zone(&zones[i]) {
            Some(t) => {
                return Some(t);
            },
            None => {},
        }
        i += 1;
    }
    None
}

/// Where the temperature of the processor comes from.
#[derive(Clone, Copy, PartialEq, Eq, Structural)]
pub enum CpuTemp {
    /// A sensor, in degrees Celsius.
    Sensor(Real),
    /// A thermal zone, in thousandths of a degree.
    Zone(i64),
    /// Nowhere.
    Absent,
}

/// Chooses the temperature of the processor: a sensor before a thermal zone.
pub fn read_cpu_temp(sensors: &Vec<Sensor>, zones: &Vec<Zone>) -> (r: CpuTemp)
    ensures
        r == match sensor_choice(sensors@) {
            Some(t) => CpuTemp::Sensor(t),
            None => match zone_choice(zones@) {
                Some(m) => CpuTemp::Zone(m),
                None => CpuTemp::Absent,
            },
        },
{
    match read_via_components(sensors) {
        Some(t) => CpuTemp::Sensor(t),
        None => match read_via_thermal_zones(zones) {
            Some(m) => CpuTemp::Zone(m),
            None => CpuTemp::Absent,
        },
    }
}

/// Load averages, given that `count` of the three were obtained.
pub fn read_load_avg(count: i32, values: [Real; 3]) -> (r: Option<[Real; 3]>)
    ensures
        r == if count == 3 {
            Some(values)
        } else {
            None
        },
{
    if count == 3 {
        Some(values)
    } else {
        None
    }
}

/// Core frequencies that are known: their sum and their number. The mean is
/// the one over the other.
#[derive(Clone, Copy)]
pub struct FreqSum {
    pub sum: u128,
    pub count: usize,
}

/// The sum of the frequencies.
pub open spec fn freq_total(freqs: Seq<u64>) -> nat
    decreases freqs.len(),
{
    if freqs.len() == 0 {
        0
    } else {
        freq_total(freqs.drop_last()) + freqs.last() as nat
    }
}

/// How many of the frequencies are not zero.
pub open spec fn freq_known(freqs: Seq<u64>) -> nat {
    freqs.filter(|f: u64| f > 0).len()
}

/// Adds up the core frequencies that are known; a core without one reads 0.
pub fn sum_frequencies(freqs: &Vec<u64>) -> (r: FreqSum)
    ensures
        r.sum == freq_total(freqs@),
        r.count == freq_known(freqs@),
{
    let ghost known = |f: u64| f > 0;
    let mut sum: u128 = 0;
    let mut count: usize = 0;
    let mut i: usize = 0;
    assert(freqs@.take(0).filter(known).len() == 0) by {
        reveal(Seq::filter);
    }
    while i < freqs.len()
        invariant
            i <= freqs.len(),
            known == (|f: u64| f > 0),
            count <= i,
            sum <= i * u64::MAX,
            sum == freq_total(freqs@.take(i as int)),
            count == freqs@.take(i as int).filter(known).len(),
        decreases freqs.len() - i,
    {
        let f: u64 = freqs[i];
        assert(freqs@.take(i as int + 1).drop_last() =~= freqs@.take(i as int));
        assert(freqs@.take(i as int + 1) =~= freqs@.take(i as int).push(f));
        proof {
            crate::text::lemma_filter_push(freqs@.take(i as int), f, known);
            assert(i * u64::MAX + u64::MAX == (i + 1) * u64::MAX) by (nonlinear_arith);
            assert((i + 1) * u64::MAX <= u128::MAX) by (nonlinear_arith)
                requires
                    i < u64::MAX,
            ;
        }
        if f > 0 {
            sum = sum + f as u128;
            count = count + 1;
        }
        i += 1;
    }
    assert(freqs@.take(freqs.len() as int) =~= freqs@);
    FreqSum { sum, count }
}

/// Describes the processor. Without any core the utilization is zero.
pub fn collect(
    cores_seen: usize,
    usage: Real,
    temp: Real,
    freq: Real,
    cores: u32,
    load: Option<[Real; 3]>,
) -> (r: Cpu)
    ensures
        r == (Cpu {
            usage: if cores_seen == 0 {
                Real::zero()
            } else {
                usage
            },
            temp,
            freq,
            cores,
            load,
        }),
{
    Cpu {
        usage: if cores_seen == 0 {
            Real::from_bits(0)
        } else {
            usage
        },
        temp,
        freq,
        cores,
        load,
    }
}

/// Whether the letters of `word`, which are small ones, stand in `label` from
/// position `at` on, each of them small or capital.
pub open spec fn written_at(label: Seq<char>, word: Seq<char>, at: int) -> bool {
    &&& 0 <= at
    &&& at + word.len() <= label.len()
    &&& forall|k: int|
        0 <= k < word.len() ==> (#[trigger] label[at + k] == word[k] || label[at + k] as int + 32
            == word[k] as int)
}

/// Whether `word` is written anywhere in the label of a sensor, in any case.
pub open spec fn bears(sensor: Sensor, word: Seq<char>) -> bool {
    exists|at: int| #[trigger] written_at(sensor.label@, word, at)
}

/// The words that tell a sensor of the processor, the better ones first.
pub open spec fn processor_word(k: int) -> Seq<char> {
    if k == 0 {
        "package"@
    } else if k == 1 {
        "tctl"@
    } else if k == 2 {
        "tdie"@
    } else {
        "cpu"@
    }
}

proof fn lemma_word_letters(k: int)
    ensures
        forall|i: int|
            0 <= i < processor_word(k).len() ==> 'a' <= #[trigger] processor_word(k)[i] <= 'z',
{
    reveal_strlit("package");
    reveal_strlit("tctl");
    reveal_strlit("tdie");
    reveal_strlit("cpu");
}

/// A label holds a word in small letters after it was made small if and only if
/// the word is written in it, in any case.
pub proof fn law_labels_in_any_case(sensor: Sensor, word: Seq<char>)
    requires
        forall|i: int| 0 <= i < word.len() ==> 'a' <= #[trigger] word[i] <= 'z',
    ensures
        labelled(sensor, word) <==> bears(sensor, word),
{
    let label = sensor.label@;
    let low = small_text(label);
    if labelled(sensor, word) {
        let at = choose|at: int| crate::text::stands_at(low, word, at);
        assert forall|k: int| 0 <= k < word.len() implies (#[trigger] label[at + k] == word[k]
            || label[at + k] as int + 32 == word[k] as int) by {
            assert(low.subrange(at, at + word.len() as int)[k] == word[k]);
            assert(low[at + k] == crate::text::small(label[at + k]));
        }
        assert(written_at(label, word, at));
    }
    if bears(sensor, word) {
        let at = choose|at: int| #[trigger] written_at(label, word, at);
        assert forall|k: int| 0 <= k < word.len() implies #[trigger] low.subrange(
            at,
            at + word.len() as int,
        )[k] == word[k] by {
            assert(label[at + k] == word[k] || label[at + k] as int + 32 == word[k] as int);
            assert(low[at + k] == crate::text::small(label[at + k]));
        }
        assert(low.subrange(at, at + word.len() as int) =~= word);
        assert(crate::text::stands_at(low, word, at));
    }
}

proof fn lemma_first_labelled(sensors: Seq<Sensor>, word: Seq<char>, j: int)
    requires
        0 <= j < sensors.len(),
        sensors[j].temp.finite(),
        labelled(sensors[j], word),
        forall|i: int|
            0 <= i < j ==> !((#[trigger] sensors[i]).temp.finite() && labelled(sensors[i], word)),
    ensures
        first_labelled(sensors, word) == Some(sensors[j].temp),
    decreases j,
{
    if j > 0 {
        assert(!(sensors[0].temp.finite() && labelled(sensors[0], word)));
        assert forall|i: int| 0 <= i < j - 1 implies !((
        #[trigger] sensors.skip(1)[i]).temp.finite() && labelled(sensors.skip(1)[i], word)) by {
            assert(sensors.skip(1)[i] == sensors[i + 1]);
        }
        lemma_first_labelled(sensors.skip(1), word, j - 1);
    }
}

proof fn lemma_none_labelled(sensors: Seq<Sensor>, word: Seq<char>)
    requires
        forall|i: int|
            0 <= i < sensors.len() ==> !((#[trigger] sensors[i]).temp.finite() && labelled(
                sensors[i],
                word,
            )),
    ensures
        first_labelled(sensors, word) is None,
    decreases sensors.len(),
{
    if sensors.len() > 0 {
        assert(!(sensors[0].temp.finite() && labelled(sensors[0], word)));
        assert forall|i: int| 0 <= i < sensors.len() - 1 implies !((
        #[trigger] sensors.skip(1)[i]).temp.finite() && labelled(sensors.skip(1)[i], word)) by {
            assert(sensors.skip(1)[i] == sensors[i + 1]);
        }
        lemma_none_labelled(sensors.skip(1), word);
    }
}

/// Which sensor counts: the first with a finite reading and with the best word
/// that any sensor with a finite reading bears.
pub proof fn law_best_sensor_wins(sensors: Seq<Sensor>, word: int, j: int)
    requires
        0 <= word < 4,
        0 <= j < sensors.len(),
        sensors[j].temp.finite(),
        bears(sensors[j], processor_word(word)),
        forall|i: int|
            0 <= i < j && (#[trigger] sensors[i]).temp.finite() ==> !bears(
                sensors[i],
                processor_word(word),
            ),
        forall|i: int, v: int|
            0 <= i < sensors.len() && 0 <= v < word && (#[trigger] sensors[i]).temp.finite()
                ==> !bears(sensors[i], #[trigger] processor_word(v)),
    ensures
        sensor_choice(sensors) == Some(sensors[j].temp),
{
    assert forall|v: int, i: int| 0 <= v < 4 && 0 <= i < sensors.len() implies (labelled(
        #[trigger] sensors[i],
        #[trigger] processor_word(v),
    ) <==> bears(sensors[i], processor_word(v))) by {
        lemma_word_letters(v);
        law_labels_in_any_case(sensors[i], processor_word(v));
    }
    lemma_first_labelled(sensors, processor_word(word), j);
    assert(processor_word(0) == "package"@ && processor_word(1) == "tctl"@ && processor_word(2)
        == "tdie"@ && processor_word(3) == "cpu"@);
    if word > 0 {
        lemma_none_labelled(sensors, processor_word(0));
    }
    if word > 1 {
        lemma_none_labelled(sensors, processor_word(1));
    }
    if word > 2 {
        lemma_none_labelled(sensors, processor_word(2));
    }
}

/// If some sensor with a finite reading has a label in which, in any case,
/// `package`, `tctl`, `tdie` or `cpu` is written anywhere, the reading is that
/// of a sensor with such a label.
pub proof fn law_processor_sensors_come_first(sensors: Seq<Sensor>, j: int) -> (i: int)
    requires
        0 <= j < sensors.len(),
        sensors[j].temp.finite(),
        bears(sensors[j], "package"@) || bears(sensors[j], "tctl"@) || bears(sensors[j], "tdie"@)
            || bears(sensors[j], "cpu"@),
    ensures
        0 <= i < sensors.len(),
        sensors[i].temp.finite(),
        bears(sensors[i], "package"@) || bears(sensors[i], "tctl"@) || bears(sensors[i], "tdie"@)
            || bears(sensors[i], "cpu"@),
        sensor_choice(sensors) == Some(sensors[i].temp),
{
    lemma_word_letters(0);
    lemma_word_letters(1);
    lemma_word_letters(2);
    lemma_word_letters(3);
    assert(processor_word(0) == "package"@ && processor_word(1) == "tctl"@ && processor_word(2)
        == "tdie"@ && processor_word(3) == "cpu"@);
    if first_labelled(sensors, "package"@) is Some {
        lemma_labelled_source(sensors, "package"@)
    } else if first_labelled(sensors, "tctl"@) is Some {
        lemma_labelled_source(sensors, "tctl"@)
    } else if first_labelled(sensors, "tdie"@) is Some {
        lemma_labelled_source(sensors, "tdie"@)
    } else {
        law_labels_in_any_case(sensors[j], "package"@);
        law_labels_in_any_case(sensors[j], "tctl"@);
        law_labels_in_any_case(sensors[j], "tdie"@);
        law_labels_in_any_case(sensors[j], "cpu"@);
        lemma_some_labelled(sensors, "package"@, j);
        lemma_some_labelled(sensors, "tctl"@, j);
        lemma_some_labelled(sensors, "tdie"@, j);
        lemma_some_labelled(sensors, "cpu"@, j);
        lemma_labelled_source(sensors, "cpu"@)
    }
}

proof fn lemma_some_labelled(sensors: Seq<Sensor>, word: Seq<char>, j: int)
    requires
        0 <= j < sensors.len(),
        sensors[j].temp.finite(),
    ensures
        labelled(sensors[j], word) ==> first_labelled(sensors, word) is Some,
    decreases sensors.len(),
{
    if j > 0 {
        assert(sensors.skip(1)[j - 1] == sensors[j]);
        lemma_some_labelled(sensors.skip(1), word, j - 1);
    }
}

proof fn lemma_labelled_source(sensors: Seq<Sensor>, word: Seq<char>) -> (i: int)
    requires
        first_labelled(sensors, word) is Some,
        forall|i: int| 0 <= i < word.len() ==> 'a' <= #[trigger] word[i] <= 'z',
    ensures
        0 <= i < sensors.len(),
        sensors[i].temp.finite(),
        bears(sensors[i], word),
        first_labelled(sensors, word) == Some(sensors[i].temp),
    decreases sensors.len(),
{
    law_labels_in_any_case(sensors[0], word);
    if sensors[0].temp.finite() && labelled(sensors[0], word) {
        0
    } else {
        let i = lemma_labelled_source(sensors.skip(1), word);
        i + 1
    }
}

/// Without a sensor of the processor the first one with a finite reading
/// counts; without a finite reading there is none.
pub proof fn law_any_sensor_else(sensors: Seq<Sensor>, j: int)
    requires
        0 <= j <= sensors.len(),
        forall|i: int| 0 <= i < j ==> !(#[trigger] sensors[i]).temp.finite(),
        j < sensors.len() ==> sensors[j].temp.finite(),
        forall|i: int, v: int|
            0 <= i < sensors.len() && 0 <= v < 4 && (#[trigger] sensors[i]).temp.finite()
                ==> !bears(sensors[i], #[trigger] processor_word(v)),
    ensures
        j < sensors.len() ==> sensor_choice(sensors) == Some(sensors[j].temp),
        j == sensors.len() ==> sensor_choice(sensors) is None,
{
    assert forall|v: int, i: int| 0 <= v < 4 && 0 <= i < sensors.len() implies (labelled(
        #[trigger] sensors[i],
        #[trigger] processor_word(v),
    ) <==> bears(sensors[i], processor_word(v))) by {
        lemma_word_letters(v);
        law_labels_in_any_case(sensors[i], processor_word(v));
    }
    assert(processor_word(0) == "package"@ && processor_word(1) == "tctl"@ && processor_word(2)
        == "tdie"@ && processor_word(3) == "cpu"@);
    lemma_none_labelled(sensors, processor_word(0));
    lemma_none_labelled(sensors, processor_word(1));
    lemma_none_labelled(sensors, processor_word(2));
    lemma_none_labelled(sensors, processor_word(3));
    lemma_first_finite(sensors, j);
}

proof fn lemma_first_finite(sensors: Seq<Sensor>, j: int)
    requires
        0 <= j <= sensors.len(),
        forall|i: int| 0 <= i < j ==> !(#[trigger] sensors[i]).temp.finite(),
        j < sensors.len() ==> sensors[j].temp.finite(),
    ensures
        j < sensors.len() ==> first_finite(sensors) == Some(sensors[j].temp),
        j == sensors.len() ==> first_finite(sensors) is None,
    decreases j,
{
    if j > 0 {
        assert(!sensors[0].temp.finite());
        assert forall|i: int| 0 <= i < j - 1 implies !(
        #[trigger] sensors.skip(1)[i]).temp.finite() by {
            assert(sensors.skip(1)[i] == sensors[i + 1]);
        }
        lemma_first_finite(sensors.skip(1), j - 1);
    }
}

/// A thermal zone counts if its name begins with `thermal_zone` and its kind is
/// one of those of processors; it then gives the number that its file holds.
pub proof fn law_processor_zones(z: Zone)
    ensures
        zone_reading(z) is Some ==> "thermal_zone"@.is_prefix_of(z.name@) && z.kind is Some
            && z.temp is Some,
        z.kind is Some && z.temp is Some && "thermal_zone"@.is_prefix_of(z.name@) ==> {
            let kind = strip_both(z.kind->0@, Class::Space);
            let known = kind == "x86_pkg_temp"@ || kind == "cpu-thermal"@ || kind
                == "cpu_thermal"@ || kind == "soc_thermal"@;
            &&& known ==> zone_reading(z) == i64_written(strip_both(z.temp->0@, Class::Space))
            &&& !known ==> zone_reading(z) is None
        },
{
}

/// The first zone that gives a reading counts.
pub proof fn law_first_zone_wins(zones: Seq<Zone>, j: int)
    requires
        0 <= j <= zones.len(),
        forall|i: int| 0 <= i < j ==> zone_reading(#[trigger] zones[i]) is None,
        j < zones.len() ==> zone_reading(zones[j]) is Some,
    ensures
        j < zones.len() ==> zone_choice(zones) == zone_reading(zones[j]),
        j == zones.len() ==> zone_choice(zones) is None,
    decreases j,
{
    if j > 0 {
        assert(zone_reading(zones[0]) is None);
        assert forall|i: int| 0 <= i < j - 1 implies zone_reading(
            #[trigger] zones.skip(1)[i],
        ) is None by {
            assert(zones.skip(1)[i] == zones[i + 1]);
        }
        law_first_zone_wins(zones.skip(1), j - 1);
    }
}

/// A further core adds its frequency, and counts where that is not zero.
pub proof fn law_a_core_adds_its_frequency(freqs: Seq<u64>, f: u64)
    ensures
        freq_total(freqs.push(f)) == freq_total(freqs) + f,
        freq_known(freqs.push(f)) == freq_known(freqs) + (if f == 0 {
            0int
        } else {
            1
        }),
        freq_total(Seq::empty()) == 0,
        freq_known(Seq::empty()) == 0,
{
    assert(freqs.push(f).drop_last() =~= freqs);
    crate::text::lemma_filter_push(freqs, f, |f: u64| f > 0);
    reveal(Seq::filter);
}

} // verus!
