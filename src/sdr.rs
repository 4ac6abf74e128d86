use vstd::prelude::*;
use vstd::string::StrSliceExecFns;
use crate::device::{DeviceRange, is_nearest_ratio, range_contains, top_of, in_item, RangeItem};

verus! {

/// Why a setting request was refused.
#[derive(Clone, Copy, Debug, PartialEq, Eq, Structural)]
pub enum SdrError {
    FreqNotInRange,
}

/// What a device supports: frequencies and sample rates in Hz, gains in
/// thousandths of a dB.
#[derive(Debug)]
pub struct SdrLimits {
    pub freq_range: DeviceRange,
    pub gain_range: DeviceRange,
    pub sample_rate_range: DeviceRange,
}

impl SdrLimits {
    pub open spec fn wf(&self) -> bool {
        &&& self.freq_range.wf()
        &&& self.gain_range.wf()
        &&& self.sample_rate_range.wf()
    }
}

/// Thousandths of the gain a request of `permille` asks for, out of the
/// maximum `max`: `permille * max`, with requests above 1000 taken as 1000.
pub open spec fn gain_share(permille: nat, max: int) -> int {
    (if permille > 1000 {
        1000
    } else {
        permille
    }) * max
}

/// Gain to hand the device for a request of `permille` thousandths of its
/// largest gain: the supported value nearest to `permille / 1000` of the
/// maximum, the smaller one on a tie.
pub fn gain_for(limits: &SdrLimits, permille: u32) -> (r: i64)
    requires
        limits.wf(),
    ensures
        is_nearest_ratio(
            limits.gain_range.items(),
            gain_share(permille as nat, top_of(limits.gain_range.items())),
            1000,
            r as int,
        ),
{
    let max = limits.gain_range.max_value();
    let p: u32 = if permille > 1000 {
        1000
    } else {
        permille
    };
    proof {
        lemma_top_nonneg(limits.gain_range.items());
        assert(0 <= (p as int) * (max as int) <= 1000 * (i64::MAX as int)) by (nonlinear_arith)
            requires
                0 <= max <= i64::MAX,
                p <= 1000,
        ;
    }
    limits.gain_range.closest_ratio((p as i128) * (max as i128), 1000)
}

proof fn lemma_top_nonneg(items: Seq<RangeItem>)
    ensures
        top_of(items) >= 0,
        top_of(items) <= i64::MAX,
    decreases items.len(),
{
    if items.len() > 0 {
        lemma_top_nonneg(items.drop_last());
    }
}

/// Accepts a frequency the device supports; refuses any other with
/// `FreqNotInRange`.
pub fn check_freq(limits: &SdrLimits, hz: u64) -> (r: Result<(), SdrError>)
    requires
        limits.wf(),
    ensures
        r is Ok <==> range_contains(limits.freq_range.items(), hz as int),
        r is Err ==> r == Err::<(), SdrError>(SdrError::FreqNotInRange),
{
    if hz > i64::MAX as u64 {
        proof {
            let items = limits.freq_range.items();
            assert forall|i: int| 0 <= i < items.len() implies !#[trigger] in_item(
                items[i],
                hz as int,
            ) by {
                match items[i] {
                    RangeItem::Interval(_, b) => assert(b <= i64::MAX),
                    RangeItem::Value(x) => assert(x <= i64::MAX),
                    RangeItem::Step(_, b, _) => assert(b <= i64::MAX),
                }
            }
        }
        return Err(SdrError::FreqNotInRange);
    }
    if limits.freq_range.contains(hz as i64) {
        Ok(())
    } else {
        Err(SdrError::FreqNotInRange)
    }
}

/// Unit a frequency is entered in.
#[derive(Clone, Copy, Debug, PartialEq, Eq, Structural)]
pub enum FreqUnits {
    Hz,
    KHz,
    MHz,
    GHz,
}

impl FreqUnits {
    pub const ALL: [FreqUnits; 4] = [FreqUnits::Hz, FreqUnits::KHz, FreqUnits::MHz, FreqUnits::GHz];

    /// Hz in one of this unit.
    pub fn multiplier(&self) -> (r: u64)
        ensures
            r == match *self {
                FreqUnits::Hz => 1u64,
                FreqUnits::KHz => 1_000u64,
                FreqUnits::MHz => 1_000_000u64,
                FreqUnits::GHz => 1_000_000_000u64,
            },
    {
        match self {
            FreqUnits::Hz => 1,
            FreqUnits::KHz => 1_000,
            FreqUnits::MHz => 1_000_000,
            FreqUnits::GHz => 1_000_000_000,
        }
    }

    pub fn label(&self) -> (r: &'static str)
        ensures
            r@ == match *self {
                FreqUnits::Hz => "Hz"@,
                FreqUnits::KHz => "KHz"@,
                FreqUnits::MHz => "MHz"@,
                FreqUnits::GHz => "GHz"@,
            },
    {
        match self {
            FreqUnits::Hz => "Hz",
            FreqUnits::KHz => "KHz",
            FreqUnits::MHz => "MHz",
            FreqUnits::GHz => "GHz",
        }
    }
}

pub open spec fn is_digit(c: char) -> bool {
    '0' <= c && c <= '9'
}

pub open spec fn digit_of(c: char) -> nat {
    (c as u32 - '0' as u32) as nat
}

pub open spec fn all_digits(s: Seq<char>) -> bool {
    forall|i: int| 0 <= i < s.len() ==> is_digit(#[trigger] s[i])
}

/// Value of a string of decimal digits.
pub open spec fn digits_value(s: Seq<char>) -> nat
    decreases s.len(),
{
    if s.len() == 0 {
        0
    } else {
        digits_value(s.drop_last()) * 10 + digit_of(s.last())
    }
}

pub open spec fn pow10(k: nat) -> nat
    decreases k,
{
    if k == 0 {
        1
    } else {
        10 * pow10((k - 1) as nat)
    }
}

/// The first `k` digits of `f`, filled up with zeros.
pub open spec fn pad_digits(f: Seq<char>, k: nat) -> Seq<char> {
    Seq::new(k, |j: int| if j < f.len() { f[j] } else { '0' })
}

/// Number of decimal places in one unit: 10 to this power Hz.
pub open spec fn unit_places(u: FreqUnits) -> nat {
    match u {
        FreqUnits::Hz => 0,
        FreqUnits::KHz => 3,
        FreqUnits::MHz => 6,
        FreqUnits::GHz => 9,
    }
}

/// `t` is a decimal number whose point, if any, is at `p`: digits before
/// it, digits after it, and at least one digit in all.
pub open spec fn split_ok(t: Seq<char>, p: int) -> bool {
    &&& 0 <= p <= t.len()
    &&& all_digits(t.take(p))
    &&& p == t.len() || (t[p] == '.' && all_digits(t.skip(p + 1)))
    &&& p > 0 || t.len() > 1
}

/// Hz that `t`, split at `p`, stands for in unit `u`, truncated to whole Hz.
pub open spec fn text_hz(t: Seq<char>, p: int, u: FreqUnits) -> nat {
    let frac = if p < t.len() {
        t.skip(p + 1)
    } else {
        Seq::empty()
    };
    digits_value(t.take(p)) * pow10(unit_places(u)) + digits_value(
        pad_digits(frac, unit_places(u)),
    )
}

proof fn lemma_digits_value_grows(s: Seq<char>, a: int, b: int)
    requires
        0 <= a <= b <= s.len(),
        all_digits(s.take(b)),
    ensures
        digits_value(s.take(a)) <= digits_value(s.take(b)),
    decreases b - a,
{
    if a < b {
        lemma_digits_value_grows(s, a, b - 1);
        assert(s.take(b).drop_last() =~= s.take(b - 1));
        assert(all_digits(s.take(b - 1))) by {
            assert forall|i: int| 0 <= i < s.take(b - 1).len() implies is_digit(
                #[trigger] s.take(b - 1)[i],
            ) by {
                assert(s.take(b - 1)[i] == s.take(b)[i]);
            }
        }
    }
}

proof fn lemma_pow10_bound(k: nat)
    requires
        k <= 9,
    ensures
        1 <= pow10(k) <= 1_000_000_000,
{
    reveal_with_fuel(pow10, 10);
    if k == 0 {
    } else if k == 1 {
    } else if k == 2 {
    } else if k == 3 {
    } else if k == 4 {
    } else if k == 5 {
    } else if k == 6 {
    } else if k == 7 {
    } else if k == 8 {
    } else {
        assert(k == 9);
    }
}

/// Reads a frequency typed as a decimal number of `unit` (`"100"`,
/// `"433.92"`, `".5"`) and gives it in whole Hz, dropping any part below
/// 1 Hz. `None` when the text is not such a number or the value does not fit
/// in a `u64`.
pub fn parse_freq(text: &str, unit: FreqUnits) -> (r: Option<u64>)
    ensures
        forall|p: int|
            split_ok(text@, p) ==> r == if text_hz(text@, p, unit) <= u64::MAX {
                Some(text_hz(text@, p, unit) as u64)
            } else {
                None::<u64>
            },
        (forall|p: int| !split_ok(text@, p)) ==> r is None,
{
    let n = text.unicode_len();
    let ghost t = text@;
    let mut acc: u64 = 0;
    let mut i: usize = 0;
    while i < n
        invariant
            n == t.len(),
            t == text@,
            i <= n,
            all_digits(t.take(i as int)),
            acc == digits_value(t.take(i as int)),
        ensures
            i < n ==> !is_digit(t[i as int]),
        decreases n - i,
    {
        let c = text.get_char(i);
        if !('0' <= c && c <= '9') {
            break;
        }
        assert(t.take(i + 1).drop_last() =~= t.take(i as int));
        assert(all_digits(t.take(i + 1))) by {
            assert forall|j: int| 0 <= j < i + 1 implies is_digit(#[trigger] t.take(i + 1)[j]) by {
                if j < i {
                    assert(t.take(i + 1)[j] == t.take(i as int)[j]);
                }
            }
        }
        let d = (c as u32 - '0' as u32) as u64;
        if acc > (u64::MAX - d) / 10 {
            proof {
                assert(acc * 10 + d > u64::MAX) by (nonlinear_arith)
                    requires
                        acc > (u64::MAX - d) / 10,
                        d <= 9,
                ;
                assert forall|p: int| split_ok(t, p) implies text_hz(t, p, unit) > u64::MAX by {
                    if p <= i {
                        if p < t.len() {
                            assert(t.take(i + 1)[p] == t[p]);
                        }
                    }
                    assert(p > i);
                    lemma_digits_value_grows(t, i + 1, p);
                    lemma_pow10_bound(unit_places(unit));
                    assert(digits_value(t.take(p)) * pow10(unit_places(unit)) >= digits_value(
                        t.take(p),
                    )) by (nonlinear_arith)
                        requires
                            pow10(unit_places(unit)) >= 1,
                    ;
                }
            }
            return None;
        }
        acc = acc * 10 + d;
        i = i + 1;
    }
    let p = i;
    let has_point = p < n;
    if has_point && text.get_char(p) != '.' {
        proof {
            assert forall|q: int| !split_ok(t, q) by {
                if split_ok(t, q) {
                    if q < p {
                        assert(t.take(p as int)[q] == t[q]);
                    } else if q > p {
                        assert(t.take(q)[p as int] == t[p as int]);
                    }
                }
            }
        }
        return None;
    }
    let ghost frac: Seq<char> = if has_point {
        t.skip(p + 1)
    } else {
        Seq::empty()
    };
    // Every character after the point must be a digit.
    let mut j: usize = if has_point {
        p + 1
    } else {
        n
    };
    while j < n
        invariant
            t == text@,
            n == t.len(),
            has_point ==> p + 1 <= j <= n,
            !has_point ==> j == n,
            has_point == (p < n),
            p <= n,
            all_digits(t.take(p as int)),
            has_point ==> t[p as int] == '.',
            has_point ==> forall|m: int| p + 1 <= m < j ==> is_digit(#[trigger] t[m]),
        decreases n - j,
    {
        let c = text.get_char(j);
        if !('0' <= c && c <= '9') {
            proof {
                assert forall|q: int| !split_ok(t, q) by {
                    if split_ok(t, q) {
                        if q < p {
                            assert(t.take(p as int)[q] == t[q]);
                        } else if q > p {
                            assert(t.take(q)[p as int] == t[p as int]);
                        } else {
                            assert(t.skip(q + 1)[j - q - 1] == t[j as int]);
                        }
                    }
                }
            }
            return None;
        }
        j = j + 1;
    }
    if p == 0 && n <= 1 {
        proof {
            assert forall|q: int| !split_ok(t, q) by {
                if split_ok(t, q) && q > 0 {
                    assert(t.take(q)[0] == t[0]);
                }
            }
        }
        return None;
    }
    proof {
        if has_point {
            assert(all_digits(frac)) by {
                assert forall|m: int| 0 <= m < frac.len() implies is_digit(#[trigger] frac[m]) by {
                    assert(frac[m] == t[p + 1 + m]);
                }
            }
        }
        assert(split_ok(t, p as int));
        assert forall|q: int| split_ok(t, q) implies q == p by {
            if q < p {
                assert(t.take(p as int)[q] == t[q]);
            } else if q > p {
                assert(t.take(q)[p as int] == t[p as int]);
            }
        }
    }
    // Scale the whole part and add the first decimal places.
    let places: usize = match unit {
        FreqUnits::Hz => 0,
        FreqUnits::KHz => 3,
        FreqUnits::MHz => 6,
        FreqUnits::GHz => 9,
    };
    let ghost padded = pad_digits(frac, places as nat);
    let mut scale: u64 = 1;
    let mut fr: u64 = 0;
    let mut k: usize = 0;
    while k < places
        invariant
            t == text@,
            n == t.len(),
            places <= 9,
            places == unit_places(unit),
            padded == pad_digits(frac, places as nat),
            frac == (if has_point { t.skip(p + 1) } else { Seq::<char>::empty() }),
            has_point ==> p + 1 <= n,
            has_point == (p < n),
            has_point ==> all_digits(frac),
            k <= places,
            scale == pow10(k as nat),
            fr == digits_value(padded.take(k as int)),
            fr < scale,
            scale <= 1_000_000_000,
        decreases places - k,
    {
        let c = if has_point && k < n - (p + 1) {
            text.get_char(p + 1 + k)
        } else {
            '0'
        };
        proof {
            assert(padded[k as int] == c);
            assert(padded.take(k + 1).drop_last() =~= padded.take(k as int));
            if has_point && k < n - (p + 1) {
                assert(frac[k as int] == t[p + 1 + k]);
                assert(is_digit(frac[k as int]));
            }
            lemma_pow10_bound(k as nat);
        }
        let d = (c as u32 - '0' as u32) as u64;
        proof {
            assert(fr * 10 + d < scale * 10) by (nonlinear_arith)
                requires
                    fr < scale,
                    d <= 9,
            ;
            assert(pow10((k + 1) as nat) == 10 * pow10(k as nat));
            lemma_pow10_bound((k + 1) as nat);
        }
        fr = fr * 10 + d;
        scale = scale * 10;
        k = k + 1;
    }
    assert(padded.take(places as int) =~= padded);
    proof {
        lemma_pow10_bound(places as nat);
    }
    if acc > (u64::MAX - fr) / scale {
        proof {
            assert(acc * scale + fr > u64::MAX) by (nonlinear_arith)
                requires
                    acc as int > (u64::MAX as int - fr as int) / (scale as int),
                    scale >= 1,
                    fr <= u64::MAX,
            ;
        }
        return None;
    }
    proof {
        assert(acc * scale + fr <= u64::MAX) by (nonlinear_arith)
            requires
                acc as int <= (u64::MAX as int - fr as int) / (scale as int),
                scale >= 1,
                fr <= u64::MAX,
        ;
    }
    Some(acc * scale + fr)
}

/// Sample rates the receiver offers.
#[derive(Clone, Copy, Debug, PartialEq, Eq, Structural)]
pub enum SampleRates {
    S250k,
    S1024m,
    S1536m,
    S1792m,
    S192m,
    S2048m,
    S216m,
    S24m,
    S256m,
    S288m,
    S32m,
}

impl SampleRates {
    pub const ALL: [SampleRates; 11] = [
        SampleRates::S250k,
        SampleRates::S1024m,
        SampleRates::S1536m,
        SampleRates::S1792m,
        SampleRates::S192m,
        SampleRates::S2048m,
        SampleRates::S216m,
        SampleRates::S24m,
        SampleRates::S256m,
        SampleRates::S288m,
        SampleRates::S32m,
    ];

    pub open spec fn spec_hz(&self) -> u32 {
        match *self {
            SampleRates::S250k => 250_000,
            SampleRates::S1024m => 1_024_000,
            SampleRates::S1536m => 1_536_000,
            SampleRates::S1792m => 1_792_000,
            SampleRates::S192m => 1_920_000,
            SampleRates::S2048m => 2_048_000,
            SampleRates::S216m => 2_160_000,
            SampleRates::S24m => 2_400_000,
            SampleRates::S256m => 2_560_000,
            SampleRates::S288m => 2_880_000,
            SampleRates::S32m => 3_200_000,
        }
    }

    /// The rate in samples per second.
    pub fn hz(&self) -> (r: u32)
        ensures
            r == self.spec_hz(),
    {
        match self {
            SampleRates::S250k => 250_000,
            SampleRates::S1024m => 1_024_000,
            SampleRates::S1536m => 1_536_000,
            SampleRates::S1792m => 1_792_000,
            SampleRates::S192m => 1_920_000,
            SampleRates::S2048m => 2_048_000,
            SampleRates::S216m => 2_160_000,
            SampleRates::S24m => 2_400_000,
            SampleRates::S256m => 2_560_000,
            SampleRates::S288m => 2_880_000,
            SampleRates::S32m => 3_200_000,
        }
    }

    pub fn label(&self) -> (r: &'static str)
        ensures
            r@ == match *self {
                SampleRates::S250k => "250 ksps"@,
                SampleRates::S1024m => "1.024 msps"@,
                SampleRates::S1536m => "1.536 msps"@,
                SampleRates::S1792m => "1.792 msps"@,
                SampleRates::S192m => "1.92 msps"@,
                SampleRates::S2048m => "2.048 msps"@,
                SampleRates::S216m => "2.16 mmsps"@,
                SampleRates::S24m => "2.4 msps"@,
                SampleRates::S256m => "2.56 msps"@,
                SampleRates::S288m => "2.88 msps"@,
                SampleRates::S32m => "3.2 msps"@,
            },
    {
        match self {
            SampleRates::S250k => "250 ksps",
            SampleRates::S1024m => "1.024 msps",
            SampleRates::S1536m => "1.536 msps",
            SampleRates::S1792m => "1.792 msps",
            SampleRates::S192m => "1.92 msps",
            SampleRates::S2048m => "2.048 msps",
            SampleRates::S216m => "2.16 mmsps",
            SampleRates::S24m => "2.4 msps",
            SampleRates::S256m => "2.56 msps",
            SampleRates::S288m => "2.88 msps",
            SampleRates::S32m => "3.2 msps",
        }
    }
}

/// Colour palettes of the waterfall display.
#[derive(Clone, Copy, Debug, PartialEq, Eq, Structural)]
pub enum Pallet {
    Turbo,
    Magma,
    Plasma,
    Spectral,
    Rainbow,
}

impl Pallet {
    pub fn label(&self) -> (r: &'static str)
        ensures
            r@ == match *self {
                Pallet::Turbo => "Turbo"@,
                Pallet::Magma => "Magma"@,
                Pallet::Plasma => "Plasma"@,
                Pallet::Spectral => "Spectral"@,
                Pallet::Rainbow => "Rainbow"@,
            },
    {
        match self {
            Pallet::Turbo => "Turbo",
            Pallet::Magma => "Magma",
            Pallet::Plasma => "Plasma",
            Pallet::Spectral => "Spectral",
            Pallet::Rainbow => "Rainbow",
        }
    }
}

} // verus!
