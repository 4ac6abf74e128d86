use vstd::prelude::*;
use chrono::{Datelike, Timelike};
use vstd::string::StringExecFns;

verus! {

/// Sample encoding of a recording: signed 16-bit or 8-bit integers, or
/// 32-bit floats passed through as they are.
#[derive(Clone, Copy, Debug, PartialEq, Eq, Structural)]
pub enum BaseBandFormat {
    Int16,
    Float32,
    Int8,
}

impl Default for BaseBandFormat {
    fn default() -> (r: Self)
        ensures
            r == BaseBandFormat::Int16,
    {
        BaseBandFormat::Int16
    }
}

impl BaseBandFormat {
    /// Bits each sample takes in the file.
    pub fn bits_per_sample(&self) -> (r: u16)
        ensures
            r == match *self {
                BaseBandFormat::Int16 => 16u16,
                BaseBandFormat::Float32 => 32u16,
                BaseBandFormat::Int8 => 8u16,
            },
    {
        match self {
            BaseBandFormat::Int16 => 16,
            BaseBandFormat::Float32 => 32,
            BaseBandFormat::Int8 => 8,
        }
    }

    /// Whether samples are stored as floats rather than integers.
    pub fn is_float(&self) -> (r: bool)
        ensures
            r == (*self == BaseBandFormat::Float32),
    {
        match self {
            BaseBandFormat::Float32 => true,
            _ => false,
        }
    }

    /// Factor a unit-range sample is scaled by before it is truncated to an
    /// integer: the largest value of the signed integer type. Float samples
    /// are not scaled.
    pub fn full_scale(&self) -> (r: Option<i32>)
        ensures
            r == match *self {
                BaseBandFormat::Int16 => Some(0x7fffi32),
                BaseBandFormat::Float32 => None::<i32>,
                BaseBandFormat::Int8 => Some(0x7fi32),
            },
    {
        match self {
            BaseBandFormat::Int16 => Some(i16::MAX as i32),
            BaseBandFormat::Float32 => None,
            BaseBandFormat::Int8 => Some(i8::MAX as i32),
        }
    }
}

/// What a recording is bound to when it starts: the sample encoding and the
/// sample rate in Hz.
#[derive(Clone, Copy, Debug, PartialEq, Eq, Structural)]
pub struct BaseBandSpec {
    pub format: BaseBandFormat,
    pub sample_rate: u32,
}

impl Default for BaseBandSpec {
    fn default() -> (r: Self)
        ensures
            r.format == BaseBandFormat::Int16,
            r.sample_rate == 0,
    {
        BaseBandSpec { format: BaseBandFormat::Int16, sample_rate: 0 }
    }
}

/// Layout of the recorded file: two channels (I and Q) at the spec's rate.
#[derive(Clone, Copy, Debug, PartialEq, Eq, Structural)]
pub struct ContainerFormat {
    pub channels: u16,
    pub sample_rate: u32,
    pub bits_per_sample: u16,
    pub is_float: bool,
}

impl BaseBandSpec {
    pub fn container(&self) -> (r: ContainerFormat)
        ensures
            r.channels == 2,
            r.sample_rate == self.sample_rate,
            r.bits_per_sample == match self.format {
                BaseBandFormat::Int16 => 16u16,
                BaseBandFormat::Float32 => 32u16,
                BaseBandFormat::Int8 => 8u16,
            },
            r.is_float == (self.format == BaseBandFormat::Float32),
    {
        ContainerFormat {
            channels: 2,
            sample_rate: self.sample_rate,
            bits_per_sample: self.format.bits_per_sample(),
            is_float: self.format.is_float(),
        }
    }
}

/// How long a recording has run, exactly: `samples / sample_rate` seconds.
#[derive(Clone, Copy, Debug, PartialEq, Eq, Structural)]
pub struct RecordDuration {
    pub samples: u64,
    pub sample_rate: u32,
}

impl RecordDuration {
    /// Whole seconds, rounded down; 0 at a rate of 0.
    pub fn whole_seconds(&self) -> (r: u64)
        ensures
            r == if self.sample_rate > 0 {
                (self.samples as nat) / (self.sample_rate as nat)
            } else {
                0
            },
    {
        if self.sample_rate > 0 {
            self.samples / (self.sample_rate as u64)
        } else {
            0
        }
    }
}

/// What a session reports as its duration: the samples written while
/// recording (none while idle) over the bound sample rate.
pub open spec fn recorded(recording: bool, elapsed: nat, rate: nat) -> (nat, nat) {
    (if recording {
        elapsed
    } else {
        0
    }, rate)
}

/// The recording session: idle, or recording with the spec it was started
/// with and the number of I/Q samples written since.
pub struct BaseBandSink {
    spec: BaseBandSpec,
    recording: bool,
    elapsed: u64,
}

impl BaseBandSink {
    pub closed spec fn is_recording_spec(&self) -> bool {
        self.recording
    }

    pub closed spec fn elapsed(&self) -> nat {
        self.elapsed as nat
    }

    pub closed spec fn bound_spec(&self) -> BaseBandSpec {
        self.spec
    }

    pub closed spec fn wf(&self) -> bool {
        !self.recording ==> self.elapsed == 0
    }

    /// An idle session has counted nothing.
    pub proof fn lemma_idle_elapsed(&self)
        requires
            self.wf(),
            !self.is_recording_spec(),
        ensures
            self.elapsed() == 0,
    {
    }

    /// An idle session, holding the default spec.
    pub fn new() -> (r: Self)
        ensures
            r.wf(),
            !r.is_recording_spec(),
            r.elapsed() == 0,
            r.bound_spec() == (BaseBandSpec { format: BaseBandFormat::Int16, sample_rate: 0 }),
    {
        BaseBandSink { spec: BaseBandSpec::default(), recording: false, elapsed: 0 }
    }

    pub fn is_recording(&self) -> (r: bool)
        ensures
            r == self.is_recording_spec(),
    {
        self.recording
    }

    /// The spec the running recording was started with.
    pub fn spec(&self) -> (r: BaseBandSpec)
        ensures
            r == self.bound_spec(),
    {
        self.spec
    }

    /// Idle to recording: binds `spec` and resets the elapsed count.
    pub fn start(&mut self, spec: BaseBandSpec)
        requires
            old(self).wf(),
            !old(self).is_recording_spec(),
        ensures
            final(self).wf(),
            final(self).is_recording_spec(),
            final(self).bound_spec() == spec,
            final(self).elapsed() == 0,
    {
        self.spec = spec;
        self.recording = true;
        self.elapsed = 0;
    }

    /// Recording to idle.
    pub fn stop(&mut self)
        requires
            old(self).wf(),
        ensures
            final(self).wf(),
            !final(self).is_recording_spec(),
            final(self).elapsed() == 0,
            final(self).bound_spec() == old(self).bound_spec(),
    {
        self.recording = false;
        self.elapsed = 0;
    }

    /// Counts `n` I/Q samples written while recording; idle, nothing changes.
    /// The count stops at `u64::MAX`.
    pub fn record(&mut self, n: u64)
        requires
            old(self).wf(),
        ensures
            final(self).wf(),
            final(self).is_recording_spec() == old(self).is_recording_spec(),
            final(self).bound_spec() == old(self).bound_spec(),
            final(self).elapsed() == if !old(self).is_recording_spec() {
                0int
            } else if old(self).elapsed() + n <= u64::MAX {
                old(self).elapsed() + n
            } else {
                u64::MAX as int
            },
    {
        if self.recording {
            self.elapsed = self.elapsed.saturating_add(n);
        }
    }

    /// Samples written since the recording started; 0 while idle.
    pub fn elapsed_samples(&self) -> (r: u64)
        ensures
            r == self.elapsed(),
    {
        self.elapsed
    }

    /// Time recorded so far, exactly: the samples written over the bound
    /// sample rate; no samples while idle.
    pub fn query_duration(&self) -> (r: RecordDuration)
        ensures
            (r.samples as nat, r.sample_rate as nat) == recorded(
                self.is_recording_spec(),
                self.elapsed(),
                self.bound_spec().sample_rate as nat,
            ),
    {
        RecordDuration {
            samples: if self.recording {
                self.elapsed
            } else {
                0
            },
            sample_rate: self.spec.sample_rate,
        }
    }
}

/// Stopping and starting afresh reads a duration of 0, and so does an idle
/// session whatever it recorded before.
pub proof fn lemma_fresh_start_duration(elapsed: nat, rate: nat)
    ensures
        recorded(true, 0, rate).0 == 0,
        recorded(false, elapsed, rate).0 == 0,
{
}

/// While recording at a positive rate, `n > 0` more samples make the duration
/// exactly `n / rate` seconds longer, so it grows strictly with every sample:
/// compared as fractions, the new duration is larger than the old.
pub proof fn lemma_duration_grows(elapsed: nat, n: nat, rate: nat)
    requires
        rate > 0,
        n > 0,
    ensures
        recorded(true, elapsed + n, rate).1 == recorded(true, elapsed, rate).1,
        recorded(true, elapsed + n, rate).0 == recorded(true, elapsed, rate).0 + n,
        recorded(true, elapsed, rate).0 * recorded(true, elapsed + n, rate).1 < recorded(
            true,
            elapsed + n,
            rate,
        ).0 * recorded(true, elapsed, rate).1,
{
    assert(elapsed * rate < (elapsed + n) * rate) by (nonlinear_arith)
        requires
            n > 0,
            rate > 0,
    ;
}

/// A UTC date and time of day, split into calendar fields.
#[derive(Clone, Copy, Debug, PartialEq, Eq, Structural)]
pub struct UtcTime {
    pub year: i32,
    pub month: u32,
    pub day: u32,
    pub hour: u32,
    pub minute: u32,
    pub second: u32,
}

impl UtcTime {
    pub open spec fn wf(&self) -> bool {
        &&& 1 <= self.month <= 12
        &&& 1 <= self.day <= 31
        &&& self.hour <= 23
        &&& self.minute <= 59
        &&& self.second <= 59
    }
}

#[verifier::external_type_specification]
#[verifier::external_body]
pub struct ExSystemTime(std::time::SystemTime);

/// Relies on std's SystemTime::now: the system clock's current reading.
#[verifier::external_body]
fn system_now() -> (r: std::time::SystemTime) {
    std::time::SystemTime::now()
}

/// Relies on std's SystemTime::duration_since(UNIX_EPOCH), which is an error
/// when `t` is earlier: the whole seconds since 1970-01-01 00:00 UTC.
#[verifier::external_body]
fn unix_seconds(t: &std::time::SystemTime) -> (r: Option<u64>) {
    match t.duration_since(std::time::UNIX_EPOCH) {
        Ok(d) => Some(d.as_secs()),
        Err(_) => None,
    }
}

/// Relies on chrono::DateTime::from_timestamp, which returns `None` for
/// seconds out of its range, and on the `Datelike` / `Timelike` getters of
/// its result, each in the range they document.
#[verifier::external_body]
fn utc_from_timestamp(secs: i64) -> (r: Option<UtcTime>)
    ensures
        r is Some ==> r->0.wf(),
{
    match chrono::DateTime::from_timestamp(secs, 0) {
        Some(t) => Some(UtcTime {
            year: t.year(),
            month: t.month(),
            day: t.day(),
            hour: t.hour(),
            minute: t.minute(),
            second: t.second(),
        }),
        None => None,
    }
}

/// The current UTC time; `None` when the clock reads before 1970 or beyond
/// the calendar's range.
pub fn utc_now() -> (r: Option<UtcTime>)
    ensures
        r is Some ==> r->0.wf(),
{
    let t = system_now();
    match unix_seconds(&t) {
        Some(secs) => if secs <= i64::MAX as u64 {
            utc_from_timestamp(secs as i64)
        } else {
            None
        },
        None => None,
    }
}

/// Decimal digit `d` (below 10) as a character.
pub open spec fn digit_char(d: nat) -> char {
    seq!['0', '1', '2', '3', '4', '5', '6', '7', '8', '9'][d as int]
}

/// Decimal digits of `n`, most significant first.
pub open spec fn decimal(n: nat) -> Seq<char>
    decreases n,
{
    if n < 10 {
        seq![digit_char(n)]
    } else {
        decimal(n / 10).push(digit_char(n % 10))
    }
}

/// Decimal text of `n`, with a leading '-' when negative.
pub open spec fn signed_decimal(n: int) -> Seq<char> {
    if n < 0 {
        seq!['-'] + decimal((-n) as nat)
    } else {
        decimal(n as nat)
    }
}

fn digit_str(d: u64) -> (r: &'static str)
    requires
        d < 10,
    ensures
        r@ == seq![digit_char(d as nat)],
{
    proof {
        reveal_strlit("0");
        reveal_strlit("1");
        reveal_strlit("2");
        reveal_strlit("3");
        reveal_strlit("4");
        reveal_strlit("5");
        reveal_strlit("6");
        reveal_strlit("7");
        reveal_strlit("8");
        reveal_strlit("9");
    }
    if d == 0 {
        "0"
    } else if d == 1 {
        "1"
    } else if d == 2 {
        "2"
    } else if d == 3 {
        "3"
    } else if d == 4 {
        "4"
    } else if d == 5 {
        "5"
    } else if d == 6 {
        "6"
    } else if d == 7 {
        "7"
    } else if d == 8 {
        "8"
    } else {
        "9"
    }
}

/// Appends the decimal digits of `n` to `out`.
pub fn push_decimal(out: &mut String, n: u64)
    ensures
        final(out)@ == old(out)@ + decimal(n as nat),
    decreases n,
{
    if n >= 10 {
        push_decimal(out, n / 10);
    }
    out.append(digit_str(n % 10));
    assert(final(out)@ =~= old(out)@ + decimal(n as nat)) by {
        if n >= 10 {
            assert(decimal(n as nat) == decimal((n / 10) as nat).push(digit_char((n % 10) as nat)));
        }
    }
}

/// The name a recording is stored under:
/// `baseband_<freq>Hz_<hour>-<minute>-<second>_<month>-<day>-<year>.wav`.
pub open spec fn file_name_of(freq_hz: nat, t: UtcTime) -> Seq<char> {
    "baseband_"@ + decimal(freq_hz) + "Hz_"@ + decimal(t.hour as nat) + "-"@ + decimal(
        t.minute as nat,
    ) + "-"@ + decimal(t.second as nat) + "_"@ + decimal(t.month as nat) + "-"@ + decimal(
        t.day as nat,
    ) + "-"@ + signed_decimal(t.year as int) + ".wav"@
}

/// Name of the file a recording tuned to `freq_hz` and started at `t` is
/// written to.
pub fn recording_file_name(freq_hz: u64, t: &UtcTime) -> (r: String)
    ensures
        r@ == file_name_of(freq_hz as nat, *t),
{
    let mut out = String::from_str("baseband_");
    push_decimal(&mut out, freq_hz);
    out.append("Hz_");
    push_decimal(&mut out, t.hour as u64);
    out.append("-");
    push_decimal(&mut out, t.minute as u64);
    out.append("-");
    push_decimal(&mut out, t.second as u64);
    out.append("_");
    push_decimal(&mut out, t.month as u64);
    out.append("-");
    push_decimal(&mut out, t.day as u64);
    out.append("-");
    if t.year < 0 {
        out.append("-");
        push_decimal(&mut out, (-(t.year as i64)) as u64);
        proof {
            reveal_strlit("-");
        }
    } else {
        push_decimal(&mut out, t.year as u64);
    }
    out.append(".wav");
    assert(out@ =~= file_name_of(freq_hz as nat, *t));
    out
}

/// Name of the file for a recording tuned to `freq_hz` that starts now, and
/// the time it was taken at; `None` when the clock cannot be read.
pub fn recording_file_name_now(freq_hz: u64) -> (r: Option<(String, UtcTime)>)
    ensures
        r is Some ==> ({
            let (name, t) = r->0;
            t.wf() && name@ == file_name_of(freq_hz as nat, t)
        }),
{
    match utc_now() {
        Some(t) => Some((recording_file_name(freq_hz, &t), t)),
        None => None,
    }
}

} // verus!
