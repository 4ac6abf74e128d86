use vstd::prelude::*;
use crate::averaging::{AveragingWindow, push_step, bin_mean};
use crate::device::{is_nearest_ratio, range_contains, top_of};
use crate::recording::{
    BaseBandSink, BaseBandSpec, ContainerFormat, RecordDuration, UtcTime, recorded,
    file_name_of, recording_file_name_now,
};
use crate::sdr::{SdrError, SdrLimits, check_freq, gain_for, gain_share};

verus! {

/// A control request from the display side to the acquisition loop.
#[derive(Clone, Copy, Debug, PartialEq, Eq, Structural)]
pub enum Command {
    /// Tune to a centre frequency in Hz.
    SetFrequency(u64),
    /// Set the gain to a share of the device's largest gain, in thousandths.
    SetGain(u32),
    /// Start recording with the given spec, or stop the running recording.
    ToggleRecording(BaseBandSpec),
    /// Shut the stream down and leave the loop.
    Stop,
}

/// What the loop's owner must do after a command.
#[derive(Debug)]
pub enum Action {
    /// Tell the device the new centre frequency (Hz).
    Tune(u64),
    /// Tell the device the new gain (thousandths of a dB).
    ApplyGain(i64),
    /// Create the recording file; on success call `recording_opened`.
    OpenRecording {
        file_name: String,
        started: UtcTime,
        spec: BaseBandSpec,
        container: ContainerFormat,
    },
    /// The clock could not be read to name a recording file; the session
    /// stays idle.
    ClockUnavailable,
    /// Flush and close the recording file.
    CloseRecording,
    /// Deactivate the stream, close the recording file if one is open, and
    /// leave the loop.
    Shutdown { close_recording: bool },
    /// The request was refused; nothing was changed.
    Rejected(SdrError),
    /// The loop has stopped; the request is dropped.
    Ignored,
}

/// State the acquisition loop owns: the device's limits and settings, the
/// averaging window and the recording session.
pub struct Acquisition {
    limits: SdrLimits,
    frequency: u64,
    gain: i64,
    window: AveragingWindow,
    session: BaseBandSink,
    frame_len: usize,
    running: bool,
}

impl Acquisition {
    pub closed spec fn spec_limits(&self) -> &SdrLimits {
        &self.limits
    }

    pub closed spec fn spec_frequency(&self) -> u64 {
        self.frequency
    }

    pub closed spec fn spec_gain(&self) -> i64 {
        self.gain
    }

    pub closed spec fn spec_window(&self) -> &AveragingWindow {
        &self.window
    }

    pub closed spec fn spec_session(&self) -> &BaseBandSink {
        &self.session
    }

    pub closed spec fn spec_frame_len(&self) -> usize {
        self.frame_len
    }

    pub closed spec fn spec_running(&self) -> bool {
        self.running
    }

    pub closed spec fn wf(&self) -> bool {
        &&& self.limits.wf()
        &&& self.window.wf()
        &&& self.session.wf()
        &&& self.frame_len > 0
        &&& self.window.frame_len() == self.frame_len
    }

    /// Loop state for a device with `limits`, tuned to `frequency` Hz, with
    /// the gain nearest to `gain_permille` thousandths of its maximum,
    /// averaging over `depth` frames of `frame_len` bins, and not recording.
    pub fn new(
        limits: SdrLimits,
        frequency: u64,
        gain_permille: u32,
        depth: usize,
        frame_len: usize,
    ) -> (r: Self)
        requires
            limits.wf(),
            depth >= 1,
            frame_len > 0,
    ensures
            r.wf(),
            r.spec_running(),
            r.spec_frequency() == frequency,
            is_nearest_ratio(
                limits.gain_range.items(),
                gain_share(gain_permille as nat, top_of(limits.gain_range.items())),
                1000,
                r.spec_gain() as int,
            ),
            r.spec_limits() == &limits,
            r.spec_window().depth() == depth,
            r.spec_window().history().len() == 0,
            r.spec_frame_len() == frame_len,
            !r.spec_session().is_recording_spec(),
    {
        let gain = gain_for(&limits, gain_permille);
        Acquisition {
            limits,
            frequency,
            gain,
            window: AveragingWindow::new(depth, frame_len),
            session: BaseBandSink::new(),
            frame_len,
            running: true,
        }
    }

    pub fn frequency(&self) -> (r: u64)
        ensures
            r == self.spec_frequency(),
    {
        self.frequency
    }

    pub fn gain(&self) -> (r: i64)
        ensures
            r == self.spec_gain(),
    {
        self.gain
    }

    pub fn is_running(&self) -> (r: bool)
        ensures
            r == self.spec_running(),
    {
        self.running
    }

    pub fn is_recording(&self) -> (r: bool)
        ensures
            r == self.spec_session().is_recording_spec(),
    {
        self.session.is_recording()
    }

    /// The spec of the running recording.
    pub fn recording_spec(&self) -> (r: BaseBandSpec)
        ensures
            r == self.spec_session().bound_spec(),
    {
        self.session.spec()
    }

    /// Time recorded so far, exactly: samples written over the sample rate;
    /// no samples while not recording.
    pub fn query_duration(&self) -> (r: RecordDuration)
        ensures
            (r.samples as nat, r.sample_rate as nat) == recorded(
                self.spec_session().is_recording_spec(),
                self.spec_session().elapsed(),
                self.spec_session().bound_spec().sample_rate as nat,
            ),
    {
        self.session.query_duration()
    }

    /// Number of whole frames in a block of `samples` raw samples; the
    /// samples that do not fill a frame are dropped.
    pub fn frames_in_block(&self, samples: usize) -> (r: usize)
        requires
            self.wf(),
        ensures
            r == samples / self.spec_frame_len(),
    {
        samples / self.frame_len
    }

    /// A block of `samples` I/Q samples was read from the device. Counts them
    /// toward the recording and says whether they are to be written to it.
    pub fn on_block(&mut self, samples: u64) -> (r: bool)
        requires
            old(self).wf(),
        ensures
            final(self).wf(),
            r == old(self).spec_session().is_recording_spec(),
            final(self).spec_session().is_recording_spec() == r,
            final(self).spec_session().bound_spec() == old(self).spec_session().bound_spec(),
            final(self).spec_session().elapsed() == if !r {
                0int
            } else if old(self).spec_session().elapsed() + samples <= u64::MAX {
                old(self).spec_session().elapsed() + samples
            } else {
                u64::MAX as int
            },
            final(self).spec_window() == old(self).spec_window(),
            final(self).spec_frequency() == old(self).spec_frequency(),
            final(self).spec_gain() == old(self).spec_gain(),
            final(self).spec_running() == old(self).spec_running(),
            final(self).spec_frame_len() == old(self).spec_frame_len(),
    {
        let recording = self.session.is_recording();
        self.session.record(samples);
        recording
    }

    /// Puts one power frame through the averaging window and returns the
    /// averaged frame to publish.
    pub fn on_power_frame(&mut self, frame: Vec<u32>) -> (r: Vec<u32>)
        requires
            old(self).wf(),
            frame@.len() == old(self).spec_frame_len(),
        ensures
            final(self).wf(),
            final(self).spec_window().history() == push_step(
                old(self).spec_window().history(),
                frame@,
                old(self).spec_window().depth() as nat,
            ),
            final(self).spec_window().depth() == old(self).spec_window().depth(),
            r@.len() == old(self).spec_frame_len(),
            forall|i: int|
                0 <= i < r@.len() ==> r@[i] == bin_mean(final(self).spec_window().history(), i),
            final(self).spec_session() == old(self).spec_session(),
            final(self).spec_frequency() == old(self).spec_frequency(),
            final(self).spec_gain() == old(self).spec_gain(),
            final(self).spec_running() == old(self).spec_running(),
            final(self).spec_frame_len() == old(self).spec_frame_len(),
    {
        self.window.push(frame)
    }

    /// Changes the averaging depth; it takes effect at the next frame.
    pub fn set_depth(&mut self, depth: usize)
        requires
            old(self).wf(),
            depth >= 1,
        ensures
            final(self).wf(),
            final(self).spec_window().depth() == depth,
            final(self).spec_window().history() == old(self).spec_window().history(),
            final(self).spec_session() == old(self).spec_session(),
            final(self).spec_frequency() == old(self).spec_frequency(),
            final(self).spec_gain() == old(self).spec_gain(),
            final(self).spec_running() == old(self).spec_running(),
            final(self).spec_frame_len() == old(self).spec_frame_len(),
    {
        self.window.set_depth(depth);
    }

    /// Applies one command and says what the owner must do. A frequency
    /// outside the device's range is refused and changes nothing; a gain is
    /// moved to the nearest supported value; a toggle stops a running
    /// recording or asks for a file to start one; `Stop` ends the loop. Once
    /// the loop has stopped every command is ignored.
    pub fn apply(&mut self, cmd: Command) -> (r: Action)
        requires
            old(self).wf(),
        ensures
            final(self).wf(),
            final(self).spec_limits() == old(self).spec_limits(),
            final(self).spec_window() == old(self).spec_window(),
            final(self).spec_frame_len() == old(self).spec_frame_len(),
            !old(self).spec_running() ==> r is Ignored && *final(self) == *old(self),
            old(self).spec_running() ==> match cmd {
                Command::SetFrequency(hz) => if range_contains(
                    old(self).spec_limits().freq_range.items(),
                    hz as int,
                ) {
                    r == Action::Tune(hz) && final(self).spec_frequency() == hz
                        && final(self).spec_gain() == old(self).spec_gain()
                        && final(self).spec_session() == old(self).spec_session()
                        && final(self).spec_running()
                } else {
                    r == Action::Rejected(SdrError::FreqNotInRange) && *final(self) == *old(self)
                },
                Command::SetGain(p) => {
                    &&& r is ApplyGain
                    &&& r->ApplyGain_0 == final(self).spec_gain()
                    &&& is_nearest_ratio(
                        old(self).spec_limits().gain_range.items(),
                        gain_share(p as nat, top_of(old(self).spec_limits().gain_range.items())),
                        1000,
                        final(self).spec_gain() as int,
                    )
                    &&& final(self).spec_frequency() == old(self).spec_frequency()
                    &&& final(self).spec_session() == old(self).spec_session()
                    &&& final(self).spec_running()
                },
                Command::ToggleRecording(spec) => {
                    &&& final(self).spec_frequency() == old(self).spec_frequency()
                    &&& final(self).spec_gain() == old(self).spec_gain()
                    &&& final(self).spec_running()
                    &&& !final(self).spec_session().is_recording_spec()
                    &&& final(self).spec_session().elapsed() == 0
                    &&& if old(self).spec_session().is_recording_spec() {
                        r is CloseRecording
                    } else if r is ClockUnavailable {
                        true
                    } else {
                        &&& r is OpenRecording
                        &&& r->spec == spec
                        &&& r->started.wf()
                        &&& r->file_name@ == file_name_of(
                            old(self).spec_frequency() as nat,
                            r->started,
                        )
                        &&& r->container.channels == 2
                        &&& r->container.sample_rate == spec.sample_rate
                        &&& r->container.bits_per_sample == match spec.format {
                            crate::recording::BaseBandFormat::Int16 => 16u16,
                            crate::recording::BaseBandFormat::Float32 => 32u16,
                            crate::recording::BaseBandFormat::Int8 => 8u16,
                        }
                        &&& r->container.is_float == (spec.format
                            == crate::recording::BaseBandFormat::Float32)
                    }
                },
                Command::Stop => {
                    &&& r == Action::Shutdown {
                        close_recording: old(self).spec_session().is_recording_spec(),
                    }
                    &&& !final(self).spec_running()
                    &&& !final(self).spec_session().is_recording_spec()
                    &&& final(self).spec_frequency() == old(self).spec_frequency()
                    &&& final(self).spec_gain() == old(self).spec_gain()
                },
            },
    {
        if !self.running {
            return Action::Ignored;
        }
        match cmd {
            Command::SetFrequency(hz) => {
                match check_freq(&self.limits, hz) {
                    Ok(()) => {
                        self.frequency = hz;
                        Action::Tune(hz)
                    },
                    Err(e) => Action::Rejected(e),
                }
            },
            Command::SetGain(p) => {
                let g = gain_for(&self.limits, p);
                self.gain = g;
                Action::ApplyGain(g)
            },
            Command::ToggleRecording(spec) => {
                if self.session.is_recording() {
                    self.session.stop();
                    Action::CloseRecording
                } else {
                    proof {
                        self.session.lemma_idle_elapsed();
                    }
                    match recording_file_name_now(self.frequency) {
                        Some((file_name, started)) => Action::OpenRecording {
                            file_name,
                            started,
                            spec,
                            container: spec.container(),
                        },
                        None => Action::ClockUnavailable,
                    }
                }
            },
            Command::Stop => {
                let close_recording = self.session.is_recording();
                self.session.stop();
                self.running = false;
                Action::Shutdown { close_recording }
            },
        }
    }

    /// The file asked for by `OpenRecording` was created: recording starts
    /// with `spec` and an elapsed count of 0. (When it could not be created
    /// the session simply stays idle.)
    pub fn recording_opened(&mut self, spec: BaseBandSpec)
        requires
            old(self).wf(),
            !old(self).spec_session().is_recording_spec(),
        ensures
            final(self).wf(),
            final(self).spec_session().is_recording_spec(),
            final(self).spec_session().bound_spec() == spec,
            final(self).spec_session().elapsed() == 0,
            final(self).spec_window() == old(self).spec_window(),
            final(self).spec_frequency() == old(self).spec_frequency(),
            final(self).spec_gain() == old(self).spec_gain(),
            final(self).spec_running() == old(self).spec_running(),
            final(self).spec_frame_len() == old(self).spec_frame_len(),
    {
        self.session.start(spec);
    }
}

} // verus!
