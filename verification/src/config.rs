//! The plugin's configuration and the decisions of its lifecycle: when the
//! recognition worker is started, stopped or restarted, and where its models
//! and records live under the plugin directory.
use vstd::prelude::*;
use vstd::string::StringSliceAdditionalSpecFns;
use crate::reply::{decode_lossy, extract_json_number, json_number, lossy_utf8};

verus! {

/// Whether two strings hold the same characters.
pub fn str_eq(a: &str, b: &str) -> (r: bool)
    ensures
        r == (a@ == b@),
{
    let x = a.as_bytes();
    let y = b.as_bytes();
    if x.len() != y.len() {
        return false;
    }
    let mut i: usize = 0;
    while i < x.len()
        invariant
            x@ == a.spec_bytes(),
            y@ == b.spec_bytes(),
            x@.len() == y@.len(),
            i <= x@.len(),
            forall|j: int| 0 <= j < i ==> x@[j] == y@[j],
        decreases x@.len() - i,
    {
        if x[i] != y[i] {
            return false;
        }
        i = i + 1;
    }
    assert(x@ =~= y@);
    proof {
        vstd::utf8::encode_utf8_decode_utf8(a@);
        vstd::utf8::encode_utf8_decode_utf8(b@);
    }
    true
}

/// Sample rate assumed when the host does not report one.
pub const DEFAULT_SAMPLE_RATE: u32 = 48000;

/// Channel count assumed when the host does not report one.
pub const DEFAULT_CHANNELS: u32 = 2;

/// The plugin's configuration.
#[derive(Clone, Debug)]
pub struct Config {
    /// When the models are loaded: `"micyou_start"` or `"device_connect"`.
    pub load_timing: String,
    /// Sample rate of the host's audio.
    pub sample_rate: u32,
    /// Channel count of the host's audio.
    pub channels: u32,
}

/// A number from the host's audio state, or `default` when the state is
/// missing or does not hold the key.
pub open spec fn audio_field(audio_state: Option<Seq<u8>>, key: Seq<u8>, default: u32) -> u32 {
    match audio_state {
        None => default,
        Some(b) => match json_number(vstd::utf8::encode_utf8(lossy_utf8(b)), key) {
            Some(v) => v,
            None => default,
        },
    }
}

/// What the worker should do in answer to a host event.
#[derive(PartialEq, Eq, Structural, Debug, Clone, Copy)]
pub enum LifecycleCommand {
    /// Start the recognition worker.
    Start,
    /// Stop the recognition worker.
    Stop,
    /// Stop the recognition worker and start it anew.
    Restart,
    /// Nothing to do.
    Ignore,
}

/// Whether the models should be loaded, given the load timing and whether
/// a device is connected: from launch on in `"micyou_start"` mode, only
/// while a device is connected in `"device_connect"` mode, never otherwise.
pub open spec fn models_wanted(timing: Seq<char>, device_connected: bool) -> bool {
    timing == "micyou_start"@ || (timing == "device_connect"@ && device_connected)
}

/// Whether a device is connected after `event`.
pub open spec fn connected_after(connected: bool, event: Seq<char>) -> bool {
    if event == "device_connected"@ {
        true
    } else if event == "device_disconnected"@ {
        false
    } else {
        connected
    }
}

/// The command for a host event, given the load timing in force (None
/// before the plugin is configured): a connection starts the worker when
/// the models are wanted with a device connected; a disconnection stops it
/// unless they are wanted without one.
pub open spec fn event_decision(timing: Option<Seq<char>>, event: Seq<char>) -> LifecycleCommand {
    if event == "device_connected"@ {
        if timing matches Some(t) && models_wanted(t, true) {
            LifecycleCommand::Start
        } else {
            LifecycleCommand::Ignore
        }
    } else if event == "device_disconnected"@ {
        if timing matches Some(t) && models_wanted(t, false) {
            LifecycleCommand::Ignore
        } else {
            LifecycleCommand::Stop
        }
    } else {
        LifecycleCommand::Ignore
    }
}

/// The command for a load timing read anew: nothing when it does not
/// change; a stop when it changes to `"device_connect"` while no device is
/// connected (the models then wait for a connection); a restart for any
/// other change.
pub open spec fn change_decision(cur: Seq<char>, new: Seq<char>, device_connected: bool) -> LifecycleCommand {
    if !timing_changes(cur, new) {
        LifecycleCommand::Ignore
    } else if new == "device_connect"@ && !device_connected {
        LifecycleCommand::Stop
    } else {
        LifecycleCommand::Restart
    }
}

/// The load timings the host offers: `"micyou_start"` and
/// `"device_connect"`.
pub open spec fn known_timing(timing: Seq<char>) -> bool {
    timing == "micyou_start"@ || timing == "device_connect"@
}

/// Whether the worker runs after `c`, when it ran before exactly if
/// `was_running`.
pub open spec fn running_after(c: LifecycleCommand, was_running: bool) -> bool {
    match c {
        LifecycleCommand::Start => true,
        LifecycleCommand::Restart => true,
        LifecycleCommand::Stop => false,
        LifecycleCommand::Ignore => was_running,
    }
}

/// Whether a load timing read anew, `new`, replaces the current one, `cur`:
/// it must be set and differ.
pub open spec fn timing_changes(cur: Seq<char>, new: Seq<char>) -> bool {
    new.len() > 0 && new != cur
}

/// The load timing after `new` was read while `cur` was in force.
pub open spec fn timing_after(cur: Seq<char>, new: Seq<char>) -> Seq<char> {
    if timing_changes(cur, new) {
        new
    } else {
        cur
    }
}

impl Config {
    /// The configuration made from what the host reports at start-up: the
    /// configured load timing (empty when unset, which means
    /// `"device_connect"`) and the bytes of its audio state, a JSON object
    /// with `"sampleRate"` and `"channels"`, when the host gave one.
    pub fn from_host(timing: String, audio_state: Option<&[u8]>) -> (c: Config)
        ensures
            c.load_timing@ == (if timing@.len() == 0 {
                "device_connect"@
            } else {
                timing@
            }),
            c.sample_rate == audio_field(
                match audio_state {
                    Some(b) => Some(b@),
                    None => None,
                },
                "sampleRate".spec_bytes(),
                DEFAULT_SAMPLE_RATE,
            ),
            c.channels == audio_field(
                match audio_state {
                    Some(b) => Some(b@),
                    None => None,
                },
                "channels".spec_bytes(),
                DEFAULT_CHANNELS,
            ),
    {
        let mut sample_rate = DEFAULT_SAMPLE_RATE;
        let mut channels = DEFAULT_CHANNELS;
        match audio_state {
            Some(b) => {
                let json = decode_lossy(b);
                match extract_json_number(json.as_str(), "sampleRate") {
                    Some(v) => {
                        sample_rate = v;
                    },
                    None => {},
                }
                match extract_json_number(json.as_str(), "channels") {
                    Some(v) => {
                        channels = v;
                    },
                    None => {},
                }
            },
            None => {},
        }
        let load_timing = if timing.as_str().is_empty() {
            "device_connect".to_string()
        } else {
            timing
        };
        Config { load_timing, sample_rate, channels }
    }

    /// Whether the models are loaded as soon as the host starts the plugin.
    pub fn starts_on_launch(&self) -> (r: bool)
        ensures
            r == (self.load_timing@ == "micyou_start"@),
    {
        str_eq(self.load_timing.as_str(), "micyou_start")
    }

    /// Takes a load timing read anew from the host's configuration, while
    /// a device is connected or not. An empty value or the current one
    /// changes nothing; any other value replaces the current one, and the
    /// worker is then stopped when the new value is `"device_connect"` and
    /// no device is connected, and restarted otherwise.
    pub fn apply_load_timing(&mut self, new_timing: &str, device_connected: bool) -> (c: LifecycleCommand)
        ensures
            c == change_decision(old(self).load_timing@, new_timing@, device_connected),
            final(self).load_timing@ == timing_after(old(self).load_timing@, new_timing@),
            final(self).sample_rate == old(self).sample_rate,
            final(self).channels == old(self).channels,
    {
        if !new_timing.is_empty() && !str_eq(new_timing, self.load_timing.as_str()) {
            self.load_timing = new_timing.to_owned();
            if str_eq(new_timing, "device_connect") && !device_connected {
                LifecycleCommand::Stop
            } else {
                LifecycleCommand::Restart
            }
        } else {
            LifecycleCommand::Ignore
        }
    }
}

/// The command for a host event (see `event_decision`).
pub fn event_command(config: Option<&Config>, event: &str) -> (c: LifecycleCommand)
    ensures
        c == event_decision(
            match config {
                Some(cfg) => Some(cfg.load_timing@),
                None => None,
            },
            event@,
        ),
{
    let (wanted_connected, wanted_alone) = match config {
        Some(c) => {
            let launch = str_eq(c.load_timing.as_str(), "micyou_start");
            let on_connect = str_eq(c.load_timing.as_str(), "device_connect");
            (launch || on_connect, launch)
        },
        None => (false, false),
    };
    if str_eq(event, "device_connected") {
        if wanted_connected {
            LifecycleCommand::Start
        } else {
            LifecycleCommand::Ignore
        }
    } else if str_eq(event, "device_disconnected") {
        if wanted_alone {
            LifecycleCommand::Ignore
        } else {
            LifecycleCommand::Stop
        }
    } else {
        LifecycleCommand::Ignore
    }
}

/// Whether a device is connected after `event`, when one was exactly if
/// `connected`.
pub fn device_connected_after(connected: bool, event: &str) -> (r: bool)
    ensures
        r == connected_after(connected, event@),
{
    if str_eq(event, "device_connected") {
        true
    } else if str_eq(event, "device_disconnected") {
        false
    } else {
        connected
    }
}

/// Whether a message on `topic` announces a change of configuration.
pub fn is_config_changed(topic: &str) -> (r: bool)
    ensures
        r == (topic@ == "config:changed"@),
{
    str_eq(topic, "config:changed")
}

/// Whether a request to start the worker goes ahead: the plugin must be
/// configured, and a worker that exists and is still alive is kept.
pub open spec fn start_goes_ahead(configured: bool, has_worker: bool, worker_alive: bool) -> bool {
    configured && !(has_worker && worker_alive)
}

/// Decides whether a request to start the worker goes ahead (see
/// `start_goes_ahead`).
pub fn should_start_worker(configured: bool, has_worker: bool, worker_alive: bool) -> (r: bool)
    ensures
        r == start_goes_ahead(configured, has_worker, worker_alive),
{
    configured && !(has_worker && worker_alive)
}

/// Where the plugin finds its models and keeps its records, under its
/// directory.
pub struct AsrPaths {
    /// The Silero voice-activity model.
    pub vad_model: String,
    /// The Qwen3 ASR convolutional front end.
    pub conv_frontend: String,
    /// The Qwen3 ASR encoder.
    pub encoder: String,
    /// The Qwen3 ASR decoder.
    pub decoder: String,
    /// The Qwen3 ASR tokenizer directory.
    pub tokenizer: String,
    /// The directory of the daily transcript files.
    pub records_dir: String,
}

/// The directory of the Qwen3 ASR model under the plugin directory `dir`.
pub open spec fn asr_model_dir(dir: Seq<char>) -> Seq<char> {
    dir + "/sherpa-onnx-qwen3-asr-0.6B-int8"@
}

impl AsrPaths {
    /// The paths under the plugin directory `dir`.
    pub fn under(dir: &str) -> (p: AsrPaths)
        ensures
            p.vad_model@ == dir@ + "/silero_vad.onnx"@,
            p.conv_frontend@ == asr_model_dir(dir@) + "/conv_frontend.onnx"@,
            p.encoder@ == asr_model_dir(dir@) + "/encoder.int8.onnx"@,
            p.decoder@ == asr_model_dir(dir@) + "/decoder.int8.onnx"@,
            p.tokenizer@ == asr_model_dir(dir@) + "/tokenizer"@,
            p.records_dir@ == dir@ + "/records"@,
    {
        let model_dir = String::from_str(dir).concat("/sherpa-onnx-qwen3-asr-0.6B-int8");
        AsrPaths {
            vad_model: String::from_str(dir).concat("/silero_vad.onnx"),
            conv_frontend: model_dir.clone().concat("/conv_frontend.onnx"),
            encoder: model_dir.clone().concat("/encoder.int8.onnx"),
            decoder: model_dir.clone().concat("/decoder.int8.onnx"),
            tokenizer: model_dir.concat("/tokenizer"),
            records_dir: String::from_str(dir).concat("/records"),
        }
    }
}

/// A configuration change restarts the worker at most once: reading the
/// same load timing again right after changes nothing.
pub proof fn law_timing_change_idempotent(cur: Seq<char>, new: Seq<char>)
    ensures
        !timing_changes(timing_after(cur, new), new),
        timing_after(timing_after(cur, new), new) == timing_after(cur, new),
{
}

/// An empty configuration value never restarts the worker.
pub proof fn law_empty_timing_ignored(cur: Seq<char>)
    ensures
        !timing_changes(cur, Seq::<char>::empty()),
        timing_after(cur, Seq::<char>::empty()) == cur,
{
}

/// The worker runs exactly when the models are wanted: if that held before
/// a host event, it holds after the event's command, with the connection
/// state the event leaves.
pub proof fn law_event_keeps_models_as_configured(
    timing: Seq<char>,
    connected: bool,
    event: Seq<char>,
    running: bool,
)
    requires
        running == models_wanted(timing, connected),
    ensures
        running_after(event_decision(Some(timing), event), running) == models_wanted(
            timing,
            connected_after(connected, event),
        ),
{
}

/// The same holds across a change between the load timings the host
/// offers. (A change to any other value restarts the worker, though no
/// event loads the models under it.)
pub proof fn law_change_keeps_models_as_configured(
    cur: Seq<char>,
    new: Seq<char>,
    connected: bool,
    running: bool,
)
    requires
        running == models_wanted(cur, connected),
        known_timing(cur),
        new.len() == 0 || known_timing(new),
    ensures
        running_after(change_decision(cur, new, connected), running) == models_wanted(
            timing_after(cur, new),
            connected,
        ),
{
}

/// Any change of load timing other than to Device Connect without a device
/// leaves the worker running, freshly restarted.
pub proof fn law_change_restarts(cur: Seq<char>, new: Seq<char>, connected: bool)
    requires
        timing_changes(cur, new),
        !(new == "device_connect"@ && !connected),
    ensures
        change_decision(cur, new, connected) == LifecycleCommand::Restart,
{
}

/// In MicYou Start mode the models stay loaded whatever the device does.
pub proof fn law_launch_mode_keeps_models(event: Seq<char>)
    ensures
        running_after(event_decision(Some("micyou_start"@), event), true),
{
}

/// In Device Connect mode the models are loaded on connection and unloaded
/// on disconnection.
pub proof fn law_connect_mode_follows_device(running: bool)
    ensures
        running_after(event_decision(Some("device_connect"@), "device_connected"@), running),
        !running_after(event_decision(Some("device_connect"@), "device_disconnected"@), running),
{
    assert("device_connected"@ != "device_disconnected"@) by {
        reveal_strlit("device_connected");
        reveal_strlit("device_disconnected");
        assert("device_connected"@[7] != "device_disconnected"@[7]);
    }
    assert("device_connect"@ != "micyou_start"@) by {
        reveal_strlit("device_connect");
        reveal_strlit("micyou_start");
        assert("device_connect"@[0] != "micyou_start"@[0]);
    }
}

/// A worker that exists and is alive is kept: asking to start it again
/// does nothing, so two requests act as one.
pub proof fn law_running_worker_kept()
    ensures
        !start_goes_ahead(true, true, true),
{
}

/// Host events other than a device connecting or disconnecting never
/// touch the worker, whatever the load timing.
pub proof fn law_other_events_ignored(timing: Option<Seq<char>>, event: Seq<char>)
    requires
        event != "device_connected"@,
        event != "device_disconnected"@,
    ensures
        event_decision(timing, event) == LifecycleCommand::Ignore,
{
}

/// What each device event does in each mode: in MicYou Start mode a
/// connection starts the worker (if it is not running) and a disconnection
/// leaves it; in Device Connect mode a connection starts it and a
/// disconnection stops it; under any other timing, and before the plugin is
/// configured, a connection does nothing and a disconnection stops it.
pub proof fn law_device_events(other: Seq<char>)
    requires
        !known_timing(other),
    ensures
        event_decision(Some("micyou_start"@), "device_connected"@) == LifecycleCommand::Start,
        event_decision(Some("micyou_start"@), "device_disconnected"@) == LifecycleCommand::Ignore,
        event_decision(Some("device_connect"@), "device_connected"@) == LifecycleCommand::Start,
        event_decision(Some("device_connect"@), "device_disconnected"@) == LifecycleCommand::Stop,
        event_decision(Some(other), "device_connected"@) == LifecycleCommand::Ignore,
        event_decision(Some(other), "device_disconnected"@) == LifecycleCommand::Stop,
        event_decision(None, "device_connected"@) == LifecycleCommand::Ignore,
        event_decision(None, "device_disconnected"@) == LifecycleCommand::Stop,
{
    lemma_event_names_differ();
}

proof fn lemma_event_names_differ()
    ensures
        "device_connected"@ != "device_disconnected"@,
        "device_connect"@ != "micyou_start"@,
{
    reveal_strlit("device_connected");
    reveal_strlit("device_disconnected");
    reveal_strlit("device_connect");
    reveal_strlit("micyou_start");
    assert("device_connected"@[7] != "device_disconnected"@[7]);
    assert("device_connect"@[0] != "micyou_start"@[0]);
}

/// A device connects exactly on `"device_connected"` and disconnects
/// exactly on `"device_disconnected"`; other events leave it as it was.
pub proof fn law_connection_tracking(connected: bool, event: Seq<char>)
    ensures
        event == "device_connected"@ ==> connected_after(connected, event),
        event == "device_disconnected"@ ==> !connected_after(connected, event),
        event != "device_connected"@ && event != "device_disconnected"@ ==> connected_after(
            connected,
            event,
        ) == connected,
{
    lemma_event_names_differ();
}

/// A number the host reports under a key is taken exactly as reported;
/// the default stands only when the key holds no number or there is no
/// audio state.
pub proof fn law_audio_field_reported(b: Seq<u8>, key: Seq<u8>, default: u32)
    ensures
        json_number(vstd::utf8::encode_utf8(lossy_utf8(b)), key) matches Some(v) ==> audio_field(
            Some(b),
            key,
            default,
        ) == v,
        json_number(vstd::utf8::encode_utf8(lossy_utf8(b)), key) is None ==> audio_field(
            Some(b),
            key,
            default,
        ) == default,
        audio_field(None, key, default) == default,
{
}

/// A set load timing that differs from the current one replaces it; an
/// empty one, or the current one, changes nothing.
pub proof fn law_timing_change_rule(cur: Seq<char>, new: Seq<char>)
    ensures
        new.len() > 0 && new != cur ==> timing_changes(cur, new) && timing_after(cur, new) == new,
        new.len() == 0 || new == cur ==> !timing_changes(cur, new) && timing_after(cur, new)
            == cur,
{
}

/// A change to Device Connect while no device is connected stops the
/// worker; reading the timing in force again does nothing.
pub proof fn law_change_stops_or_ignores(cur: Seq<char>, new: Seq<char>, connected: bool)
    ensures
        cur != "device_connect"@ ==> change_decision(cur, "device_connect"@, false)
            == LifecycleCommand::Stop,
        change_decision(cur, cur, connected) == LifecycleCommand::Ignore,
        change_decision(cur, Seq::<char>::empty(), connected) == LifecycleCommand::Ignore,
{
    reveal_strlit("device_connect");
}

/// A start goes ahead exactly when the plugin is configured and no live
/// worker exists.
pub proof fn law_start_table(has_worker: bool, alive: bool)
    ensures
        !start_goes_ahead(false, has_worker, alive),
        start_goes_ahead(true, false, alive),
        start_goes_ahead(true, has_worker, false),
        !start_goes_ahead(true, true, true),
{
}

} // verus!
