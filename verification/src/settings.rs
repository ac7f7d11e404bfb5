//! What a user can set before a call: the codec, the latency and the sound devices.

use vstd::prelude::*;

verus! {

/// The bit pattern of `0.1`, the latency in seconds that a call starts with.
pub const DEFAULT_LATENCY: u32 = 0x3dcc_cccd;

/// The bit pattern of `0.01`, the latency in seconds at the lower end of its slider.
pub const MIN_LATENCY: u32 = 0x3c23_d70a;

/// The bit pattern of `3.0`, the latency in seconds at the upper end of its slider.
pub const MAX_LATENCY: u32 = 0x4040_0000;

/// The lowest bit pattern of a number with a minus sign.
pub const MINUS_SIGN: u32 = 0x8000_0000;

/// The rate, in bits per second, that the menu entry for a custom bit rate stands for.
pub const CUSTOM_BIT_RATE: i32 = 98_000;

/// The lower end of the slider for a custom bit rate.
pub const MIN_BIT_RATE: i32 = 1_000;

/// The upper end of the slider for a custom bit rate.
pub const MAX_BIT_RATE: i32 = 256_000;

/// What the Opus encoder is tuned for.
#[derive(Debug, Clone, Copy, PartialEq, Eq, Structural)]
pub enum Application {
    Voip,
    Audio,
    LowDelay,
}

/// The audio bandwidth that the Opus encoder keeps.
#[derive(Debug, Clone, Copy, PartialEq, Eq, Structural)]
pub enum Bandwidth {
    Auto,
    Narrowband,
    Mediumband,
    Wideband,
    Superwideband,
    Fullband,
}

/// The bit rate of the Opus encoder.
#[derive(Debug, Clone, Copy, PartialEq, Eq, Structural)]
pub enum Bitrate {
    BitsPerSecond(i32),
    Max,
    Auto,
}

/// The entries of the bit rate menu.
#[derive(Debug, Clone, Copy, PartialEq, Eq, Structural)]
pub enum BitrateChoice {
    Auto,
    Max,
    Custom,
}

/// The kind of signal that the Opus encoder expects.
#[derive(Debug, Clone, Copy, PartialEq, Eq, Structural)]
pub enum Signal {
    Auto,
    Voice,
    Music,
}

/// How audio is encoded on the wire.
#[derive(Debug, Clone, Copy, PartialEq, Eq, Structural)]
pub enum AudioEncoding {
    Opus {
        purpose: Application,
        bandwidth: Bandwidth,
        bit_rate: Bitrate,
        signal_type: Signal,
    },
}

/// The settings that a call is started with. `latency` is the bit pattern of the latency
/// in seconds.
pub struct ConnectionSettings {
    pub encoding: AudioEncoding,
    pub latency: u32,
    pub input_device_name: String,
    pub output_device_name: String,
}

impl Clone for ConnectionSettings {
    fn clone(&self) -> (copy: Self)
        ensures
            copy == *self,
    {
        ConnectionSettings {
            encoding: self.encoding,
            latency: self.latency,
            input_device_name: self.input_device_name.clone(),
            output_device_name: self.output_device_name.clone(),
        }
    }
}

/// The rate that an entry of the bit rate menu stands for.
pub open spec fn chosen_bit_rate(choice: BitrateChoice) -> Bitrate {
    match choice {
        BitrateChoice::Auto => Bitrate::Auto,
        BitrateChoice::Max => Bitrate::Max,
        BitrateChoice::Custom => Bitrate::BitsPerSecond(CUSTOM_BIT_RATE),
    }
}

/// The nearest rate that the slider for a custom bit rate can show.
pub open spec fn on_slider(bits_per_second: int) -> int {
    if bits_per_second < MIN_BIT_RATE {
        MIN_BIT_RATE as int
    } else if bits_per_second > MAX_BIT_RATE {
        MAX_BIT_RATE as int
    } else {
        bits_per_second
    }
}

/// The nearest latency that its slider can show. The bit patterns of numbers without a minus
/// sign are ordered as the numbers are, and a number with one lies below the slider.
pub open spec fn on_latency_slider(latency: u32) -> u32 {
    if latency < MIN_LATENCY || latency >= MINUS_SIGN {
        MIN_LATENCY
    } else if latency > MAX_LATENCY {
        MAX_LATENCY
    } else {
        latency
    }
}

/// A change that the user can make to the settings.
pub enum SettingsChange {
    /// An entry of the application menu is taken.
    Application(Application),
    /// An entry of the bandwidth menu is taken.
    Bandwidth(Bandwidth),
    /// An entry of the bit rate menu is taken.
    BitRate(BitrateChoice),
    /// The slider for a custom bit rate is moved.
    BitRateSlider(i32),
    /// An entry of the signal type menu is taken.
    Signal(Signal),
    /// The latency slider is moved.
    LatencySlider(u32),
    /// An entry of the input device menu is taken.
    InputDevice(String),
}

/// The settings after a change. Without a custom bit rate there is no slider for it.
pub open spec fn changed(
    settings: ConnectionSettings,
    change: SettingsChange,
) -> ConnectionSettings {
    let purpose = settings.encoding->purpose;
    let bandwidth = settings.encoding->bandwidth;
    let bit_rate = settings.encoding->bit_rate;
    let signal_type = settings.encoding->signal_type;
    match change {
        SettingsChange::Application(choice) => ConnectionSettings {
            encoding: AudioEncoding::Opus { purpose: choice, bandwidth, bit_rate, signal_type },
            ..settings
        },
        SettingsChange::Bandwidth(choice) => ConnectionSettings {
            encoding: AudioEncoding::Opus { purpose, bandwidth: choice, bit_rate, signal_type },
            ..settings
        },
        SettingsChange::BitRate(choice) => ConnectionSettings {
            encoding: AudioEncoding::Opus {
                purpose,
                bandwidth,
                bit_rate: chosen_bit_rate(choice),
                signal_type,
            },
            ..settings
        },
        SettingsChange::BitRateSlider(bits_per_second) => if bit_rate is BitsPerSecond {
            ConnectionSettings {
                encoding: AudioEncoding::Opus {
                    purpose,
                    bandwidth,
                    bit_rate: Bitrate::BitsPerSecond(on_slider(bits_per_second as int) as i32),
                    signal_type,
                },
                ..settings
            }
        } else {
            settings
        },
        SettingsChange::Signal(choice) => ConnectionSettings {
            encoding: AudioEncoding::Opus { purpose, bandwidth, bit_rate, signal_type: choice },
            ..settings
        },
        SettingsChange::LatencySlider(latency) => ConnectionSettings {
            latency: on_latency_slider(latency),
            ..settings
        },
        SettingsChange::InputDevice(name) => ConnectionSettings {
            input_device_name: name,
            ..settings
        },
    }
}

/// The settings after a series of changes.
pub open spec fn changed_by_all(
    settings: ConnectionSettings,
    changes: Seq<SettingsChange>,
) -> ConnectionSettings
    decreases changes.len(),
{
    if changes.len() == 0 {
        settings
    } else {
        changed(changed_by_all(settings, changes.drop_last()), changes.last())
    }
}

impl ConnectionSettings {
    /// The latency, and a custom bit rate where there is one, lie on their sliders.
    pub open spec fn in_range(&self) -> bool {
        &&& MIN_LATENCY <= self.latency <= MAX_LATENCY
        &&& match self.encoding->bit_rate {
            Bitrate::BitsPerSecond(rate) => MIN_BIT_RATE <= rate <= MAX_BIT_RATE,
            _ => true,
        }
    }

    /// The settings for a first call on the default devices, by their names.
    pub fn new(input_device_name: String, output_device_name: String) -> (settings: Self)
        ensures
            settings.encoding == (AudioEncoding::Opus {
                purpose: Application::Voip,
                bandwidth: Bandwidth::Auto,
                bit_rate: Bitrate::Auto,
                signal_type: Signal::Voice,
            }),
            settings.latency == DEFAULT_LATENCY,
            settings.input_device_name == input_device_name,
            settings.output_device_name == output_device_name,
            settings.in_range(),
    {
        ConnectionSettings {
            encoding: AudioEncoding::Opus {
                purpose: Application::Voip,
                bandwidth: Bandwidth::Auto,
                bit_rate: Bitrate::Auto,
                signal_type: Signal::Voice,
            },
            latency: DEFAULT_LATENCY,
            input_device_name,
            output_device_name,
        }
    }

    /// Takes an entry of the application menu.
    pub fn choose_application(&mut self, choice: Application)
        ensures
            *final(self) == changed(*old(self), SettingsChange::Application(choice)),
            old(self).in_range() ==> final(self).in_range(),
    {
        let AudioEncoding::Opus { purpose: _, bandwidth, bit_rate, signal_type } = self.encoding;
        self.encoding = AudioEncoding::Opus { purpose: choice, bandwidth, bit_rate, signal_type };
    }

    /// Takes an entry of the bandwidth menu.
    pub fn choose_bandwidth(&mut self, choice: Bandwidth)
        ensures
            *final(self) == changed(*old(self), SettingsChange::Bandwidth(choice)),
            old(self).in_range() ==> final(self).in_range(),
    {
        let AudioEncoding::Opus { purpose, bandwidth: _, bit_rate, signal_type } = self.encoding;
        self.encoding = AudioEncoding::Opus { purpose, bandwidth: choice, bit_rate, signal_type };
    }

    /// Takes an entry of the bit rate menu.
    pub fn choose_bit_rate(&mut self, choice: BitrateChoice)
        ensures
            *final(self) == changed(*old(self), SettingsChange::BitRate(choice)),
            old(self).in_range() ==> final(self).in_range(),
    {
        let AudioEncoding::Opus { purpose, bandwidth, bit_rate: _, signal_type } = self.encoding;
        let bit_rate = match choice {
            BitrateChoice::Auto => Bitrate::Auto,
            BitrateChoice::Max => Bitrate::Max,
            BitrateChoice::Custom => Bitrate::BitsPerSecond(CUSTOM_BIT_RATE),
        };
        self.encoding = AudioEncoding::Opus { purpose, bandwidth, bit_rate, signal_type };
    }

    /// Moves the slider for a custom bit rate. Without a custom rate there is no slider,
    /// and nothing changes.
    pub fn tune_bit_rate(&mut self, bits_per_second: i32)
        ensures
            *final(self) == changed(*old(self), SettingsChange::BitRateSlider(bits_per_second)),
            old(self).in_range() ==> final(self).in_range(),
    {
        let AudioEncoding::Opus { purpose, bandwidth, bit_rate, signal_type } = self.encoding;
        match bit_rate {
            Bitrate::BitsPerSecond(_) => {
                let shown: i32 = if bits_per_second < MIN_BIT_RATE {
                    MIN_BIT_RATE
                } else if bits_per_second > MAX_BIT_RATE {
                    MAX_BIT_RATE
                } else {
                    bits_per_second
                };
                self.encoding = AudioEncoding::Opus {
                    purpose,
                    bandwidth,
                    bit_rate: Bitrate::BitsPerSecond(shown),
                    signal_type,
                };
            },
            Bitrate::Max => {},
            Bitrate::Auto => {},
        }
    }

    /// Moves the latency slider to the latency with this bit pattern.
    pub fn tune_latency(&mut self, latency: u32)
        ensures
            *final(self) == changed(*old(self), SettingsChange::LatencySlider(latency)),
            old(self).in_range() ==> final(self).in_range(),
    {
        self.latency = if latency < MIN_LATENCY || latency >= MINUS_SIGN {
            MIN_LATENCY
        } else if latency > MAX_LATENCY {
            MAX_LATENCY
        } else {
            latency
        };
    }

    /// Takes an entry of the signal type menu.
    pub fn choose_signal_type(&mut self, choice: Signal)
        ensures
            *final(self) == changed(*old(self), SettingsChange::Signal(choice)),
            old(self).in_range() ==> final(self).in_range(),
    {
        let AudioEncoding::Opus { purpose, bandwidth, bit_rate, signal_type: _ } = self.encoding;
        self.encoding = AudioEncoding::Opus { purpose, bandwidth, bit_rate, signal_type: choice };
    }
}

/// Whatever the user changes, and however often, the latency stays on its slider, and so does
/// a custom bit rate.
pub proof fn law_settings_stay_in_range(
    settings: ConnectionSettings,
    changes: Seq<SettingsChange>,
)
    requires
        settings.in_range(),
    ensures
        changed_by_all(settings, changes).in_range(),
    decreases changes.len(),
{
    if changes.len() > 0 {
        law_settings_stay_in_range(settings, changes.drop_last());
    }
}

/// Taking the menu entry for a custom bit rate gives the same rate whatever was set before,
/// and it stays until the bit rate is changed again.
pub proof fn law_a_custom_bit_rate_stays(
    settings: ConnectionSettings,
    later: SettingsChange,
)
    requires
        later !is BitRate,
        later !is BitRateSlider,
    ensures
        ({
            let custom = changed(settings, SettingsChange::BitRate(BitrateChoice::Custom));
            &&& custom.encoding->bit_rate == Bitrate::BitsPerSecond(CUSTOM_BIT_RATE)
            &&& changed(custom, later).encoding->bit_rate == custom.encoding->bit_rate
        }),
{
}

/// A latency between the ends of its slider is taken as it is, one below the slider becomes its
/// lower end and one above it its upper end. A number with a minus sign lies below. Nothing else
/// changes.
pub proof fn law_the_latency_is_the_sliders(settings: ConnectionSettings, latency: u32)
    ensures
        ({
            let after = changed(settings, SettingsChange::LatencySlider(latency));
            &&& 0x3c23_d70a <= latency <= 0x4040_0000 ==> after.latency == latency
            &&& latency <= 0x3c23_d70a ==> after.latency == 0x3c23_d70a
            &&& 0x4040_0000 <= latency < 0x8000_0000 ==> after.latency == 0x4040_0000
            &&& 0x8000_0000 <= latency ==> after.latency == 0x3c23_d70a
            &&& after.encoding == settings.encoding
            &&& after.input_device_name == settings.input_device_name
            &&& after.output_device_name == settings.output_device_name
        }),
{
}

/// Of two places of the latency slider, the higher gives no lower latency.
pub proof fn law_the_latency_follows_the_slider(settings: ConnectionSettings, a: u32, b: u32)
    requires
        a <= b < 0x8000_0000,
    ensures
        changed(settings, SettingsChange::LatencySlider(a)).latency <= changed(
            settings,
            SettingsChange::LatencySlider(b),
        ).latency,
{
}

/// Where there is a custom bit rate, a rate between the ends of its slider is taken as it is,
/// one below becomes the lower end and one above the upper end. Where there is none, the slider
/// does nothing. Nothing else changes.
pub proof fn law_the_bit_rate_is_the_sliders(settings: ConnectionSettings, rate: i32)
    ensures
        ({
            let after = changed(settings, SettingsChange::BitRateSlider(rate));
            let shown = after.encoding->bit_rate;
            &&& settings.encoding->bit_rate !is BitsPerSecond ==> after == settings
            &&& settings.encoding->bit_rate is BitsPerSecond ==> {
                &&& shown is BitsPerSecond
                &&& 1_000 <= rate <= 256_000 ==> shown->BitsPerSecond_0 == rate
                &&& rate <= 1_000 ==> shown->BitsPerSecond_0 == 1_000
                &&& rate >= 256_000 ==> shown->BitsPerSecond_0 == 256_000
            }
            &&& after.encoding->purpose == settings.encoding->purpose
            &&& after.encoding->bandwidth == settings.encoding->bandwidth
            &&& after.encoding->signal_type == settings.encoding->signal_type
            &&& after.latency == settings.latency
            &&& after.input_device_name == settings.input_device_name
            &&& after.output_device_name == settings.output_device_name
        }),
{
}

/// What is taken from a menu is set, whatever was set before.
pub proof fn law_a_choice_is_set(
    settings: ConnectionSettings,
    application: Application,
    bandwidth: Bandwidth,
    signal: Signal,
    name: String,
)
    ensures
        changed(settings, SettingsChange::Application(application)).encoding->purpose
            == application,
        changed(settings, SettingsChange::Bandwidth(bandwidth)).encoding->bandwidth == bandwidth,
        changed(settings, SettingsChange::Signal(signal)).encoding->signal_type == signal,
        changed(settings, SettingsChange::InputDevice(name)).input_device_name == name,
        changed(settings, SettingsChange::BitRate(BitrateChoice::Auto)).encoding->bit_rate is Auto,
        changed(settings, SettingsChange::BitRate(BitrateChoice::Max)).encoding->bit_rate is Max,
        changed(settings, SettingsChange::BitRate(BitrateChoice::Custom)).encoding->bit_rate
            == Bitrate::BitsPerSecond(98_000),
{
}

/// A change leaves alone whatever it is not a change of.
pub proof fn law_a_change_changes_one_thing(settings: ConnectionSettings, change: SettingsChange)
    ensures
        ({
            let after = changed(settings, change);
            &&& change !is Application ==> after.encoding->purpose == settings.encoding->purpose
            &&& change !is Bandwidth ==> after.encoding->bandwidth == settings.encoding->bandwidth
            &&& change !is BitRate && change !is BitRateSlider ==> after.encoding->bit_rate
                == settings.encoding->bit_rate
            &&& change !is Signal ==> after.encoding->signal_type == settings.encoding->signal_type
            &&& change !is LatencySlider ==> after.latency == settings.latency
            &&& change !is InputDevice ==> after.input_device_name == settings.input_device_name
            &&& after.output_device_name == settings.output_device_name
        }),
{
}

/// The settings are in range exactly when the latency lies between 0.01 and 3.0 seconds, by
/// their bit patterns, and a custom bit rate, where there is one, between 1000 and 256000.
pub proof fn law_range(settings: ConnectionSettings)
    ensures
        settings.in_range() <==> 0x3c23_d70a <= settings.latency <= 0x4040_0000 && (
        settings.encoding->bit_rate is BitsPerSecond ==> 1_000
            <= settings.encoding->bit_rate->BitsPerSecond_0 <= 256_000),
{
}

/// The latency that a call starts with is 0.1 seconds, by its bit pattern, and lies on the
/// slider; so does the rate of the menu entry for a custom bit rate.
pub proof fn law_first_values_lie_on_their_sliders()
    ensures
        DEFAULT_LATENCY == 0x3dcc_cccd,
        MIN_LATENCY < DEFAULT_LATENCY < MAX_LATENCY,
        MIN_BIT_RATE < CUSTOM_BIT_RATE < MAX_BIT_RATE,
{
}

} // verus!
