//! The settings of the application, and the file that keeps them.

use crate::binary;
use crate::decimal;
use crate::readings::Readings;
use crate::text;
use vstd::arithmetic::power2;
use vstd::prelude::*;

verus! {

/// 1, in binary32.
pub const FULL: u32 = 0x3f80_0000;

/// 360, in binary32.
pub const CIRCLE: u32 = 0x43b4_0000;

/// The settings. Colours are binary32 numbers, by their bits.
#[derive(Debug)]
pub struct Settings {
    pub theme: String,
    pub accent: String,
    pub custom_colors: bool,
    pub custom_background_hue: u32,
    pub custom_background_saturation: u32,
    pub custom_background_value: u32,
    pub custom_accent_hue: u32,
    pub custom_accent_saturation: u32,
    pub custom_accent_value: u32,
    pub compact_ui: bool,
    pub reduce_animations: bool,
    pub start_with_system: bool,
    pub start_minimized: bool,
    pub close_to_tray: bool,
    pub check_updates: bool,
    pub pause_hidden: bool,
    pub disable_unfocused_animations: bool,
    pub polling_interval: String,
    pub low_power_mode: bool,
    pub show_diagnostics: bool,
}

/// What settings say.
pub struct Preferences {
    pub theme: Seq<char>,
    pub accent: Seq<char>,
    pub custom_colors: bool,
    pub custom_background_hue: u32,
    pub custom_background_saturation: u32,
    pub custom_background_value: u32,
    pub custom_accent_hue: u32,
    pub custom_accent_saturation: u32,
    pub custom_accent_value: u32,
    pub compact_ui: bool,
    pub reduce_animations: bool,
    pub start_with_system: bool,
    pub start_minimized: bool,
    pub close_to_tray: bool,
    pub check_updates: bool,
    pub pause_hidden: bool,
    pub disable_unfocused_animations: bool,
    pub polling_interval: Seq<char>,
    pub low_power_mode: bool,
    pub show_diagnostics: bool,
}

impl View for Settings {
    type V = Preferences;

    open spec fn view(&self) -> Preferences {
        Preferences {
            theme: self.theme@,
            accent: self.accent@,
            custom_colors: self.custom_colors,
            custom_background_hue: self.custom_background_hue,
            custom_background_saturation: self.custom_background_saturation,
            custom_background_value: self.custom_background_value,
            custom_accent_hue: self.custom_accent_hue,
            custom_accent_saturation: self.custom_accent_saturation,
            custom_accent_value: self.custom_accent_value,
            compact_ui: self.compact_ui,
            reduce_animations: self.reduce_animations,
            start_with_system: self.start_with_system,
            start_minimized: self.start_minimized,
            close_to_tray: self.close_to_tray,
            check_updates: self.check_updates,
            pause_hidden: self.pause_hidden,
            disable_unfocused_animations: self.disable_unfocused_animations,
            polling_interval: self.polling_interval@,
            low_power_mode: self.low_power_mode,
            show_diagnostics: self.show_diagnostics,
        }
    }
}

impl Clone for Settings {
    fn clone(&self) -> (settings: Settings)
        ensures
            settings@ == self@,
    {
        Settings {
            theme: self.theme.clone(),
            accent: self.accent.clone(),
            custom_colors: self.custom_colors,
            custom_background_hue: self.custom_background_hue,
            custom_background_saturation: self.custom_background_saturation,
            custom_background_value: self.custom_background_value,
            custom_accent_hue: self.custom_accent_hue,
            custom_accent_saturation: self.custom_accent_saturation,
            custom_accent_value: self.custom_accent_value,
            compact_ui: self.compact_ui,
            reduce_animations: self.reduce_animations,
            start_with_system: self.start_with_system,
            start_minimized: self.start_minimized,
            close_to_tray: self.close_to_tray,
            check_updates: self.check_updates,
            pause_hidden: self.pause_hidden,
            disable_unfocused_animations: self.disable_unfocused_animations,
            polling_interval: self.polling_interval.clone(),
            low_power_mode: self.low_power_mode,
            show_diagnostics: self.show_diagnostics,
        }
    }
}

// ---- values ----

/// A boolean as it is written, or the fallback.
#[verifier::opaque]
pub open spec fn boolean(value: Seq<char>, fallback: bool) -> bool {
    if value == "true"@ {
        true
    } else if value == "false"@ {
        false
    } else {
        fallback
    }
}

pub fn parse_bool(value: &str, fallback: bool) -> (parsed: bool)
    ensures
        parsed == boolean(value@, fallback),
{
    proof {
        reveal(boolean);
    }
    if text::same_text(value, "true") {
        true
    } else if text::same_text(value, "false") {
        false
    } else {
        fallback
    }
}

/// A number brought into a range.
pub open spec fn clamped(number: u32, minimum: u32, maximum: u32) -> u32 {
    if binary::below32(number, minimum) {
        minimum
    } else if binary::below32(maximum, number) {
        maximum
    } else {
        number
    }
}

/// A finite number as it is written, brought into its range, or the fallback.
#[verifier::opaque]
pub open spec fn number(
    value: Seq<char>,
    readings: Readings,
    fallback: u32,
    minimum: u32,
    maximum: u32,
) -> u32 {
    match readings.single_of(value) {
        Some(bits) => if binary::is_finite32(bits) {
            clamped(bits, minimum, maximum)
        } else {
            fallback
        },
        None => fallback,
    }
}

pub fn parse_float(
    value: &str,
    readings: &Readings,
    fallback: u32,
    minimum: u32,
    maximum: u32,
) -> (parsed: u32)
    ensures
        parsed == number(value@, *readings, fallback, minimum, maximum),
{
    proof {
        reveal(number);
    }
    match readings.single(value) {
        Some(bits) => if binary::finite32(bits) {
            if binary::lt32(bits, minimum) {
                minimum
            } else if binary::lt32(maximum, bits) {
                maximum
            } else {
                bits
            }
        } else {
            fallback
        },
        None => fallback,
    }
}

/// The values of `theme`.
#[verifier::opaque]
pub open spec fn is_theme(value: Seq<char>) -> bool {
    value == "System"@ || value == "Light"@ || value == "Dark"@
}

fn names_theme(value: &str) -> (is: bool)
    ensures
        is == is_theme(value@),
{
    proof {
        reveal(is_theme);
    }
    text::same_text(value, "System") || text::same_text(value, "Light") || text::same_text(value, "Dark")
}

/// The values of `accent`.
#[verifier::opaque]
pub open spec fn is_accent(value: Seq<char>) -> bool {
    value == "Blue"@ || value == "Amber"@ || value == "Mint"@
}

fn names_accent(value: &str) -> (is: bool)
    ensures
        is == is_accent(value@),
{
    proof {
        reveal(is_accent);
    }
    text::same_text(value, "Blue") || text::same_text(value, "Amber") || text::same_text(value, "Mint")
}

/// The values of `polling_interval`.
#[verifier::opaque]
pub open spec fn is_polling_interval(value: Seq<char>) -> bool {
    value == "Auto"@ || value == "Low"@ || value == "High"@
}

fn names_polling_interval(value: &str) -> (is: bool)
    ensures
        is == is_polling_interval(value@),
{
    proof {
        reveal(is_polling_interval);
    }
    text::same_text(value, "Auto") || text::same_text(value, "Low") || text::same_text(value, "High")
}

// ---- names ----

/// The names of the settings.
#[derive(Clone, Copy, Debug, PartialEq, Eq, Structural)]
pub enum Key {
    Theme,
    Accent,
    CustomColors,
    CustomBackgroundHue,
    CustomBackgroundSaturation,
    CustomBackgroundValue,
    CustomAccentHue,
    CustomAccentSaturation,
    CustomAccentValue,
    CompactUi,
    ReduceAnimations,
    StartWithSystem,
    StartMinimized,
    CloseToTray,
    CheckUpdates,
    PauseHidden,
    DisableUnfocusedAnimations,
    PollingInterval,
    LowPowerMode,
    ShowDiagnostics,
}

impl Key {
    /// The name in the file.
    pub open spec fn name(self) -> Seq<char> {
        match self {
            Key::Theme => "theme"@,
            Key::Accent => "accent"@,
            Key::CustomColors => "custom_colors"@,
            Key::CustomBackgroundHue => "custom_background_hue"@,
            Key::CustomBackgroundSaturation => "custom_background_saturation"@,
            Key::CustomBackgroundValue => "custom_background_value"@,
            Key::CustomAccentHue => "custom_accent_hue"@,
            Key::CustomAccentSaturation => "custom_accent_saturation"@,
            Key::CustomAccentValue => "custom_accent_value"@,
            Key::CompactUi => "compact_ui"@,
            Key::ReduceAnimations => "reduce_animations"@,
            Key::StartWithSystem => "start_with_system"@,
            Key::StartMinimized => "start_minimized"@,
            Key::CloseToTray => "close_to_tray"@,
            Key::CheckUpdates => "check_updates"@,
            Key::PauseHidden => "pause_hidden"@,
            Key::DisableUnfocusedAnimations => "disable_unfocused_animations"@,
            Key::PollingInterval => "polling_interval"@,
            Key::LowPowerMode => "low_power_mode"@,
            Key::ShowDiagnostics => "show_diagnostics"@,
        }
    }

    /// The setting that comes at some place in the file.
    pub open spec fn at(place: int) -> Key {
        if place == 0 {
            Key::Theme
        } else if place == 1 {
            Key::Accent
        } else if place == 2 {
            Key::CustomColors
        } else if place == 3 {
            Key::CustomBackgroundHue
        } else if place == 4 {
            Key::CustomBackgroundSaturation
        } else if place == 5 {
            Key::CustomBackgroundValue
        } else if place == 6 {
            Key::CustomAccentHue
        } else if place == 7 {
            Key::CustomAccentSaturation
        } else if place == 8 {
            Key::CustomAccentValue
        } else if place == 9 {
            Key::CompactUi
        } else if place == 10 {
            Key::ReduceAnimations
        } else if place == 11 {
            Key::StartWithSystem
        } else if place == 12 {
            Key::StartMinimized
        } else if place == 13 {
            Key::CloseToTray
        } else if place == 14 {
            Key::CheckUpdates
        } else if place == 15 {
            Key::PauseHidden
        } else if place == 16 {
            Key::DisableUnfocusedAnimations
        } else if place == 17 {
            Key::PollingInterval
        } else if place == 18 {
            Key::LowPowerMode
        } else {
            Key::ShowDiagnostics
        }
    }

    /// The setting that comes at some place in the file.
    fn placed(place: usize) -> (key: Key)
        ensures
            key == Key::at(place as int),
    {
        match place {
            0 => Key::Theme,
            1 => Key::Accent,
            2 => Key::CustomColors,
            3 => Key::CustomBackgroundHue,
            4 => Key::CustomBackgroundSaturation,
            5 => Key::CustomBackgroundValue,
            6 => Key::CustomAccentHue,
            7 => Key::CustomAccentSaturation,
            8 => Key::CustomAccentValue,
            9 => Key::CompactUi,
            10 => Key::ReduceAnimations,
            11 => Key::StartWithSystem,
            12 => Key::StartMinimized,
            13 => Key::CloseToTray,
            14 => Key::CheckUpdates,
            15 => Key::PauseHidden,
            16 => Key::DisableUnfocusedAnimations,
            17 => Key::PollingInterval,
            18 => Key::LowPowerMode,
            _ => Key::ShowDiagnostics,
        }
    }

    fn text(self) -> (name: &'static str)
        ensures
            name@ == self.name(),
    {
        match self {
            Key::Theme => "theme",
            Key::Accent => "accent",
            Key::CustomColors => "custom_colors",
            Key::CustomBackgroundHue => "custom_background_hue",
            Key::CustomBackgroundSaturation => "custom_background_saturation",
            Key::CustomBackgroundValue => "custom_background_value",
            Key::CustomAccentHue => "custom_accent_hue",
            Key::CustomAccentSaturation => "custom_accent_saturation",
            Key::CustomAccentValue => "custom_accent_value",
            Key::CompactUi => "compact_ui",
            Key::ReduceAnimations => "reduce_animations",
            Key::StartWithSystem => "start_with_system",
            Key::StartMinimized => "start_minimized",
            Key::CloseToTray => "close_to_tray",
            Key::CheckUpdates => "check_updates",
            Key::PauseHidden => "pause_hidden",
            Key::DisableUnfocusedAnimations => "disable_unfocused_animations",
            Key::PollingInterval => "polling_interval",
            Key::LowPowerMode => "low_power_mode",
            Key::ShowDiagnostics => "show_diagnostics",
        }
    }
}

/// The place of the setting with this name, from `from` on.
pub open spec fn place_of(name: Seq<char>, from: int) -> Option<int>
    decreases 20 - from,
{
    if from < 0 || from >= 20 {
        None
    } else if Key::at(from).name() == name {
        Some(from)
    } else {
        place_of(name, from + 1)
    }
}

/// The setting with this name.
pub open spec fn key_of(name: Seq<char>) -> Option<Key> {
    match place_of(name, 0) {
        Some(place) => Some(Key::at(place)),
        None => None,
    }
}

fn find_key(name: &str) -> (key: Option<Key>)
    ensures
        key == key_of(name@),
{
    let mut place: usize = 0;
    while place < 20
        invariant
            place <= 20,
            place_of(name@, 0) == place_of(name@, place as int),
        decreases 20 - place,
    {
        let key = Key::placed(place);
        if text::same_text(key.text(), name) {
            return Some(key);
        }
        place = place + 1;
    }
    None
}

// ---- reading ----

impl Preferences {
    /// The settings that the application starts with.
    pub open spec fn defaults(close_to_tray: bool) -> Preferences {
        Preferences {
            theme: "System"@,
            accent: "Blue"@,
            custom_colors: false,
            custom_background_hue: 0x4354_0000,
            custom_background_saturation: 0x3dcc_cccd,
            custom_background_value: 0x3f75_c28f,
            custom_accent_hue: 0x4354_0000,
            custom_accent_saturation: 0x3ed7_0a3d,
            custom_accent_value: 0x3f5c_28f6,
            compact_ui: false,
            reduce_animations: false,
            start_with_system: false,
            start_minimized: false,
            close_to_tray,
            check_updates: true,
            pause_hidden: true,
            disable_unfocused_animations: false,
            polling_interval: "Auto"@,
            low_power_mode: false,
            show_diagnostics: false,
        }
    }

    /// The settings with one entry of the file taken over. An entry with an unknown name, or
    /// with a value that its name does not take, changes nothing.
    pub open spec fn with_entry(
        self,
        name: Seq<char>,
        value: Seq<char>,
        readings: Readings,
    ) -> Preferences {
        match key_of(name) {
            None => self,
            Some(key) => self.with_value(key, value, readings),
        }
    }

    /// The settings with one value taken over.
    pub open spec fn with_value(self, key: Key, value: Seq<char>, readings: Readings) -> Preferences {
        match key {
            Key::Theme => if is_theme(value) {
                Preferences { theme: value, ..self }
            } else {
                self
            },
            Key::Accent => if is_accent(value) {
                Preferences { accent: value, ..self }
            } else {
                self
            },
            Key::CustomColors => Preferences {
                custom_colors: boolean(value, self.custom_colors),
                ..self
            },
            Key::CustomBackgroundHue => Preferences {
                custom_background_hue: number(value, readings, self.custom_background_hue, 0, CIRCLE),
                ..self
            },
            Key::CustomBackgroundSaturation => Preferences {
                custom_background_saturation: number(value, readings, self.custom_background_saturation, 0, FULL),
                ..self
            },
            Key::CustomBackgroundValue => Preferences {
                custom_background_value: number(value, readings, self.custom_background_value, 0, FULL),
                ..self
            },
            Key::CustomAccentHue => Preferences {
                custom_accent_hue: number(value, readings, self.custom_accent_hue, 0, CIRCLE),
                ..self
            },
            Key::CustomAccentSaturation => Preferences {
                custom_accent_saturation: number(value, readings, self.custom_accent_saturation, 0, FULL),
                ..self
            },
            Key::CustomAccentValue => Preferences {
                custom_accent_value: number(value, readings, self.custom_accent_value, 0, FULL),
                ..self
            },
            Key::CompactUi => Preferences {
                compact_ui: boolean(value, self.compact_ui),
                ..self
            },
            Key::ReduceAnimations => Preferences {
                reduce_animations: boolean(value, self.reduce_animations),
                ..self
            },
            Key::StartWithSystem => Preferences {
                start_with_system: boolean(value, self.start_with_system),
                ..self
            },
            Key::StartMinimized => Preferences {
                start_minimized: boolean(value, self.start_minimized),
                ..self
            },
            Key::CloseToTray => Preferences {
                close_to_tray: boolean(value, self.close_to_tray),
                ..self
            },
            Key::CheckUpdates => Preferences {
                check_updates: boolean(value, self.check_updates),
                ..self
            },
            Key::PauseHidden => Preferences {
                pause_hidden: boolean(value, self.pause_hidden),
                ..self
            },
            Key::DisableUnfocusedAnimations => Preferences {
                disable_unfocused_animations: boolean(value, self.disable_unfocused_animations),
                ..self
            },
            Key::PollingInterval => if is_polling_interval(value) {
                Preferences { polling_interval: value, ..self }
            } else {
                self
            },
            Key::LowPowerMode => Preferences {
                low_power_mode: boolean(value, self.low_power_mode),
                ..self
            },
            Key::ShowDiagnostics => Preferences {
                show_diagnostics: boolean(value, self.show_diagnostics),
                ..self
            },
        }
    }

    /// The settings with one line of the file taken over.
    pub open spec fn with_line(self, line: Seq<char>, readings: Readings) -> Preferences {
        match text::split_at_first(line, '=') {
            Some((key, value)) => self.with_entry(key, value, readings),
            None => self,
        }
    }

    /// The settings with some lines of the file taken over, in order.
    pub open spec fn with_lines(self, lines: Seq<Seq<char>>, readings: Readings) -> Preferences
        decreases lines.len(),
    {
        if lines.len() == 0 {
            self
        } else {
            self.with_lines(lines.drop_last(), readings).with_line(lines.last(), readings)
        }
    }
}

impl Settings {
    /// The settings that the application starts with.
    pub fn defaults_for(close_to_tray: bool) -> (settings: Settings)
        ensures
            settings@ == Preferences::defaults(close_to_tray),
    {
        Settings {
            theme: "System".to_owned(),
            accent: "Blue".to_owned(),
            custom_colors: false,
            custom_background_hue: 0x4354_0000,
            custom_background_saturation: 0x3dcc_cccd,
            custom_background_value: 0x3f75_c28f,
            custom_accent_hue: 0x4354_0000,
            custom_accent_saturation: 0x3ed7_0a3d,
            custom_accent_value: 0x3f5c_28f6,
            compact_ui: false,
            reduce_animations: false,
            start_with_system: false,
            start_minimized: false,
            close_to_tray,
            check_updates: true,
            pause_hidden: true,
            disable_unfocused_animations: false,
            polling_interval: "Auto".to_owned(),
            low_power_mode: false,
            show_diagnostics: false,
        }
    }

    /// Takes over the value of a choice. Whether it was one of them.
    #[verifier::spinoff_prover]
    #[verifier::rlimit(40)]
    fn take_choice(&mut self, key: Key, value: &str) -> (taken: bool)
        ensures
            taken ==> forall|readings: Readings|
                final(self)@ == #[trigger] old(self)@.with_value(key, value@, readings),
            !taken ==> final(self)@ == old(self)@,
            taken == (key is Theme || key is Accent || key is PollingInterval),
    {
        match key {
            Key::Theme => {
                if names_theme(value) {
                    self.theme = value.to_owned();
                }
            },
            Key::Accent => {
                if names_accent(value) {
                    self.accent = value.to_owned();
                }
            },
            Key::PollingInterval => {
                if names_polling_interval(value) {
                    self.polling_interval = value.to_owned();
                }
            },
            _ => {
                return false;
            },
        }
        true
    }

    /// Takes over one of the switches of the appearance and the start. Whether it was one of them.
    #[verifier::spinoff_prover]
    #[verifier::rlimit(40)]
    fn take_appearance(&mut self, key: Key, value: &str) -> (taken: bool)
        ensures
            taken ==> forall|readings: Readings|
                final(self)@ == #[trigger] old(self)@.with_value(key, value@, readings),
            !taken ==> final(self)@ == old(self)@,
            taken == (key is CustomColors || key is CompactUi || key is ReduceAnimations || key is StartWithSystem || key is StartMinimized || key is CloseToTray),
    {
        match key {
            Key::CustomColors => {
                self.custom_colors = parse_bool(value, self.custom_colors);
            },
            Key::CompactUi => {
                self.compact_ui = parse_bool(value, self.compact_ui);
            },
            Key::ReduceAnimations => {
                self.reduce_animations = parse_bool(value, self.reduce_animations);
            },
            Key::StartWithSystem => {
                self.start_with_system = parse_bool(value, self.start_with_system);
            },
            Key::StartMinimized => {
                self.start_minimized = parse_bool(value, self.start_minimized);
            },
            Key::CloseToTray => {
                self.close_to_tray = parse_bool(value, self.close_to_tray);
            },
            _ => {
                return false;
            },
        }
        true
    }

    /// Takes over one of the other switches. Whether it was one of them.
    #[verifier::spinoff_prover]
    #[verifier::rlimit(40)]
    fn take_behaviour(&mut self, key: Key, value: &str) -> (taken: bool)
        ensures
            taken ==> forall|readings: Readings|
                final(self)@ == #[trigger] old(self)@.with_value(key, value@, readings),
            !taken ==> final(self)@ == old(self)@,
            taken == (key is CheckUpdates || key is PauseHidden || key is DisableUnfocusedAnimations || key is LowPowerMode || key is ShowDiagnostics),
    {
        match key {
            Key::CheckUpdates => {
                self.check_updates = parse_bool(value, self.check_updates);
            },
            Key::PauseHidden => {
                self.pause_hidden = parse_bool(value, self.pause_hidden);
            },
            Key::DisableUnfocusedAnimations => {
                self.disable_unfocused_animations = parse_bool(value, self.disable_unfocused_animations);
            },
            Key::LowPowerMode => {
                self.low_power_mode = parse_bool(value, self.low_power_mode);
            },
            Key::ShowDiagnostics => {
                self.show_diagnostics = parse_bool(value, self.show_diagnostics);
            },
            _ => {
                return false;
            },
        }
        true
    }

    /// Takes over the value of a colour. Whether it was one of them.
    fn take_colour(&mut self, key: Key, value: &str, readings: &Readings) -> (taken: bool)
        ensures
            taken ==> final(self)@ == old(self)@.with_value(key, value@, *readings),
            !taken ==> final(self)@ == old(self)@,
            taken == (key is CustomBackgroundHue || key is CustomBackgroundSaturation || key is CustomBackgroundValue || key is CustomAccentHue || key is CustomAccentSaturation || key is CustomAccentValue),
    {
        match key {
            Key::CustomBackgroundHue => {
                self.custom_background_hue = parse_float(
                    value,
                    readings,
                    self.custom_background_hue,
                    0,
                    CIRCLE,
                );
            },
            Key::CustomBackgroundSaturation => {
                self.custom_background_saturation = parse_float(
                    value,
                    readings,
                    self.custom_background_saturation,
                    0,
                    FULL,
                );
            },
            Key::CustomBackgroundValue => {
                self.custom_background_value = parse_float(
                    value,
                    readings,
                    self.custom_background_value,
                    0,
                    FULL,
                );
            },
            Key::CustomAccentHue => {
                self.custom_accent_hue = parse_float(
                    value,
                    readings,
                    self.custom_accent_hue,
                    0,
                    CIRCLE,
                );
            },
            Key::CustomAccentSaturation => {
                self.custom_accent_saturation = parse_float(
                    value,
                    readings,
                    self.custom_accent_saturation,
                    0,
                    FULL,
                );
            },
            Key::CustomAccentValue => {
                self.custom_accent_value = parse_float(
                    value,
                    readings,
                    self.custom_accent_value,
                    0,
                    FULL,
                );
            },
            _ => {
                return false;
            },
        }
        true
    }

    fn take_value(&mut self, key: Key, value: &str, readings: &Readings)
        ensures
            final(self)@ == old(self)@.with_value(key, value@, *readings),
    {
        let taken = self.take_choice(key, value) || self.take_appearance(key, value)
            || self.take_behaviour(key, value) || self.take_colour(key, value, readings);
        assert(taken);
    }

    fn take_entry(&mut self, name: &str, value: &str, readings: &Readings)
        ensures
            final(self)@ == old(self)@.with_entry(name@, value@, *readings),
    {
        match find_key(name) {
            Some(key) => self.take_value(key, value, readings),
            None => {},
        }
    }

    /// The settings with the contents of the file taken over.
    pub fn parse(contents: &str, readings: &Readings, defaults: Settings) -> (settings: Settings)
        ensures
            settings@ == defaults@.with_lines(text::lines(contents@), *readings),
    {
        let mut settings = defaults;
        let lines = text::lines_of(contents);
        let ghost all = text::lines(contents@);
        let mut i: usize = 0;
        while i < lines.len()
            invariant
                i <= lines@.len(),
                all == text::texts(lines@),
                settings@ == defaults@.with_lines(all.take(i as int), *readings),
            decreases lines@.len() - i,
        {
            assert(all.take(i + 1).drop_last() =~= all.take(i as int));
            assert(all.take(i + 1).last() == lines@[i as int]@);
            match text::split_once(lines[i].as_str(), '=') {
                Some((key, value)) => {
                    settings.take_entry(key.as_str(), value.as_str(), readings);
                },
                None => {},
            }
            i = i + 1;
        }
        assert(all.take(i as int) =~= all);
        settings
    }
}

// ---- the colours of a file ----

/// The setting is a colour.
pub open spec fn is_colour(key: Key) -> bool {
    ||| key is CustomBackgroundHue
    ||| key is CustomBackgroundSaturation
    ||| key is CustomBackgroundValue
    ||| key is CustomAccentHue
    ||| key is CustomAccentSaturation
    ||| key is CustomAccentValue
}

/// The value on a line, where it is that of a colour.
pub open spec fn colour_value(line: Seq<char>) -> Option<Seq<char>> {
    match text::split_at_first(line, '=') {
        Some((name, value)) => match key_of(name) {
            Some(key) => if is_colour(key) {
                Some(value)
            } else {
                None
            },
            None => None,
        },
        None => None,
    }
}

/// The values of the colours on some lines.
pub open spec fn colour_values(lines: Seq<Seq<char>>) -> Seq<Seq<char>>
    decreases lines.len(),
{
    if lines.len() == 0 {
        Seq::empty()
    } else {
        match colour_value(lines.last()) {
            Some(value) => colour_values(lines.drop_last()).push(value),
            None => colour_values(lines.drop_last()),
        }
    }
}

fn colour(key: Key) -> (is: bool)
    ensures
        is == is_colour(key),
{
    match key {
        Key::CustomBackgroundHue
        | Key::CustomBackgroundSaturation
        | Key::CustomBackgroundValue
        | Key::CustomAccentHue
        | Key::CustomAccentSaturation
        | Key::CustomAccentValue => true,
        _ => false,
    }
}

fn colour_on(line: &str) -> (value: Option<String>)
    ensures
        match value {
            Some(v) => colour_value(line@) == Some(v@),
            None => colour_value(line@) is None,
        },
{
    match text::split_once(line, '=') {
        Some((name, value)) => match find_key(name.as_str()) {
            Some(key) => if colour(key) {
                Some(value)
            } else {
                None
            },
            None => None,
        },
        None => None,
    }
}

/// The first contents from `from` on that could be read.
pub open spec fn first_readable(contents: Seq<Option<String>>, from: int) -> Option<int>
    decreases contents.len() - from,
{
    if from < 0 || from >= contents.len() {
        None
    } else if contents[from] is Some {
        Some(from)
    } else {
        first_readable(contents, from + 1)
    }
}

/// The first contents that could be read.
pub fn readable(contents: &Vec<Option<String>>) -> (place: Option<usize>)
    ensures
        match place {
            Some(i) => i < contents@.len() && contents@[i as int] is Some && first_readable(
                contents@,
                0,
            ) == Some(i as int),
            None => first_readable(contents@, 0) is None,
        },
{
    let mut i: usize = 0;
    while i < contents.len()
        invariant
            i <= contents@.len(),
            first_readable(contents@, 0) == first_readable(contents@, i as int),
        decreases contents@.len() - i,
    {
        if contents[i].is_some() {
            return Some(i);
        }
        i = i + 1;
    }
    None
}

/// The settings by the contents of the files that they may be in, in order; there are none
/// where a file could not be read.
pub open spec fn loaded(
    contents: Seq<Option<String>>,
    readings: Readings,
    close_to_tray: bool,
) -> Preferences {
    match first_readable(contents, 0) {
        Some(i) => Preferences::defaults(close_to_tray).with_lines(
            text::lines(contents[i]->0@),
            readings,
        ),
        None => Preferences::defaults(close_to_tray),
    }
}

impl Settings {
    /// The settings by the contents of the files that they may be in.
    pub fn load(contents: &Vec<Option<String>>, readings: &Readings, close_to_tray: bool) -> (
        settings: Settings)
        ensures
            settings@ == loaded(contents@, *readings, close_to_tray),
    {
        let defaults = Settings::defaults_for(close_to_tray);
        match readable(contents) {
            Some(i) => match &contents[i] {
                Some(text) => Settings::parse(text.as_str(), readings, defaults),
                None => defaults,
            },
            None => defaults,
        }
    }
}

/// The texts in the contents of the file that are to be read as numbers.
pub fn settings_numbers(contents: &str) -> (list: Vec<String>)
    ensures
        text::texts(list@) == colour_values(text::lines(contents@)),
{
    let lines = text::lines_of(contents);
    let ghost all = text::lines(contents@);
    let mut list: Vec<String> = Vec::new();
    let mut i: usize = 0;
    assert(text::texts(list@) =~= colour_values(all.take(0)));
    while i < lines.len()
        invariant
            i <= lines@.len(),
            all == text::texts(lines@),
            text::texts(list@) == colour_values(all.take(i as int)),
        decreases lines@.len() - i,
    {
        assert(all.take(i + 1).drop_last() =~= all.take(i as int));
        assert(all.take(i + 1).last() == lines@[i as int]@);
        let ghost before = text::texts(list@);
        match colour_on(lines[i].as_str()) {
            Some(value) => {
                let ghost added = value@;
                list.push(value);
                assert(text::texts(list@) =~= before.push(added));
            },
            None => {},
        }
        i = i + 1;
    }
    assert(all.take(i as int) =~= all);
    list
}

// ---- writing ----

/// A boolean as it is written.
pub open spec fn boolean_text(value: bool) -> Seq<char> {
    if value {
        "true"@
    } else {
        "false"@
    }
}

fn bool_text(value: bool) -> (text: &'static str)
    ensures
        text@ == boolean_text(value),
{
    if value {
        "true"
    } else {
        "false"
    }
}

/// One line of the file.
pub open spec fn entry_line(key: Seq<char>, value: Seq<char>) -> Seq<char> {
    key + seq!['='] + value + seq!['\n']
}

fn push_entry(out: &mut String, key: &str, value: &str)
    ensures
        final(out)@ == old(out)@ + entry_line(key@, value@),
{
    let ghost before = out@;
    out.append(key);
    out.push('=');
    out.append(value);
    out.push('\n');
    assert(out@ =~= before + entry_line(key@, value@));
}

impl Preferences {
    /// One value, as it is written. Hues have two decimal places, the other colours four.
    pub open spec fn value(self, key: Key) -> Seq<char> {
        match key {
            Key::Theme => self.theme,
            Key::Accent => self.accent,
            Key::CustomColors => boolean_text(self.custom_colors),
            Key::CustomBackgroundHue => decimal::fixed32(self.custom_background_hue, 2),
            Key::CustomBackgroundSaturation => decimal::fixed32(self.custom_background_saturation, 4),
            Key::CustomBackgroundValue => decimal::fixed32(self.custom_background_value, 4),
            Key::CustomAccentHue => decimal::fixed32(self.custom_accent_hue, 2),
            Key::CustomAccentSaturation => decimal::fixed32(self.custom_accent_saturation, 4),
            Key::CustomAccentValue => decimal::fixed32(self.custom_accent_value, 4),
            Key::CompactUi => boolean_text(self.compact_ui),
            Key::ReduceAnimations => boolean_text(self.reduce_animations),
            Key::StartWithSystem => boolean_text(self.start_with_system),
            Key::StartMinimized => boolean_text(self.start_minimized),
            Key::CloseToTray => boolean_text(self.close_to_tray),
            Key::CheckUpdates => boolean_text(self.check_updates),
            Key::PauseHidden => boolean_text(self.pause_hidden),
            Key::DisableUnfocusedAnimations => boolean_text(self.disable_unfocused_animations),
            Key::PollingInterval => self.polling_interval,
            Key::LowPowerMode => boolean_text(self.low_power_mode),
            Key::ShowDiagnostics => boolean_text(self.show_diagnostics),
        }
    }

    /// The first `n` lines of the file.
    pub open spec fn first_lines(self, n: nat) -> Seq<char>
        decreases n,
    {
        if n == 0 {
            Seq::empty()
        } else {
            let key = Key::at(n - 1);
            self.first_lines((n - 1) as nat) + entry_line(key.name(), self.value(key))
        }
    }

    /// The contents of the file.
    pub open spec fn file(self) -> Seq<char> {
        self.first_lines(20)
    }
}

impl Settings {
    fn value_text(&self, key: Key) -> (text: String)
        ensures
            text@ == self@.value(key),
    {
        match key {
            Key::Theme => self.theme.clone(),
            Key::Accent => self.accent.clone(),
            Key::CustomColors => bool_text(self.custom_colors).to_owned(),
            Key::CustomBackgroundHue => decimal::fixed_text32(self.custom_background_hue, 2),
            Key::CustomBackgroundSaturation => decimal::fixed_text32(self.custom_background_saturation, 4),
            Key::CustomBackgroundValue => decimal::fixed_text32(self.custom_background_value, 4),
            Key::CustomAccentHue => decimal::fixed_text32(self.custom_accent_hue, 2),
            Key::CustomAccentSaturation => decimal::fixed_text32(self.custom_accent_saturation, 4),
            Key::CustomAccentValue => decimal::fixed_text32(self.custom_accent_value, 4),
            Key::CompactUi => bool_text(self.compact_ui).to_owned(),
            Key::ReduceAnimations => bool_text(self.reduce_animations).to_owned(),
            Key::StartWithSystem => bool_text(self.start_with_system).to_owned(),
            Key::StartMinimized => bool_text(self.start_minimized).to_owned(),
            Key::CloseToTray => bool_text(self.close_to_tray).to_owned(),
            Key::CheckUpdates => bool_text(self.check_updates).to_owned(),
            Key::PauseHidden => bool_text(self.pause_hidden).to_owned(),
            Key::DisableUnfocusedAnimations => bool_text(self.disable_unfocused_animations).to_owned(),
            Key::PollingInterval => self.polling_interval.clone(),
            Key::LowPowerMode => bool_text(self.low_power_mode).to_owned(),
            Key::ShowDiagnostics => bool_text(self.show_diagnostics).to_owned(),
        }
    }

    /// The contents of the file.
    pub fn serialize(&self) -> (contents: String)
        ensures
            contents@ == self@.file(),
    {
        let mut out = String::new();
        let mut n: usize = 0;
        while n < 20
            invariant
                n <= 20,
                out@ == self@.first_lines(n as nat),
            decreases 20 - n,
        {
            let key = Key::placed(n);
            push_entry(&mut out, key.text(), self.value_text(key).as_str());
            n = n + 1;
        }
        out
    }
}

// ---- laws ----

/// The length and the first two letters of the names.
spec fn shape(place: int) -> (int, char, char) {
    if place == 0 {
        (5, 't', 'h')
    } else if place == 1 {
        (6, 'a', 'c')
    } else if place == 2 {
        (13, 'c', 'u')
    } else if place == 3 {
        (21, 'c', 'u')
    } else if place == 4 {
        (28, 'c', 'u')
    } else if place == 5 {
        (23, 'c', 'u')
    } else if place == 6 {
        (17, 'c', 'u')
    } else if place == 7 {
        (24, 'c', 'u')
    } else if place == 8 {
        (19, 'c', 'u')
    } else if place == 9 {
        (10, 'c', 'o')
    } else if place == 10 {
        (17, 'r', 'e')
    } else if place == 11 {
        (17, 's', 't')
    } else if place == 12 {
        (15, 's', 't')
    } else if place == 13 {
        (13, 'c', 'l')
    } else if place == 14 {
        (13, 'c', 'h')
    } else if place == 15 {
        (12, 'p', 'a')
    } else if place == 16 {
        (28, 'd', 'i')
    } else if place == 17 {
        (16, 'p', 'o')
    } else if place == 18 {
        (14, 'l', 'o')
    } else {
        (16, 's', 'h')
    }
}

/// A name has its shape, and fits on the left of an equals sign.
proof fn name_has_shape(place: int)
    requires
        0 <= place < 20,
    ensures
        ({
            let name = Key::at(place).name();
            &&& name.len() == shape(place).0
            &&& name[0] == shape(place).1
            &&& name[1] == shape(place).2
            &&& forall|k: int| 0 <= k < name.len() ==> #[trigger] name[k] != '=' && name[k] != '\n'
        }),
{
    if place == 0 {
        reveal_strlit("theme");
    } else if place == 1 {
        reveal_strlit("accent");
    } else if place == 2 {
        reveal_strlit("custom_colors");
    } else if place == 3 {
        reveal_strlit("custom_background_hue");
    } else if place == 4 {
        reveal_strlit("custom_background_saturation");
    } else if place == 5 {
        reveal_strlit("custom_background_value");
    } else if place == 6 {
        reveal_strlit("custom_accent_hue");
    } else if place == 7 {
        reveal_strlit("custom_accent_saturation");
    } else if place == 8 {
        reveal_strlit("custom_accent_value");
    } else if place == 9 {
        reveal_strlit("compact_ui");
    } else if place == 10 {
        reveal_strlit("reduce_animations");
    } else if place == 11 {
        reveal_strlit("start_with_system");
    } else if place == 12 {
        reveal_strlit("start_minimized");
    } else if place == 13 {
        reveal_strlit("close_to_tray");
    } else if place == 14 {
        reveal_strlit("check_updates");
    } else if place == 15 {
        reveal_strlit("pause_hidden");
    } else if place == 16 {
        reveal_strlit("disable_unfocused_animations");
    } else if place == 17 {
        reveal_strlit("polling_interval");
    } else if place == 18 {
        reveal_strlit("low_power_mode");
    } else {
        reveal_strlit("show_diagnostics");
    }
}

/// Every name stands for one setting.
proof fn name_is_found(place: int, from: int)
    requires
        0 <= from <= place < 20,
    ensures
        place_of(Key::at(place).name(), from) == Some(place),
    decreases place - from,
{
    if from < place {
        name_has_shape(from);
        name_has_shape(place);
        assert(shape(from) != shape(place));
        name_is_found(place, from + 1);
    }
}

impl Preferences {
    /// The choices are among those that can be made.
    pub open spec fn valid(self) -> bool {
        is_theme(self.theme) && is_accent(self.accent) && is_polling_interval(
            self.polling_interval,
        )
    }

    /// These settings over some defaults, as they are read back from the file that they were
    /// saved to. Only the colours can change: they are what their written forms read as.
    pub open spec fn saved_over(self, defaults: Preferences, readings: Readings) -> Preferences {
        Preferences {
            custom_background_hue: number(
                decimal::fixed32(self.custom_background_hue, 2),
                readings,
                defaults.custom_background_hue,
                0,
                CIRCLE,
            ),
            custom_background_saturation: number(
                decimal::fixed32(self.custom_background_saturation, 4),
                readings,
                defaults.custom_background_saturation,
                0,
                FULL,
            ),
            custom_background_value: number(
                decimal::fixed32(self.custom_background_value, 4),
                readings,
                defaults.custom_background_value,
                0,
                FULL,
            ),
            custom_accent_hue: number(
                decimal::fixed32(self.custom_accent_hue, 2),
                readings,
                defaults.custom_accent_hue,
                0,
                CIRCLE,
            ),
            custom_accent_saturation: number(
                decimal::fixed32(self.custom_accent_saturation, 4),
                readings,
                defaults.custom_accent_saturation,
                0,
                FULL,
            ),
            custom_accent_value: number(
                decimal::fixed32(self.custom_accent_value, 4),
                readings,
                defaults.custom_accent_value,
                0,
                FULL,
            ),
            ..self
        }
    }

    /// Some defaults with the first `n` settings of the file taken over.
    spec fn saved_partly(self, defaults: Preferences, readings: Readings, n: nat) -> Preferences
        decreases n,
    {
        if n == 0 {
            defaults
        } else {
            let key = Key::at(n - 1);
            self.saved_partly(defaults, readings, (n - 1) as nat).with_value(
                key,
                self.value(key),
                readings,
            )
        }
    }
}

/// A boolean that was written is read as it was.
proof fn booleans_are_read_back(value: bool, fallback: bool)
    ensures
        boolean(boolean_text(value), fallback) == value,
{
    reveal(boolean);
    reveal_strlit("true");
    reveal_strlit("false");
    assert("true"@.len() != "false"@.len());
}

/// The value of one setting.
enum Held {
    Choice(Seq<char>),
    Switch(bool),
    Colour(u32),
}

impl Preferences {
    spec fn held(self, key: Key) -> Held {
        match key {
            Key::Theme => Held::Choice(self.theme),
            Key::Accent => Held::Choice(self.accent),
            Key::CustomColors => Held::Switch(self.custom_colors),
            Key::CustomBackgroundHue => Held::Colour(self.custom_background_hue),
            Key::CustomBackgroundSaturation => Held::Colour(self.custom_background_saturation),
            Key::CustomBackgroundValue => Held::Colour(self.custom_background_value),
            Key::CustomAccentHue => Held::Colour(self.custom_accent_hue),
            Key::CustomAccentSaturation => Held::Colour(self.custom_accent_saturation),
            Key::CustomAccentValue => Held::Colour(self.custom_accent_value),
            Key::CompactUi => Held::Switch(self.compact_ui),
            Key::ReduceAnimations => Held::Switch(self.reduce_animations),
            Key::StartWithSystem => Held::Switch(self.start_with_system),
            Key::StartMinimized => Held::Switch(self.start_minimized),
            Key::CloseToTray => Held::Switch(self.close_to_tray),
            Key::CheckUpdates => Held::Switch(self.check_updates),
            Key::PauseHidden => Held::Switch(self.pause_hidden),
            Key::DisableUnfocusedAnimations => Held::Switch(self.disable_unfocused_animations),
            Key::PollingInterval => Held::Choice(self.polling_interval),
            Key::LowPowerMode => Held::Switch(self.low_power_mode),
            Key::ShowDiagnostics => Held::Switch(self.show_diagnostics),
        }
    }
}

/// Taking over a value changes the setting that it is for, and no other one.
proof fn one_setting_changes(
    before: Preferences,
    key: Key,
    value: Seq<char>,
    readings: Readings,
    other: Key,
)
    ensures
        other != key ==> before.with_value(key, value, readings).held(other) == before.held(other),
{
    match key {
        Key::Theme => {},
        Key::Accent => {},
        Key::CustomColors => {},
        Key::CustomBackgroundHue => {},
        Key::CustomBackgroundSaturation => {},
        Key::CustomBackgroundValue => {},
        Key::CustomAccentHue => {},
        Key::CustomAccentSaturation => {},
        Key::CustomAccentValue => {},
        Key::CompactUi => {},
        Key::ReduceAnimations => {},
        Key::StartWithSystem => {},
        Key::StartMinimized => {},
        Key::CloseToTray => {},
        Key::CheckUpdates => {},
        Key::PauseHidden => {},
        Key::DisableUnfocusedAnimations => {},
        Key::PollingInterval => {},
        Key::LowPowerMode => {},
        Key::ShowDiagnostics => {},
    }
}

/// Settings that hold the same are the same.
proof fn held_decides(a: Preferences, b: Preferences)
    requires
        forall|key: Key| #[trigger] a.held(key) == b.held(key),
    ensures
        a == b,
{
    assert(a.held(Key::Theme) == b.held(Key::Theme));
    assert(a.held(Key::Accent) == b.held(Key::Accent));
    assert(a.held(Key::CustomColors) == b.held(Key::CustomColors));
    assert(a.held(Key::CustomBackgroundHue) == b.held(Key::CustomBackgroundHue));
    assert(a.held(Key::CustomBackgroundSaturation) == b.held(Key::CustomBackgroundSaturation));
    assert(a.held(Key::CustomBackgroundValue) == b.held(Key::CustomBackgroundValue));
    assert(a.held(Key::CustomAccentHue) == b.held(Key::CustomAccentHue));
    assert(a.held(Key::CustomAccentSaturation) == b.held(Key::CustomAccentSaturation));
    assert(a.held(Key::CustomAccentValue) == b.held(Key::CustomAccentValue));
    assert(a.held(Key::CompactUi) == b.held(Key::CompactUi));
    assert(a.held(Key::ReduceAnimations) == b.held(Key::ReduceAnimations));
    assert(a.held(Key::StartWithSystem) == b.held(Key::StartWithSystem));
    assert(a.held(Key::StartMinimized) == b.held(Key::StartMinimized));
    assert(a.held(Key::CloseToTray) == b.held(Key::CloseToTray));
    assert(a.held(Key::CheckUpdates) == b.held(Key::CheckUpdates));
    assert(a.held(Key::PauseHidden) == b.held(Key::PauseHidden));
    assert(a.held(Key::DisableUnfocusedAnimations) == b.held(Key::DisableUnfocusedAnimations));
    assert(a.held(Key::PollingInterval) == b.held(Key::PollingInterval));
    assert(a.held(Key::LowPowerMode) == b.held(Key::LowPowerMode));
    assert(a.held(Key::ShowDiagnostics) == b.held(Key::ShowDiagnostics));
}

/// A choice that was written is taken over as it was.
proof fn choice_is_taken_over(
    saved: Preferences,
    before: Preferences,
    defaults: Preferences,
    readings: Readings,
    key: Key,
)
    requires
        saved.valid(),
        before.held(key) == defaults.held(key),
        key is Theme || key is Accent || key is PollingInterval,
    ensures
        before.with_value(key, saved.value(key), readings).held(key) == saved.saved_over(
            defaults,
            readings,
        ).held(key),
{
    match key {
        Key::Theme => {},
        Key::Accent => {},
        Key::PollingInterval => {},
        _ => {},
    }
}

/// A colour that was written is taken over as what it reads as.
proof fn colour_is_taken_over(
    saved: Preferences,
    before: Preferences,
    defaults: Preferences,
    readings: Readings,
    key: Key,
)
    requires
        saved.valid(),
        before.held(key) == defaults.held(key),
        key is CustomBackgroundHue || key is CustomBackgroundSaturation || key is CustomBackgroundValue || key is CustomAccentHue || key is CustomAccentSaturation || key is CustomAccentValue,
    ensures
        before.with_value(key, saved.value(key), readings).held(key) == saved.saved_over(
            defaults,
            readings,
        ).held(key),
{
    match key {
        Key::CustomBackgroundHue => {},
        Key::CustomBackgroundSaturation => {},
        Key::CustomBackgroundValue => {},
        Key::CustomAccentHue => {},
        Key::CustomAccentSaturation => {},
        Key::CustomAccentValue => {},
        _ => {},
    }
}

/// A switch that was written is taken over as it was.
proof fn first_switch_is_taken_over(
    saved: Preferences,
    before: Preferences,
    defaults: Preferences,
    readings: Readings,
    key: Key,
)
    requires
        saved.valid(),
        before.held(key) == defaults.held(key),
        key is CustomColors || key is CompactUi || key is ReduceAnimations || key is StartWithSystem || key is StartMinimized || key is CloseToTray,
    ensures
        before.with_value(key, saved.value(key), readings).held(key) == saved.saved_over(
            defaults,
            readings,
        ).held(key),
{
    match key {
        Key::CustomColors => {
            booleans_are_read_back(saved.custom_colors, before.custom_colors);
        },
        Key::CompactUi => {
            booleans_are_read_back(saved.compact_ui, before.compact_ui);
        },
        Key::ReduceAnimations => {
            booleans_are_read_back(saved.reduce_animations, before.reduce_animations);
        },
        Key::StartWithSystem => {
            booleans_are_read_back(saved.start_with_system, before.start_with_system);
        },
        Key::StartMinimized => {
            booleans_are_read_back(saved.start_minimized, before.start_minimized);
        },
        Key::CloseToTray => {
            booleans_are_read_back(saved.close_to_tray, before.close_to_tray);
        },
        _ => {},
    }
}

/// A switch that was written is taken over as it was.
proof fn last_switch_is_taken_over(
    saved: Preferences,
    before: Preferences,
    defaults: Preferences,
    readings: Readings,
    key: Key,
)
    requires
        saved.valid(),
        before.held(key) == defaults.held(key),
        key is CheckUpdates || key is PauseHidden || key is DisableUnfocusedAnimations || key is LowPowerMode || key is ShowDiagnostics,
    ensures
        before.with_value(key, saved.value(key), readings).held(key) == saved.saved_over(
            defaults,
            readings,
        ).held(key),
{
    match key {
        Key::CheckUpdates => {
            booleans_are_read_back(saved.check_updates, before.check_updates);
        },
        Key::PauseHidden => {
            booleans_are_read_back(saved.pause_hidden, before.pause_hidden);
        },
        Key::DisableUnfocusedAnimations => {
            booleans_are_read_back(saved.disable_unfocused_animations, before.disable_unfocused_animations);
        },
        Key::LowPowerMode => {
            booleans_are_read_back(saved.low_power_mode, before.low_power_mode);
        },
        Key::ShowDiagnostics => {
            booleans_are_read_back(saved.show_diagnostics, before.show_diagnostics);
        },
        _ => {},
    }
}

/// Every setting has a place.
spec fn place(key: Key) -> int {
    match key {
        Key::Theme => 0,
        Key::Accent => 1,
        Key::CustomColors => 2,
        Key::CustomBackgroundHue => 3,
        Key::CustomBackgroundSaturation => 4,
        Key::CustomBackgroundValue => 5,
        Key::CustomAccentHue => 6,
        Key::CustomAccentSaturation => 7,
        Key::CustomAccentValue => 8,
        Key::CompactUi => 9,
        Key::ReduceAnimations => 10,
        Key::StartWithSystem => 11,
        Key::StartMinimized => 12,
        Key::CloseToTray => 13,
        Key::CheckUpdates => 14,
        Key::PauseHidden => 15,
        Key::DisableUnfocusedAnimations => 16,
        Key::PollingInterval => 17,
        Key::LowPowerMode => 18,
        Key::ShowDiagnostics => 19,
    }
}

/// The settings of the first `n` lines are taken over, and the others are not.
proof fn settings_are_taken_over(
    saved: Preferences,
    defaults: Preferences,
    readings: Readings,
    n: nat,
    key: Key,
)
    requires
        n <= 20,
        saved.valid(),
    ensures
        saved.saved_partly(defaults, readings, n).held(key) == if place(key) < n {
            saved.saved_over(defaults, readings).held(key)
        } else {
            defaults.held(key)
        },
    decreases n,
{
    if n > 0 {
        let m = (n - 1) as nat;
        let before = saved.saved_partly(defaults, readings, m);
        let added = Key::at(n - 1);
        assert(place(added) == n - 1);
        assert(key == added <==> place(key) == n - 1);
        settings_are_taken_over(saved, defaults, readings, m, key);
        if key == added {
            match key {
                Key::Theme | Key::Accent | Key::PollingInterval => {
                    choice_is_taken_over(saved, before, defaults, readings, key);
                },
                Key::CustomBackgroundHue
                | Key::CustomBackgroundSaturation
                | Key::CustomBackgroundValue
                | Key::CustomAccentHue
                | Key::CustomAccentSaturation
                | Key::CustomAccentValue => {
                    colour_is_taken_over(saved, before, defaults, readings, key);
                },
                Key::CustomColors
                | Key::CompactUi
                | Key::ReduceAnimations
                | Key::StartWithSystem
                | Key::StartMinimized
                | Key::CloseToTray => {
                    first_switch_is_taken_over(saved, before, defaults, readings, key);
                },
                _ => {
                    last_switch_is_taken_over(saved, before, defaults, readings, key);
                },
            }
        } else {
            one_setting_changes(before, added, saved.value(added), readings, key);
        }
    }
}

/// A value that is written is not broken over lines.
proof fn value_is_on_one_line(saved: Preferences, key: Key)
    requires
        saved.valid(),
    ensures
        saved.value(key).len() > 0,
        forall|k: int|
            0 <= k < saved.value(key).len() ==> #[trigger] saved.value(key)[k] != '\n'
                && saved.value(key)[k] != '\r',
{
    match key {
        Key::Theme => {
            reveal(is_theme);
            reveal_strlit("System");
            reveal_strlit("Light");
            reveal_strlit("Dark");
        },
        Key::Accent => {
            reveal(is_accent);
            reveal_strlit("Blue");
            reveal_strlit("Amber");
            reveal_strlit("Mint");
        },
        Key::PollingInterval => {
            reveal(is_polling_interval);
            reveal_strlit("Auto");
            reveal_strlit("Low");
            reveal_strlit("High");
        },
        Key::CustomBackgroundHue => {
            decimal::fixed_is_on_one_line(saved.custom_background_hue, 2);
        },
        Key::CustomBackgroundSaturation => {
            decimal::fixed_is_on_one_line(saved.custom_background_saturation, 4);
        },
        Key::CustomBackgroundValue => {
            decimal::fixed_is_on_one_line(saved.custom_background_value, 4);
        },
        Key::CustomAccentHue => {
            decimal::fixed_is_on_one_line(saved.custom_accent_hue, 2);
        },
        Key::CustomAccentSaturation => {
            decimal::fixed_is_on_one_line(saved.custom_accent_saturation, 4);
        },
        Key::CustomAccentValue => {
            decimal::fixed_is_on_one_line(saved.custom_accent_value, 4);
        },
        _ => {
            reveal_strlit("true");
            reveal_strlit("false");
        },
    }
}

/// One line of the file, without its end.
spec fn written(saved: Preferences, place: int) -> Seq<char> {
    Key::at(place).name() + seq!['='] + saved.value(Key::at(place))
}

/// The first lines of the file are the first settings.
proof fn lines_of_file(saved: Preferences, n: nat)
    requires
        n <= 20,
        saved.valid(),
    ensures
        text::lines(saved.first_lines(n)) == Seq::new(n, |i: int| written(saved, i)),
        n > 0 ==> saved.first_lines(n).len() > 0 && saved.first_lines(n).last() == '\n',
    decreases n,
{
    if n == 0 {
        assert(text::lines(saved.first_lines(0)) =~= Seq::new(0, |i: int| written(saved, i)));
    } else {
        let key = Key::at(n - 1);
        let before = saved.first_lines((n - 1) as nat);
        let line = written(saved, n - 1);
        lines_of_file(saved, (n - 1) as nat);
        name_has_shape(n - 1);
        value_is_on_one_line(saved, key);
        let name = key.name();
        let value = saved.value(key);
        assert forall|k: int| 0 <= k < line.len() implies line[k] != '\n' by {
            if k < name.len() {
                assert(line[k] == name[k]);
            } else if k > name.len() {
                assert(line[k] == value[k - name.len() - 1]);
            }
        }
        assert(line.last() == value[value.len() - 1]);
        assert(entry_line(name, value) =~= line.push('\n'));
        text::one_line_more(before, line);
        assert(saved.first_lines(n) =~= before + line.push('\n'));
        assert(text::lines(saved.first_lines(n)) =~= Seq::new(n, |i: int| written(saved, i)));
    }
}

/// Reading some lines of the file takes over that many settings.
proof fn lines_are_taken_over(
    saved: Preferences,
    defaults: Preferences,
    readings: Readings,
    n: nat,
)
    requires
        n <= 20,
        saved.valid(),
    ensures
        defaults.with_lines(Seq::new(n, |i: int| written(saved, i)), readings)
            == saved.saved_partly(defaults, readings, n),
    decreases n,
{
    let all = Seq::new(n, |i: int| written(saved, i));
    if n > 0 {
        let m = (n - 1) as nat;
        lines_are_taken_over(saved, defaults, readings, m);
        assert(all.drop_last() =~= Seq::new(m, |i: int| written(saved, i)));
        let line = written(saved, n - 1);
        let name = Key::at(n - 1).name();
        let value = saved.value(Key::at(n - 1));
        name_has_shape(n - 1);
        assert forall|k: int| 0 <= k < name.len() implies line[k] != '=' by {
            assert(line[k] == name[k]);
        }
        assert(line[name.len() as int] == '=');
        text::first_is_index_of(line, '=', name.len() as int);
        assert(line.take(name.len() as int) =~= name);
        assert(line.skip(name.len() as int + 1) =~= value);
        name_is_found(n - 1, 0);
    }
}

/// Settings that are saved are read back: every choice and every switch as it was, and every
/// colour as what its written form reads as, whatever the defaults are.
pub proof fn saved_settings_are_read_back(
    saved: Preferences,
    defaults: Preferences,
    readings: Readings,
)
    requires
        saved.valid(),
    ensures
        defaults.with_lines(text::lines(saved.file()), readings) == saved.saved_over(
            defaults,
            readings,
        ),
{
    lines_of_file(saved, 20);
    lines_are_taken_over(saved, defaults, readings, 20);
    let read = saved.saved_partly(defaults, readings, 20);
    assert forall|key: Key| #[trigger] read.held(key) == saved.saved_over(defaults, readings).held(
        key,
    ) by {
        settings_are_taken_over(saved, defaults, readings, 20, key);
    }
    held_decides(read, saved.saved_over(defaults, readings));
}

/// Whatever a file holds, the settings that are read from it have valid choices where the
/// defaults have.
pub proof fn read_settings_are_valid(
    defaults: Preferences,
    lines: Seq<Seq<char>>,
    readings: Readings,
)
    requires
        defaults.valid(),
    ensures
        defaults.with_lines(lines, readings).valid(),
    decreases lines.len(),
{
    if lines.len() > 0 {
        read_settings_are_valid(defaults, lines.drop_last(), readings);
    }
}

/// A colour that is read is within its range.
pub proof fn colours_stay_in_range(value: Seq<char>, readings: Readings, fallback: u32, top: u32)
    requires
        top == FULL || top == CIRCLE,
        binary::is_finite32(fallback),
        0 <= binary::order32(fallback) <= binary::order32(top),
    ensures
        binary::is_finite32(number(value, readings, fallback, 0, top)),
        0 <= binary::order32(number(value, readings, fallback, 0, top)) <= binary::order32(top),
{
    reveal(number);
}

/// A colour is within its range.
pub open spec fn within(bits: u32, top: u32) -> bool {
    binary::is_finite32(bits) && 0 <= binary::order32(bits) <= binary::order32(top)
}

/// What a colour was written as reads as the binary32 number nearest to it.
pub open spec fn reads_right(readings: Readings, bits: u32, places: nat) -> bool {
    readings.single_of(decimal::fixed32(bits, places)) == Some(decimal::rounded32(bits, places))
}

impl Preferences {
    /// The colours are within their ranges.
    pub open spec fn in_range(self) -> bool {
        &&& within(self.custom_background_hue, CIRCLE)
        &&& within(self.custom_background_saturation, FULL)
        &&& within(self.custom_background_value, FULL)
        &&& within(self.custom_accent_hue, CIRCLE)
        &&& within(self.custom_accent_saturation, FULL)
        &&& within(self.custom_accent_value, FULL)
    }

    /// The colours, as they are written, read as the binary32 numbers nearest to them.
    pub open spec fn read_right(self, readings: Readings) -> bool {
        &&& reads_right(readings, self.custom_background_hue, 2)
        &&& reads_right(readings, self.custom_background_saturation, 4)
        &&& reads_right(readings, self.custom_background_value, 4)
        &&& reads_right(readings, self.custom_accent_hue, 2)
        &&& reads_right(readings, self.custom_accent_saturation, 4)
        &&& reads_right(readings, self.custom_accent_value, 4)
    }

    /// The settings with their hues rounded to two decimal places, and their other colours to
    /// four.
    pub open spec fn rounded(self) -> Preferences {
        Preferences {
            custom_background_hue: decimal::rounded32(self.custom_background_hue, 2),
            custom_background_saturation: decimal::rounded32(self.custom_background_saturation, 4),
            custom_background_value: decimal::rounded32(self.custom_background_value, 4),
            custom_accent_hue: decimal::rounded32(self.custom_accent_hue, 2),
            custom_accent_saturation: decimal::rounded32(self.custom_accent_saturation, 4),
            custom_accent_value: decimal::rounded32(self.custom_accent_value, 4),
            ..self
        }
    }
}

/// The values of the ends of the ranges.
proof fn tops()
    ensures
        binary::exact32(FULL).magnitude() == 1 * power2::pow2(1074),
        binary::exact32(CIRCLE).magnitude() == 360 * power2::pow2(1074),
{
    assert(power2::pow2(44) == 0x1000_0000_0000 && power2::pow2(52) == 0x10_0000_0000_0000) by {
        power2::lemma2_to64_rest();
    }
    assert(binary::exact32(FULL).significand == 0x10_0000_0000_0000 && binary::exact32(FULL).shift
        == 1022);
    assert(binary::exact32(CIRCLE).significand == 360 * 0x1000_0000_0000 && binary::exact32(
        CIRCLE,
    ).shift == 1030);
    power2::lemma_pow2_adds(52, 1022);
    power2::lemma_pow2_adds(44, 1030);
    let y = power2::pow2(1030) as int;
    assert((360 * 0x1000_0000_0000) * y == 360 * (0x1000_0000_0000 * y)) by (nonlinear_arith);
}

/// A colour that is rounded stays within its range, and is written as before.
proof fn rounded_colour(bits: u32, places: nat, top: u32)
    requires
        within(bits, top),
        places <= 4,
        top == FULL || top == CIRCLE,
    ensures
        within(decimal::rounded32(bits, places), top),
        decimal::fixed32(decimal::rounded32(bits, places), places) == decimal::fixed32(
            bits,
            places,
        ),
{
    let r = decimal::rounded32(bits, places);
    tops();
    binary::order_is_by_value32(bits, top);
    binary::order_is_by_value32(bits, 0);
    assert(binary::exact32(0).magnitude() == 0) by (nonlinear_arith)
        requires
            binary::exact32(0).magnitude() == 0 * power2::pow2(binary::exact32(0).shift as nat),
    ;
    if binary::negative32(bits) {
        assert(0 * power2::pow2(1074) == 0) by (nonlinear_arith);
        decimal::rounding_is_not_seen(bits, places, 0);
    } else {
        decimal::rounding_is_not_seen(
            bits,
            places,
            if top == FULL {
                1
            } else {
                360
            },
        );
    }
    let x = binary::exact32(r);
    assert(x.magnitude() >= 0) by (nonlinear_arith)
        requires
            x.magnitude() == x.significand * power2::pow2(x.shift as nat),
            power2::pow2(x.shift as nat) >= 0,
    ;
    binary::order_is_by_value32(r, top);
    binary::order_is_by_value32(r, 0);
}

/// A colour that reads right is read as it was rounded, whatever the fallback is.
proof fn colour_is_read_back(
    bits: u32,
    places: nat,
    top: u32,
    readings: Readings,
    fallback: u32,
)
    requires
        within(bits, top),
        reads_right(readings, bits, places),
        places <= 4,
        top == FULL || top == CIRCLE,
    ensures
        number(decimal::fixed32(bits, places), readings, fallback, 0, top) == decimal::rounded32(
            bits,
            places,
        ),
{
    reveal(number);
    rounded_colour(bits, places, top);
}

/// Settings that are saved and read again are what they were, with their hues rounded to two
/// decimal places and their other colours to four, whatever the defaults are. Saving what was
/// read gives the same file.
pub proof fn saving_again_gives_the_same_file(
    saved: Preferences,
    defaults: Preferences,
    readings: Readings,
)
    requires
        saved.valid(),
        saved.in_range(),
        saved.read_right(readings),
    ensures
        ({
            let read = defaults.with_lines(text::lines(saved.file()), readings);
            &&& read == saved.rounded()
            &&& read.valid()
            &&& read.in_range()
            &&& read.file() == saved.file()
        }),
{
    saved_settings_are_read_back(saved, defaults, readings);
    let d = defaults;
    colour_is_read_back(saved.custom_background_hue, 2, CIRCLE, readings, d.custom_background_hue);
    colour_is_read_back(
        saved.custom_background_saturation,
        4,
        FULL,
        readings,
        d.custom_background_saturation,
    );
    colour_is_read_back(saved.custom_background_value, 4, FULL, readings, d.custom_background_value);
    colour_is_read_back(saved.custom_accent_hue, 2, CIRCLE, readings, d.custom_accent_hue);
    colour_is_read_back(saved.custom_accent_saturation, 4, FULL, readings, d.custom_accent_saturation);
    colour_is_read_back(saved.custom_accent_value, 4, FULL, readings, d.custom_accent_value);
    rounded_settings_look_the_same(saved, 20);
}

/// Rounding the colours changes no line of the file.
proof fn rounded_settings_look_the_same(saved: Preferences, n: nat)
    requires
        saved.in_range(),
        n <= 20,
    ensures
        saved.rounded().in_range(),
        saved.rounded().first_lines(n) == saved.first_lines(n),
    decreases n,
{
    rounded_colour(saved.custom_background_hue, 2, CIRCLE);
    rounded_colour(saved.custom_background_saturation, 4, FULL);
    rounded_colour(saved.custom_background_value, 4, FULL);
    rounded_colour(saved.custom_accent_hue, 2, CIRCLE);
    rounded_colour(saved.custom_accent_saturation, 4, FULL);
    rounded_colour(saved.custom_accent_value, 4, FULL);
    if n > 0 {
        rounded_settings_look_the_same(saved, (n - 1) as nat);
        let key = Key::at(n - 1);
        assert(saved.rounded().value(key) == saved.value(key));
    }
}

/// Reading an empty file leaves the defaults as they are.
pub proof fn empty_file_gives_the_defaults(defaults: Preferences, readings: Readings)
    ensures
        defaults.with_lines(text::lines(Seq::empty()), readings) == defaults,
{
}

/// Whatever a file holds, the colours that are read from it are within their ranges where the
/// defaults are.
pub proof fn read_colours_are_in_range(
    defaults: Preferences,
    lines: Seq<Seq<char>>,
    readings: Readings,
)
    requires
        defaults.in_range(),
    ensures
        defaults.with_lines(lines, readings).in_range(),
    decreases lines.len(),
{
    if lines.len() > 0 {
        read_colours_are_in_range(defaults, lines.drop_last(), readings);
        let before = defaults.with_lines(lines.drop_last(), readings);
        match text::split_at_first(lines.last(), '=') {
            Some((_, value)) => {
                colours_stay_in_range(value, readings, before.custom_background_hue, CIRCLE);
                colours_stay_in_range(value, readings, before.custom_background_saturation, FULL);
                colours_stay_in_range(value, readings, before.custom_background_value, FULL);
                colours_stay_in_range(value, readings, before.custom_accent_hue, CIRCLE);
                colours_stay_in_range(value, readings, before.custom_accent_saturation, FULL);
                colours_stay_in_range(value, readings, before.custom_accent_value, FULL);
            },
            None => {},
        }
    }
}

/// The settings that the application starts with are valid.
pub proof fn defaults_are_valid(close_to_tray: bool)
    ensures
        Preferences::defaults(close_to_tray).valid(),
        Preferences::defaults(close_to_tray).in_range(),
{
    reveal(is_theme);
    reveal(is_accent);
    reveal(is_polling_interval);
}

// ---- line by line ----

/// The names of the settings, in the order of the file.
pub open spec fn setting_name(k: int) -> Seq<char> {
    if k == 0 {
        "theme"@
    } else if k == 1 {
        "accent"@
    } else if k == 2 {
        "custom_colors"@
    } else if k == 3 {
        "custom_background_hue"@
    } else if k == 4 {
        "custom_background_saturation"@
    } else if k == 5 {
        "custom_background_value"@
    } else if k == 6 {
        "custom_accent_hue"@
    } else if k == 7 {
        "custom_accent_saturation"@
    } else if k == 8 {
        "custom_accent_value"@
    } else if k == 9 {
        "compact_ui"@
    } else if k == 10 {
        "reduce_animations"@
    } else if k == 11 {
        "start_with_system"@
    } else if k == 12 {
        "start_minimized"@
    } else if k == 13 {
        "close_to_tray"@
    } else if k == 14 {
        "check_updates"@
    } else if k == 15 {
        "pause_hidden"@
    } else if k == 16 {
        "disable_unfocused_animations"@
    } else if k == 17 {
        "polling_interval"@
    } else if k == 18 {
        "low_power_mode"@
    } else {
        "show_diagnostics"@
    }
}

/// A switch after a value: it is on after "true", off after "false", and else as it was.
pub open spec fn switches(before: bool, after: bool, value: Seq<char>) -> bool {
    &&& value == "true"@ ==> after
    &&& value == "false"@ ==> !after
    &&& value != "true"@ && value != "false"@ ==> after == before
}

/// A choice after a value: it is the value where that is one of three, and else as it was.
pub open spec fn chooses(
    before: Seq<char>,
    after: Seq<char>,
    value: Seq<char>,
    a: Seq<char>,
    b: Seq<char>,
    c: Seq<char>,
) -> bool {
    after == if value == a || value == b || value == c {
        value
    } else {
        before
    }
}

/// A colour after a value: the number that the value reads as, where that is finite, brought to
/// the ends of its range where it is beyond them. It is as it was after any other value.
pub open spec fn measures(
    before: u32,
    after: u32,
    value: Seq<char>,
    readings: Readings,
    top: int,
) -> bool {
    match readings.single_of(value) {
        Some(bits) => {
            &&& !binary::is_finite32(bits) ==> after == before
            &&& binary::is_finite32(bits) ==> binary::is_finite32(after) && binary::value32(after)
                == if binary::value32(bits) < 0 {
                0
            } else if binary::value32(bits) > top * binary::one() {
                top * binary::one()
            } else {
                binary::value32(bits)
            }
        },
        None => after == before,
    }
}

/// Every setting but one is as it was.
pub open spec fn changed_alone(before: Preferences, after: Preferences, k: int) -> bool {
    &&& k != 0 ==> after.theme == before.theme
    &&& k != 1 ==> after.accent == before.accent
    &&& k != 2 ==> after.custom_colors == before.custom_colors
    &&& k != 3 ==> after.custom_background_hue == before.custom_background_hue
    &&& k != 4 ==> after.custom_background_saturation == before.custom_background_saturation
    &&& k != 5 ==> after.custom_background_value == before.custom_background_value
    &&& k != 6 ==> after.custom_accent_hue == before.custom_accent_hue
    &&& k != 7 ==> after.custom_accent_saturation == before.custom_accent_saturation
    &&& k != 8 ==> after.custom_accent_value == before.custom_accent_value
    &&& k != 9 ==> after.compact_ui == before.compact_ui
    &&& k != 10 ==> after.reduce_animations == before.reduce_animations
    &&& k != 11 ==> after.start_with_system == before.start_with_system
    &&& k != 12 ==> after.start_minimized == before.start_minimized
    &&& k != 13 ==> after.close_to_tray == before.close_to_tray
    &&& k != 14 ==> after.check_updates == before.check_updates
    &&& k != 15 ==> after.pause_hidden == before.pause_hidden
    &&& k != 16 ==> after.disable_unfocused_animations == before.disable_unfocused_animations
    &&& k != 17 ==> after.polling_interval == before.polling_interval
    &&& k != 18 ==> after.low_power_mode == before.low_power_mode
    &&& k != 19 ==> after.show_diagnostics == before.show_diagnostics
}

/// The setting took over a value.
pub open spec fn took_over(
    before: Preferences,
    after: Preferences,
    k: int,
    value: Seq<char>,
    readings: Readings,
) -> bool {
    if k == 0 {
        chooses(before.theme, after.theme, value, "System"@, "Light"@, "Dark"@)
    } else if k == 1 {
        chooses(before.accent, after.accent, value, "Blue"@, "Amber"@, "Mint"@)
    } else if k == 2 {
        switches(before.custom_colors, after.custom_colors, value)
    } else if k == 3 {
        measures(
            before.custom_background_hue,
            after.custom_background_hue,
            value,
            readings,
            360,
        )
    } else if k == 4 {
        measures(
            before.custom_background_saturation,
            after.custom_background_saturation,
            value,
            readings,
            1,
        )
    } else if k == 5 {
        measures(
            before.custom_background_value,
            after.custom_background_value,
            value,
            readings,
            1,
        )
    } else if k == 6 {
        measures(
            before.custom_accent_hue,
            after.custom_accent_hue,
            value,
            readings,
            360,
        )
    } else if k == 7 {
        measures(
            before.custom_accent_saturation,
            after.custom_accent_saturation,
            value,
            readings,
            1,
        )
    } else if k == 8 {
        measures(
            before.custom_accent_value,
            after.custom_accent_value,
            value,
            readings,
            1,
        )
    } else if k == 9 {
        switches(before.compact_ui, after.compact_ui, value)
    } else if k == 10 {
        switches(before.reduce_animations, after.reduce_animations, value)
    } else if k == 11 {
        switches(before.start_with_system, after.start_with_system, value)
    } else if k == 12 {
        switches(before.start_minimized, after.start_minimized, value)
    } else if k == 13 {
        switches(before.close_to_tray, after.close_to_tray, value)
    } else if k == 14 {
        switches(before.check_updates, after.check_updates, value)
    } else if k == 15 {
        switches(before.pause_hidden, after.pause_hidden, value)
    } else if k == 16 {
        switches(before.disable_unfocused_animations, after.disable_unfocused_animations, value)
    } else if k == 17 {
        chooses(before.polling_interval, after.polling_interval, value, "Auto"@, "Low"@, "High"@)
    } else if k == 18 {
        switches(before.low_power_mode, after.low_power_mode, value)
    } else {
        switches(before.show_diagnostics, after.show_diagnostics, value)
    }
}

proof fn numbers_are_brought_into_range(
    value: Seq<char>,
    readings: Readings,
    fallback: u32,
    maximum: u32,
    top: int,
)
    requires
        maximum == FULL && top == 1 || maximum == CIRCLE && top == 360,
    ensures
        measures(fallback, number(value, readings, fallback, 0, maximum), value, readings, top),
{
    reveal(number);
    tops();
    power2::lemma_pow2_pos(1074);
    assert(binary::value32(0) == 0) by {
        binary::signs_are_values32(0);
        let y = power2::pow2(binary::exact32(0).shift as nat) as int;
        assert(0 * y == 0);
    }
    binary::signs_are_values32(maximum);
    match readings.single_of(value) {
        Some(bits) => {
            if binary::is_finite32(bits) {
                binary::order_is_by_value32(bits, 0);
                binary::order_is_by_value32(maximum, bits);
            }
        },
        None => {},
    }
}

proof fn names_are_listed(k: int)
    requires
        0 <= k < 20,
    ensures
        setting_name(k) == Key::at(k).name(),
{
}

proof fn line_is_split(name: Seq<char>, value: Seq<char>)
    requires
        forall|j: int| 0 <= j < name.len() ==> #[trigger] name[j] != '=',
    ensures
        text::split_at_first(name + seq!['='] + value, '=') == Some((name, value)),
{
    let line = name + seq!['='] + value;
    let n = name.len() as int;
    assert forall|j: int| 0 <= j < n implies line[j] != '=' by {
        assert(line[j] == name[j]);
    }
    assert(line[n] == '=');
    text::first_is_index_of(line, '=', n);
    assert(line.take(n) =~= name);
    assert(line.skip(n + 1) =~= value);
}

proof fn switches_are_taken(before: Preferences, k: int, value: Seq<char>, readings: Readings)
    requires
        k == 2 || 9 <= k < 17 || 18 <= k < 20,
    ensures
        ({
            let after = before.with_value(Key::at(k), value, readings);
            changed_alone(before, after, k) && took_over(before, after, k, value, readings)
        }),
{
    reveal(boolean);
    reveal_strlit("true");
    reveal_strlit("false");
    assert("true"@.len() == 4 && "false"@.len() == 5);
}

proof fn choices_are_taken(before: Preferences, k: int, value: Seq<char>, readings: Readings)
    requires
        k == 0 || k == 1 || k == 17,
    ensures
        ({
            let after = before.with_value(Key::at(k), value, readings);
            changed_alone(before, after, k) && took_over(before, after, k, value, readings)
        }),
{
    reveal(is_theme);
    reveal(is_accent);
    reveal(is_polling_interval);
}

proof fn colours_are_taken(before: Preferences, k: int, value: Seq<char>, readings: Readings)
    requires
        3 <= k <= 8,
    ensures
        ({
            let after = before.with_value(Key::at(k), value, readings);
            changed_alone(before, after, k) && took_over(before, after, k, value, readings)
        }),
{
    if k == 3 {
        numbers_are_brought_into_range(value, readings, before.custom_background_hue, CIRCLE, 360);
    }
    if k == 4 {
        numbers_are_brought_into_range(value, readings, before.custom_background_saturation, FULL, 1);
    }
    if k == 5 {
        numbers_are_brought_into_range(value, readings, before.custom_background_value, FULL, 1);
    }
    if k == 6 {
        numbers_are_brought_into_range(value, readings, before.custom_accent_hue, CIRCLE, 360);
    }
    if k == 7 {
        numbers_are_brought_into_range(value, readings, before.custom_accent_saturation, FULL, 1);
    }
    if k == 8 {
        numbers_are_brought_into_range(value, readings, before.custom_accent_value, FULL, 1);
    }
}

/// A line of the file that names a setting sets that one and no other.
pub proof fn lines_set_what_they_name(
    before: Preferences,
    k: int,
    value: Seq<char>,
    readings: Readings,
)
    requires
        0 <= k < 20,
    ensures
        ({
            let after = before.with_line(setting_name(k) + seq!['='] + value, readings);
            changed_alone(before, after, k) && took_over(before, after, k, value, readings)
        }),
{
    names_are_listed(k);
    name_is_found(k, 0);
    name_has_shape(k);
    line_is_split(setting_name(k), value);
    if 3 <= k <= 8 {
        colours_are_taken(before, k, value, readings);
    } else if k == 0 || k == 1 || k == 17 {
        choices_are_taken(before, k, value, readings);
    } else {
        switches_are_taken(before, k, value, readings);
    }
}

proof fn other_names_are_not_found(name: Seq<char>, from: int)
    requires
        0 <= from,
        forall|k: int| 0 <= k < 20 ==> name != #[trigger] setting_name(k),
    ensures
        place_of(name, from) is None,
    decreases 20 - from,
{
    if from < 20 {
        names_are_listed(from);
        other_names_are_not_found(name, from + 1);
    }
}

/// A line that names no setting, or has no value, sets nothing.
pub proof fn other_lines_set_nothing(
    before: Preferences,
    line: Seq<char>,
    name: Seq<char>,
    value: Seq<char>,
    readings: Readings,
)
    ensures
        (forall|j: int| 0 <= j < line.len() ==> #[trigger] line[j] != '=') ==> before.with_line(
            line,
            readings,
        ) == before,
        (forall|j: int| 0 <= j < name.len() ==> #[trigger] name[j] != '=') && (forall|k: int|
            0 <= k < 20 ==> name != #[trigger] setting_name(k)) ==> before.with_line(
            name + seq!['='] + value,
            readings,
        ) == before,
{
    if forall|j: int| 0 <= j < line.len() ==> #[trigger] line[j] != '=' {
        text::absent_has_no_index(line, '=');
    }
    if (forall|j: int| 0 <= j < name.len() ==> #[trigger] name[j] != '=') && (forall|k: int|
        0 <= k < 20 ==> name != #[trigger] setting_name(k)) {
        line_is_split(name, value);
        other_names_are_not_found(name, 0);
    }
}

/// The lines of a file are taken over one after the other, so a later one counts over an earlier
/// one.
pub proof fn later_lines_count(
    before: Preferences,
    lines: Seq<Seq<char>>,
    line: Seq<char>,
    readings: Readings,
)
    ensures
        before.with_lines(lines.push(line), readings) == before.with_lines(
            lines,
            readings,
        ).with_line(line, readings),
        before.with_lines(Seq::empty(), readings) == before,
{
    assert(lines.push(line).drop_last() =~= lines);
}

/// A text says a number to some places, as near as they allow.
pub open spec fn says_near(shown: Seq<char>, bits: u32, places: nat, scale: int) -> bool {
    binary::is_finite32(bits) ==> decimal::said(shown, places) is Some && -binary::one() <= 2 * (
    decimal::said(shown, places)->0 * binary::one() - binary::value32(bits) * scale)
        <= binary::one()
}

/// A value is written as a setting is: a choice as it is, a switch as "true" or "false", a hue to
/// hundredths and any other part of a colour to ten-thousandths.
pub open spec fn shows_setting(saved: Preferences, k: int, shown: Seq<char>) -> bool {
    if k == 0 {
        shown == saved.theme
    } else if k == 1 {
        shown == saved.accent
    } else if k == 2 {
        shown == if saved.custom_colors { "true"@ } else { "false"@ }
    } else if k == 3 {
        says_near(shown, saved.custom_background_hue, 2, 100)
    } else if k == 4 {
        says_near(shown, saved.custom_background_saturation, 4, 10000)
    } else if k == 5 {
        says_near(shown, saved.custom_background_value, 4, 10000)
    } else if k == 6 {
        says_near(shown, saved.custom_accent_hue, 2, 100)
    } else if k == 7 {
        says_near(shown, saved.custom_accent_saturation, 4, 10000)
    } else if k == 8 {
        says_near(shown, saved.custom_accent_value, 4, 10000)
    } else if k == 9 {
        shown == if saved.compact_ui { "true"@ } else { "false"@ }
    } else if k == 10 {
        shown == if saved.reduce_animations { "true"@ } else { "false"@ }
    } else if k == 11 {
        shown == if saved.start_with_system { "true"@ } else { "false"@ }
    } else if k == 12 {
        shown == if saved.start_minimized { "true"@ } else { "false"@ }
    } else if k == 13 {
        shown == if saved.close_to_tray { "true"@ } else { "false"@ }
    } else if k == 14 {
        shown == if saved.check_updates { "true"@ } else { "false"@ }
    } else if k == 15 {
        shown == if saved.pause_hidden { "true"@ } else { "false"@ }
    } else if k == 16 {
        shown == if saved.disable_unfocused_animations { "true"@ } else { "false"@ }
    } else if k == 17 {
        shown == saved.polling_interval
    } else if k == 18 {
        shown == if saved.low_power_mode { "true"@ } else { "false"@ }
    } else {
        shown == if saved.show_diagnostics { "true"@ } else { "false"@ }
    }
}

proof fn colours_are_shown(bits: u32)
    ensures
        says_near(decimal::fixed32(bits, 2), bits, 2, 100),
        says_near(decimal::fixed32(bits, 4), bits, 4, 10000),
{
    if binary::is_finite32(bits) {
        assert(decimal::ten_to(2) == 100 && decimal::ten_to(4) == 10000) by {
            reveal_with_fuel(decimal::ten_to, 5);
        }
        decimal::written_numbers_say_their_value32(bits, 2);
        decimal::written_numbers_say_their_value32(bits, 4);
    }
}

/// The file has one line for each setting, in order: its name, the sign and its value.
pub proof fn files_have_a_line_for_each_setting(saved: Preferences, k: int)
    requires
        saved.valid(),
        0 <= k < 20,
    ensures
        text::lines(saved.file()).len() == 20,
        exists|shown: Seq<char>| #[trigger]
            shows_setting(saved, k, shown) && text::lines(saved.file())[k] == setting_name(k)
                + seq!['='] + shown,
{
    lines_of_file(saved, 20);
    names_are_listed(k);
    let shown = saved.value(Key::at(k));
    colours_are_shown(saved.custom_background_hue);
    colours_are_shown(saved.custom_background_saturation);
    colours_are_shown(saved.custom_background_value);
    colours_are_shown(saved.custom_accent_hue);
    colours_are_shown(saved.custom_accent_saturation);
    colours_are_shown(saved.custom_accent_value);
    assert(shows_setting(saved, k, shown));
}

/// The settings are those of the first file that can be read; where none can, they are the
/// defaults.
pub proof fn the_first_readable_file_counts(
    contents: Seq<Option<String>>,
    readings: Readings,
    close_to_tray: bool,
    i: int,
)
    ensures
        0 <= i < contents.len() && contents[i] is Some && (forall|k: int|
            0 <= k < i ==> (#[trigger] contents[k]) is None) ==> loaded(
            contents,
            readings,
            close_to_tray,
        ) == Preferences::defaults(close_to_tray).with_lines(
            text::lines(contents[i]->0@),
            readings,
        ),
        (forall|k: int| 0 <= k < contents.len() ==> (#[trigger] contents[k]) is None) ==> loaded(
            contents,
            readings,
            close_to_tray,
        ) == Preferences::defaults(close_to_tray),
        Preferences::defaults(close_to_tray).close_to_tray == close_to_tray,
{
    readable_is_first(contents, 0);
    match first_readable(contents, 0) {
        Some(k) => {
            assert(contents[k] is Some);
        },
        None => {},
    }
}

proof fn readable_is_first(contents: Seq<Option<String>>, from: int)
    requires
        0 <= from,
    ensures
        match first_readable(contents, from) {
            Some(i) => from <= i < contents.len() && contents[i] is Some && forall|k: int|
                from <= k < i ==> (#[trigger] contents[k]) is None,
            None => forall|k: int| from <= k < contents.len() ==> (#[trigger] contents[k]) is None,
        },
    decreases contents.len() - from,
{
    if from < contents.len() && contents[from] is None {
        readable_is_first(contents, from + 1);
    }
}

/// The texts of a file that are to be read as numbers are the values of its colours: a line adds
/// its value where it names one of the six, and else nothing.
pub proof fn colour_texts_are_listed(
    lines: Seq<Seq<char>>,
    k: int,
    value: Seq<char>,
    other: Seq<char>,
)
    requires
        0 <= k < 20,
    ensures
        3 <= k <= 8 ==> colour_values(lines.push(setting_name(k) + seq!['='] + value))
            == colour_values(lines).push(value),
        !(3 <= k <= 8) ==> colour_values(lines.push(setting_name(k) + seq!['='] + value))
            == colour_values(lines),
        (forall|j: int| 0 <= j < other.len() ==> #[trigger] other[j] != '=') ==> colour_values(
            lines.push(other),
        ) == colour_values(lines),
        colour_values(Seq::empty()).len() == 0,
{
    names_are_listed(k);
    name_is_found(k, 0);
    name_has_shape(k);
    line_is_split(setting_name(k), value);
    assert(lines.push(setting_name(k) + seq!['='] + value).drop_last() =~= lines);
    assert(lines.push(other).drop_last() =~= lines);
    if forall|j: int| 0 <= j < other.len() ==> #[trigger] other[j] != '=' {
        text::absent_has_no_index(other, '=');
    }
}

/// What is said of settings follows their fields, each for its own.
pub proof fn settings_are_what_their_fields_say(settings: Settings)
    ensures
        settings@.theme == settings.theme@,
        settings@.accent == settings.accent@,
        settings@.custom_colors == settings.custom_colors,
        settings@.custom_background_hue == settings.custom_background_hue,
        settings@.custom_background_saturation == settings.custom_background_saturation,
        settings@.custom_background_value == settings.custom_background_value,
        settings@.custom_accent_hue == settings.custom_accent_hue,
        settings@.custom_accent_saturation == settings.custom_accent_saturation,
        settings@.custom_accent_value == settings.custom_accent_value,
        settings@.compact_ui == settings.compact_ui,
        settings@.reduce_animations == settings.reduce_animations,
        settings@.start_with_system == settings.start_with_system,
        settings@.start_minimized == settings.start_minimized,
        settings@.close_to_tray == settings.close_to_tray,
        settings@.check_updates == settings.check_updates,
        settings@.pause_hidden == settings.pause_hidden,
        settings@.disable_unfocused_animations == settings.disable_unfocused_animations,
        settings@.polling_interval == settings.polling_interval@,
        settings@.low_power_mode == settings.low_power_mode,
        settings@.show_diagnostics == settings.show_diagnostics,
{
}

} // verus!
