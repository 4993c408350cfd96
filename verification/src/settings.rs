//! The settings of the Manage App window: the values shown, read from the
//! `.env` file; the values entered, checked before they are saved; the
//! buttons' look.

use vstd::prelude::*;

use crate::client::{password_key, username_key};
use crate::env_store::DotEnvStore;
use crate::overlay::{rgb, rgb_spec};
use crate::text::{
    chars_of, decimal_spec, i64_to_decimal, parse_i32, parse_i32_spec, parse_u64, parse_u64_spec,
    string_from_chars, trim, trim_spec, u64_to_decimal,
};

verus! {

/// The font of the label where none is set.
pub open spec fn default_label_font() -> Seq<char> {
    "IRANSansWeb"@
}

/// The label size where none is set.
pub const DEFAULT_LABEL_FONT_SIZE: i32 = 14;

pub open spec fn interval_key() -> Seq<char> {
    "PULL_INTERVAL_SECONDS"@
}

pub open spec fn font_family_key() -> Seq<char> {
    "MCI_LABEL_FONT_FAMILY"@
}

pub open spec fn font_size_key() -> Seq<char> {
    "MCI_LABEL_FONT_SIZE"@
}

/// The settings shown in and saved from the Manage App window.
#[derive(Debug)]
pub struct SettingsValues {
    pub username: String,
    pub password: String,
    pub interval_seconds: u64,
    pub label_font: String,
    pub label_font_size: i32,
}

/// The value of `k` in `m`, empty where absent.
pub open spec fn value_or_empty(m: Map<Seq<char>, Seq<char>>, k: Seq<char>) -> Seq<char> {
    if m.contains_key(k) {
        m[k]
    } else {
        Seq::empty()
    }
}

/// A label size the window accepts.
pub open spec fn size_in_range(v: i32) -> bool {
    8 <= v <= 72
}

/// The interval read from `text`: a positive integer, `fallback` (at
/// least 1) otherwise.
pub open spec fn interval_or(text: Seq<char>, fallback: u64) -> u64 {
    match parse_u64_spec(text) {
        Some(v) => if v > 0 {
            v
        } else if fallback >= 1 {
            fallback
        } else {
            1
        },
        None => if fallback >= 1 {
            fallback
        } else {
            1
        },
    }
}

/// The label size read from `text`: between 8 and 72, 14 otherwise.
pub open spec fn font_size_or_default(text: Seq<char>) -> i32 {
    match parse_i32_spec(text) {
        Some(v) => if size_in_range(v) {
            v
        } else {
            14
        },
        None => 14,
    }
}

/// The label font read from `text`: the default where it is blank.
pub open spec fn font_or_default(text: Seq<char>) -> Seq<char> {
    if trim_spec(text).len() == 0 {
        default_label_font()
    } else {
        text
    }
}

/// The settings read from the `.env` values `m` (none where the file
/// could not be read), `fallback_interval` standing for a missing interval.
pub open spec fn settings_from(m: Option<Map<Seq<char>, Seq<char>>>, fallback_interval: u64) -> (
    Seq<char>,
    Seq<char>,
    u64,
    Seq<char>,
    i32,
) {
    let d = match m {
        Some(x) => x,
        None => Map::empty(),
    };
    (
        value_or_empty(d, username_key()),
        value_or_empty(d, password_key()),
        interval_or(value_or_empty(d, interval_key()), fallback_interval),
        font_or_default(value_or_empty(d, font_family_key())),
        font_size_or_default(value_or_empty(d, font_size_key())),
    )
}

/// The settings as a tuple of views.
pub open spec fn settings_view(v: SettingsValues) -> (Seq<char>, Seq<char>, u64, Seq<char>, i32) {
    (v.username@, v.password@, v.interval_seconds, v.label_font@, v.label_font_size)
}

fn value_or_empty_of(env: Option<&DotEnvStore>, key: &str) -> (r: String)
    ensures
        r@ == value_or_empty(
            match env {
                Some(e) => e.data(),
                None => Map::empty(),
            },
            key@,
        ),
{
    match env {
        Some(e) => match e.get(key) {
            Some(v) => v.to_owned(),
            None => String::new(),
        },
        None => String::new(),
    }
}

/// The settings read from `env` (`None` where the file could not be read).
pub fn load_settings_values(env: Option<&DotEnvStore>, fallback_interval: u64) -> (r:
    SettingsValues)
    ensures
        settings_view(r) == settings_from(
            match env {
                Some(e) => Some(e.data()),
                None => None,
            },
            fallback_interval,
        ),
{
    let interval_text = value_or_empty_of(env, "PULL_INTERVAL_SECONDS");
    let ic = chars_of(interval_text.as_str());
    let fallback = if fallback_interval >= 1 {
        fallback_interval
    } else {
        1
    };
    let interval_seconds = match parse_u64(&ic) {
        Some(v) => if v > 0 {
            v
        } else {
            fallback
        },
        None => fallback,
    };
    let font_text = value_or_empty_of(env, "MCI_LABEL_FONT_FAMILY");
    let fc = chars_of(font_text.as_str());
    let ft = trim(&fc);
    let label_font = if ft.len() == 0 {
        String::from_str("IRANSansWeb")
    } else {
        font_text
    };
    let size_text = value_or_empty_of(env, "MCI_LABEL_FONT_SIZE");
    let sc = chars_of(size_text.as_str());
    let label_font_size = match parse_i32(&sc) {
        Some(v) => if 8 <= v && v <= 72 {
            v
        } else {
            14
        },
        None => 14,
    };
    SettingsValues {
        username: value_or_empty_of(env, "MCI_USERNAME"),
        password: value_or_empty_of(env, "MCI_PASSWORD"),
        interval_seconds,
        label_font,
        label_font_size,
    }
}

/// The settings entered in the window: the username trimmed, the password
/// as entered, the interval a positive integer, the label size between 8
/// and 72 (each read after trimming), the font trimmed or the default
/// where blank; otherwise the message for the first field that fails.
pub open spec fn validate_spec(
    username: Seq<char>,
    password: Seq<char>,
    interval: Seq<char>,
    font: Seq<char>,
    font_size: Seq<char>,
) -> Result<(Seq<char>, Seq<char>, u64, Seq<char>, i32), Seq<char>> {
    match parse_u64_spec(trim_spec(interval)) {
        Some(i) if i > 0 => match parse_i32_spec(trim_spec(font_size)) {
            Some(z) if size_in_range(z) => Ok(
                (
                    trim_spec(username),
                    password,
                    i,
                    if trim_spec(font).len() == 0 {
                        default_label_font()
                    } else {
                        trim_spec(font)
                    },
                    z,
                ),
            ),
            _ => Err("Error: Label size must be between 8 and 72"@),
        },
        _ => Err("Error: Pull interval must be a positive number"@),
    }
}

/// Checks the settings entered in the window.
pub fn validate_settings(
    username: &str,
    password: &str,
    interval: &str,
    font: &str,
    font_size: &str,
) -> (r: Result<SettingsValues, &'static str>)
    ensures
        match r {
            Ok(v) => validate_spec(username@, password@, interval@, font@, font_size@) == Ok::<
                _,
                Seq<char>,
            >(settings_view(v)),
            Err(m) => validate_spec(username@, password@, interval@, font@, font_size@) == Err::<
                (Seq<char>, Seq<char>, u64, Seq<char>, i32),
                _,
            >(m@),
        },
{
    let ic = chars_of(interval);
    let it = trim(&ic);
    let interval_seconds = match parse_u64(&it) {
        Some(v) => if v > 0 {
            v
        } else {
            return Err("Error: Pull interval must be a positive number");
        },
        None => return Err("Error: Pull interval must be a positive number"),
    };
    let zc = chars_of(font_size);
    let zt = trim(&zc);
    let label_font_size = match parse_i32(&zt) {
        Some(v) => if 8 <= v && v <= 72 {
            v
        } else {
            return Err("Error: Label size must be between 8 and 72");
        },
        None => return Err("Error: Label size must be between 8 and 72"),
    };
    let uc = chars_of(username);
    let ut = trim(&uc);
    let fc = chars_of(font);
    let ftrim = trim(&fc);
    let label_font = if ftrim.len() == 0 {
        String::from_str("IRANSansWeb")
    } else {
        string_from_chars(&ftrim)
    };
    Ok(
        SettingsValues {
            username: string_from_chars(&ut),
            password: String::from_str(password),
            interval_seconds,
            label_font,
            label_font_size,
        },
    )
}

/// `m` with the settings written in.
pub open spec fn with_settings(
    m: Map<Seq<char>, Seq<char>>,
    v: (Seq<char>, Seq<char>, u64, Seq<char>, i32),
) -> Map<Seq<char>, Seq<char>> {
    m.insert(username_key(), v.0).insert(password_key(), v.1).insert(
        interval_key(),
        decimal_spec(v.2 as int),
    ).insert(font_family_key(), v.3).insert(font_size_key(), decimal_spec(v.4 as int))
}

/// Writes the settings into `env` (which the caller then writes back).
pub fn save_settings(env: &mut DotEnvStore, values: &SettingsValues)
    ensures
        final(env).data() == with_settings(old(env).data(), settings_view(*values)),
        final(env).lines_view() == old(env).lines_view(),
        final(env).path_view() == old(env).path_view(),
{
    env.set("MCI_USERNAME", values.username.as_str());
    env.set("MCI_PASSWORD", values.password.as_str());
    let interval = u64_to_decimal(values.interval_seconds);
    env.set("PULL_INTERVAL_SECONDS", interval.as_str());
    env.set("MCI_LABEL_FONT_FAMILY", values.label_font.as_str());
    let size = i64_to_decimal(values.label_font_size as i64);
    env.set("MCI_LABEL_FONT_SIZE", size.as_str());
}

/// The look of a button of the Manage App window.
#[derive(Debug)]
pub struct ButtonVisual {
    pub label: &'static str,
    pub fill: u32,
    pub border: u32,
    pub text: u32,
    pub hot_fill: u32,
    pub pressed_fill: u32,
}

pub const SETTINGS_SAVE: usize = 2010;
pub const SETTINGS_CLEAR_SESSION: usize = 2011;
pub const SETTINGS_RELOAD: usize = 2012;
pub const SETTINGS_CLOSE: usize = 2013;

/// A button's label and its colours: fill, border, text, and fill while
/// hovered and while pressed.
pub open spec fn has_visual(
    b: ButtonVisual,
    label: Seq<char>,
    fill: u32,
    border: u32,
    text: u32,
    hot_fill: u32,
    pressed_fill: u32,
) -> bool {
    &&& b.label@ == label
    &&& b.fill == fill
    &&& b.border == border
    &&& b.text == text
    &&& b.hot_fill == hot_fill
    &&& b.pressed_fill == pressed_fill
}

/// The look of the button with identifier `id`; `None` for other identifiers.
pub fn button_visual(id: usize) -> (r: Option<ButtonVisual>)
    ensures
        id == SETTINGS_SAVE ==> (r matches Some(b) && has_visual(
            b,
            "Save changes"@,
            rgb_spec(20, 111, 237),
            rgb_spec(20, 111, 237),
            rgb_spec(255, 255, 255),
            rgb_spec(34, 124, 247),
            rgb_spec(15, 93, 205),
        )),
        id == SETTINGS_CLEAR_SESSION ==> (r matches Some(b) && has_visual(
            b,
            "Clear session"@,
            rgb_spec(255, 245, 245),
            rgb_spec(255, 200, 200),
            rgb_spec(176, 48, 48),
            rgb_spec(255, 236, 236),
            rgb_spec(255, 225, 225),
        )),
        id == SETTINGS_RELOAD ==> (r matches Some(b) && has_visual(
            b,
            "Reload"@,
            rgb_spec(239, 246, 255),
            rgb_spec(194, 220, 255),
            rgb_spec(35, 92, 165),
            rgb_spec(228, 239, 255),
            rgb_spec(214, 230, 252),
        )),
        id == SETTINGS_CLOSE ==> (r matches Some(b) && has_visual(
            b,
            "Close"@,
            rgb_spec(243, 246, 250),
            rgb_spec(218, 226, 236),
            rgb_spec(22, 28, 36),
            rgb_spec(234, 239, 246),
            rgb_spec(224, 232, 242),
        )),
        !(SETTINGS_SAVE <= id <= SETTINGS_CLOSE) ==> r is None,
{
    if id == SETTINGS_SAVE {
        let accent = rgb(20, 111, 237);
        Some(
            ButtonVisual {
                label: "Save changes",
                fill: accent,
                border: accent,
                text: rgb(255, 255, 255),
                hot_fill: rgb(34, 124, 247),
                pressed_fill: rgb(15, 93, 205),
            },
        )
    } else if id == SETTINGS_CLEAR_SESSION {
        Some(
            ButtonVisual {
                label: "Clear session",
                fill: rgb(255, 245, 245),
                border: rgb(255, 200, 200),
                text: rgb(176, 48, 48),
                hot_fill: rgb(255, 236, 236),
                pressed_fill: rgb(255, 225, 225),
            },
        )
    } else if id == SETTINGS_RELOAD {
        Some(
            ButtonVisual {
                label: "Reload",
                fill: rgb(239, 246, 255),
                border: rgb(194, 220, 255),
                text: rgb(35, 92, 165),
                hot_fill: rgb(228, 239, 255),
                pressed_fill: rgb(214, 230, 252),
            },
        )
    } else if id == SETTINGS_CLOSE {
        Some(
            ButtonVisual {
                label: "Close",
                fill: rgb(243, 246, 250),
                border: rgb(218, 226, 236),
                text: rgb(22, 28, 36),
                hot_fill: rgb(234, 239, 246),
                pressed_fill: rgb(224, 232, 242),
            },
        )
    } else {
        None
    }
}

/// The fill and text colours of a button: grey while disabled; otherwise
/// the pressed fill while pressed, the hovered fill while hovered, its own
/// fill else, always with its own text colour.
pub open spec fn button_colors_spec(b: ButtonVisual, disabled: bool, pressed: bool, hot: bool) -> (
    u32,
    u32,
) {
    if disabled {
        (rgb_spec(235, 238, 242), rgb_spec(142, 153, 166))
    } else if pressed {
        (b.pressed_fill, b.text)
    } else if hot {
        (b.hot_fill, b.text)
    } else {
        (b.fill, b.text)
    }
}

/// The fill and text colours of a button in its current state.
pub fn button_colors(visual: &ButtonVisual, disabled: bool, pressed: bool, hot: bool) -> (r: (
    u32,
    u32,
))
    ensures
        r == button_colors_spec(*visual, disabled, pressed, hot),
{
    let fill = if disabled {
        rgb(235, 238, 242)
    } else if pressed {
        visual.pressed_fill
    } else if hot {
        visual.hot_fill
    } else {
        visual.fill
    };
    let text = if disabled {
        rgb(142, 153, 166)
    } else {
        visual.text
    };
    (fill, text)
}

/// Settings accepted by the window and saved read back as the same
/// settings, whatever interval is given as the fallback.
pub proof fn law_saved_settings_read_back(
    m: Map<Seq<char>, Seq<char>>,
    username: Seq<char>,
    password: Seq<char>,
    interval: Seq<char>,
    font: Seq<char>,
    font_size: Seq<char>,
    fallback_interval: u64,
)
    requires
        validate_spec(username, password, interval, font, font_size) is Ok,
    ensures
        settings_from(
            Some(with_settings(m, validate_spec(username, password, interval, font, font_size)->Ok_0)),
            fallback_interval,
        ) == validate_spec(username, password, interval, font, font_size)->Ok_0,
{
    let v = validate_spec(username, password, interval, font, font_size)->Ok_0;
    reveal_strlit("MCI_USERNAME");
    reveal_strlit("MCI_PASSWORD");
    reveal_strlit("PULL_INTERVAL_SECONDS");
    reveal_strlit("MCI_LABEL_FONT_FAMILY");
    reveal_strlit("MCI_LABEL_FONT_SIZE");
    reveal_strlit("IRANSansWeb");
    assert(username_key()[4] != password_key()[4]);
    assert(username_key()[0] != interval_key()[0]);
    assert(username_key().len() != font_family_key().len());
    assert(username_key().len() != font_size_key().len());
    assert(password_key()[0] != interval_key()[0]);
    assert(password_key().len() != font_family_key().len());
    assert(password_key().len() != font_size_key().len());
    assert(interval_key()[0] != font_family_key()[0]);
    assert(interval_key()[0] != font_size_key()[0]);
    assert(font_family_key().len() != font_size_key().len());
    let w = with_settings(m, v);
    crate::text::law_parse_u64_decimal(v.2);
    crate::text::law_parse_i32_decimal(v.4);
    crate::text::lemma_trim_idempotent(font);
    let d = default_label_font();
    crate::text::lemma_trim_start_at(d, 0);
    assert(d.skip(0) == d);
    crate::text::lemma_trim_end_at(d, d.len() as int);
    assert(d.take(d.len() as int) == d);
    assert(w[font_family_key()] == v.3);
    assert(trim_spec(v.3).len() > 0);
}

} // verus!
