//! Client logic for reading unused internet package amounts from the MCI API:
//! the `.env` store, the authentication and package-fetch decisions, the
//! package-response walk, and the text shown by the overlay and the CLI.

mod amounts;
mod cli;
mod client;
mod env_store;
mod json;
mod overlay;
mod settings;
mod text;

pub use amounts::{byte_unit, bytes_label, total_amount, unit_divisor, ByteUnit};
pub use cli::{interval_seconds, parse_args, set_command, token_preview, Args, Command};
pub use client::{
    clear_auth_values, expiry_from_seconds, required_env, reset_saved_auth, safe_i64, string_field,
    token_is_valid, AuthRequest, CredentialType, FetchStep, HttpFailure, MciError,
    MciInternetClient, PackagesFetch, TokenStep,
};
pub use env_store::{is_valid_key, parse_key, quote, unquote, DotEnvStore};
pub use json::{collect_unused_amounts, get, is_object, value_to_i64, JsonNumber, JsonValue};
pub use overlay::{
    closes_label, error_update, font_height, label_height, loword, next_click_count, reload_update,
    reset_failure_update, rgb, run_gui, start_action, text_color, timer_interval_ms, tray_action,
    values_update, wrap_label_text, ActionStart, FetchAction, LabelKind, LabelUpdate, TrayAction,
    MAX_WINDOW_HEIGHT, MENU_MANAGE, MENU_QUIT, MENU_RELOAD, MENU_RESET, MIN_WINDOW_HEIGHT,
    WINDOW_WIDTH,
};
pub use settings::{
    button_colors, button_visual, load_settings_values, save_settings, validate_settings, ButtonVisual,
    SettingsValues, DEFAULT_LABEL_FONT_SIZE, SETTINGS_CLEAR_SESSION, SETTINGS_CLOSE, SETTINGS_RELOAD,
    SETTINGS_SAVE,
};
pub use text::{chars_of, i64_to_decimal, parse_i64, string_from_chars, u64_to_decimal};
