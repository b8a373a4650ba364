//! Which catalog wiring Codex uses.
use crate::json::{toml_parse, Json, JsonV};
use vstd::prelude::*;

verus! {

/// A catalog wiring.
#[derive(Debug, Clone, Copy, PartialEq, Eq, Structural)]
pub enum Mode {
    /// `model_catalog_json` is set: Codex reads the pinned file and never asks
    /// for the model list.
    Pinned,
    /// No pin, and the provider has an `auth` command: Codex fetches the model
    /// list at each session start.
    Dynamic,
    /// No pin and no `auth` command: Codex falls through to default metadata.
    Fallback,
}

pub const DEFAULT_ACTIVE_PROVIDER: &'static str = "codexferry";

/// The wiring that a Codex configuration describes.
pub open spec fn mode_of(doc: JsonV, provider: Seq<char>) -> Mode {
    if doc.get("model_catalog_json"@) is Some {
        Mode::Pinned
    } else if doc.at("model_providers"@).at(provider).at("auth"@).get_str("command"@) is Some {
        Mode::Dynamic
    } else {
        Mode::Fallback
    }
}

/// The wiring that a Codex configuration describes.
pub fn mode_of_document(doc: &Json, active_provider: &str) -> (r: Mode)
    ensures
        r == mode_of(doc@, active_provider@),
{
    if doc.get("model_catalog_json").is_some() {
        return Mode::Pinned;
    }
    if let Some(providers) = doc.get("model_providers") {
        if let Some(provider) = providers.get(active_provider) {
            if let Some(auth) = provider.get("auth") {
                if auth.get_str("command").is_some() {
                    return Mode::Dynamic;
                }
            }
        }
    }
    Mode::Fallback
}

/// The wiring that the text of a Codex configuration describes; a text that is
/// missing or no TOML counts as [`Mode::Fallback`].
pub fn detect_mode(codex_toml_text: Option<&str>, active_provider: &str) -> (r: Mode)
    ensures
        r == (match codex_toml_text {
            Some(text) => match toml_parse(text@) {
                Ok(doc) => mode_of(doc, active_provider@),
                Err(_) => Mode::Fallback,
            },
            None => Mode::Fallback,
        }),
{
    match codex_toml_text {
        Some(text) => match Json::parse_toml(text) {
            Ok(doc) => mode_of_document(&doc, active_provider),
            Err(_) => Mode::Fallback,
        },
        None => Mode::Fallback,
    }
}

/// A pin wins over everything else that the configuration says.
pub proof fn pin_wins(doc: JsonV, provider: Seq<char>)
    requires
        doc.get("model_catalog_json"@) is Some,
    ensures
        mode_of(doc, provider) == Mode::Pinned,
{
}

} // verus!
