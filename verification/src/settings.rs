//! Which settings keys sync across devices.
use vstd::prelude::*;
use crate::text::str_eq;

verus! {

/// Settings keys that sync across devices (last writer wins per key). Everything else
/// stays device-local.
pub open spec fn synced_setting_spec(key: Seq<char>) -> bool {
    ||| key == "theme"@
    ||| key == "accent_color"@
    ||| key == "language"@
    ||| key == "date_format"@
    ||| key == "key_notation_format"@
    ||| key == "auto_analyze_on_import"@
}

/// Whether a settings key participates in cloud sync.
pub fn is_synced_setting(key: &str) -> (r: bool)
    ensures
        r == synced_setting_spec(key@),
{
    str_eq(key, "theme") || str_eq(key, "accent_color") || str_eq(key, "language") || str_eq(
        key,
        "date_format",
    ) || str_eq(key, "key_notation_format") || str_eq(key, "auto_analyze_on_import")
}

/// The settings keys that sync: theme, accent colour, language, date format, key
/// notation and whether to analyse on import.
pub open spec fn synced_keys() -> Set<Seq<char>> {
    set!["theme"@, "accent_color"@, "language"@, "date_format"@, "key_notation_format"@, "auto_analyze_on_import"@]
}

/// Law (whitelist): a settings key syncs exactly when it is one of [`synced_keys`];
/// every other key (the audio device, onboarding flags, backup and sync bookkeeping)
/// stays on its device.
pub proof fn lemma_synced_settings_whitelist()
    ensures
        forall|k: Seq<char>| #[trigger] synced_setting_spec(k) <==> synced_keys().contains(k),
{
}

} // verus!
