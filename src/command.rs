use vstd::prelude::*;

use crate::text::{push_text, string_from};

verus! {

/// The console statement that stores `json` under `key`.
pub open spec fn set_item(key: Seq<char>, json: Seq<char>) -> Seq<char> {
    "localStorage.setItem(\""@ + key + "\", `"@ + json + "`)"@
}

fn push_set_item(out: &mut Vec<char>, key: &str, json: &str)
    ensures
        final(out)@ == old(out)@ + set_item(key@, json@),
{
    push_text(out, "localStorage.setItem(\"");
    push_text(out, key);
    push_text(out, "\", `");
    push_text(out, json);
    push_text(out, "`)");
    proof {
        assert(final(out)@ =~= old(out)@ + set_item(key@, json@));
    }
}

/// The statement that stores a world save.
pub fn saved_game_command(json: &str) -> (r: String)
    ensures
        r@ == set_item("savedGame"@, json@),
{
    let mut out: Vec<char> = Vec::new();
    push_set_item(&mut out, "savedGame", json);
    proof {
        assert(out@ =~= set_item("savedGame"@, json@));
    }
    string_from(&out)
}

/// The statement that stores the settings.
pub fn settings_command(json: &str) -> (r: String)
    ensures
        r@ == set_item("settings"@, json@),
{
    let mut out: Vec<char> = Vec::new();
    push_set_item(&mut out, "settings", json);
    proof {
        assert(out@ =~= set_item("settings"@, json@));
    }
    string_from(&out)
}

/// The two statements, world save then settings, joined by `;`.
pub fn local_storage_command(json_strings: &[String; 2]) -> (r: String)
    ensures
        r@ == set_item("savedGame"@, json_strings[0]@) + ";"@ + set_item(
            "settings"@,
            json_strings[1]@,
        ),
{
    let mut out: Vec<char> = Vec::new();
    push_set_item(&mut out, "savedGame", json_strings[0].as_str());
    push_text(&mut out, ";");
    push_set_item(&mut out, "settings", json_strings[1].as_str());
    proof {
        assert(out@ =~= set_item("savedGame"@, json_strings[0]@) + ";"@ + set_item(
            "settings"@,
            json_strings[1]@,
        ));
    }
    string_from(&out)
}

} // verus!
