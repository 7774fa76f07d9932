#![allow(non_snake_case)]
use vstd::prelude::*;

use crate::text::{chars_of, push_signed, push_text, signed_dec, string_from};

verus! {

/// The user's preferences stored beside a world save.
#[derive(Debug)]
pub struct Settings {
    pub music: bool,
    pub sound: bool,
    pub invert: bool,
    pub fps: bool,
    pub drawDistance: i32,
    pub forward: String,
    pub left: String,
    pub backward: String,
    pub right: String,
    pub jump: String,
    pub build: String,
    pub chat: String,
    pub fog: String,
    pub saveLoc: String,
    pub loadLoc: String,
    pub username: String,
}

impl Settings {
    pub fn new(
        music: bool,
        sound: bool,
        invert: bool,
        fps: bool,
        drawDistance: i32,
        forward: String,
        left: String,
        backward: String,
        right: String,
        jump: String,
        build: String,
        chat: String,
        fog: String,
        saveLoc: String,
        loadLoc: String,
        username: String,
    ) -> (r: Self)
        ensures
            r == (Settings {
                music,
                sound,
                invert,
                fps,
                drawDistance,
                forward,
                left,
                backward,
                right,
                jump,
                build,
                chat,
                fog,
                saveLoc,
                loadLoc,
                username,
            }),
    {
        Settings {
            music,
            sound,
            invert,
            fps,
            drawDistance,
            forward,
            left,
            backward,
            right,
            jump,
            build,
            chat,
            fog,
            saveLoc,
            loadLoc,
            username,
        }
    }

    pub fn default() -> (r: Self)
        ensures
            !r.music,
            r.sound,
            !r.invert,
            !r.fps,
            r.drawDistance == 0,
            r.forward@ == "W"@,
            r.left@ == "A"@,
            r.backward@ == "S"@,
            r.right@ == "D"@,
            r.jump@ == "<space>"@,
            r.build@ == "B"@,
            r.chat@ == "T"@,
            r.fog@ == "F"@,
            r.saveLoc@ == "<enter>"@,
            r.loadLoc@ == "R"@,
            r.username@ == "noname"@,
    {
        Settings {
            music: false,
            sound: true,
            invert: false,
            fps: false,
            drawDistance: 0,
            forward: "W".to_string(),
            left: "A".to_string(),
            backward: "S".to_string(),
            right: "D".to_string(),
            jump: "<space>".to_string(),
            build: "B".to_string(),
            chat: "T".to_string(),
            fog: "F".to_string(),
            saveLoc: "<enter>".to_string(),
            loadLoc: "R".to_string(),
            username: "noname".to_string(),
        }
    }
}

pub open spec fn hex_char(d: nat) -> char {
    if d < 10 { crate::text::digit_char(d) } else if d == 10 { 'a' } else if d == 11 { 'b' }
    else if d == 12 { 'c' } else if d == 13 { 'd' } else if d == 14 { 'e' } else { 'f' }
}

/// How one character stands inside a JSON string: quote and backslash are
/// escaped by a backslash, control characters by `\u00XX`.
pub open spec fn escaped_char(c: char) -> Seq<char> {
    if c == '"' {
        seq!['\\', '"']
    } else if c == '\\' {
        seq!['\\', '\\']
    } else if (c as u32) < 0x20 {
        seq!['\\', 'u', '0', '0', hex_char((c as u32 / 16) as nat), hex_char((c as u32 % 16) as nat)]
    } else {
        seq![c]
    }
}

pub open spec fn escaped(s: Seq<char>) -> Seq<char>
    decreases s.len(),
{
    if s.len() == 0 { Seq::empty() } else { escaped(s.drop_last()) + escaped_char(s.last()) }
}

/// `s` as a quoted JSON string.
pub open spec fn json_string(s: Seq<char>) -> Seq<char> {
    "\""@ + escaped(s) + "\""@
}

pub open spec fn json_bool(b: bool) -> Seq<char> {
    if b { "true"@ } else { "false"@ }
}

/// The JSON object that `serialize_settings` writes.
pub open spec fn settings_json(s: Settings) -> Seq<char> {
    "{\"music\":"@ + json_bool(s.music) + ",\"sound\":"@ + json_bool(s.sound) + ",\"invert\":"@
        + json_bool(s.invert) + ",\"fps\":"@ + json_bool(s.fps) + ",\"drawDistance\":"@
        + signed_dec(s.drawDistance as int) + ",\"forward\":"@ + json_string(s.forward@)
        + ",\"left\":"@ + json_string(s.left@) + ",\"backward\":"@ + json_string(s.backward@)
        + ",\"right\":"@ + json_string(s.right@) + ",\"jump\":"@ + json_string(s.jump@)
        + ",\"build\":"@ + json_string(s.build@) + ",\"chat\":"@ + json_string(s.chat@)
        + ",\"fog\":"@ + json_string(s.fog@) + ",\"saveLoc\":"@ + json_string(s.saveLoc@)
        + ",\"loadLoc\":"@ + json_string(s.loadLoc@) + ",\"username\":"@ + json_string(
        s.username@,
    ) + "}"@
}

fn hex(d: u32) -> (c: char)
    requires
        d < 16,
    ensures
        c == hex_char(d as nat),
{
    if d == 0 { '0' } else if d == 1 { '1' } else if d == 2 { '2' } else if d == 3 { '3' }
    else if d == 4 { '4' } else if d == 5 { '5' } else if d == 6 { '6' } else if d == 7 { '7' }
    else if d == 8 { '8' } else if d == 9 { '9' } else if d == 10 { 'a' } else if d == 11 { 'b' }
    else if d == 12 { 'c' } else if d == 13 { 'd' } else if d == 14 { 'e' } else { 'f' }
}

fn push_json_string(out: &mut Vec<char>, s: &str)
    ensures
        final(out)@ == old(out)@ + json_string(s@),
{
    let cs: Vec<char> = chars_of(s);
    out.push('"');
    let ghost start = out@;
    let mut i: usize = 0;
    while i < cs.len()
        invariant
            cs@ == s@,
            i <= cs@.len(),
            out@ == start + escaped(cs@.subrange(0, i as int)),
        decreases cs.len() - i,
    {
        let c: char = cs[i];
        let code: u32 = c as u32;
        if c == '"' {
            out.push('\\');
            out.push('"');
        } else if c == '\\' {
            out.push('\\');
            out.push('\\');
        } else if code < 0x20 {
            out.push('\\');
            out.push('u');
            out.push('0');
            out.push('0');
            out.push(hex(code / 16));
            out.push(hex(code % 16));
        } else {
            out.push(c);
        }
        proof {
            let sub = cs@.subrange(0, i + 1);
            assert(sub.drop_last() =~= cs@.subrange(0, i as int));
            assert(sub.last() == c);
        }
        i = i + 1;
        proof {
            assert(out@ =~= start + escaped(cs@.subrange(0, i as int)));
        }
    }
    out.push('"');
    proof {
        reveal_strlit("\"");
        assert(cs@.subrange(0, cs@.len() as int) =~= s@);
        assert(final(out)@ =~= old(out)@ + json_string(s@));
    }
}

fn push_bool(out: &mut Vec<char>, b: bool)
    ensures
        final(out)@ == old(out)@ + json_bool(b),
{
    if b {
        push_text(out, "true");
    } else {
        push_text(out, "false");
    }
}

/// Encodes the settings as a JSON object, keys in a fixed order.
pub fn serialize_settings(settings: Settings) -> (r: String)
    ensures
        r@ == settings_json(settings),
{
    let mut out: Vec<char> = Vec::new();
    push_text(&mut out, "{\"music\":");
    push_bool(&mut out, settings.music);
    push_text(&mut out, ",\"sound\":");
    push_bool(&mut out, settings.sound);
    push_text(&mut out, ",\"invert\":");
    push_bool(&mut out, settings.invert);
    push_text(&mut out, ",\"fps\":");
    push_bool(&mut out, settings.fps);
    push_text(&mut out, ",\"drawDistance\":");
    push_signed(&mut out, settings.drawDistance as i64);
    push_text(&mut out, ",\"forward\":");
    push_json_string(&mut out, settings.forward.as_str());
    push_text(&mut out, ",\"left\":");
    push_json_string(&mut out, settings.left.as_str());
    push_text(&mut out, ",\"backward\":");
    push_json_string(&mut out, settings.backward.as_str());
    push_text(&mut out, ",\"right\":");
    push_json_string(&mut out, settings.right.as_str());
    push_text(&mut out, ",\"jump\":");
    push_json_string(&mut out, settings.jump.as_str());
    push_text(&mut out, ",\"build\":");
    push_json_string(&mut out, settings.build.as_str());
    push_text(&mut out, ",\"chat\":");
    push_json_string(&mut out, settings.chat.as_str());
    push_text(&mut out, ",\"fog\":");
    push_json_string(&mut out, settings.fog.as_str());
    push_text(&mut out, ",\"saveLoc\":");
    push_json_string(&mut out, settings.saveLoc.as_str());
    push_text(&mut out, ",\"loadLoc\":");
    push_json_string(&mut out, settings.loadLoc.as_str());
    push_text(&mut out, ",\"username\":");
    push_json_string(&mut out, settings.username.as_str());
    push_text(&mut out, "}");
    proof {
        assert(out@ =~= settings_json(settings));
    }
    string_from(&out)
}

} // verus!
