//! Fonts and colours of the windows.
use vstd::prelude::*;

use crate::text::same_text;

verus! {

/// A font: its name and where it lies.
#[derive(Debug, Clone, Copy, PartialEq, Eq)]
pub struct Font {
    pub name: &'static str,
    pub path: &'static str,
}

pub open spec fn is_font(font: Font, name: Seq<char>, path: Seq<char>) -> bool {
    font.name@ == name && font.path@ == path
}

pub open spec fn is_segoe(font: Font) -> bool {
    is_font(font, "segoe"@, "C:\\Windows\\Fonts\\segoeui.ttf"@)
}

pub open spec fn is_yahei(font: Font) -> bool {
    is_font(font, "yahei"@, "C:\\Windows\\Fonts\\msyh.ttc"@)
}

pub open spec fn is_jhenghei(font: Font) -> bool {
    is_font(font, "jhenghei"@, "C:\\Windows\\Fonts\\msjh.ttc"@)
}

pub open spec fn is_meiryo(font: Font) -> bool {
    is_font(font, "meiryo"@, "C:\\Windows\\Fonts\\meiryo.ttc"@)
}

/// The fonts to try, in the order in which they are asked for a character. The font of the
/// active language stands before those of its neighbours.
pub fn font_candidates(locale: &str) -> (r: Vec<Font>)
    ensures
        r@.len() == 4,
        is_segoe(r@[0]),
        locale@ == "zh-TW"@ ==> is_jhenghei(r@[1]) && is_yahei(r@[2]) && is_meiryo(r@[3]),
        locale@ == "ja"@ ==> is_meiryo(r@[1]) && is_yahei(r@[2]) && is_jhenghei(r@[3]),
        locale@ != "zh-TW"@ && locale@ != "ja"@ ==> is_yahei(r@[1]) && is_jhenghei(r@[2])
            && is_meiryo(r@[3]),
{
    let segoe = Font { name: "segoe", path: "C:\\Windows\\Fonts\\segoeui.ttf" };
    let yahei = Font { name: "yahei", path: "C:\\Windows\\Fonts\\msyh.ttc" };
    let jhenghei = Font { name: "jhenghei", path: "C:\\Windows\\Fonts\\msjh.ttc" };
    let meiryo = Font { name: "meiryo", path: "C:\\Windows\\Fonts\\meiryo.ttc" };
    proof {
        reveal_strlit("zh-TW");
        reveal_strlit("ja");
        assert("zh-TW"@.len() == 5);
        assert("ja"@.len() == 2);
    }
    let mut fonts: Vec<Font> = Vec::new();
    fonts.push(segoe);
    if same_text(locale, "zh-TW") {
        fonts.push(jhenghei);
        fonts.push(yahei);
        fonts.push(meiryo);
    } else if same_text(locale, "ja") {
        fonts.push(meiryo);
        fonts.push(yahei);
        fonts.push(jhenghei);
    } else {
        fonts.push(yahei);
        fonts.push(jhenghei);
        fonts.push(meiryo);
    }
    fonts
}

/// The colour of good news, in red, green and blue.
pub fn success_color(dark_mode: bool) -> (r: u32)
    ensures
        r == if dark_mode {
            0x60_c884u32
        } else {
            0x16_8042u32
        },
{
    if dark_mode {
        0x60_c884
    } else {
        0x16_8042
    }
}

/// The background of a section, in red, green and blue.
pub fn section_fill(dark_mode: bool) -> (r: u32)
    ensures
        r == if dark_mode {
            0x24_2424u32
        } else {
            0xff_ffffu32
        },
{
    if dark_mode {
        0x24_2424
    } else {
        0xff_ffff
    }
}

} // verus!
