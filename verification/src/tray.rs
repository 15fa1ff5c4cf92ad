//! The icon in the notification area: its picture, its menu and what its messages mean.
use vstd::prelude::*;

use crate::webauthn::{utf16, wide_string};

verus! {

/// What the icon tells the application.
#[derive(Debug, Clone, Copy, PartialEq, Eq, Structural)]
pub enum Event {
    Open,
    Secrets,
    Exit,
    Unavailable,
}

pub open spec fn action_of(id: int) -> Option<Event> {
    if id == 1 {
        Some(Event::Open)
    } else if id == 2 {
        Some(Event::Secrets)
    } else if id == 3 {
        Some(Event::Exit)
    } else {
        None
    }
}

/// What choosing an entry of the menu means.
pub fn action(id: usize) -> (r: Option<Event>)
    ensures
        r == action_of(id as int),
{
    match id {
        1 => Some(Event::Open),
        2 => Some(Event::Secrets),
        3 => Some(Event::Exit),
        _ => None,
    }
}

/// The texts of the menu, in the order of its entries, which count from one.
pub fn menu_keys() -> (r: Vec<&'static str>)
    ensures
        r@.len() == 3,
        r@[0]@ == "tray_open"@,
        r@[1]@ == "temp_title"@,
        r@[2]@ == "tray_exit"@,
{
    let mut keys: Vec<&'static str> = Vec::new();
    keys.push("tray_open");
    keys.push("temp_title");
    keys.push("tray_exit");
    keys
}

pub const WM_DESTROY: u32 = 0x0002;

pub const WM_CLOSE: u32 = 0x0010;

pub const WM_QUERYENDSESSION: u32 = 0x0011;

pub const WM_ENDSESSION: u32 = 0x0016;

pub const WM_COMMAND: u32 = 0x0111;

pub const WM_LBUTTONUP: u32 = 0x0202;

pub const WM_RBUTTONUP: u32 = 0x0205;

/// The message by which the icon reports the pointer.
pub const CALLBACK: u32 = 0x8001;

/// What the window does about a message.
#[derive(Debug, Clone, Copy, PartialEq, Eq, Structural)]
pub enum Reaction {
    /// Put the icon back, since the taskbar is new.
    Restore,
    /// Tell the application, and answer zero.
    Emit(Event),
    /// Offer the menu, and answer zero.
    Menu,
    /// Answer with a number and do nothing else.
    Answer(u8),
    /// Destroy the window, and answer zero.
    Close,
    /// End the message loop, and answer zero.
    Quit,
    /// Leave the message to the system.
    Default,
}

pub open spec fn reaction_to(taskbar: u32, msg: u32, w: int, l: u32) -> Reaction {
    if taskbar != 0 && msg == taskbar {
        Reaction::Restore
    } else if msg == CALLBACK {
        if l == WM_LBUTTONUP {
            Reaction::Emit(Event::Open)
        } else if l == WM_RBUTTONUP {
            Reaction::Menu
        } else {
            Reaction::Answer(0)
        }
    } else if msg == WM_COMMAND {
        match action_of(w % 0x10000) {
            Some(event) => Reaction::Emit(event),
            None => Reaction::Answer(0),
        }
    } else if msg == WM_QUERYENDSESSION {
        Reaction::Answer(1)
    } else if msg == WM_ENDSESSION {
        if w != 0 {
            Reaction::Emit(Event::Exit)
        } else {
            Reaction::Answer(0)
        }
    } else if msg == WM_CLOSE {
        Reaction::Close
    } else if msg == WM_DESTROY {
        Reaction::Quit
    } else {
        Reaction::Default
    }
}

/// What the window does about a message. `taskbar` is the message that announces a new
/// taskbar, or zero where there is none.
pub fn procedure(taskbar: u32, msg: u32, w: usize, l: u32) -> (r: Reaction)
    ensures
        r == reaction_to(taskbar, msg, w as int, l),
{
    if taskbar != 0 && msg == taskbar {
        Reaction::Restore
    } else if msg == CALLBACK {
        if l == WM_LBUTTONUP {
            Reaction::Emit(Event::Open)
        } else if l == WM_RBUTTONUP {
            Reaction::Menu
        } else {
            Reaction::Answer(0)
        }
    } else if msg == WM_COMMAND {
        match action(w % 0x10000) {
            Some(event) => Reaction::Emit(event),
            None => Reaction::Answer(0),
        }
    } else if msg == WM_QUERYENDSESSION {
        Reaction::Answer(1)
    } else if msg == WM_ENDSESSION {
        if w != 0 {
            Reaction::Emit(Event::Exit)
        } else {
            Reaction::Answer(0)
        }
    } else if msg == WM_CLOSE {
        Reaction::Close
    } else if msg == WM_DESTROY {
        Reaction::Quit
    } else {
        Reaction::Default
    }
}

/// The application is told to exit only by the menu's own entry or by the end of the session.
pub proof fn only_explicit_requests_exit(taskbar: u32, msg: u32, w: int, l: u32)
    requires
        reaction_to(taskbar, msg, w, l) == Reaction::Emit(Event::Exit),
    ensures
        (msg == WM_COMMAND && w % 0x10000 == 3) || (msg == WM_ENDSESSION && w != 0),
{
}

/// What follows an attempt to put the icon back.
pub fn after_restore(added: bool) -> (r: Option<Event>)
    ensures
        r == if added {
            None
        } else {
            Some(Event::Unavailable)
        },
{
    if added {
        None
    } else {
        Some(Event::Unavailable)
    }
}

/// Why the icon could not be set up: its thread said so, or was not heard of in time.
pub fn start_failure(answered: bool) -> (r: &'static str)
    ensures
        r@ == if answered {
            "tray unavailable"@
        } else {
            "tray thread stopped"@
        },
{
    if answered {
        "tray unavailable"
    } else {
        "tray thread stopped"
    }
}

/// The picture is a square of so many pixels.
pub const ICON_SIZE: usize = 32;

/// Bytes in a row of the mask.
pub const MASK_STRIDE: usize = 4;

/// Where a pixel begins. Rows run from the bottom to the top.
pub open spec fn offset_of(x: int, y: int) -> int {
    ((ICON_SIZE - 1 - y) * ICON_SIZE + x) * 4
}

pub fn pixel_offset(x: usize, y: usize) -> (r: usize)
    requires
        x < ICON_SIZE,
        y < ICON_SIZE,
    ensures
        r == offset_of(x as int, y as int),
        r + 4 <= 4096,
{
    ((ICON_SIZE - 1 - y) * ICON_SIZE + x) * 4
}

/// The pixel lies on the disc.
pub open spec fn on_disc(x: int, y: int) -> bool {
    let dx = 2 * x + 1 - ICON_SIZE;
    let dy = 2 * y + 1 - ICON_SIZE;
    dx * dx + dy * dy <= 28 * 28
}

/// The pixel belongs to the prompt drawn on the disc: an arrow of two strokes and a line.
pub open spec fn on_mark(x: int, y: int) -> bool {
    ||| 8 <= x < 16 && x <= y <= x + 1
    ||| 8 <= x < 16 && 31 - x <= y <= 32 - x
    ||| 17 <= x < 25 && 22 <= y < 24
}

/// A byte of a pixel: blue, green, red and opacity in turn.
pub open spec fn shade(x: int, y: int, channel: int) -> u8 {
    if on_mark(x, y) {
        255
    } else if on_disc(x, y) {
        if channel == 0 {
            216
        } else if channel == 1 {
            114
        } else if channel == 2 {
            37
        } else {
            255
        }
    } else {
        0
    }
}

/// The bytes show the pixel.
pub open spec fn shows_pixel(pixels: Seq<u8>, x: int, y: int) -> bool {
    forall|channel: int|
        0 <= channel < 4 ==> #[trigger] pixels[offset_of(x, y) + channel] == shade(x, y, channel)
}

/// The bit of a byte, counted from the highest.
pub open spec fn bit_at(byte: u8, place: int) -> bool {
    (byte >> ((7 - place) as u8)) & 1u8 == 1u8
}

/// The mask hides the pixel.
pub open spec fn masks_pixel(mask: Seq<u8>, x: int, y: int) -> bool {
    bit_at(mask[(ICON_SIZE - 1 - y) * MASK_STRIDE + x / 8], x % 8)
}

fn in_disc(x: usize, y: usize) -> (r: bool)
    requires
        x < ICON_SIZE,
        y < ICON_SIZE,
    ensures
        r == on_disc(x as int, y as int),
{
    let dx: i32 = x as i32 * 2 + 1 - 32;
    let dy: i32 = y as i32 * 2 + 1 - 32;
    assert(-31 <= dx <= 31 && -31 <= dy <= 31);
    assert(0 <= dx * dx <= 961) by (nonlinear_arith)
        requires
            -31 <= dx <= 31,
    ;
    assert(0 <= dy * dy <= 961) by (nonlinear_arith)
        requires
            -31 <= dy <= 31,
    ;
    dx * dx + dy * dy <= 28 * 28
}

fn in_mark(x: usize, y: usize) -> (r: bool)
    requires
        x < ICON_SIZE,
        y < ICON_SIZE,
    ensures
        r == on_mark(x as int, y as int),
{
    (8 <= x && x < 16 && x <= y && y <= x + 1) || (8 <= x && x < 16 && 31 - x <= y && y <= 32 - x)
        || (17 <= x && x < 25 && 22 <= y && y < 24)
}

/// The bytes of the picture up to a place.
spec fn drawn(pixels: Seq<u8>) -> bool {
    forall|k: int|
        0 <= k < pixels.len() ==> #[trigger] pixels[k] == shade((k / 4) % 32, 31 - k / 128, k % 4)
}

fn push_pixel(pixels: &mut Vec<u8>, x: usize, y: usize)
    requires
        x < ICON_SIZE,
        y < ICON_SIZE,
        drawn(old(pixels)@),
        old(pixels)@.len() == offset_of(x as int, y as int),
    ensures
        drawn(final(pixels)@),
        final(pixels)@.len() == old(pixels)@.len() + 4,
{
    let ghost base = pixels@.len() as int;
    proof {
        lemma_offset(x as int, y as int, 0);
        lemma_offset(x as int, y as int, 1);
        lemma_offset(x as int, y as int, 2);
        lemma_offset(x as int, y as int, 3);
    }
    if in_mark(x, y) {
        pixels.push(255);
        pixels.push(255);
        pixels.push(255);
        pixels.push(255);
    } else if in_disc(x, y) {
        pixels.push(216);
        pixels.push(114);
        pixels.push(37);
        pixels.push(255);
    } else {
        pixels.push(0);
        pixels.push(0);
        pixels.push(0);
        pixels.push(0);
    }
    assert forall|k: int| 0 <= k < pixels@.len() implies #[trigger] pixels@[k] == shade(
        (k / 4) % 32,
        31 - k / 128,
        k % 4,
    ) by {
        if k < base {
            assert(pixels@[k] == old(pixels)@[k]);
        } else {
            assert(k == base || k == base + 1 || k == base + 2 || k == base + 3);
        }
    }
}

proof fn lemma_offset(x: int, y: int, channel: int)
    requires
        0 <= x < 32,
        0 <= y < 32,
        0 <= channel < 4,
    ensures
        0 <= offset_of(x, y) <= 4092,
        ((offset_of(x, y) + channel) / 4) % 32 == x,
        31 - (offset_of(x, y) + channel) / 128 == y,
        (offset_of(x, y) + channel) % 4 == channel,
{
    let k = offset_of(x, y) + channel;
    assert(k == 128 * (31 - y) + 4 * x + channel);
    assert(k / 4 == 32 * (31 - y) + x);
}

proof fn lemma_clear(byte: u8, place: u8, other: u8)
    requires
        place < 8,
        other < 8,
    ensures
        ((byte & !(1u8 << place)) >> other) & 1u8 == (if place == other {
            0u8
        } else {
            (byte >> other) & 1u8
        }),
{
    assert(((byte & !(1u8 << place)) >> other) & 1u8 == (if place == other {
        0u8
    } else {
        (byte >> other) & 1u8
    })) by (bit_vector)
        requires
            place < 8,
            other < 8,
    ;
}

/// A byte of the mask: a pixel of the disc is not hidden.
fn mask_byte(column: usize, y: usize) -> (r: u8)
    requires
        column < MASK_STRIDE,
        y < ICON_SIZE,
    ensures
        forall|i: int|
            0 <= i < 8 ==> #[trigger] bit_at(r, i) == !on_disc(8 * column + i, y as int),
{
    let mut byte: u8 = 0xff;
    assert forall|i: int| 0 <= i < 8 implies #[trigger] bit_at(0xff, i) by {
        let n = (7 - i) as u8;
        assert((0xffu8 >> n) & 1u8 == 1u8) by (bit_vector)
            requires
                n < 8,
        ;
    }
    let mut i: usize = 0;
    while i < 8
        invariant
            i <= 8,
            column < MASK_STRIDE,
            y < ICON_SIZE,
            forall|j: int|
                0 <= j < 8 ==> #[trigger] bit_at(byte, j) == !(j < i && on_disc(
                    8 * column + j,
                    y as int,
                )),
        decreases 8 - i,
    {
        if in_disc(8 * column + i, y) {
            let place: u8 = (7 - i) as u8;
            let ghost before = byte;
            byte = byte & !(1u8 << place);
            assert forall|j: int| 0 <= j < 8 implies #[trigger] bit_at(byte, j) == !(j < i + 1
                && on_disc(8 * column + j, y as int)) by {
                lemma_clear(before, place, (7 - j) as u8);
                assert(bit_at(before, j) == !(j < i && on_disc(8 * column + j, y as int)));
                let other = (7 - j) as u8;
                assert((before >> other) & 1u8 == 0u8 || (before >> other) & 1u8 == 1u8)
                    by (bit_vector);
            }
        }
        i = i + 1;
    }
    byte
}

/// The picture of the icon, and the mask that leaves what lies outside the disc transparent.
pub fn tray_icon_bitmaps() -> (r: (Vec<u8>, Vec<u8>))
    ensures
        r.0@.len() == 4096,
        r.1@.len() == 128,
        forall|x: int, y: int|
            0 <= x < ICON_SIZE && 0 <= y < ICON_SIZE ==> #[trigger] shows_pixel(r.0@, x, y),
        forall|x: int, y: int|
            0 <= x < ICON_SIZE && 0 <= y < ICON_SIZE ==> #[trigger] masks_pixel(r.1@, x, y)
                == !on_disc(x, y),
{
    let mut pixels: Vec<u8> = Vec::new();
    let mut mask: Vec<u8> = Vec::new();
    let mut row: usize = 0;
    while row < ICON_SIZE
        invariant
            row <= ICON_SIZE,
            pixels@.len() == 128 * row,
            drawn(pixels@),
            mask@.len() == 4 * row,
            masked(mask@),
        decreases ICON_SIZE - row,
    {
        let y: usize = ICON_SIZE - 1 - row;
        let mut x: usize = 0;
        while x < ICON_SIZE
            invariant
                row < ICON_SIZE,
                y == ICON_SIZE - 1 - row,
                x <= ICON_SIZE,
                pixels@.len() == 128 * row + 4 * x,
                drawn(pixels@),
            decreases ICON_SIZE - x,
        {
            push_pixel(&mut pixels, x, y);
            x = x + 1;
        }
        let mut column: usize = 0;
        while column < MASK_STRIDE
            invariant
                row < ICON_SIZE,
                y == ICON_SIZE - 1 - row,
                column <= MASK_STRIDE,
                mask@.len() == 4 * row + column,
                masked(mask@),
            decreases MASK_STRIDE - column,
        {
            let byte = mask_byte(column, y);
            let ghost before = mask@;
            mask.push(byte);
            assert forall|k: int, i: int|
                0 <= k < mask@.len() && 0 <= i < 8 implies #[trigger] bit_at(mask@[k], i)
                == !on_disc(8 * (k % 4) + i, 31 - k / 4) by {
                if k < before.len() {
                    assert(mask@[k] == before[k]);
                } else {
                    assert(k == 4 * row + column);
                    assert(k % 4 == column && k / 4 == row);
                }
            }
            column = column + 1;
        }
        row = row + 1;
    }
    assert forall|x: int, y: int|
        0 <= x < ICON_SIZE && 0 <= y < ICON_SIZE implies #[trigger] shows_pixel(pixels@, x, y) by {
        assert forall|channel: int| 0 <= channel < 4 implies #[trigger] pixels@[offset_of(x, y)
            + channel] == shade(x, y, channel) by {
            lemma_offset(x, y, channel);
        }
    }
    assert forall|x: int, y: int|
        0 <= x < ICON_SIZE && 0 <= y < ICON_SIZE implies #[trigger] masks_pixel(mask@, x, y)
        == !on_disc(x, y) by {
        let k = (31 - y) * 4 + x / 8;
        assert(k % 4 == x / 8 && k / 4 == 31 - y);
        assert(bit_at(mask@[k], x % 8) == !on_disc(8 * (k % 4) + x % 8, 31 - k / 4));
    }
    (pixels, mask)
}

/// The bytes of the mask up to a place.
spec fn masked(mask: Seq<u8>) -> bool {
    forall|k: int, i: int|
        0 <= k < mask.len() && 0 <= i < 8 ==> #[trigger] bit_at(mask[k], i) == !on_disc(
            8 * (k % 4) + i,
            31 - k / 4,
        )
}

/// A text in UTF-16 with a zero behind it.
pub fn wide(s: &str) -> (r: Vec<u16>)
    ensures
        r@ == utf16(s@).push(0),
{
    wide_string(s)
}

/// A click opens the window and a click with the other button the menu; an entry of the menu does
/// what it says; and a new taskbar gets the icon back.
pub proof fn clicks_do_what_they_say(taskbar: u32, w: int, l: u32)
    requires
        taskbar != CALLBACK,
        taskbar != WM_COMMAND,
    ensures
        reaction_to(taskbar, CALLBACK, w, WM_LBUTTONUP) == Reaction::Emit(Event::Open),
        reaction_to(taskbar, CALLBACK, w, WM_RBUTTONUP) == Reaction::Menu,
        reaction_to(taskbar, WM_COMMAND, 1, l) == Reaction::Emit(Event::Open),
        reaction_to(taskbar, WM_COMMAND, 2, l) == Reaction::Emit(Event::Secrets),
        reaction_to(taskbar, WM_COMMAND, 3, l) == Reaction::Emit(Event::Exit),
        taskbar != 0 ==> reaction_to(taskbar, taskbar, w, l) == Reaction::Restore,
        action_of(w) is Some <==> 1 <= w <= 3,
{
}

/// The end of the session is allowed, and ends the application once it is certain.
pub proof fn sessions_may_end(w: int, l: u32)
    ensures
        reaction_to(0, WM_QUERYENDSESSION, w, l) == Reaction::Answer(1),
        w != 0 ==> reaction_to(0, WM_ENDSESSION, w, l) == Reaction::Emit(Event::Exit),
        w == 0 ==> reaction_to(0, WM_ENDSESSION, w, l) == Reaction::Answer(0),
        reaction_to(0, WM_CLOSE, w, l) == Reaction::Close,
        reaction_to(0, WM_DESTROY, w, l) == Reaction::Quit,
{
}

/// The picture is opaque on the disc, white on its mark, and clear elsewhere.
pub proof fn the_disc_is_opaque(x: int, y: int)
    requires
        0 <= x < 32,
        0 <= y < 32,
    ensures
        on_mark(x, y) ==> forall|channel: int| #[trigger] shade(x, y, channel) == 255,
        on_disc(x, y) ==> shade(x, y, 3) == 255,
        !on_disc(x, y) && !on_mark(x, y) ==> forall|channel: int| #[trigger]
            shade(x, y, channel) == 0,
        on_disc(x, y) && !on_mark(x, y) ==> shade(x, y, 0) == 216 && shade(x, y, 1) == 114
            && shade(x, y, 2) == 37,
{
}

} // verus!
