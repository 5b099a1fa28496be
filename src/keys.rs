use vstd::prelude::*;

verus! {

/// A physical key, as the detection core identifies it.
///
/// Key names given by users are resolved to these identifiers; the platform's
/// own key codes are converted to them at the edge of the library.
#[derive(Clone, Copy, Debug, PartialEq, Eq, Structural, Hash)]
pub enum CanonicalKey {
    Alt,
    AltGr,
    Backspace,
    CapsLock,
    ControlLeft,
    ControlRight,
    Delete,
    DownArrow,
    End,
    Escape,
    F1,
    F2,
    F3,
    F4,
    F5,
    F6,
    F7,
    F8,
    F9,
    F10,
    F11,
    F12,
    Home,
    LeftArrow,
    MetaLeft,
    MetaRight,
    PageDown,
    PageUp,
    Return,
    RightArrow,
    ShiftLeft,
    ShiftRight,
    Space,
    Tab,
    UpArrow,
    PrintScreen,
    ScrollLock,
    Pause,
    NumLock,
    BackQuote,
    Num0,
    Num1,
    Num2,
    Num3,
    Num4,
    Num5,
    Num6,
    Num7,
    Num8,
    Num9,
    Minus,
    Equal,
    KeyA,
    KeyB,
    KeyC,
    KeyD,
    KeyE,
    KeyF,
    KeyG,
    KeyH,
    KeyI,
    KeyJ,
    KeyK,
    KeyL,
    KeyM,
    KeyN,
    KeyO,
    KeyP,
    KeyQ,
    KeyR,
    KeyS,
    KeyT,
    KeyU,
    KeyV,
    KeyW,
    KeyX,
    KeyY,
    KeyZ,
    Kp0,
    Kp1,
    Kp2,
    Kp3,
    Kp4,
    Kp5,
    Kp6,
    Kp7,
    Kp8,
    Kp9,
    KpReturn,
    KpPlus,
    KpMinus,
    KpMultiply,
    KpDivide,
    KpDelete,
}

/// The named keys of the vocabulary, looked up by their lowercase name.
pub open spec fn named_key(name: Seq<char>) -> Option<CanonicalKey> {
    if name == "alt"@ {
        Some(CanonicalKey::Alt)
    } else if name == "altgr"@ {
        Some(CanonicalKey::AltGr)
    } else if name == "backspace"@ {
        Some(CanonicalKey::Backspace)
    } else if name == "capslock"@ {
        Some(CanonicalKey::CapsLock)
    } else if name == "controlleft"@ {
        Some(CanonicalKey::ControlLeft)
    } else if name == "ctrl"@ {
        Some(CanonicalKey::ControlLeft)
    } else if name == "control"@ {
        Some(CanonicalKey::ControlLeft)
    } else if name == "controlright"@ {
        Some(CanonicalKey::ControlRight)
    } else if name == "delete"@ {
        Some(CanonicalKey::Delete)
    } else if name == "downarrow"@ {
        Some(CanonicalKey::DownArrow)
    } else if name == "down"@ {
        Some(CanonicalKey::DownArrow)
    } else if name == "end"@ {
        Some(CanonicalKey::End)
    } else if name == "escape"@ {
        Some(CanonicalKey::Escape)
    } else if name == "esc"@ {
        Some(CanonicalKey::Escape)
    } else if name == "f1"@ {
        Some(CanonicalKey::F1)
    } else if name == "f2"@ {
        Some(CanonicalKey::F2)
    } else if name == "f3"@ {
        Some(CanonicalKey::F3)
    } else if name == "f4"@ {
        Some(CanonicalKey::F4)
    } else if name == "f5"@ {
        Some(CanonicalKey::F5)
    } else if name == "f6"@ {
        Some(CanonicalKey::F6)
    } else if name == "f7"@ {
        Some(CanonicalKey::F7)
    } else if name == "f8"@ {
        Some(CanonicalKey::F8)
    } else if name == "f9"@ {
        Some(CanonicalKey::F9)
    } else if name == "f10"@ {
        Some(CanonicalKey::F10)
    } else if name == "f11"@ {
        Some(CanonicalKey::F11)
    } else if name == "f12"@ {
        Some(CanonicalKey::F12)
    } else if name == "home"@ {
        Some(CanonicalKey::Home)
    } else if name == "leftarrow"@ {
        Some(CanonicalKey::LeftArrow)
    } else if name == "left"@ {
        Some(CanonicalKey::LeftArrow)
    } else if name == "metaleft"@ {
        Some(CanonicalKey::MetaLeft)
    } else if name == "meta"@ {
        Some(CanonicalKey::MetaLeft)
    } else if name == "command"@ {
        Some(CanonicalKey::MetaLeft)
    } else if name == "cmd"@ {
        Some(CanonicalKey::MetaLeft)
    } else if name == "super"@ {
        Some(CanonicalKey::MetaLeft)
    } else if name == "win"@ {
        Some(CanonicalKey::MetaLeft)
    } else if name == "metaright"@ {
        Some(CanonicalKey::MetaRight)
    } else if name == "pagedown"@ {
        Some(CanonicalKey::PageDown)
    } else if name == "pageup"@ {
        Some(CanonicalKey::PageUp)
    } else if name == "return"@ {
        Some(CanonicalKey::Return)
    } else if name == "enter"@ {
        Some(CanonicalKey::Return)
    } else if name == "rightarrow"@ {
        Some(CanonicalKey::RightArrow)
    } else if name == "right"@ {
        Some(CanonicalKey::RightArrow)
    } else if name == "shiftleft"@ {
        Some(CanonicalKey::ShiftLeft)
    } else if name == "shift"@ {
        Some(CanonicalKey::ShiftLeft)
    } else if name == "shiftright"@ {
        Some(CanonicalKey::ShiftRight)
    } else if name == "space"@ {
        Some(CanonicalKey::Space)
    } else if name == "tab"@ {
        Some(CanonicalKey::Tab)
    } else if name == "uparrow"@ {
        Some(CanonicalKey::UpArrow)
    } else if name == "up"@ {
        Some(CanonicalKey::UpArrow)
    } else if name == "printscreen"@ {
        Some(CanonicalKey::PrintScreen)
    } else if name == "scrolllock"@ {
        Some(CanonicalKey::ScrollLock)
    } else if name == "pause"@ {
        Some(CanonicalKey::Pause)
    } else if name == "numlock"@ {
        Some(CanonicalKey::NumLock)
    } else if name == "backquote"@ {
        Some(CanonicalKey::BackQuote)
    } else if name == "num0"@ {
        Some(CanonicalKey::Num0)
    } else if name == "num1"@ {
        Some(CanonicalKey::Num1)
    } else if name == "num2"@ {
        Some(CanonicalKey::Num2)
    } else if name == "num3"@ {
        Some(CanonicalKey::Num3)
    } else if name == "num4"@ {
        Some(CanonicalKey::Num4)
    } else if name == "num5"@ {
        Some(CanonicalKey::Num5)
    } else if name == "num6"@ {
        Some(CanonicalKey::Num6)
    } else if name == "num7"@ {
        Some(CanonicalKey::Num7)
    } else if name == "num8"@ {
        Some(CanonicalKey::Num8)
    } else if name == "num9"@ {
        Some(CanonicalKey::Num9)
    } else if name == "minus"@ {
        Some(CanonicalKey::Minus)
    } else if name == "equal"@ {
        Some(CanonicalKey::Equal)
    } else if name == "keya"@ {
        Some(CanonicalKey::KeyA)
    } else if name == "keyb"@ {
        Some(CanonicalKey::KeyB)
    } else if name == "keyc"@ {
        Some(CanonicalKey::KeyC)
    } else if name == "keyd"@ {
        Some(CanonicalKey::KeyD)
    } else if name == "keye"@ {
        Some(CanonicalKey::KeyE)
    } else if name == "keyf"@ {
        Some(CanonicalKey::KeyF)
    } else if name == "keyg"@ {
        Some(CanonicalKey::KeyG)
    } else if name == "keyh"@ {
        Some(CanonicalKey::KeyH)
    } else if name == "keyi"@ {
        Some(CanonicalKey::KeyI)
    } else if name == "keyj"@ {
        Some(CanonicalKey::KeyJ)
    } else if name == "keyk"@ {
        Some(CanonicalKey::KeyK)
    } else if name == "keyl"@ {
        Some(CanonicalKey::KeyL)
    } else if name == "keym"@ {
        Some(CanonicalKey::KeyM)
    } else if name == "keyn"@ {
        Some(CanonicalKey::KeyN)
    } else if name == "keyo"@ {
        Some(CanonicalKey::KeyO)
    } else if name == "keyp"@ {
        Some(CanonicalKey::KeyP)
    } else if name == "keyq"@ {
        Some(CanonicalKey::KeyQ)
    } else if name == "keyr"@ {
        Some(CanonicalKey::KeyR)
    } else if name == "keys"@ {
        Some(CanonicalKey::KeyS)
    } else if name == "keyt"@ {
        Some(CanonicalKey::KeyT)
    } else if name == "keyu"@ {
        Some(CanonicalKey::KeyU)
    } else if name == "keyv"@ {
        Some(CanonicalKey::KeyV)
    } else if name == "keyw"@ {
        Some(CanonicalKey::KeyW)
    } else if name == "keyx"@ {
        Some(CanonicalKey::KeyX)
    } else if name == "keyy"@ {
        Some(CanonicalKey::KeyY)
    } else if name == "keyz"@ {
        Some(CanonicalKey::KeyZ)
    } else if name == "kp0"@ {
        Some(CanonicalKey::Kp0)
    } else if name == "kp1"@ {
        Some(CanonicalKey::Kp1)
    } else if name == "kp2"@ {
        Some(CanonicalKey::Kp2)
    } else if name == "kp3"@ {
        Some(CanonicalKey::Kp3)
    } else if name == "kp4"@ {
        Some(CanonicalKey::Kp4)
    } else if name == "kp5"@ {
        Some(CanonicalKey::Kp5)
    } else if name == "kp6"@ {
        Some(CanonicalKey::Kp6)
    } else if name == "kp7"@ {
        Some(CanonicalKey::Kp7)
    } else if name == "kp8"@ {
        Some(CanonicalKey::Kp8)
    } else if name == "kp9"@ {
        Some(CanonicalKey::Kp9)
    } else if name == "kpreturn"@ {
        Some(CanonicalKey::KpReturn)
    } else if name == "kpplus"@ {
        Some(CanonicalKey::KpPlus)
    } else if name == "kpminus"@ {
        Some(CanonicalKey::KpMinus)
    } else if name == "kpmultiply"@ {
        Some(CanonicalKey::KpMultiply)
    } else if name == "kpdivide"@ {
        Some(CanonicalKey::KpDivide)
    } else if name == "kpdelete"@ {
        Some(CanonicalKey::KpDelete)
    } else {
        None
    }
}

/// The key that a single lowercase letter or digit stands for.
pub open spec fn alnum_key(c: char) -> Option<CanonicalKey> {
    match c {
        'a' => Some(CanonicalKey::KeyA),
        'b' => Some(CanonicalKey::KeyB),
        'c' => Some(CanonicalKey::KeyC),
        'd' => Some(CanonicalKey::KeyD),
        'e' => Some(CanonicalKey::KeyE),
        'f' => Some(CanonicalKey::KeyF),
        'g' => Some(CanonicalKey::KeyG),
        'h' => Some(CanonicalKey::KeyH),
        'i' => Some(CanonicalKey::KeyI),
        'j' => Some(CanonicalKey::KeyJ),
        'k' => Some(CanonicalKey::KeyK),
        'l' => Some(CanonicalKey::KeyL),
        'm' => Some(CanonicalKey::KeyM),
        'n' => Some(CanonicalKey::KeyN),
        'o' => Some(CanonicalKey::KeyO),
        'p' => Some(CanonicalKey::KeyP),
        'q' => Some(CanonicalKey::KeyQ),
        'r' => Some(CanonicalKey::KeyR),
        's' => Some(CanonicalKey::KeyS),
        't' => Some(CanonicalKey::KeyT),
        'u' => Some(CanonicalKey::KeyU),
        'v' => Some(CanonicalKey::KeyV),
        'w' => Some(CanonicalKey::KeyW),
        'x' => Some(CanonicalKey::KeyX),
        'y' => Some(CanonicalKey::KeyY),
        'z' => Some(CanonicalKey::KeyZ),
        '0' => Some(CanonicalKey::Num0),
        '1' => Some(CanonicalKey::Num1),
        '2' => Some(CanonicalKey::Num2),
        '3' => Some(CanonicalKey::Num3),
        '4' => Some(CanonicalKey::Num4),
        '5' => Some(CanonicalKey::Num5),
        '6' => Some(CanonicalKey::Num6),
        '7' => Some(CanonicalKey::Num7),
        '8' => Some(CanonicalKey::Num8),
        '9' => Some(CanonicalKey::Num9),
        _ => None,
    }
}

/// The key that an already lowercased name stands for: a named key first,
/// else a single letter or digit.
pub open spec fn key_for(name: Seq<char>) -> Option<CanonicalKey> {
    match named_key(name) {
        Some(k) => Some(k),
        None => if name.len() == 1 {
            alnum_key(name[0])
        } else {
            None
        },
    }
}

/// A name for what `str::to_lowercase` returns.
pub uninterp spec fn lower_of(s: Seq<char>) -> Seq<char>;

/// Relies on `str::to_lowercase`: Unicode lowercase mapping, a function of the
/// characters alone.
#[verifier::external_body]
pub(crate) fn lowercase(s: &str) -> (r: String)
    ensures
        r@ == lower_of(s@),
{
    s.to_lowercase()
}

/// Whether two strings hold the same characters.
pub fn same_text(a: &str, b: &str) -> (r: bool)
    ensures
        r == (a@ == b@),
{
    let n = a.unicode_len();
    if n != b.unicode_len() {
        return false;
    }
    let mut i: usize = 0;
    while i < n
        invariant
            n == a@.len(),
            n == b@.len(),
            i <= n,
            a@.subrange(0, i as int) == b@.subrange(0, i as int),
        decreases n - i,
    {
        if a.get_char(i) != b.get_char(i) {
            return false;
        }
        assert(a@.subrange(0, i + 1) == a@.subrange(0, i as int).push(a@[i as int]));
        assert(b@.subrange(0, i + 1) == b@.subrange(0, i as int).push(b@[i as int]));
        i = i + 1;
    }
    assert(a@ == a@.subrange(0, n as int));
    assert(b@ == b@.subrange(0, n as int));
    true
}

/// Looks up a named key by its lowercase name.
fn lookup_named(name: &str) -> (r: Option<CanonicalKey>)
    ensures
        r == named_key(name@),
{
    if same_text(name, "alt") {
        Some(CanonicalKey::Alt)
    } else if same_text(name, "altgr") {
        Some(CanonicalKey::AltGr)
    } else if same_text(name, "backspace") {
        Some(CanonicalKey::Backspace)
    } else if same_text(name, "capslock") {
        Some(CanonicalKey::CapsLock)
    } else if same_text(name, "controlleft") {
        Some(CanonicalKey::ControlLeft)
    } else if same_text(name, "ctrl") {
        Some(CanonicalKey::ControlLeft)
    } else if same_text(name, "control") {
        Some(CanonicalKey::ControlLeft)
    } else if same_text(name, "controlright") {
        Some(CanonicalKey::ControlRight)
    } else if same_text(name, "delete") {
        Some(CanonicalKey::Delete)
    } else if same_text(name, "downarrow") {
        Some(CanonicalKey::DownArrow)
    } else if same_text(name, "down") {
        Some(CanonicalKey::DownArrow)
    } else if same_text(name, "end") {
        Some(CanonicalKey::End)
    } else if same_text(name, "escape") {
        Some(CanonicalKey::Escape)
    } else if same_text(name, "esc") {
        Some(CanonicalKey::Escape)
    } else if same_text(name, "f1") {
        Some(CanonicalKey::F1)
    } else if same_text(name, "f2") {
        Some(CanonicalKey::F2)
    } else if same_text(name, "f3") {
        Some(CanonicalKey::F3)
    } else if same_text(name, "f4") {
        Some(CanonicalKey::F4)
    } else if same_text(name, "f5") {
        Some(CanonicalKey::F5)
    } else if same_text(name, "f6") {
        Some(CanonicalKey::F6)
    } else if same_text(name, "f7") {
        Some(CanonicalKey::F7)
    } else if same_text(name, "f8") {
        Some(CanonicalKey::F8)
    } else if same_text(name, "f9") {
        Some(CanonicalKey::F9)
    } else if same_text(name, "f10") {
        Some(CanonicalKey::F10)
    } else if same_text(name, "f11") {
        Some(CanonicalKey::F11)
    } else if same_text(name, "f12") {
        Some(CanonicalKey::F12)
    } else if same_text(name, "home") {
        Some(CanonicalKey::Home)
    } else if same_text(name, "leftarrow") {
        Some(CanonicalKey::LeftArrow)
    } else if same_text(name, "left") {
        Some(CanonicalKey::LeftArrow)
    } else if same_text(name, "metaleft") {
        Some(CanonicalKey::MetaLeft)
    } else if same_text(name, "meta") {
        Some(CanonicalKey::MetaLeft)
    } else if same_text(name, "command") {
        Some(CanonicalKey::MetaLeft)
    } else if same_text(name, "cmd") {
        Some(CanonicalKey::MetaLeft)
    } else if same_text(name, "super") {
        Some(CanonicalKey::MetaLeft)
    } else if same_text(name, "win") {
        Some(CanonicalKey::MetaLeft)
    } else if same_text(name, "metaright") {
        Some(CanonicalKey::MetaRight)
    } else if same_text(name, "pagedown") {
        Some(CanonicalKey::PageDown)
    } else if same_text(name, "pageup") {
        Some(CanonicalKey::PageUp)
    } else if same_text(name, "return") {
        Some(CanonicalKey::Return)
    } else if same_text(name, "enter") {
        Some(CanonicalKey::Return)
    } else if same_text(name, "rightarrow") {
        Some(CanonicalKey::RightArrow)
    } else if same_text(name, "right") {
        Some(CanonicalKey::RightArrow)
    } else if same_text(name, "shiftleft") {
        Some(CanonicalKey::ShiftLeft)
    } else if same_text(name, "shift") {
        Some(CanonicalKey::ShiftLeft)
    } else if same_text(name, "shiftright") {
        Some(CanonicalKey::ShiftRight)
    } else if same_text(name, "space") {
        Some(CanonicalKey::Space)
    } else if same_text(name, "tab") {
        Some(CanonicalKey::Tab)
    } else if same_text(name, "uparrow") {
        Some(CanonicalKey::UpArrow)
    } else if same_text(name, "up") {
        Some(CanonicalKey::UpArrow)
    } else if same_text(name, "printscreen") {
        Some(CanonicalKey::PrintScreen)
    } else if same_text(name, "scrolllock") {
        Some(CanonicalKey::ScrollLock)
    } else if same_text(name, "pause") {
        Some(CanonicalKey::Pause)
    } else if same_text(name, "numlock") {
        Some(CanonicalKey::NumLock)
    } else if same_text(name, "backquote") {
        Some(CanonicalKey::BackQuote)
    } else if same_text(name, "num0") {
        Some(CanonicalKey::Num0)
    } else if same_text(name, "num1") {
        Some(CanonicalKey::Num1)
    } else if same_text(name, "num2") {
        Some(CanonicalKey::Num2)
    } else if same_text(name, "num3") {
        Some(CanonicalKey::Num3)
    } else if same_text(name, "num4") {
        Some(CanonicalKey::Num4)
    } else if same_text(name, "num5") {
        Some(CanonicalKey::Num5)
    } else if same_text(name, "num6") {
        Some(CanonicalKey::Num6)
    } else if same_text(name, "num7") {
        Some(CanonicalKey::Num7)
    } else if same_text(name, "num8") {
        Some(CanonicalKey::Num8)
    } else if same_text(name, "num9") {
        Some(CanonicalKey::Num9)
    } else if same_text(name, "minus") {
        Some(CanonicalKey::Minus)
    } else if same_text(name, "equal") {
        Some(CanonicalKey::Equal)
    } else if same_text(name, "keya") {
        Some(CanonicalKey::KeyA)
    } else if same_text(name, "keyb") {
        Some(CanonicalKey::KeyB)
    } else if same_text(name, "keyc") {
        Some(CanonicalKey::KeyC)
    } else if same_text(name, "keyd") {
        Some(CanonicalKey::KeyD)
    } else if same_text(name, "keye") {
        Some(CanonicalKey::KeyE)
    } else if same_text(name, "keyf") {
        Some(CanonicalKey::KeyF)
    } else if same_text(name, "keyg") {
        Some(CanonicalKey::KeyG)
    } else if same_text(name, "keyh") {
        Some(CanonicalKey::KeyH)
    } else if same_text(name, "keyi") {
        Some(CanonicalKey::KeyI)
    } else if same_text(name, "keyj") {
        Some(CanonicalKey::KeyJ)
    } else if same_text(name, "keyk") {
        Some(CanonicalKey::KeyK)
    } else if same_text(name, "keyl") {
        Some(CanonicalKey::KeyL)
    } else if same_text(name, "keym") {
        Some(CanonicalKey::KeyM)
    } else if same_text(name, "keyn") {
        Some(CanonicalKey::KeyN)
    } else if same_text(name, "keyo") {
        Some(CanonicalKey::KeyO)
    } else if same_text(name, "keyp") {
        Some(CanonicalKey::KeyP)
    } else if same_text(name, "keyq") {
        Some(CanonicalKey::KeyQ)
    } else if same_text(name, "keyr") {
        Some(CanonicalKey::KeyR)
    } else if same_text(name, "keys") {
        Some(CanonicalKey::KeyS)
    } else if same_text(name, "keyt") {
        Some(CanonicalKey::KeyT)
    } else if same_text(name, "keyu") {
        Some(CanonicalKey::KeyU)
    } else if same_text(name, "keyv") {
        Some(CanonicalKey::KeyV)
    } else if same_text(name, "keyw") {
        Some(CanonicalKey::KeyW)
    } else if same_text(name, "keyx") {
        Some(CanonicalKey::KeyX)
    } else if same_text(name, "keyy") {
        Some(CanonicalKey::KeyY)
    } else if same_text(name, "keyz") {
        Some(CanonicalKey::KeyZ)
    } else if same_text(name, "kp0") {
        Some(CanonicalKey::Kp0)
    } else if same_text(name, "kp1") {
        Some(CanonicalKey::Kp1)
    } else if same_text(name, "kp2") {
        Some(CanonicalKey::Kp2)
    } else if same_text(name, "kp3") {
        Some(CanonicalKey::Kp3)
    } else if same_text(name, "kp4") {
        Some(CanonicalKey::Kp4)
    } else if same_text(name, "kp5") {
        Some(CanonicalKey::Kp5)
    } else if same_text(name, "kp6") {
        Some(CanonicalKey::Kp6)
    } else if same_text(name, "kp7") {
        Some(CanonicalKey::Kp7)
    } else if same_text(name, "kp8") {
        Some(CanonicalKey::Kp8)
    } else if same_text(name, "kp9") {
        Some(CanonicalKey::Kp9)
    } else if same_text(name, "kpreturn") {
        Some(CanonicalKey::KpReturn)
    } else if same_text(name, "kpplus") {
        Some(CanonicalKey::KpPlus)
    } else if same_text(name, "kpminus") {
        Some(CanonicalKey::KpMinus)
    } else if same_text(name, "kpmultiply") {
        Some(CanonicalKey::KpMultiply)
    } else if same_text(name, "kpdivide") {
        Some(CanonicalKey::KpDivide)
    } else if same_text(name, "kpdelete") {
        Some(CanonicalKey::KpDelete)
    } else {
        None
    }
}

/// The key that a single lowercase letter or digit stands for.
fn lookup_alnum(c: char) -> (r: Option<CanonicalKey>)
    ensures
        r == alnum_key(c),
{
    match c {
        'a' => Some(CanonicalKey::KeyA),
        'b' => Some(CanonicalKey::KeyB),
        'c' => Some(CanonicalKey::KeyC),
        'd' => Some(CanonicalKey::KeyD),
        'e' => Some(CanonicalKey::KeyE),
        'f' => Some(CanonicalKey::KeyF),
        'g' => Some(CanonicalKey::KeyG),
        'h' => Some(CanonicalKey::KeyH),
        'i' => Some(CanonicalKey::KeyI),
        'j' => Some(CanonicalKey::KeyJ),
        'k' => Some(CanonicalKey::KeyK),
        'l' => Some(CanonicalKey::KeyL),
        'm' => Some(CanonicalKey::KeyM),
        'n' => Some(CanonicalKey::KeyN),
        'o' => Some(CanonicalKey::KeyO),
        'p' => Some(CanonicalKey::KeyP),
        'q' => Some(CanonicalKey::KeyQ),
        'r' => Some(CanonicalKey::KeyR),
        's' => Some(CanonicalKey::KeyS),
        't' => Some(CanonicalKey::KeyT),
        'u' => Some(CanonicalKey::KeyU),
        'v' => Some(CanonicalKey::KeyV),
        'w' => Some(CanonicalKey::KeyW),
        'x' => Some(CanonicalKey::KeyX),
        'y' => Some(CanonicalKey::KeyY),
        'z' => Some(CanonicalKey::KeyZ),
        '0' => Some(CanonicalKey::Num0),
        '1' => Some(CanonicalKey::Num1),
        '2' => Some(CanonicalKey::Num2),
        '3' => Some(CanonicalKey::Num3),
        '4' => Some(CanonicalKey::Num4),
        '5' => Some(CanonicalKey::Num5),
        '6' => Some(CanonicalKey::Num6),
        '7' => Some(CanonicalKey::Num7),
        '8' => Some(CanonicalKey::Num8),
        '9' => Some(CanonicalKey::Num9),
        _ => None,
    }
}

/// Whether `k` is among `keys`.
pub fn has_key(keys: &Vec<CanonicalKey>, k: CanonicalKey) -> (r: bool)
    ensures
        r == keys@.contains(k),
{
    let mut i: usize = 0;
    while i < keys.len()
        invariant
            i <= keys@.len(),
            forall|j: int| 0 <= j < i ==> keys@[j] != k,
        decreases keys@.len() - i,
    {
        if keys[i] == k {
            return true;
        }
        i = i + 1;
    }
    false
}

/// Whether every key of `a` is among `b`.
pub fn keys_within(a: &Vec<CanonicalKey>, b: &Vec<CanonicalKey>) -> (r: bool)
    ensures
        r == a@.to_set().subset_of(b@.to_set()),
{
    let mut i: usize = 0;
    while i < a.len()
        invariant
            i <= a@.len(),
            forall|j: int| 0 <= j < i ==> b@.contains(#[trigger] a@[j]),
        decreases a@.len() - i,
    {
        if !has_key(b, a[i]) {
            assert(a@.to_set().contains(a@[i as int]));
            return false;
        }
        i = i + 1;
    }
    assert forall|x: CanonicalKey| a@.to_set().contains(x) implies b@.to_set().contains(x) by {
        let j = choose|j: int| 0 <= j < a@.len() && a@[j] == x;
    };
    true
}

/// Resolves a name that is already lowercase: a named key, else a single
/// letter or digit, else nothing.
pub fn resolve_lowercase(name: &str) -> (r: Option<CanonicalKey>)
    ensures
        r == key_for(name@),
{
    match lookup_named(name) {
        Some(k) => Some(k),
        None => if name.unicode_len() == 1 {
            lookup_alnum(name.get_char(0))
        } else {
            None
        },
    }
}

/// Resolves a human-readable key name, case-insensitively.
pub fn resolve(name: &str) -> (r: Option<CanonicalKey>)
    ensures
        r == key_for(lower_of(name@)),
{
    let lower = lowercase(name);
    resolve_lowercase(lower.as_str())
}

} // verus!
