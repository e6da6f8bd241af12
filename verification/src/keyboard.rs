//! Decoding keyboard scan codes into keys with `pc_keyboard` (US 104-key
//! layout, scan code set 1, Ctrl+letter mapped to control characters).
use vstd::prelude::*;
use pc_keyboard::{
    layouts::Us104Key, DecodedKey, HandleControl, KeyCode, KeyEvent, KeyState, Keyboard,
    ScancodeSet1,
};
use crate::console::Key;

verus! {

#[verifier::external_type_specification]
pub struct ExKeyEvent(KeyEvent);

#[verifier::external_type_specification]
pub struct ExKeyState(KeyState);

#[verifier::external_type_specification]
pub struct ExKeyCode(KeyCode);

/// What the US 104-key layout decodes whatever the modifier state: no key
/// comes out of a release (or single-shot event); pressing an arrow gives that
/// arrow; Enter (either one) gives `'\n'`, Backspace `'\u{8}'`, Tab `'\t'`,
/// Space `' '` and Escape `'\u{1b}'`.
pub open spec fn decodes_as(ev: KeyEvent, k: Option<Key>) -> bool {
    &&& ev.state != KeyState::Down ==> k == None::<Key>
    &&& ev.state == KeyState::Down ==> {
        &&& ev.code == KeyCode::ArrowUp ==> k == Some(Key::ArrowUp)
        &&& ev.code == KeyCode::ArrowDown ==> k == Some(Key::ArrowDown)
        &&& ev.code == KeyCode::ArrowLeft ==> k == Some(Key::ArrowLeft)
        &&& ev.code == KeyCode::ArrowRight ==> k == Some(Key::ArrowRight)
        &&& ev.code == KeyCode::Return ==> k == Some(Key::Char('\n'))
        &&& ev.code == KeyCode::NumpadEnter ==> k == Some(Key::Char('\n'))
        &&& ev.code == KeyCode::Backspace ==> k == Some(Key::Char('\u{8}'))
        &&& ev.code == KeyCode::Tab ==> k == Some(Key::Char('\t'))
        &&& ev.code == KeyCode::Spacebar ==> k == Some(Key::Char(' '))
        &&& ev.code == KeyCode::Escape ==> k == Some(Key::Char('\u{1b}'))
    }
}

/// A `pc_keyboard` decoder for a US 104-key keyboard sending scan code set 1:
/// a partly received scan code sequence and the modifier keys held down. Its
/// state is only reached through the methods of `KeyDecoder`.
#[verifier::external_body]
struct Decoder {
    kb: Keyboard<Us104Key, ScancodeSet1>,
}

/// Calls `Keyboard::new(ScancodeSet1::new(), Us104Key,
/// HandleControl::MapLettersToUnicode)`; nothing is claimed of the state the
/// decoder starts in.
#[verifier::external_body]
fn new_decoder() -> Decoder {
    Decoder { kb: Keyboard::new(ScancodeSet1::new(), Us104Key, HandleControl::MapLettersToUnicode) }
}

/// The keyboard decoder, with a record of what went through it: the bytes fed
/// to it, the event each of them completed (if any), and each event decoded
/// into a key together with the key that came out.
pub struct KeyDecoder {
    dec: Decoder,
    fed: Ghost<Seq<u8>>,
    events: Ghost<Seq<Option<KeyEvent>>>,
    decoded: Ghost<Seq<(KeyEvent, Option<Key>)>>,
}

impl KeyDecoder {
    /// The scan code bytes fed to the decoder so far, oldest first.
    pub closed spec fn fed(&self) -> Seq<u8> {
        self.fed@
    }

    /// For each byte fed, the key event it completed, if any.
    pub closed spec fn events(&self) -> Seq<Option<KeyEvent>> {
        self.events@
    }

    /// The key events handed to the decoder for decoding, each with the key
    /// that came out of it, if any.
    pub closed spec fn decoded(&self) -> Seq<(KeyEvent, Option<Key>)> {
        self.decoded@
    }

    /// A fresh decoder, with nothing fed or decoded yet.
    pub fn new() -> (d: Self)
        ensures
            d.fed() == Seq::<u8>::empty(),
            d.events() == Seq::<Option<KeyEvent>>::empty(),
            d.decoded() == Seq::<(KeyEvent, Option<Key>)>::empty(),
    {
        KeyDecoder {
            dec: new_decoder(),
            fed: Ghost(Seq::empty()),
            events: Ghost(Seq::empty()),
            decoded: Ghost(Seq::empty()),
        }
    }

    /// Feeds one scan code byte to the decoder, and returns the key event it
    /// completes, if any.
    ///
    /// Calls `Keyboard::add_byte` with `byte`; a decoding error becomes `None`,
    /// like a byte that does not complete an event. The contract records the
    /// byte and the result; which event comes back is not claimed, as it depends
    /// on the decoder's hidden state.
    #[verifier::external_body]
    pub(crate) fn add_byte(&mut self, byte: u8) -> (r: Option<KeyEvent>)
        ensures
            final(self).fed() == old(self).fed().push(byte),
            final(self).events() == old(self).events().push(r),
            final(self).decoded() == old(self).decoded(),
    {
        self.dec.kb.add_byte(byte).ok().flatten()
    }

    /// Decodes a key event, updating the modifier state.
    ///
    /// Calls `Keyboard::process_keyevent` with `ev` and hands back what came out,
    /// one variant for one. The contract records the event with the key it
    /// stands for (see `key_of`), and states what the US 104-key layout gives
    /// whatever the modifier state (see `layout_decodes`); for other codes
    /// which key comes back depends on the decoder's hidden state and is not
    /// claimed.
    #[verifier::external_body]
    fn decode_event(&mut self, ev: KeyEvent) -> (r: Option<Decoded>)
        ensures
            final(self).fed() == old(self).fed(),
            final(self).events() == old(self).events(),
            final(self).decoded() == old(self).decoded().push((ev, key_of(r))),
            layout_decodes(ev, r),
    {
        match self.dec.kb.process_keyevent(ev) {
            Some(DecodedKey::Unicode(c)) => Some(Decoded::Unicode(c)),
            Some(DecodedKey::RawKey(k)) => Some(Decoded::Raw(k)),
            None => None,
        }
    }

    /// Decodes a key event into a key, updating the modifier state: a
    /// character, an arrow, or any other raw key.
    pub(crate) fn process_keyevent(&mut self, ev: KeyEvent) -> (r: Option<Key>)
        ensures
            final(self).fed() == old(self).fed(),
            final(self).events() == old(self).events(),
            final(self).decoded() == old(self).decoded().push((ev, r)),
            decodes_as(ev, r),
    {
        let d = self.decode_event(ev);
        to_key(d)
    }
}

/// What the decoder hands back for a key event: a character or a raw key.
pub enum Decoded {
    Unicode(char),
    Raw(KeyCode),
}

/// What the US 104-key layout gives whatever the modifier state: nothing for a
/// release (or single-shot event); for a press, the arrows stay raw keys, and
/// Enter (either one), Backspace, Tab, Space and Escape give their characters.
pub open spec fn layout_decodes(ev: KeyEvent, d: Option<Decoded>) -> bool {
    &&& ev.state != KeyState::Down ==> d is None
    &&& ev.state == KeyState::Down ==> {
        &&& ev.code == KeyCode::ArrowUp ==> d == Some(Decoded::Raw(KeyCode::ArrowUp))
        &&& ev.code == KeyCode::ArrowDown ==> d == Some(Decoded::Raw(KeyCode::ArrowDown))
        &&& ev.code == KeyCode::ArrowLeft ==> d == Some(Decoded::Raw(KeyCode::ArrowLeft))
        &&& ev.code == KeyCode::ArrowRight ==> d == Some(Decoded::Raw(KeyCode::ArrowRight))
        &&& ev.code == KeyCode::Return ==> d == Some(Decoded::Unicode('\n'))
        &&& ev.code == KeyCode::NumpadEnter ==> d == Some(Decoded::Unicode('\n'))
        &&& ev.code == KeyCode::Backspace ==> d == Some(Decoded::Unicode('\u{8}'))
        &&& ev.code == KeyCode::Tab ==> d == Some(Decoded::Unicode('\t'))
        &&& ev.code == KeyCode::Spacebar ==> d == Some(Decoded::Unicode(' '))
        &&& ev.code == KeyCode::Escape ==> d == Some(Decoded::Unicode('\u{1b}'))
    }
}

/// The key a decoded value stands for: a character as itself, each arrow as
/// that arrow, any other raw key as `Other`.
pub open spec fn key_of(d: Option<Decoded>) -> Option<Key> {
    match d {
        None => None,
        Some(Decoded::Unicode(c)) => Some(Key::Char(c)),
        Some(Decoded::Raw(k)) => if k == KeyCode::ArrowUp {
            Some(Key::ArrowUp)
        } else if k == KeyCode::ArrowDown {
            Some(Key::ArrowDown)
        } else if k == KeyCode::ArrowLeft {
            Some(Key::ArrowLeft)
        } else if k == KeyCode::ArrowRight {
            Some(Key::ArrowRight)
        } else {
            Some(Key::Other)
        },
    }
}

/// The key a decoded value stands for (see `key_of`).
pub fn to_key(d: Option<Decoded>) -> (k: Option<Key>)
    ensures
        k == key_of(d),
{
    match d {
        None => None,
        Some(Decoded::Unicode(c)) => Some(Key::Char(c)),
        Some(Decoded::Raw(KeyCode::ArrowUp)) => Some(Key::ArrowUp),
        Some(Decoded::Raw(KeyCode::ArrowDown)) => Some(Key::ArrowDown),
        Some(Decoded::Raw(KeyCode::ArrowLeft)) => Some(Key::ArrowLeft),
        Some(Decoded::Raw(KeyCode::ArrowRight)) => Some(Key::ArrowRight),
        Some(Decoded::Raw(_)) => Some(Key::Other),
    }
}

/// Whether a key event is a key press (rather than a release or a single-shot
/// event).
pub fn is_key_down(ev: &KeyEvent) -> (b: bool)
    ensures
        b == (ev.state == KeyState::Down),
{
    match ev.state {
        KeyState::Down => true,
        _ => false,
    }
}

} // verus!
