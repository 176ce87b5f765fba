//! Keyboard input: PS/2 scancodes decoded (by `pc_keyboard`) into the bytes
//! a program reads.
use vstd::prelude::*;
use pc_keyboard::layouts::Us104Key;
use pc_keyboard::{DecodedKey, HandleControl, KeyCode, Keyboard, ScancodeSet1};

verus! {

/// The state of a `pc_keyboard::Keyboard` for set-1 scancodes and the US
/// 104-key layout. Its contents stay opaque (the type's bounds name the
/// crate's own traits); it is reached only through the two calls below.
#[verifier::external_body]
pub struct KeyboardState {
    kb: Keyboard<Us104Key, ScancodeSet1>,
}

/// The keyboard decoder: the keyboard's state, and the scancodes it has
/// been fed since it was made (its state is what those bytes made of it).
pub struct KeyboardDecoder {
    state: KeyboardState,
    log: Ghost<Seq<u8>>,
}

impl KeyboardDecoder {
    /// The scancodes fed to the keyboard so far, in order.
    pub closed spec fn fed(&self) -> Seq<u8> {
        self.log@
    }
}

/// A decoded key, as far as input cares.
#[derive(Clone, Copy, Debug, PartialEq, Eq, Structural)]
pub enum KeyInput {
    Unicode(char),
    Return,
    NumpadEnter,
    Backspace,
    OtherKey,
}

/// The key that the last scancode of `fed` completes, on a keyboard (set-1
/// scancodes, US 104-key layout, Ctrl combinations unmapped) fed the
/// scancodes `fed` one by one since it was made; `None` when that scancode
/// completes no key.
pub uninterp spec fn typed_key(fed: Seq<u8>) -> Option<KeyInput>;

/// Calls `pc_keyboard::Keyboard::new` for set-1 scancodes, the US 104-key
/// layout, and Ctrl combinations left unmapped.
#[verifier::external_body]
fn keyboard_new() -> KeyboardState {
    KeyboardState { kb: Keyboard::new(ScancodeSet1::new(), Us104Key, HandleControl::Ignore) }
}

/// Feeds one scancode to the keyboard, as `pc_keyboard` is driven: calls
/// `Keyboard::add_byte` and, when that completes a key event, hands the
/// event to `Keyboard::process_keyevent`, telling the decoded key's kinds
/// apart. A decoding error, or a scancode that completes no event, gives
/// `None`. The crate's decoding is a function of the bytes fed since the
/// keyboard was made; the contract names that function `typed_key` and
/// records the byte in the decoder's log.
#[verifier::external_body]
fn keyboard_feed(dec: &mut KeyboardDecoder, byte: u8) -> (r: Option<KeyInput>)
    ensures
        final(dec).fed() == old(dec).fed().push(byte),
        r == typed_key(final(dec).fed()),
{
    let ev = dec.state.kb.add_byte(byte).ok().flatten()?;
    match dec.state.kb.process_keyevent(ev) {
        None => None,
        Some(DecodedKey::Unicode(c)) => Some(KeyInput::Unicode(c)),
        Some(DecodedKey::RawKey(KeyCode::Return)) => Some(KeyInput::Return),
        Some(DecodedKey::RawKey(KeyCode::NumpadEnter)) => Some(KeyInput::NumpadEnter),
        Some(DecodedKey::RawKey(KeyCode::Backspace)) => Some(KeyInput::Backspace),
        Some(DecodedKey::RawKey(_)) => Some(KeyInput::OtherKey),
    }
}

/// The byte a key gives: an ASCII character itself, Enter a line feed,
/// Backspace 8; other keys none.
pub open spec fn spec_key_byte(k: KeyInput) -> Option<u8> {
    match k {
        KeyInput::Unicode(c) => if (c as u32) < 128 {
            Some(c as u8)
        } else {
            None
        },
        KeyInput::Return => Some(10),
        KeyInput::NumpadEnter => Some(10),
        KeyInput::Backspace => Some(8),
        KeyInput::OtherKey => None,
    }
}

/// The byte a key gives.
pub fn key_byte(k: KeyInput) -> (r: Option<u8>)
    ensures
        r == spec_key_byte(k),
{
    match k {
        KeyInput::Unicode(c) => {
            let v = c as u32;
            if v < 128 {
                Some(v as u8)
            } else {
                None
            }
        },
        KeyInput::Return => Some(10),
        KeyInput::NumpadEnter => Some(10),
        KeyInput::Backspace => Some(8),
        KeyInput::OtherKey => None,
    }
}

/// Whether the PS/2 status byte says a byte is waiting (bit 0).
pub fn output_ready(status: u8) -> (r: bool)
    ensures
        r == (status % 2 == 1),
{
    let r = status & 0x01 != 0;
    assert(r == (status % 2 == 1)) by (bit_vector)
        requires
            r == (status & 0x01 != 0),
    ;
    r
}

impl KeyboardDecoder {
    /// A decoder with no key pressed, fed nothing yet.
    pub fn new() -> (d: Self)
        ensures
            d.fed() == Seq::<u8>::empty(),
    {
        KeyboardDecoder { state: keyboard_new(), log: Ghost(Seq::empty()) }
    }

    /// Feeds `scancode` to the keyboard and gives the byte of the key it
    /// completes, if any.
    pub fn decode(&mut self, scancode: u8) -> (r: Option<u8>)
        ensures
            final(self).fed() == old(self).fed().push(scancode),
            r == spec_typed_byte(final(self).fed()),
            r matches Some(b) ==> b < 128,
    {
        match keyboard_feed(self, scancode) {
            Some(k) => key_byte(k),
            None => None,
        }
    }
}

/// The byte that the scancodes `fed` type with their last scancode: that
/// of the key it completes, if any.
pub open spec fn spec_typed_byte(fed: Seq<u8>) -> Option<u8> {
    match typed_key(fed) {
        Some(k) => spec_key_byte(k),
        None => None,
    }
}

/// The byte typed on the keyboard, given the PS/2 status byte and the byte
/// then read from the data port: none when the status says that no byte
/// waits (the data byte is then not decoded).
pub fn try_read_byte(dec: &mut KeyboardDecoder, status: u8, data: u8) -> (r: Option<u8>)
    ensures
        status % 2 == 0 ==> r is None && *final(dec) == *old(dec),
        status % 2 == 1 ==> final(dec).fed() == old(dec).fed().push(data) && r
            == spec_typed_byte(final(dec).fed()),
        r matches Some(b) ==> b < 128,
{
    if !output_ready(status) {
        return None;
    }
    dec.decode(data)
}

} // verus!
