//! Scancode stream and keyboard decoding.
//!
//! The keyboard interrupt handler reads one scancode from the controller and
//! appends it to a bounded queue; a task drains the queue and feeds each byte
//! through the PS/2 decoder. The queue keeps scancodes in arrival order, and
//! [`law_scancode_order`] states that a burst that fits in the queue is read
//! back exactly as it was injected.

use vstd::prelude::*;
use crossbeam_queue::ArrayQueue;
use pc_keyboard::{HandleControl, KeyEvent, PS2Keyboard, ScancodeSet1};
use pc_keyboard::layouts::Us104Key;
use crate::queues::{byte_queue_cap, byte_queue_pop, byte_queue_push, byte_queue_view, new_byte_queue};

verus! {

/// Number of scancodes the stream can buffer before it starts dropping.
pub const SCANCODE_QUEUE_CAPACITY: usize = 100;

/// Bounded buffer of scancodes between the keyboard interrupt handler and
/// the keyboard task.
pub struct ScancodeStream {
    queue: ArrayQueue<u8>,
}

impl ScancodeStream {
    /// Scancodes currently buffered, oldest first.
    pub closed spec fn contents(self) -> Seq<u8> {
        byte_queue_view(self.queue)
    }

    pub closed spec fn capacity(self) -> nat {
        byte_queue_cap(self.queue)
    }

    /// An empty stream with the fixed scancode capacity.
    pub fn new() -> (r: ScancodeStream)
        ensures
            r.contents() == Seq::<u8>::empty(),
            r.capacity() == SCANCODE_QUEUE_CAPACITY as nat,
    {
        ScancodeStream { queue: new_byte_queue(SCANCODE_QUEUE_CAPACITY) }
    }

    /// Decision taken by the keyboard interrupt handler: append the scancode,
    /// or drop it silently when the buffer is full.
    pub fn add_scancode(&mut self, scancode: u8) -> (pushed: bool)
        ensures
            final(self).capacity() == old(self).capacity(),
            pushed <==> old(self).contents().len() < old(self).capacity(),
            pushed ==> final(self).contents() == old(self).contents().push(scancode),
            !pushed ==> final(self).contents() == old(self).contents(),
    {
        match byte_queue_push(&mut self.queue, scancode) {
            Ok(_) => true,
            Err(_) => false,
        }
    }

    /// Fast-path read used by the stream's poll: the oldest buffered
    /// scancode, or `None` when the buffer is empty.
    pub fn try_next(&mut self) -> (r: Option<u8>)
        ensures
            final(self).capacity() == old(self).capacity(),
            old(self).contents().len() > 0 ==> r == Some(old(self).contents()[0])
                && final(self).contents() == old(self).contents().drop_first(),
            old(self).contents().len() == 0 ==> r is None
                && final(self).contents() == old(self).contents(),
    {
        byte_queue_pop(&mut self.queue)
    }
}

/// Buffer contents after a sequence of scancodes has been injected into a
/// stream holding `v`, dropping each scancode that arrives while the buffer
/// is full.
pub open spec fn inject_all(v: Seq<u8>, cap: nat, s: Seq<u8>) -> Seq<u8>
    decreases s.len(),
{
    if s.len() == 0 {
        v
    } else {
        inject_all(
            if v.len() < cap {
                v.push(s[0])
            } else {
                v
            },
            cap,
            s.drop_first(),
        )
    }
}

/// Scancodes are observed in arrival order: a burst that fits in the buffer
/// is read back, oldest first, exactly as it was injected.
pub proof fn law_scancode_order(v: Seq<u8>, cap: nat, s: Seq<u8>)
    requires
        v.len() + s.len() <= cap,
    ensures
        inject_all(v, cap, s) == v + s,
    decreases s.len(),
{
    if s.len() == 0 {
        assert(inject_all(v, cap, s) =~= v + s);
    } else {
        law_scancode_order(v.push(s[0]), cap, s.drop_first());
        assert(v.push(s[0]) + s.drop_first() =~= v + s);
    }
}

/// How one keyboard event is surfaced to the application layer.
#[derive(Clone, Copy, Debug, PartialEq, Eq, Structural)]
pub enum KeyInput {
    /// A printable or control character.
    Unicode(char),
    /// A key with no character mapping (arrows, function keys, ...).
    Raw,
    /// The byte did not complete an event.
    NoKey,
}

/// Declares pc-keyboard's key event (key code plus press/release state) to
/// the verifier; values only pass through between the two decoder calls.
#[verifier::external_type_specification]
#[verifier::external_body]
pub struct ExKeyEvent(KeyEvent);

/// The PS/2 scancode decoder for the US 104-key layout. The pc-keyboard
/// state machine it holds cannot be declared to the verifier (its type
/// carries trait bounds of that crate), so the whole struct is opaque and
/// its methods are trusted.
#[verifier::external_body]
pub struct KeyboardDecoder {
    inner: PS2Keyboard<Us104Key, ScancodeSet1>,
}

impl KeyboardDecoder {
    /// Relies on pc-keyboard's `PS2Keyboard::new`: a fresh scancode-set-1
    /// decoder for the US 104-key layout, leaving control keys untouched.
    #[verifier::external_body]
    pub fn new() -> KeyboardDecoder {
        KeyboardDecoder {
            inner: PS2Keyboard::new(ScancodeSet1::new(), Us104Key, HandleControl::Ignore),
        }
    }

    /// Relies on pc-keyboard's `PS2Keyboard::add_byte`: advances the decoder
    /// state machine by one scancode byte; a completed key event is
    /// returned, and a protocol error is surfaced as no event.
    #[verifier::external_body]
    pub fn add_byte(&mut self, scancode: u8) -> Option<KeyEvent> {
        match self.inner.add_byte(scancode) {
            Ok(ev) => ev,
            Err(_) => None,
        }
    }

    /// Relies on pc-keyboard's `PS2Keyboard::process_keyevent`: applies the
    /// layout and modifier state to a key event; the decoded key is
    /// surfaced as a plain [`KeyInput`].
    #[verifier::external_body]
    pub fn decode_event(&mut self, ev: KeyEvent) -> KeyInput {
        match self.inner.process_keyevent(ev) {
            Some(pc_keyboard::DecodedKey::Unicode(c)) => KeyInput::Unicode(c),
            Some(pc_keyboard::DecodedKey::RawKey(_)) => KeyInput::Raw,
            None => KeyInput::NoKey,
        }
    }
}

} // verus!
