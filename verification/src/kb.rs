use vstd::prelude::*;

verus! {

/// Events the keyboard buffer holds at most, plus one free slot.
pub const KB_BUF_SIZE: usize = 64;

/// Whether a key went down or up.
#[derive(Debug, Clone, Copy, PartialEq, Eq, Structural)]
pub enum KBButtonState {
    Press,
    Release,
}

/// A key event: the character and the state.
#[derive(Debug, Clone, Copy, PartialEq, Eq, Structural)]
pub struct KBEvent {
    pub val: u8,
    pub state: KBButtonState,
}

/// Scan code set 1, codes 0 to 0x39, to characters; 0 for keys without one.
pub open spec fn set1() -> Seq<u8> {
    seq![
        0u8, 0, 49, 50, 51, 52, 53, 54, 55, 56, 57, 48, 45, 61, 0x08, 0x09, 113,
        119, 101, 114, 116, 121, 117, 105, 111, 112, 91, 93, 10, 0, 97, 115, 100,
        102, 103, 104, 106, 107, 108, 59, 39, 96, 0, 92, 122, 120, 99, 118, 98,
        110, 109, 44, 46, 47, 0, 42, 0, 32,
    ]
}

fn set1_table() -> (r: [u8; 58])
    ensures
        r@ == set1(),
{
    let r = [
        0u8, 0, 49, 50, 51, 52, 53, 54, 55, 56, 57, 48, 45, 61, 0x08, 0x09, 113,
        119, 101, 114, 116, 121, 117, 105, 111, 112, 91, 93, 10, 0, 97, 115, 100,
        102, 103, 104, 106, 107, 108, 59, 39, 96, 0, 92, 122, 120, 99, 118, 98,
        110, 109, 44, 46, 47, 0, 42, 0, 32,
    ];
    assert(r@ =~= set1());
    r
}

/// The event of a scan code: bit 7 clear is a press, set a release; the low seven
/// bits pick the character. `None` for a key without a character.
pub open spec fn decode_spec(sc: u8) -> Option<KBEvent> {
    let code = (sc & 0x7F) as int;
    let val = if code < set1().len() { set1()[code] } else { 0u8 };
    if val == 0 {
        None
    } else {
        Some(KBEvent { val, state: if sc & 0x80 == 0 { KBButtonState::Press } else { KBButtonState::Release } })
    }
}

/// The character of the key with set-1 make code `code` on a US keyboard: digits,
/// letters and punctuation as printed on the key, Backspace 8, Tab 9, Enter 10,
/// Space 32, keypad `*`; 0 for Escape, Control, the Shifts, Alt and every code past
/// the Space bar.
pub open spec fn us_key(code: int) -> u8 {
    let digits = seq!['1' as u8, '2' as u8, '3' as u8, '4' as u8, '5' as u8, '6' as u8, '7' as u8, '8' as u8,
        '9' as u8, '0' as u8, '-' as u8, '=' as u8];
    let top = seq!['q' as u8, 'w' as u8, 'e' as u8, 'r' as u8, 't' as u8, 'y' as u8, 'u' as u8, 'i' as u8,
        'o' as u8, 'p' as u8, '[' as u8, ']' as u8];
    let home = seq!['a' as u8, 's' as u8, 'd' as u8, 'f' as u8, 'g' as u8, 'h' as u8, 'j' as u8, 'k' as u8,
        'l' as u8, ';' as u8, '\'' as u8, '`' as u8];
    let bottom = seq!['\\' as u8, 'z' as u8, 'x' as u8, 'c' as u8, 'v' as u8, 'b' as u8, 'n' as u8, 'm' as u8,
        ',' as u8, '.' as u8, '/' as u8];
    if 0x02 <= code <= 0x0D {
        digits[code - 0x02]
    } else if code == 0x0E {
        8
    } else if code == 0x0F {
        '\t' as u8
    } else if 0x10 <= code <= 0x1B {
        top[code - 0x10]
    } else if code == 0x1C {
        '\n' as u8
    } else if 0x1E <= code <= 0x29 {
        home[code - 0x1E]
    } else if 0x2B <= code <= 0x35 {
        bottom[code - 0x2B]
    } else if code == 0x37 {
        '*' as u8
    } else if code == 0x39 {
        ' ' as u8
    } else {
        0
    }
}

/// The event a scan code stands for on a US keyboard: the key's character, a press
/// when bit 7 is clear and a release when it is set; none for a key without a
/// character.
pub open spec fn us_event(sc: u8) -> Option<KBEvent> {
    let c = us_key((sc % 128) as int);
    if c == 0 {
        None
    } else {
        Some(KBEvent { val: c, state: if sc < 128 { KBButtonState::Press } else { KBButtonState::Release } })
    }
}

/// Scan codes decode as the keys of a US keyboard say: each set-1 make code gives a
/// press of its key's character and the same code with bit 7 set its release (so
/// 0x1C is a press of Enter, 10, and 0x9C its release); keys without a character,
/// and codes past the Space bar, give no event.
pub proof fn law_decode_us_layout(sc: u8)
    ensures
        decode_spec(sc) == us_event(sc),
{
    assert((sc & 0x7F) == sc % 128 && ((sc & 0x80) == 0) == (sc < 128)) by (bit_vector);
    let code = (sc % 128) as int;
    assert(0 <= code < 128);
    assert(set1().len() == 58);
    if code < 58 {
        assert(set1()[code] == us_key(code));
    }
}

/// The event of a scan code, as `decode_spec` says.
pub fn decode_scancode(sc: u8) -> (r: Option<KBEvent>)
    ensures
        r == decode_spec(sc),
        r == us_event(sc),
{
    proof {
        law_decode_us_layout(sc);
    }
    let table = set1_table();
    let down = (sc & 0x80) == 0;
    let code = (sc & 0x7F) as usize;
    let val = if code < 58 { table[code] } else { 0 };
    if val == 0 {
        None
    } else {
        Some(KBEvent { val, state: if down { KBButtonState::Press } else { KBButtonState::Release } })
    }
}

/// The events waiting to be read, oldest first: a ring of `KB_BUF_SIZE` slots, one
/// always free.
pub struct KbBuffer {
    buf: Vec<KBEvent>,
    head: usize,
    tail: usize,
}

impl KbBuffer {
    pub closed spec fn wf(&self) -> bool {
        &&& self.buf@.len() == KB_BUF_SIZE
        &&& self.head < KB_BUF_SIZE
        &&& self.tail < KB_BUF_SIZE
    }

    pub closed spec fn view(&self) -> Seq<KBEvent> {
        let n = (self.head - self.tail + KB_BUF_SIZE) % (KB_BUF_SIZE as int);
        Seq::new(n as nat, |i: int| self.buf@[(self.tail + i) % (KB_BUF_SIZE as int)])
    }

    /// An empty buffer.
    pub fn new() -> (r: Self)
        ensures
            r.wf(),
            r@ == Seq::<KBEvent>::empty(),
    {
        let mut buf: Vec<KBEvent> = Vec::new();
        let mut i: usize = 0;
        while i < KB_BUF_SIZE
            invariant
                i <= KB_BUF_SIZE,
                buf@.len() == i,
            decreases KB_BUF_SIZE - i,
        {
            buf.push(KBEvent { val: 0, state: KBButtonState::Release });
            i = i + 1;
        }
        let r = KbBuffer { buf, head: 0, tail: 0 };
        assert(r@ =~= Seq::<KBEvent>::empty());
        r
    }

    /// Adds an event at the end; when the buffer is full the event is dropped.
    pub fn buf_push(&mut self, ev: KBEvent)
        requires
            old(self).wf(),
        ensures
            final(self).wf(),
            old(self)@.len() == KB_BUF_SIZE - 1 ==> final(self)@ == old(self)@,
            old(self)@.len() < KB_BUF_SIZE - 1 ==> final(self)@ == old(self)@.push(ev),
    {
        let next = (self.head + 1) % 64usize;
        if next == self.tail {
            assert(old(self)@.len() == KB_BUF_SIZE - 1) by {
                if self.head == 63 {
                    assert((63int - 0 + 64) % 64 == 63);
                } else {
                    assert((self.head as int - (self.head as int + 1) + 64) % 64 == 63);
                }
            }
            return;
        }
        let ghost before = self@;
        self.buf.set(self.head, ev);
        self.head = next;
        proof {
            let n = before.len();
            assert(n < KB_BUF_SIZE - 1);
            assert(self@.len() == n + 1);
            assert forall|i: int| 0 <= i < n + 1 implies #[trigger] self@[i] == before.push(ev)[i] by {
                if i < n {
                    assert((old(self).tail + i) % 64 != old(self).head as int);
                }
            }
        }
        assert(self@ =~= before.push(ev));
    }

    /// Takes the oldest event; `None` when there is none.
    pub fn buf_pop(&mut self) -> (r: Option<KBEvent>)
        requires
            old(self).wf(),
        ensures
            final(self).wf(),
            old(self)@.len() == 0 ==> r is None && final(self)@ == old(self)@,
            old(self)@.len() > 0 ==> r == Some(old(self)@[0]) && final(self)@ == old(self)@.drop_first(),
    {
        if self.head == self.tail {
            assert(old(self)@.len() == 0);
            return None;
        }
        let b = self.buf[self.tail];
        let ghost before = self@;
        self.tail = (self.tail + 1) % 64usize;
        assert(self@ =~= before.drop_first());
        Some(b)
    }
}

/// The reply to a read request: the oldest event as its character and state (0
/// for a press, 1 for a release), or nothing when none waits.
pub fn on_read(kb: &mut KbBuffer) -> (reply: Vec<u8>)
    requires
        old(kb).wf(),
    ensures
        final(kb).wf(),
        old(kb)@.len() == 0 ==> reply@ == Seq::<u8>::empty() && final(kb)@ == old(kb)@,
        old(kb)@.len() > 0 ==> reply@ == seq![
            old(kb)@[0].val,
            if old(kb)@[0].state == KBButtonState::Press { 0u8 } else { 1u8 },
        ] && final(kb)@ == old(kb)@.drop_first(),
{
    let mut r: Vec<u8> = Vec::new();
    match kb.buf_pop() {
        Some(ev) => {
            r.push(ev.val);
            r.push(
                match ev.state {
                    KBButtonState::Press => 0,
                    KBButtonState::Release => 1,
                },
            );
        },
        None => {},
    }
    r
}

/// The keyboard interrupt: the scan code read from the controller becomes an event
/// at the end of the buffer, when it names a character.
pub fn on_irq(kb: &mut KbBuffer, sc: u8)
    requires
        old(kb).wf(),
    ensures
        final(kb).wf(),
        match decode_spec(sc) {
            None => final(kb)@ == old(kb)@,
            Some(ev) => if old(kb)@.len() < KB_BUF_SIZE - 1 {
                final(kb)@ == old(kb)@.push(ev)
            } else {
                final(kb)@ == old(kb)@
            },
        },
{
    match decode_scancode(sc) {
        Some(ev) => kb.buf_push(ev),
        None => {},
    }
}

} // verus!
