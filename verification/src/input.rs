use vstd::prelude::*;
use vstd::utf8::encode_scalar;

use crate::text::{chars_of, trim, trimmed};

verus! {

/// The OSC 52 introducer, `ESC ] 5 2 ;`.
pub open spec fn intro() -> Seq<u8> {
    seq![0x1bu8, 0x5du8, 0x35u8, 0x32u8, 0x3bu8]
}

/// Beyond this many payload bytes a "sequence" is junk the scanner latched
/// onto by mistake; it is dropped rather than buffered.
pub const MAX_PAYLOAD: usize = 1048576;

/// Relays OSC 52 clipboard writes out of the embedded tmux client and up to the
/// host terminal. Sequences straddle read boundaries, hence the running state.
pub struct Osc52Relay {
    /// How much of the introducer has been matched so far.
    prefix: usize,
    /// Payload collected since the introducer, or None when not capturing.
    payload: Option<Vec<u8>>,
    /// An ESC was seen inside the payload: the next byte decides whether it is
    /// an ST terminator (`ESC \`) or just data.
    esc_pending: bool,
}

/// The scanner's state as a mathematical value.
pub struct RelayView {
    pub prefix: nat,
    pub payload: Option<Seq<u8>>,
    pub esc_pending: bool,
}

impl View for Osc52Relay {
    type V = RelayView;

    closed spec fn view(&self) -> RelayView {
        RelayView {
            prefix: self.prefix as nat,
            payload: match self.payload {
                Some(p) => Some(p@),
                None => None,
            },
            esc_pending: self.esc_pending,
        }
    }
}

/// The state a fresh relay starts in.
pub open spec fn idle() -> RelayView {
    RelayView { prefix: 0, payload: None, esc_pending: false }
}

/// What a payload byte does once any pending ESC has been resolved: a byte
/// that would take the payload past [`MAX_PAYLOAD`] drops the whole candidate.
pub open spec fn payload_byte(pl: Seq<u8>, b: u8) -> (RelayView, Option<Seq<u8>>) {
    if b == 0x07 {
        (RelayView { prefix: 0, payload: None, esc_pending: false }, Some(pl))
    } else if b == 0x1b {
        (RelayView { prefix: 0, payload: Some(pl), esc_pending: true }, None)
    } else if pl.len() >= MAX_PAYLOAD {
        (RelayView { prefix: 0, payload: None, esc_pending: false }, None)
    } else {
        (RelayView { prefix: 0, payload: Some(pl.push(b)), esc_pending: false }, None)
    }
}

/// One byte of the scanner: the next state, and the payload completed by this
/// byte, if any.
pub open spec fn relay_step(s: RelayView, b: u8) -> (RelayView, Option<Seq<u8>>) {
    match s.payload {
        None => {
            if s.prefix < 5 && b == intro()[s.prefix as int] {
                if s.prefix + 1 == 5 {
                    (RelayView { prefix: 0, payload: Some(Seq::empty()), esc_pending: s.esc_pending }, None)
                } else {
                    (RelayView { prefix: s.prefix + 1, payload: None, esc_pending: s.esc_pending }, None)
                }
            } else {
                (RelayView { prefix: if b == 0x1b { 1 } else { 0 }, payload: None, esc_pending: s.esc_pending }, None)
            }
        },
        Some(pl) => {
            if s.esc_pending {
                if b == 0x5c {
                    (RelayView { prefix: s.prefix, payload: None, esc_pending: false }, Some(pl))
                } else if pl.len() >= MAX_PAYLOAD {
                    (RelayView { prefix: s.prefix, payload: None, esc_pending: false }, None)
                } else {
                    let (n, e) = payload_byte(pl.push(0x1b), b);
                    (RelayView { prefix: s.prefix, ..n }, e)
                }
            } else {
                let (n, e) = payload_byte(pl, b);
                (RelayView { prefix: s.prefix, ..n }, e)
            }
        },
    }
}

pub open spec fn opt_seq<A>(o: Option<A>) -> Seq<A> {
    match o {
        Some(a) => seq![a],
        None => Seq::empty(),
    }
}

/// Scanning a stream from state `s`: the final state and every payload
/// completed along the way, in order.
pub open spec fn relay_scan(s: RelayView, data: Seq<u8>) -> (RelayView, Seq<Seq<u8>>)
    decreases data.len(),
{
    if data.len() == 0 {
        (s, Seq::empty())
    } else {
        let (s1, o1) = relay_scan(s, data.drop_last());
        let (s2, e) = relay_step(s1, data.last());
        (s2, o1 + opt_seq(e))
    }
}

/// What the relay writes to the host terminal for one payload.
pub open spec fn osc52_frame(payload: Seq<u8>) -> Seq<u8> {
    intro() + payload + seq![0x07u8]
}

pub open spec fn frames(payloads: Seq<Seq<u8>>) -> Seq<u8>
    decreases payloads.len(),
{
    if payloads.len() == 0 {
        Seq::empty()
    } else {
        frames(payloads.drop_last()) + osc52_frame(payloads.last())
    }
}

fn intro_byte(i: usize) -> (b: u8)
    requires
        i < 5,
    ensures
        b == intro()[i as int],
{
    if i == 0 {
        0x1b
    } else if i == 1 {
        0x5d
    } else if i == 2 {
        0x35
    } else if i == 3 {
        0x32
    } else {
        0x3b
    }
}

impl Osc52Relay {
    /// A relay that has seen nothing yet.
    pub fn new() -> (r: Osc52Relay)
        ensures
            r@ == idle(),
    {
        Osc52Relay { prefix: 0, payload: None, esc_pending: false }
    }

    /// Relays every complete OSC 52 sequence in `data`: the bytes returned are
    /// what goes to the host terminal, one `ESC ] 52 ; <payload> BEL` per
    /// sequence.
    pub fn feed(&mut self, data: &[u8]) -> (out: Vec<u8>)
        ensures
            final(self)@ == relay_scan(old(self)@, data@).0,
            out@ == frames(relay_scan(old(self)@, data@).1),
    {
        let payloads = self.scan(data);
        let mut out: Vec<u8> = Vec::new();
        let mut i: usize = 0;
        while i < payloads.len()
            invariant
                i <= payloads.len(),
                out@ == frames(payloads.deep_view().take(i as int)),
            decreases payloads.len() - i,
        {
            let frame = Self::emit(payloads[i].as_slice());
            let mut j: usize = 0;
            let ghost before = out@;
            while j < frame.len()
                invariant
                    j <= frame.len(),
                    out@ == before + frame@.take(j as int),
                decreases frame.len() - j,
            {
                out.push(frame[j]);
                j = j + 1;
            }
            proof {
                let pv = payloads.deep_view();
                assert(frame@.take(frame@.len() as int) == frame@);
                assert(pv.take(i + 1).drop_last() == pv.take(i as int));
                assert(pv.take(i + 1).last() == payloads@[i as int]@);
            }
            i = i + 1;
        }
        proof {
            assert(payloads.deep_view().take(payloads.len() as int) == payloads.deep_view());
        }
        out
    }

    /// The bytes written to the host terminal for one payload.
    pub fn emit(payload: &[u8]) -> (out: Vec<u8>)
        ensures
            out@ == osc52_frame(payload@),
    {
        let mut out: Vec<u8> = Vec::new();
        out.push(0x1b);
        out.push(0x5d);
        out.push(0x35);
        out.push(0x32);
        out.push(0x3b);
        let mut i: usize = 0;
        while i < payload.len()
            invariant
                i <= payload.len(),
                out@ == intro() + payload@.take(i as int),
            decreases payload.len() - i,
        {
            out.push(payload[i]);
            i = i + 1;
        }
        out.push(0x07);
        assert(payload@.take(payload.len() as int) == payload@);
        out
    }

    /// The scanner proper: consumes `data` and returns the payloads of the
    /// sequences it completed, in order.
    pub fn scan(&mut self, data: &[u8]) -> (out: Vec<Vec<u8>>)
        ensures
            final(self)@ == relay_scan(old(self)@, data@).0,
            out.deep_view() == relay_scan(old(self)@, data@).1,
            relay_ok(old(self)@) ==> relay_ok(final(self)@) && all_capped(out.deep_view()),
    {
        proof {
            if relay_ok(self@) {
                relayed_payloads_are_capped(self@, data@);
            }
        }
        let mut out: Vec<Vec<u8>> = Vec::new();
        let mut i: usize = 0;
        while i < data.len()
            invariant
                i <= data.len(),
                self@ == relay_scan(old(self)@, data@.take(i as int)).0,
                out.deep_view() == relay_scan(old(self)@, data@.take(i as int)).1,
            decreases data.len() - i,
        {
            proof {
                assert(data@.take(i + 1).drop_last() == data@.take(i as int));
                assert(data@.take(i + 1).last() == data@[i as int]);
            }
            let ghost s0 = self@;
            let ghost out0 = out.deep_view();
            let b = data[i];
            let emitted = self.step(b);
            match emitted {
                Some(p) => {
                    let ghost pv = p@;
                    assert(p.deep_view() =~= pv);
                    out.push(p);
                    proof {
                        assert(out.deep_view() =~= out0.push(pv));
                        assert(out.deep_view() =~= out0 + opt_seq(relay_step(s0, b).1));
                    }
                },
                None => {
                    assert(out.deep_view() =~= out0 + opt_seq(relay_step(s0, b).1));
                },
            }
            i = i + 1;
        }
        proof {
            assert(data@.take(data.len() as int) == data@);
        }
        out
    }

    fn step(&mut self, b: u8) -> (e: Option<Vec<u8>>)
        ensures
            final(self)@ == relay_step(old(self)@, b).0,
            e matches Some(p) ==> relay_step(old(self)@, b).1 == Some(p@),
            e is None ==> relay_step(old(self)@, b).1 is None,
    {
        if self.payload.is_none() {
            if self.prefix < 5 && b == intro_byte(self.prefix) {
                if self.prefix + 1 == 5 {
                    self.prefix = 0;
                    self.payload = Some(Vec::new());
                } else {
                    self.prefix = self.prefix + 1;
                }
            } else {
                self.prefix = if b == 0x1b { 1 } else { 0 };
            }
            None
        } else {
            let mut pl = self.payload.take().unwrap();
            if self.esc_pending {
                self.esc_pending = false;
                if b == 0x5c {
                    return Some(pl);
                }
                if pl.len() >= MAX_PAYLOAD {
                    return None;
                }
                pl.push(0x1b);
            }
            if b == 0x07 {
                Some(pl)
            } else if b == 0x1b {
                self.payload = Some(pl);
                self.esc_pending = true;
                None
            } else if pl.len() >= MAX_PAYLOAD {
                None
            } else {
                pl.push(b);
                self.payload = Some(pl);
                None
            }
        }
    }
}

impl Default for Osc52Relay {
    fn default() -> (r: Self)
        ensures
            r@ == idle(),
    {
        Osc52Relay::new()
    }
}

/// Scanning is a left fold over the bytes: scanning two chunks one after the
/// other gives the same final state and the same payloads, in the same order,
/// as scanning them joined. So a sequence may be cut at any read boundary.
pub proof fn relay_scan_split(s: RelayView, a: Seq<u8>, b: Seq<u8>)
    ensures
        relay_scan(s, a + b) == ({
            let (s1, o1) = relay_scan(s, a);
            let (s2, o2) = relay_scan(s1, b);
            (s2, o1 + o2)
        }),
    decreases b.len(),
{
    if b.len() == 0 {
        assert(a + b =~= a);
        assert(relay_scan(s, a).1 + Seq::<Seq<u8>>::empty() =~= relay_scan(s, a).1);
    } else {
        relay_scan_split(s, a, b.drop_last());
        assert((a + b).drop_last() =~= a + b.drop_last());
        assert((a + b).last() == b.last());
        let (s1, o1) = relay_scan(s, a);
        let (t, o2) = relay_scan(s1, b.drop_last());
        let (u, e) = relay_step(t, b.last());
        assert(o1 + o2 + opt_seq(e) =~= o1 + (o2 + opt_seq(e)));
    }
}

/// The states a relay can be in: part of the introducer matched, or a
/// payload of at most [`MAX_PAYLOAD`] bytes being captured; an ESC is only
/// pending inside a payload.
pub open spec fn relay_ok(s: RelayView) -> bool {
    &&& s.prefix < 5
    &&& s.payload is Some ==> s.prefix == 0 && s.payload.unwrap().len() <= MAX_PAYLOAD
    &&& s.payload is None ==> !s.esc_pending
}

/// Every payload in `out` is within the cap.
pub open spec fn all_capped(out: Seq<Seq<u8>>) -> bool {
    forall|i: int| 0 <= i < out.len() ==> (#[trigger] out[i]).len() <= MAX_PAYLOAD
}

/// One byte keeps the relay in a valid state and relays nothing over the cap.
pub proof fn relay_step_keeps_the_cap(s: RelayView, b: u8)
    requires
        relay_ok(s),
    ensures
        relay_ok(relay_step(s, b).0),
        relay_step(s, b).1 matches Some(p) ==> p.len() <= MAX_PAYLOAD,
{
}

/// The payload cap: from any valid state (a fresh relay is one), scanning
/// any output keeps the relay valid, so a buffered payload never exceeds
/// [`MAX_PAYLOAD`] bytes, and no relayed payload exceeds it either: a longer
/// candidate is dropped, never relayed.
pub proof fn relayed_payloads_are_capped(s: RelayView, data: Seq<u8>)
    requires
        relay_ok(s),
    ensures
        relay_ok(relay_scan(s, data).0),
        all_capped(relay_scan(s, data).1),
    decreases data.len(),
{
    if data.len() > 0 {
        relayed_payloads_are_capped(s, data.drop_last());
        let (s1, o1) = relay_scan(s, data.drop_last());
        relay_step_keeps_the_cap(s1, data.last());
        let o = o1 + opt_seq(relay_step(s1, data.last()).1);
        assert forall|i: int| 0 <= i < o.len() implies (#[trigger] o[i]).len() <= MAX_PAYLOAD by {
            if i < o1.len() {
                assert(o[i] == o1[i]);
            }
        }
    }
}

/// A fresh relay is in a valid state.
pub proof fn idle_is_ok()
    ensures
        relay_ok(idle()),
{
}

/// The state right after a complete introducer: capturing an empty payload.
pub open spec fn capturing(p: Seq<u8>) -> RelayView {
    RelayView { prefix: 0, payload: Some(p), esc_pending: false }
}

pub open spec fn plain_payload(p: Seq<u8>) -> bool {
    forall|i: int| 0 <= i < p.len() ==> #[trigger] p[i] != 0x07u8 && p[i] != 0x1bu8
}

proof fn relay_scan_intro()
    ensures
        relay_scan(idle(), intro()) == (capturing(Seq::empty()), Seq::<Seq<u8>>::empty()),
{
    let i = intro();
    reveal_with_fuel(relay_scan, 6);
    assert(i.drop_last().drop_last().drop_last().drop_last().drop_last() =~= Seq::<u8>::empty());
    assert(i.drop_last().drop_last().drop_last().drop_last() =~= seq![0x1bu8]);
    assert(i.drop_last().drop_last().drop_last() =~= seq![0x1bu8, 0x5du8]);
    assert(i.drop_last().drop_last() =~= seq![0x1bu8, 0x5du8, 0x35u8]);
    assert(i.drop_last() =~= seq![0x1bu8, 0x5du8, 0x35u8, 0x32u8]);
}

proof fn relay_scan_payload(p: Seq<u8>)
    requires
        plain_payload(p),
        p.len() <= MAX_PAYLOAD,
    ensures
        relay_scan(capturing(Seq::empty()), p) == (capturing(p), Seq::<Seq<u8>>::empty()),
    decreases p.len(),
{
    if p.len() > 0 {
        let q = p.drop_last();
        assert forall|i: int| 0 <= i < q.len() implies #[trigger] q[i] != 0x07u8 && q[i] != 0x1bu8 by {
            assert(q[i] == p[i]);
        }
        relay_scan_payload(q);
        assert(p.last() == p[p.len() - 1]);
        assert(q.push(p.last()) =~= p);
        assert(Seq::<Seq<u8>>::empty() + Seq::<Seq<u8>>::empty() =~= Seq::<Seq<u8>>::empty());
    } else {
        assert(p =~= Seq::<u8>::empty());
    }
}

/// A complete BEL-terminated sequence, seen from an idle relay, is relayed
/// verbatim and leaves the relay idle again.
pub proof fn bel_terminated_sequence_is_relayed(p: Seq<u8>)
    requires
        plain_payload(p),
        p.len() <= MAX_PAYLOAD,
    ensures
        relay_scan(idle(), intro() + p + seq![0x07u8]) == (idle(), seq![p]),
{
    relay_scan_intro();
    relay_scan_payload(p);
    relay_scan_split(idle(), intro(), p);
    relay_scan_split(idle(), intro() + p, seq![0x07u8]);
    reveal_with_fuel(relay_scan, 2);
    assert(seq![0x07u8].drop_last() =~= Seq::<u8>::empty());
    assert(Seq::<Seq<u8>>::empty() + Seq::<Seq<u8>>::empty() + seq![p] =~= seq![p]);
}

/// A complete ST-terminated (`ESC \`) sequence, seen from an idle relay, is
/// relayed verbatim and leaves the relay idle again.
pub proof fn st_terminated_sequence_is_relayed(p: Seq<u8>)
    requires
        plain_payload(p),
        p.len() <= MAX_PAYLOAD,
    ensures
        relay_scan(idle(), intro() + p + seq![0x1bu8, 0x5cu8]) == (idle(), seq![p]),
{
    relay_scan_intro();
    relay_scan_payload(p);
    relay_scan_split(idle(), intro(), p);
    relay_scan_split(idle(), intro() + p, seq![0x1bu8, 0x5cu8]);
    reveal_with_fuel(relay_scan, 3);
    assert(seq![0x1bu8, 0x5cu8].drop_last() =~= seq![0x1bu8]);
    assert(seq![0x1bu8].drop_last() =~= Seq::<u8>::empty());
    assert(Seq::<Seq<u8>>::empty() + Seq::<Seq<u8>>::empty() + seq![p] =~= seq![p]);
}

/// Output without an ESC byte leaves an idle relay idle and relays nothing.
pub proof fn escape_free_output_is_ignored(data: Seq<u8>)
    requires
        forall|i: int| 0 <= i < data.len() ==> #[trigger] data[i] != 0x1bu8,
    ensures
        relay_scan(idle(), data) == (idle(), Seq::<Seq<u8>>::empty()),
    decreases data.len(),
{
    if data.len() > 0 {
        let d = data.drop_last();
        assert forall|i: int| 0 <= i < d.len() implies #[trigger] d[i] != 0x1bu8 by {
            assert(d[i] == data[i]);
        }
        escape_free_output_is_ignored(d);
        assert(data.last() == data[data.len() - 1]);
        assert(Seq::<Seq<u8>>::empty() + Seq::<Seq<u8>>::empty() =~= Seq::<Seq<u8>>::empty());
    }
}

// ---------------------------------------------------------------------------
// Numbers and characters as terminal bytes.

/// The decimal digits of `n`, as ASCII bytes.
pub open spec fn dec(n: nat) -> Seq<u8>
    decreases n,
{
    if n < 10 {
        seq![(48 + n) as u8]
    } else {
        dec(n / 10).push((48 + n % 10) as u8)
    }
}

/// Appends the decimal digits of `n`.
pub fn push_decimal(bytes: &mut Vec<u8>, n: u32)
    ensures
        final(bytes)@ == old(bytes)@ + dec(n as nat),
    decreases n,
{
    if n < 10 {
        bytes.push((48 + n) as u8);
    } else {
        push_decimal(bytes, n / 10);
        bytes.push((48 + n % 10) as u8);
    }
}

/// The UTF-8 bytes of a character.
pub open spec fn utf8(c: char) -> Seq<u8> {
    encode_scalar(c as u32)
}

/// Appends the UTF-8 encoding of `c`.
pub fn push_utf8(bytes: &mut Vec<u8>, c: char)
    ensures
        final(bytes)@ == old(bytes)@ + utf8(c),
{
    let v = c as u32;
    if v <= 0x7F {
        bytes.push((v & 0x7F) as u8);
    } else if v <= 0x7FF {
        bytes.push(0xC0 | ((v >> 6) & 0x1F) as u8);
        bytes.push(0x80 | (v & 0x3F) as u8);
    } else if v <= 0xFFFF && !(0xD800 <= v && v <= 0xDFFF) {
        bytes.push(0xE0 | ((v >> 12) & 0x0F) as u8);
        bytes.push(0x80 | ((v >> 6) & 0x3F) as u8);
        bytes.push(0x80 | (v & 0x3F) as u8);
    } else {
        bytes.push(0xF0 | ((v >> 18) & 0x7) as u8);
        bytes.push(0x80 | ((v >> 12) & 0x3F) as u8);
        bytes.push(0x80 | ((v >> 6) & 0x3F) as u8);
        bytes.push(0x80 | (v & 0x3F) as u8);
    }
}

// ---------------------------------------------------------------------------
// Key and mouse events, as the terminal reports them.

/// Which modifier keys are held.
#[derive(Clone, Copy, Debug, PartialEq, Eq, Structural)]
pub struct KeyModifiers {
    pub shift: bool,
    pub control: bool,
    pub alt: bool,
    pub super_key: bool,
    pub hyper: bool,
    pub meta: bool,
}

impl KeyModifiers {
    pub open spec fn is_none(self) -> bool {
        !self.shift && !self.control && !self.alt && !self.super_key && !self.hyper && !self.meta
    }

    /// Exactly shift and nothing else.
    pub open spec fn is_shift_only(self) -> bool {
        self.shift && !self.control && !self.alt && !self.super_key && !self.hyper && !self.meta
    }

    /// Exactly alt and nothing else.
    pub open spec fn is_alt_only(self) -> bool {
        !self.shift && !self.control && self.alt && !self.super_key && !self.hyper && !self.meta
    }

    /// No modifier held.
    pub fn none() -> (m: KeyModifiers)
        ensures
            m.is_none(),
    {
        KeyModifiers { shift: false, control: false, alt: false, super_key: false, hyper: false, meta: false }
    }

    /// Only shift held.
    pub fn shift() -> (m: KeyModifiers)
        ensures
            m.is_shift_only(),
    {
        KeyModifiers { shift: true, control: false, alt: false, super_key: false, hyper: false, meta: false }
    }

    /// Only control held.
    pub fn control() -> (m: KeyModifiers)
        ensures
            m.control && !m.shift && !m.alt && !m.super_key && !m.hyper && !m.meta,
    {
        KeyModifiers { shift: false, control: true, alt: false, super_key: false, hyper: false, meta: false }
    }

    /// Only alt held.
    pub fn alt() -> (m: KeyModifiers)
        ensures
            m.is_alt_only(),
    {
        KeyModifiers { shift: false, control: false, alt: true, super_key: false, hyper: false, meta: false }
    }

    /// The modifiers held in either set.
    pub fn union(self, other: KeyModifiers) -> (m: KeyModifiers)
        ensures
            m.shift == (self.shift || other.shift),
            m.control == (self.control || other.control),
            m.alt == (self.alt || other.alt),
            m.super_key == (self.super_key || other.super_key),
            m.hyper == (self.hyper || other.hyper),
            m.meta == (self.meta || other.meta),
    {
        KeyModifiers {
            shift: self.shift || other.shift,
            control: self.control || other.control,
            alt: self.alt || other.alt,
            super_key: self.super_key || other.super_key,
            hyper: self.hyper || other.hyper,
            meta: self.meta || other.meta,
        }
    }
}

#[derive(Clone, Copy, Debug, PartialEq, Eq, Structural)]
pub enum KeyCode {
    Backspace,
    Enter,
    Left,
    Right,
    Up,
    Down,
    Home,
    End,
    PageUp,
    PageDown,
    Tab,
    BackTab,
    Delete,
    Insert,
    F(u8),
    Char(char),
    Esc,
    /// Any other key (media keys, lone modifiers, lock keys, ...).
    Other,
}

#[derive(Clone, Copy, Debug, PartialEq, Eq, Structural)]
pub struct KeyEvent {
    pub code: KeyCode,
    pub modifiers: KeyModifiers,
}

impl KeyEvent {
    pub fn new(code: KeyCode, modifiers: KeyModifiers) -> (k: KeyEvent)
        ensures
            k.code == code,
            k.modifiers == modifiers,
    {
        KeyEvent { code, modifiers }
    }
}

#[derive(Clone, Copy, Debug, PartialEq, Eq, Structural)]
pub enum MouseButton {
    Left,
    Right,
    Middle,
}

#[derive(Clone, Copy, Debug, PartialEq, Eq, Structural)]
pub enum MouseEventKind {
    Down(MouseButton),
    Up(MouseButton),
    Drag(MouseButton),
    Moved,
    ScrollDown,
    ScrollUp,
    ScrollLeft,
    ScrollRight,
}

#[derive(Clone, Copy, Debug, PartialEq, Eq, Structural)]
pub struct MouseEvent {
    pub kind: MouseEventKind,
    pub column: u16,
    pub row: u16,
    pub modifiers: KeyModifiers,
}

/// The mouse tracking an embedded client has asked for.
#[derive(Clone, Copy, Debug, PartialEq, Eq, Structural)]
pub enum MouseProtocolMode {
    /// No mouse reports wanted at all.
    Off,
    Press,
    PressRelease,
    ButtonMotion,
    AnyMotion,
}

// ---------------------------------------------------------------------------
// Mouse.

pub open spec fn sat_sub(a: u16, b: u16) -> int {
    if a >= b { a - b } else { 0 }
}

/// The SGR button code of an event kind, and whether it is a release; `None`
/// for kinds with no SGR report.
pub open spec fn sgr_button(kind: MouseEventKind) -> Option<(nat, bool)> {
    match kind {
        MouseEventKind::Down(b) => Some((match b { MouseButton::Left => 0nat, MouseButton::Middle => 1, MouseButton::Right => 2 }, false)),
        MouseEventKind::Up(b) => Some((match b { MouseButton::Left => 0nat, MouseButton::Middle => 1, MouseButton::Right => 2 }, true)),
        MouseEventKind::Drag(b) => Some((match b { MouseButton::Left => 32nat, MouseButton::Middle => 33, MouseButton::Right => 34 }, false)),
        MouseEventKind::Moved => Some((35nat, false)),
        MouseEventKind::ScrollUp => Some((64nat, false)),
        MouseEventKind::ScrollDown => Some((65nat, false)),
        _ => None,
    }
}

pub open spec fn modifier_bits(m: KeyModifiers) -> nat {
    (if m.shift { 4nat } else { 0 }) + (if m.alt { 8nat } else { 0 }) + (if m.control { 16nat } else { 0 })
}

/// `ESC [ < b ; x ; y M`, or with a final `m` for a release.
pub open spec fn sgr_bytes(b: nat, x: nat, y: nat, release: bool) -> Seq<u8> {
    seq![0x1bu8, 0x5bu8, 0x3cu8] + dec(b) + seq![0x3bu8] + dec(x) + seq![0x3bu8] + dec(y)
        + seq![if release { 0x6du8 } else { 0x4du8 }]
}

fn push_sgr(out: &mut Vec<u8>, b: u32, x: u32, y: u32, release: bool)
    ensures
        final(out)@ == old(out)@ + sgr_bytes(b as nat, x as nat, y as nat, release),
{
    out.push(0x1b);
    out.push(0x5b);
    out.push(0x3c);
    push_decimal(out, b);
    out.push(0x3b);
    push_decimal(out, x);
    out.push(0x3b);
    push_decimal(out, y);
    out.push(if release { 0x6d } else { 0x4d });
    assert(out@ =~= old(out)@ + sgr_bytes(b as nat, x as nat, y as nat, release));
}

/// The SGR (`ESC [ < b ; x ; y M`) report of a mouse event, with coordinates
/// made one-based and relative to the given origin; release ends in `m`.
pub open spec fn sgr_report(mouse: MouseEvent, x_offset: u16, y_offset: u16) -> Option<Seq<u8>> {
    match sgr_button(mouse.kind) {
        None => None,
        Some((b, release)) => Some(
            sgr_bytes(
                b + modifier_bits(mouse.modifiers),
                (sat_sub(mouse.column, x_offset) + 1) as nat,
                (sat_sub(mouse.row, y_offset) + 1) as nat,
                release,
            ),
        ),
    }
}

/// Encodes a mouse event as an SGR report for the embedded client, whose
/// top-left cell is at (`x_offset`, `y_offset`).
pub fn encode_mouse(mouse: &MouseEvent, x_offset: u16, y_offset: u16) -> (r: Option<Vec<u8>>)
    requires
        sat_sub(mouse.column, x_offset) < u16::MAX,
        sat_sub(mouse.row, y_offset) < u16::MAX,
    ensures
        r matches Some(v) ==> sgr_report(*mouse, x_offset, y_offset) == Some(v@),
        r is None ==> sgr_report(*mouse, x_offset, y_offset) is None,
{
    let col: u16 = (if mouse.column >= x_offset { mouse.column - x_offset } else { 0 }) + 1;
    let row: u16 = (if mouse.row >= y_offset { mouse.row - y_offset } else { 0 }) + 1;
    let (base_button, release) = match mouse_button(mouse.kind) {
        Some(b) => b,
        None => return None,
    };
    let mut button = base_button;
    if mouse.modifiers.shift {
        button = button + 4;
    }
    if mouse.modifiers.alt {
        button = button + 8;
    }
    if mouse.modifiers.control {
        button = button + 16;
    }
    assert(button == sgr_button(mouse.kind).unwrap().0 + modifier_bits(mouse.modifiers));
    let mut out: Vec<u8> = Vec::new();
    push_sgr(&mut out, button, col as u32, row as u32, release);
    assert(out@ =~= sgr_report(*mouse, x_offset, y_offset).unwrap());
    Some(out)
}

fn mouse_button(kind: MouseEventKind) -> (r: Option<(u32, bool)>)
    ensures
        r matches Some(p) ==> sgr_button(kind) == Some((p.0 as nat, p.1)),
        r is None ==> sgr_button(kind) is None,
{
    match kind {
        MouseEventKind::Down(btn) => Some((match btn { MouseButton::Left => 0u32, MouseButton::Middle => 1, MouseButton::Right => 2 }, false)),
        MouseEventKind::Up(btn) => Some((match btn { MouseButton::Left => 0u32, MouseButton::Middle => 1, MouseButton::Right => 2 }, true)),
        MouseEventKind::Drag(btn) => Some((match btn { MouseButton::Left => 32u32, MouseButton::Middle => 33, MouseButton::Right => 34 }, false)),
        MouseEventKind::Moved => Some((35, false)),
        MouseEventKind::ScrollUp => Some((64, false)),
        MouseEventKind::ScrollDown => Some((65, false)),
        _ => None,
    }
}

/// Whether a mouse event goes to the embedded client, given the tracking mode
/// it asked for. Bare hover motion never does.
pub open spec fn forwards_mouse(kind: MouseEventKind, mode: MouseProtocolMode) -> bool {
    if kind == MouseEventKind::Moved {
        false
    } else {
        match mode {
            MouseProtocolMode::Off => false,
            MouseProtocolMode::Press | MouseProtocolMode::PressRelease => !(kind is Drag),
            MouseProtocolMode::ButtonMotion | MouseProtocolMode::AnyMotion => true,
        }
    }
}

/// Bare hover motion never reaches the embedded client, whatever tracking it
/// asked for.
pub proof fn hover_is_never_forwarded(mode: MouseProtocolMode)
    ensures
        !forwards_mouse(MouseEventKind::Moved, mode),
{
}

/// A client that asked for no mouse reports gets none.
pub proof fn untracked_clients_get_no_mouse(kind: MouseEventKind)
    ensures
        !forwards_mouse(kind, MouseProtocolMode::Off),
{
}

/// Whether to hand a mouse event to the embedded client, given the tracking
/// it asked for: what the event means is the client's call.
pub fn should_forward_mouse(kind: &MouseEventKind, mode: MouseProtocolMode) -> (b: bool)
    ensures
        b == forwards_mouse(*kind, mode),
{
    if let MouseEventKind::Moved = kind {
        return false;
    }
    match mode {
        MouseProtocolMode::Off => false,
        MouseProtocolMode::Press | MouseProtocolMode::PressRelease => !(matches!(kind, MouseEventKind::Drag(_))),
        MouseProtocolMode::ButtonMotion | MouseProtocolMode::AnyMotion => true,
    }
}


// ---------------------------------------------------------------------------
// Keys.

/// The xterm modifier parameter: one, plus one for shift, two for alt and
/// four for control.
pub open spec fn modifier_param(m: KeyModifiers) -> nat {
    1 + (if m.shift { 1nat } else { 0 }) + (if m.alt { 2nat } else { 0 }) + (if m.control { 4nat } else { 0 })
}

/// `ESC [ letter`, or `ESC [ 1 ; m letter` when a modifier is held.
pub open spec fn csi_letter_bytes(letter: u8, m: nat) -> Seq<u8> {
    if m == 1 {
        seq![0x1bu8, 0x5bu8, letter]
    } else {
        seq![0x1bu8, 0x5bu8, 0x31u8, 0x3bu8] + dec(m) + seq![letter]
    }
}

/// `ESC [ n ~`, or `ESC [ n ; m ~` when a modifier is held.
pub open spec fn csi_tilde_bytes(n: nat, m: nat) -> Seq<u8> {
    if m == 1 {
        seq![0x1bu8, 0x5bu8] + dec(n) + seq![0x7eu8]
    } else {
        seq![0x1bu8, 0x5bu8] + dec(n) + seq![0x3bu8] + dec(m) + seq![0x7eu8]
    }
}

/// `ESC [ n ; m u`, the CSI-u form of a modified key.
pub open spec fn csi_u_bytes(n: nat, m: nat) -> Seq<u8> {
    seq![0x1bu8, 0x5bu8] + dec(n) + seq![0x3bu8] + dec(m) + seq![0x75u8]
}

/// The number in the `ESC [ n ~` form of the function keys F5 to F12.
pub open spec fn f_tilde_number(n: u8) -> nat {
    if n == 5 { 15 } else if n == 6 { 17 } else if n == 7 { 18 } else if n == 8 { 19 }
    else if n == 9 { 20 } else if n == 10 { 21 } else if n == 11 { 23 } else { 24 }
}

/// The bytes of function key `n`: SS3 `P`..`S` for F1 to F4 (CSI `1 ; m`
/// when modified), the tilde forms for F5 to F12, nothing for the others.
pub open spec fn f_key_bytes(n: u8, m: nat) -> Seq<u8> {
    if 1 <= n <= 4 {
        let letter = (0x4f + n) as u8;
        if m == 1 {
            seq![0x1bu8, 0x4fu8, letter]
        } else {
            csi_letter_bytes(letter, m)
        }
    } else if 5 <= n <= 12 {
        csi_tilde_bytes(f_tilde_number(n), m)
    } else {
        Seq::empty()
    }
}

pub open spec fn ascii_lower(c: char) -> char {
    if 'A' <= c <= 'Z' { ((c as u32) + 32) as char } else { c }
}

pub open spec fn ascii_upper(c: char) -> char {
    if 'a' <= c <= 'z' { ((c as u32) - 32) as char } else { c }
}

pub open spec fn is_ascii_alpha(c: char) -> bool {
    ('a' <= c <= 'z') || ('A' <= c <= 'Z')
}

/// What a control-modified character sends: the C0 control code of a letter
/// or of `@` .. `_` (going by the low byte of the character), NUL for space,
/// DEL for `?`, 0x1f for `/`, and the character itself otherwise.
pub open spec fn ctrl_char_bytes(c: char) -> Seq<u8> {
    let lc = ascii_lower(c);
    let low = (c as u32) % 256;
    if 'a' <= lc <= 'z' {
        seq![((lc as u32) - 0x60) as u8]
    } else if 0x40 <= low <= 0x5f {
        seq![(low - 0x40) as u8]
    } else if c == ' ' {
        seq![0u8]
    } else if c == '?' {
        seq![127u8]
    } else if c == '/' {
        seq![31u8]
    } else {
        utf8(c)
    }
}

/// The bytes a terminal sends for a key event, as the embedded client expects
/// them.
pub open spec fn key_bytes(key: KeyEvent) -> Seq<u8> {
    let mods = key.modifiers;
    let m = modifier_param(mods);
    let esc: Seq<u8> = seq![0x1bu8];
    let alt_prefix = if mods.alt { esc } else { Seq::empty() };
    match key.code {
        KeyCode::Char(c) => alt_prefix + (if mods.control { ctrl_char_bytes(c) } else { utf8(c) }),
        KeyCode::Enter => if mods.is_none() { seq![0x0du8] } else { seq![0x0au8] },
        KeyCode::Esc => if mods.is_none() {
            seq![0x1bu8]
        } else if mods.is_alt_only() {
            seq![0x1bu8, 0x1bu8]
        } else {
            csi_u_bytes(27, m)
        },
        KeyCode::Backspace => if mods.shift {
            csi_u_bytes(127, m)
        } else {
            alt_prefix + (if mods.control { seq![0x08u8] } else { seq![0x7fu8] })
        },
        KeyCode::Tab => if mods.is_none() {
            seq![0x09u8]
        } else if mods.is_shift_only() {
            seq![0x1bu8, 0x5bu8, 0x5au8]
        } else if mods.is_alt_only() {
            seq![0x1bu8, 0x09u8]
        } else {
            csi_u_bytes(9, m)
        },
        KeyCode::BackTab => if mods.is_none() || mods.is_shift_only() {
            seq![0x1bu8, 0x5bu8, 0x5au8]
        } else {
            csi_u_bytes(9, if mods.shift { m } else { m + 1 })
        },
        KeyCode::Up => csi_letter_bytes(0x41, m),
        KeyCode::Down => csi_letter_bytes(0x42, m),
        KeyCode::Right => csi_letter_bytes(0x43, m),
        KeyCode::Left => csi_letter_bytes(0x44, m),
        KeyCode::Home => csi_letter_bytes(0x48, m),
        KeyCode::End => csi_letter_bytes(0x46, m),
        KeyCode::Insert => csi_tilde_bytes(2, m),
        KeyCode::Delete => csi_tilde_bytes(3, m),
        KeyCode::PageUp => csi_tilde_bytes(5, m),
        KeyCode::PageDown => csi_tilde_bytes(6, m),
        KeyCode::F(n) => f_key_bytes(n, m),
        KeyCode::Other => Seq::empty(),
    }
}

fn modifier_code(mods: KeyModifiers) -> (m: u8)
    ensures
        m == modifier_param(mods),
{
    let mut m: u8 = 1;
    if mods.shift {
        m = m + 1;
    }
    if mods.alt {
        m = m + 2;
    }
    if mods.control {
        m = m + 4;
    }
    m
}

fn csi_letter(letter: u8, m: u8, bytes: &mut Vec<u8>)
    ensures
        final(bytes)@ == old(bytes)@ + csi_letter_bytes(letter, m as nat),
{
    bytes.push(0x1b);
    bytes.push(0x5b);
    if m != 1 {
        bytes.push(0x31);
        bytes.push(0x3b);
        push_decimal(bytes, m as u32);
    }
    bytes.push(letter);
    assert(final(bytes)@ =~= old(bytes)@ + csi_letter_bytes(letter, m as nat)) by {
        assert(bytes@ =~= old(bytes)@ + csi_letter_bytes(letter, m as nat));
    }
}

fn csi_tilde(n: u8, m: u8, bytes: &mut Vec<u8>)
    ensures
        final(bytes)@ == old(bytes)@ + csi_tilde_bytes(n as nat, m as nat),
{
    bytes.push(0x1b);
    bytes.push(0x5b);
    push_decimal(bytes, n as u32);
    if m != 1 {
        bytes.push(0x3b);
        push_decimal(bytes, m as u32);
    }
    bytes.push(0x7e);
    assert(bytes@ =~= old(bytes)@ + csi_tilde_bytes(n as nat, m as nat));
}

fn csi_u(n: u8, m: u8, bytes: &mut Vec<u8>)
    ensures
        final(bytes)@ == old(bytes)@ + csi_u_bytes(n as nat, m as nat),
{
    bytes.push(0x1b);
    bytes.push(0x5b);
    push_decimal(bytes, n as u32);
    bytes.push(0x3b);
    push_decimal(bytes, m as u32);
    bytes.push(0x75);
    assert(bytes@ =~= old(bytes)@ + csi_u_bytes(n as nat, m as nat));
}

fn push_ctrl_char(c: char, bytes: &mut Vec<u8>)
    ensures
        final(bytes)@ == old(bytes)@ + ctrl_char_bytes(c),
{
    let cu: u32 = c as u32;
    let lc: u32 = if 0x41 <= cu && cu <= 0x5a { cu + 32 } else { cu };
    let low: u32 = cu % 256;
    proof {
        assert(ascii_lower(c) as u32 == lc);
    }
    if 0x61 <= lc && lc <= 0x7a {
        bytes.push((lc - 0x60) as u8);
    } else if 0x40 <= low && low <= 0x5f {
        bytes.push((low - 0x40) as u8);
    } else if c == ' ' {
        bytes.push(0);
    } else if c == '?' {
        bytes.push(127);
    } else if c == '/' {
        bytes.push(31);
    } else {
        push_utf8(bytes, c);
        return;
    }
    assert(bytes@ =~= old(bytes)@ + ctrl_char_bytes(c));
}

/// Appends the bytes of a key event for the embedded client.
pub fn encode_key(key: &KeyEvent, bytes: &mut Vec<u8>)
    ensures
        final(bytes)@ == old(bytes)@ + key_bytes(*key),
{
    let mods = key.modifiers;
    let m = modifier_code(mods);
    let alt = mods.alt;
    let ctrl = mods.control;
    let none = !mods.shift && !mods.control && !mods.alt && !mods.super_key && !mods.hyper && !mods.meta;
    let alt_only = !mods.shift && !mods.control && mods.alt && !mods.super_key && !mods.hyper && !mods.meta;
    let shift_only = mods.shift && !mods.control && !mods.alt && !mods.super_key && !mods.hyper && !mods.meta;
    let ghost start = bytes@;
    match key.code {
        KeyCode::Char(c) => {
            if alt {
                bytes.push(0x1b);
            }
            let ghost mid = bytes@;
            if ctrl {
                push_ctrl_char(c, bytes);
            } else {
                push_utf8(bytes, c);
            }
            assert(bytes@ =~= start + key_bytes(*key));
        },
        KeyCode::Enter => {
            if none {
                bytes.push(0x0d);
            } else {
                bytes.push(0x0a);
            }
            assert(bytes@ =~= start + key_bytes(*key));
        },
        KeyCode::Esc => {
            if none {
                bytes.push(0x1b);
            } else if alt_only {
                bytes.push(0x1b);
                bytes.push(0x1b);
            } else {
                csi_u(27, m, bytes);
            }
            assert(bytes@ =~= start + key_bytes(*key));
        },
        KeyCode::Backspace => {
            if mods.shift {
                csi_u(127, m, bytes);
            } else {
                if alt {
                    bytes.push(0x1b);
                }
                if ctrl {
                    bytes.push(0x08);
                } else {
                    bytes.push(0x7f);
                }
            }
            assert(bytes@ =~= start + key_bytes(*key));
        },
        KeyCode::Tab => {
            if none {
                bytes.push(0x09);
            } else if shift_only {
                bytes.push(0x1b);
                bytes.push(0x5b);
                bytes.push(0x5a);
            } else if alt_only {
                bytes.push(0x1b);
                bytes.push(0x09);
            } else {
                csi_u(9, m, bytes);
            }
            assert(bytes@ =~= start + key_bytes(*key));
        },
        KeyCode::BackTab => {
            if none || shift_only {
                bytes.push(0x1b);
                bytes.push(0x5b);
                bytes.push(0x5a);
            } else {
                let bm: u8 = if mods.shift { m } else { m + 1 };
                csi_u(9, bm, bytes);
            }
            assert(bytes@ =~= start + key_bytes(*key));
        },
        KeyCode::Up => csi_letter(0x41, m, bytes),
        KeyCode::Down => csi_letter(0x42, m, bytes),
        KeyCode::Right => csi_letter(0x43, m, bytes),
        KeyCode::Left => csi_letter(0x44, m, bytes),
        KeyCode::Home => csi_letter(0x48, m, bytes),
        KeyCode::End => csi_letter(0x46, m, bytes),
        KeyCode::Insert => csi_tilde(2, m, bytes),
        KeyCode::Delete => csi_tilde(3, m, bytes),
        KeyCode::PageUp => csi_tilde(5, m, bytes),
        KeyCode::PageDown => csi_tilde(6, m, bytes),
        KeyCode::F(n) => {
            if 1 <= n && n <= 4 {
                let letter: u8 = 0x4f + n;
                if m == 1 {
                    bytes.push(0x1b);
                    bytes.push(0x4f);
                    bytes.push(letter);
                } else {
                    csi_letter(letter, m, bytes);
                }
            } else if 5 <= n && n <= 12 {
                let t: u8 = if n == 5 { 15 } else if n == 6 { 17 } else if n == 7 { 18 } else if n == 8 { 19 }
                    else if n == 9 { 20 } else if n == 10 { 21 } else if n == 11 { 23 } else { 24 };
                csi_tilde(t, m, bytes);
            }
            assert(bytes@ =~= start + key_bytes(*key));
        },
        KeyCode::Other => {
            assert(bytes@ =~= start + key_bytes(*key));
        },
    }
}

// ---------------------------------------------------------------------------
// The prefix key.

/// The prefix key ttree reserves for itself, taken from the user's own tmux
/// `prefix` option rather than assumed to be C-b.
#[derive(Clone, Copy, Debug, PartialEq, Eq, Structural)]
pub struct Prefix {
    /// The letter, for matching a key event.
    pub ch: char,
    /// The control byte a terminal actually sends for it, for forwarding.
    pub byte: u8,
}

/// C-b: tmux's own default.
pub open spec fn default_prefix() -> Prefix {
    Prefix { ch: 'b', byte: 0x02 }
}

impl Default for Prefix {
    fn default() -> (p: Prefix)
        ensures
            p == default_prefix(),
    {
        Prefix { ch: 'b', byte: 0x02 }
    }
}

/// The prefix a tmux `prefix` option value names: `C-` and one ASCII letter,
/// whitespace around it allowed; anything else gives C-b.
pub open spec fn prefix_from(value: Option<Seq<char>>) -> Prefix {
    match value {
        None => default_prefix(),
        Some(v) => {
            let t = trimmed(v);
            if t.len() == 3 && t[0] == 'C' && t[1] == '-' && is_ascii_alpha(t[2]) {
                Prefix { ch: ascii_lower(t[2]), byte: ((ascii_upper(t[2]) as u32) - 0x40) as u8 }
            } else {
                default_prefix()
            }
        },
    }
}

/// A key event is the prefix when control is held and its character is the
/// prefix letter, in either case.
pub open spec fn prefix_matches(p: Prefix, key: KeyEvent) -> bool {
    key.modifiers.control && match key.code {
        KeyCode::Char(c) => ascii_lower(c) == ascii_lower(p.ch),
        _ => false,
    }
}

impl Prefix {
    /// Parses a tmux `prefix` option value such as `C-b` or `C-a`. Anything
    /// that maps to no control byte (M- bindings, `None`, multi-key prefixes)
    /// falls back to C-b rather than leaving ttree with no prefix at all.
    pub fn parse(value: Option<String>) -> (p: Prefix)
        ensures
            p == prefix_from(match value { Some(s) => Some(s@), None => None }),
    {
        let value = match value {
            Some(v) => v,
            None => return Prefix::default(),
        };
        let chars = chars_of(value.as_str());
        let t = trim(chars.as_slice());
        if t.len() == 3 && t[0] == 'C' && t[1] == '-' {
            let c = t[2];
            let cu: u32 = c as u32;
            if 0x61 <= cu && cu <= 0x7a {
                proof {
                    assert(ascii_lower(c) == c);
                    assert(ascii_upper(c) as u32 == cu - 32);
                }
                return Prefix { ch: c, byte: (cu - 0x60) as u8 };
            }
            if 0x41 <= cu && cu <= 0x5a {
                let lower: u32 = cu + 32;
                proof {
                    assert(ascii_lower(c) as u32 == lower);
                }
                return Prefix { ch: char_of_ascii(lower), byte: (cu - 0x40) as u8 };
            }
        }
        Prefix::default()
    }

    /// Whether a key event is this prefix: control held, and the letter in
    /// either case.
    pub fn matches(&self, key: &KeyEvent) -> (b: bool)
        ensures
            b == prefix_matches(*self, *key),
    {
        if !key.modifiers.control {
            return false;
        }
        match key.code {
            KeyCode::Char(c) => {
                let a: u32 = c as u32;
                let b: u32 = self.ch as u32;
                let la: u32 = if 0x41 <= a && a <= 0x5a { a + 32 } else { a };
                let lb: u32 = if 0x41 <= b && b <= 0x5a { b + 32 } else { b };
                proof {
                    assert(ascii_lower(c) as u32 == la);
                    assert(ascii_lower(self.ch) as u32 == lb);
                }
                la == lb
            },
            _ => false,
        }
    }
}

/// The character with an ASCII code.
fn char_of_ascii(v: u32) -> (c: char)
    requires
        v < 128,
    ensures
        c as u32 == v,
{
    let b: u8 = v as u8;
    b as char
}

/// The xterm cursor letter an arrow key ends in: `A` up, `B` down, `C`
/// right, `D` left; and `H` home, `F` end.
pub open spec fn arrow_letter(code: KeyCode) -> Option<u8> {
    match code {
        KeyCode::Up => Some(0x41u8),
        KeyCode::Down => Some(0x42u8),
        KeyCode::Right => Some(0x43u8),
        KeyCode::Left => Some(0x44u8),
        KeyCode::Home => Some(0x48u8),
        KeyCode::End => Some(0x46u8),
        _ => None,
    }
}

/// The VT220 number of an editing key: `2` insert, `3` delete, `5` page up,
/// `6` page down.
pub open spec fn editing_key_number(code: KeyCode) -> Option<u8> {
    match code {
        KeyCode::Insert => Some(0x32u8),
        KeyCode::Delete => Some(0x33u8),
        KeyCode::PageUp => Some(0x35u8),
        KeyCode::PageDown => Some(0x36u8),
        _ => None,
    }
}

/// The editing keys are VT220 keys: whatever modifiers are held, each is a
/// CSI sequence (`ESC [`) whose parameter starts with its own digit (`2`
/// insert, `3` delete, `5` page up, `6` page down) and that ends in `~`; with
/// no modifier held it is exactly `ESC [`, the digit and `~`.
pub proof fn editing_keys_are_vt220_keys(code: KeyCode, mods: KeyModifiers)
    requires
        editing_key_number(code) is Some,
    ensures
        ({
            let b = key_bytes(KeyEvent { code, modifiers: mods });
            let n = editing_key_number(code).unwrap();
            &&& b.len() >= 4
            &&& b[0] == 0x1bu8
            &&& b[1] == 0x5bu8
            &&& b[2] == n
            &&& b.last() == 0x7eu8
            &&& (!mods.shift && !mods.alt && !mods.control ==> b == seq![0x1bu8, 0x5bu8, n, 0x7eu8])
        }),
{
    let m = modifier_param(mods);
    let n = editing_key_number(code).unwrap();
    let k: nat = (n - 0x30) as nat;
    assert(dec(k) == seq![n]);
    if m != 1 {
        let b = seq![0x1bu8, 0x5bu8] + dec(k) + seq![0x3bu8] + dec(m) + seq![0x7eu8];
        assert(b[0] == 0x1bu8);
        assert(b[1] == 0x5bu8);
        assert(b[2] == n);
        assert(b.last() == 0x7eu8);
    } else {
        assert(seq![0x1bu8, 0x5bu8] + dec(k) + seq![0x7eu8] =~= seq![0x1bu8, 0x5bu8, n, 0x7eu8]);
    }
}

/// The arrow keys (and home and end) are xterm cursor keys: whatever
/// modifiers are held, each is a CSI sequence (`ESC [`) ending in its own
/// letter (`A` up, `B` down, `C` right, `D` left, `H` home, `F` end), so no
/// two of them encode alike; with no modifier held the sequence is exactly
/// `ESC [` and the letter.
pub proof fn arrows_are_xterm_cursor_keys(code: KeyCode, mods: KeyModifiers)
    requires
        arrow_letter(code) is Some,
    ensures
        ({
            let b = key_bytes(KeyEvent { code, modifiers: mods });
            let l = arrow_letter(code).unwrap();
            &&& b.len() >= 3
            &&& b[0] == 0x1bu8
            &&& b[1] == 0x5bu8
            &&& b.last() == l
            &&& (!mods.shift && !mods.alt && !mods.control ==> b == seq![0x1bu8, 0x5bu8, l])
        }),
{
    let m = modifier_param(mods);
    let l = arrow_letter(code).unwrap();
    if m != 1 {
        let b = seq![0x1bu8, 0x5bu8, 0x31u8, 0x3bu8] + dec(m) + seq![l];
        assert(b[0] == 0x1bu8);
        assert(b[1] == 0x5bu8);
        assert(b.last() == l);
    }
}

} // verus!
