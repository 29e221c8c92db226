//! The trigger matcher: canonical key naming, the held-key set, and the
//! scan that decides which initiators an input event fires.
//!
//! On every raw key event the embedder records the event key, hands in the
//! set of keys the system reports as physically held, and receives the list
//! of (macro, initiator) positions to launch.  Each initiator stands on its
//! own: a keypress initiator fires exactly when every name in its `keys`
//! list is the canonical name of some held key, one without its `keys`
//! never fires, and neither keeps the initiators and macros after it from
//! being scanned — one event can fire several initiators and macros.

use vstd::prelude::*;
use crate::model::{Initiator, InitiatorView, Macro, MacroView, initiator_seq_view, macro_seq_view};
use crate::strutil::str_eq;

verus! {

/// A physical key, named after its position; the engine only ever reads its
/// canonical name.
#[derive(PartialEq, Eq, Structural, Clone, Copy, Debug)]
pub enum Key {
    A,
    B,
    C,
    D,
    E,
    F,
    G,
    H,
    I,
    J,
    K,
    L,
    M,
    N,
    O,
    P,
    Q,
    R,
    S,
    T,
    U,
    V,
    W,
    X,
    Y,
    Z,
    Numrow0,
    Numrow1,
    Numrow2,
    Numrow3,
    Numrow4,
    Numrow5,
    Numrow6,
    Numrow7,
    Numrow8,
    Numrow9,
    Numpad0,
    Numpad1,
    Numpad2,
    Numpad3,
    Numpad4,
    Numpad5,
    Numpad6,
    Numpad7,
    Numpad8,
    Numpad9,
    Backspace,
    Tab,
    Enter,
    Escape,
    Space,
    F1,
    F2,
    F3,
    F4,
    F5,
    F6,
    F7,
    F8,
    F9,
    F10,
    CapsLock,
    Quote,
    Semicolon,
    Comma,
    Period,
    Slash,
    Backslash,
    Minus,
    Equal,
    LBracket,
    RBracket,
    Backquote,
    LShift,
    RShift,
    LControl,
    RControl
}

/// The canonical lowercase name a key matches under, the vocabulary macro
/// configurations use: letters, unified row and pad digits, named specials,
/// punctuation, and `shift`/`control` for either side's modifier.
pub open spec fn key_name(key: Key) -> Seq<char> {
    match key {
        Key::A => "a"@,
        Key::B => "b"@,
        Key::C => "c"@,
        Key::D => "d"@,
        Key::E => "e"@,
        Key::F => "f"@,
        Key::G => "g"@,
        Key::H => "h"@,
        Key::I => "i"@,
        Key::J => "j"@,
        Key::K => "k"@,
        Key::L => "l"@,
        Key::M => "m"@,
        Key::N => "n"@,
        Key::O => "o"@,
        Key::P => "p"@,
        Key::Q => "q"@,
        Key::R => "r"@,
        Key::S => "s"@,
        Key::T => "t"@,
        Key::U => "u"@,
        Key::V => "v"@,
        Key::W => "w"@,
        Key::X => "x"@,
        Key::Y => "y"@,
        Key::Z => "z"@,
        Key::Numrow0 => "0"@,
        Key::Numrow1 => "1"@,
        Key::Numrow2 => "2"@,
        Key::Numrow3 => "3"@,
        Key::Numrow4 => "4"@,
        Key::Numrow5 => "5"@,
        Key::Numrow6 => "6"@,
        Key::Numrow7 => "7"@,
        Key::Numrow8 => "8"@,
        Key::Numrow9 => "9"@,
        Key::Numpad0 => "0"@,
        Key::Numpad1 => "1"@,
        Key::Numpad2 => "2"@,
        Key::Numpad3 => "3"@,
        Key::Numpad4 => "4"@,
        Key::Numpad5 => "5"@,
        Key::Numpad6 => "6"@,
        Key::Numpad7 => "7"@,
        Key::Numpad8 => "8"@,
        Key::Numpad9 => "9"@,
        Key::Backspace => "backspace"@,
        Key::Tab => "tab"@,
        Key::Enter => "enter"@,
        Key::Escape => "escape"@,
        Key::Space => "space"@,
        Key::F1 => "f1"@,
        Key::F2 => "f2"@,
        Key::F3 => "f3"@,
        Key::F4 => "f4"@,
        Key::F5 => "f5"@,
        Key::F6 => "f6"@,
        Key::F7 => "f7"@,
        Key::F8 => "f8"@,
        Key::F9 => "f9"@,
        Key::F10 => "f10"@,
        Key::CapsLock => "capslock"@,
        Key::Quote => "'"@,
        Key::Semicolon => ";"@,
        Key::Comma => ","@,
        Key::Period => "."@,
        Key::Slash => "/"@,
        Key::Backslash => "\\"@,
        Key::Minus => "-"@,
        Key::Equal => "="@,
        Key::LBracket => "["@,
        Key::RBracket => "]"@,
        Key::Backquote => "`"@,
        Key::LShift => "shift"@,
        Key::RShift => "shift"@,
        Key::LControl => "control"@,
        Key::RControl => "control"@,
    }
}

/// The canonical name of a key, as a string.
pub fn js_key(key: Key) -> (r: String)
    ensures
        r@ == key_name(key),
{
    let name: &str = match key {
        Key::A => "a",
        Key::B => "b",
        Key::C => "c",
        Key::D => "d",
        Key::E => "e",
        Key::F => "f",
        Key::G => "g",
        Key::H => "h",
        Key::I => "i",
        Key::J => "j",
        Key::K => "k",
        Key::L => "l",
        Key::M => "m",
        Key::N => "n",
        Key::O => "o",
        Key::P => "p",
        Key::Q => "q",
        Key::R => "r",
        Key::S => "s",
        Key::T => "t",
        Key::U => "u",
        Key::V => "v",
        Key::W => "w",
        Key::X => "x",
        Key::Y => "y",
        Key::Z => "z",
        Key::Numrow0 => "0",
        Key::Numrow1 => "1",
        Key::Numrow2 => "2",
        Key::Numrow3 => "3",
        Key::Numrow4 => "4",
        Key::Numrow5 => "5",
        Key::Numrow6 => "6",
        Key::Numrow7 => "7",
        Key::Numrow8 => "8",
        Key::Numrow9 => "9",
        Key::Numpad0 => "0",
        Key::Numpad1 => "1",
        Key::Numpad2 => "2",
        Key::Numpad3 => "3",
        Key::Numpad4 => "4",
        Key::Numpad5 => "5",
        Key::Numpad6 => "6",
        Key::Numpad7 => "7",
        Key::Numpad8 => "8",
        Key::Numpad9 => "9",
        Key::Backspace => "backspace",
        Key::Tab => "tab",
        Key::Enter => "enter",
        Key::Escape => "escape",
        Key::Space => "space",
        Key::F1 => "f1",
        Key::F2 => "f2",
        Key::F3 => "f3",
        Key::F4 => "f4",
        Key::F5 => "f5",
        Key::F6 => "f6",
        Key::F7 => "f7",
        Key::F8 => "f8",
        Key::F9 => "f9",
        Key::F10 => "f10",
        Key::CapsLock => "capslock",
        Key::Quote => "'",
        Key::Semicolon => ";",
        Key::Comma => ",",
        Key::Period => ".",
        Key::Slash => "/",
        Key::Backslash => "\\",
        Key::Minus => "-",
        Key::Equal => "=",
        Key::LBracket => "[",
        Key::RBracket => "]",
        Key::Backquote => "`",
        Key::LShift => "shift",
        Key::RShift => "shift",
        Key::LControl => "control",
        Key::RControl => "control",
    };
    name.to_owned()
}

/// Some held key carries this canonical name.
pub open spec fn holds_name(held: Seq<Key>, name: Seq<char>) -> bool {
    exists|j: int| 0 <= j < held.len() && key_name(#[trigger] held[j]) == name
}

/// Every required name is the canonical name of some held key — the chord
/// is satisfied exactly while all its keys are down at once.
pub open spec fn keys_all_held(required: Seq<String>, held: Seq<Key>) -> bool {
    forall|i: int| 0 <= i < required.len() ==> holds_name(held, (#[trigger] required[i])@)
}

/// A keypress initiator with its keys present fires exactly when its whole
/// chord is held; any other initiator never fires.
pub open spec fn initiator_fires(init: InitiatorView, held: Seq<Key>) -> bool {
    &&& init.kind is Keypress
    &&& init.keys is Some
    &&& keys_all_held(init.keys->0, held)
}

/// The initiator positions of one macro that fire, scanning from `i`: every
/// initiator is judged on its own — other kinds and keypress initiators
/// whose chord is not held (or whose keys are absent) are passed over, and
/// the scan always reaches the end of the list.
pub open spec fn macro_launches(inits: Seq<InitiatorView>, held: Seq<Key>, i: nat) -> Seq<int>
    decreases inits.len() - i,
{
    if i >= inits.len() {
        Seq::empty()
    } else if initiator_fires(inits[i as int], held) {
        seq![i as int] + macro_launches(inits, held, i + 1)
    } else {
        macro_launches(inits, held, i + 1)
    }
}

/// All (macro, initiator) positions an event fires, across the macro list
/// from position `m`; a macro without initiators contributes nothing.
pub open spec fn all_launches(macros: Seq<MacroView>, held: Seq<Key>, m: nat) -> Seq<(int, int)>
    decreases macros.len() - m,
{
    if m >= macros.len() {
        Seq::empty()
    } else {
        let rest = all_launches(macros, held, m + 1);
        match macros[m as int].initiators {
            Some(inits) => macro_launches(inits, held, 0).map_values(|i: int| (m as int, i))
                + rest,
            None => rest,
        }
    }
}

/// Every position the scan launches belongs to a firing initiator: one of
/// keypress kind whose chord is fully held at that moment.  In particular
/// an initiator fires only while every key it requires is held at once.
pub proof fn lemma_launched_initiators_fire(inits: Seq<InitiatorView>, held: Seq<Key>, i: nat)
    ensures
        forall|k: int|
            0 <= k < macro_launches(inits, held, i).len() ==> {
                let idx = #[trigger] macro_launches(inits, held, i)[k];
                &&& i <= idx < inits.len()
                &&& initiator_fires(inits[idx], held)
            },
    decreases inits.len() - i,
{
    if i < inits.len() {
        lemma_launched_initiators_fire(inits, held, i + 1);
        let fired = macro_launches(inits, held, i);
        let rest = macro_launches(inits, held, i + 1);
        assert forall|k: int| 0 <= k < fired.len() implies {
            let idx = #[trigger] fired[k];
            &&& i <= idx < inits.len()
            &&& initiator_fires(inits[idx], held)
        } by {
            if initiator_fires(inits[i as int], held) {
                if k > 0 {
                    assert(fired[k] == rest[k - 1]);
                }
            } else {
                assert(fired[k] == rest[k]);
            }
        }
    }
}

fn name_held(held: &Vec<Key>, name: &String) -> (r: bool)
    ensures
        r == holds_name(held@, name@),
{
    let n = held.len();
    let mut j: usize = 0;
    while j < n
        invariant
            n == held@.len(),
            j <= n,
            forall|p: int| 0 <= p < j ==> key_name(#[trigger] held@[p]) != name@,
        decreases n - j,
    {
        let candidate = js_key(held[j]);
        if str_eq(candidate.as_str(), name.as_str()) {
            return true;
        }
        j = j + 1;
    }
    false
}

fn all_keys_held(required: &Vec<String>, held: &Vec<Key>) -> (r: bool)
    ensures
        r == keys_all_held(required@, held@),
{
    let n = required.len();
    let mut i: usize = 0;
    while i < n
        invariant
            n == required@.len(),
            i <= n,
            forall|p: int| 0 <= p < i ==> holds_name(held@, (#[trigger] required@[p])@),
        decreases n - i,
    {
        if !name_held(held, &required[i]) {
            return false;
        }
        i = i + 1;
    }
    true
}

fn scan_initiators(
    inits: &Vec<Initiator>,
    held: &Vec<Key>,
    i: usize,
    m: usize,
    out: &mut Vec<(usize, usize)>,
)
    requires
        i <= inits@.len(),
    ensures
        ({
            let fired = macro_launches(initiator_seq_view(inits@), held@, i as nat);
            &&& final(out)@.len() == old(out)@.len() + fired.len()
            &&& forall|k: int|
                0 <= k < old(out)@.len() ==> #[trigger] final(out)@[k] == old(out)@[k]
            &&& forall|k: int|
                0 <= k < fired.len() ==> #[trigger] final(out)@[old(out)@.len() + k]
                    == (m, fired[k] as usize)
        }),
    decreases inits@.len() - i,
{
    let ghost iv = initiator_seq_view(inits@);
    let ghost fired = macro_launches(iv, held@, i as nat);
    if i >= inits.len() {
        return ;
    }
    proof {
        assert(iv[i as int] == crate::model::initiator_view(inits@[i as int]));
    }
    let fires = match inits[i].kind {
        crate::model::InitiatorKind::Keypress => match &inits[i].data.keys {
            Some(required) => all_keys_held(required, held),
            None => false,
        },
        crate::model::InitiatorKind::Unknown => false,
    };
    proof {
        assert(fires == initiator_fires(iv[i as int], held@));
    }
    if fires {
        out.push((m, i));
        let ghost mid = out@;
        scan_initiators(inits, held, i + 1, m, out);
        proof {
            let rest = macro_launches(iv, held@, i as nat + 1);
            assert(fired =~= seq![i as int] + rest);
            assert(mid == old(out)@.push((m, i)));
            assert(out@.len() == old(out)@.len() + fired.len());
            assert forall|k: int| 0 <= k < old(out)@.len() implies #[trigger] out@[k]
                == old(out)@[k] by {
                assert(out@[k] == mid[k]);
            }
            assert forall|k: int| 0 <= k < fired.len() implies #[trigger] out@[old(out)@.len()
                + k] == (m, fired[k] as usize) by {
                if k == 0 {
                    assert(out@[old(out)@.len() as int] == mid[old(out)@.len() as int]);
                    assert(fired[0] == i as int);
                } else {
                    assert(out@[mid.len() + (k - 1)] == (m, rest[k - 1] as usize));
                    assert(fired[k] == rest[k - 1]);
                    assert(old(out)@.len() + k == mid.len() + (k - 1));
                }
            }
        }
    } else {
        scan_initiators(inits, held, i + 1, m, out);
        proof {
            assert(fired == macro_launches(iv, held@, i as nat + 1));
        }
    }
}

fn scan_macros(
    macros: &Vec<Macro>,
    held: &Vec<Key>,
    m: usize,
    out: &mut Vec<(usize, usize)>,
)
    requires
        m <= macros@.len(),
    ensures
        ({
            let fired = all_launches(macro_seq_view(macros@), held@, m as nat);
            &&& final(out)@.len() == old(out)@.len() + fired.len()
            &&& forall|k: int|
                0 <= k < old(out)@.len() ==> #[trigger] final(out)@[k] == old(out)@[k]
            &&& forall|k: int|
                0 <= k < fired.len() ==> #[trigger] final(out)@[old(out)@.len() + k]
                    == (fired[k].0 as usize, fired[k].1 as usize)
        }),
    decreases macros@.len() - m,
{
    let ghost mv = macro_seq_view(macros@);
    let ghost fired = all_launches(mv, held@, m as nat);
    if m >= macros.len() {
        return ;
    }
    proof {
        assert(mv[m as int] == crate::model::macro_view(macros@[m as int]));
    }
    match &macros[m].body.initiators {
        None => {
            scan_macros(macros, held, m + 1, out);
            proof {
                assert(mv[m as int].initiators is None);
                assert(fired == all_launches(mv, held@, m as nat + 1));
            }
        },
        Some(inits) => {
            scan_initiators(inits, held, 0, m, out);
            let ghost mid = out@;
            let ghost own = macro_launches(initiator_seq_view(inits@), held@, 0);
            scan_macros(macros, held, m + 1, out);
            proof {
                let rest = all_launches(mv, held@, m as nat + 1);
                assert(mv[m as int].initiators == Some(initiator_seq_view(inits@)));
                let mapped = own.map_values(|i: int| (m as int, i));
                assert(fired =~= mapped + rest);
                assert(mid.len() == old(out)@.len() + own.len());
                assert(out@.len() == old(out)@.len() + fired.len());
                assert forall|k: int| 0 <= k < old(out)@.len() implies #[trigger] out@[k]
                    == old(out)@[k] by {
                    assert(out@[k] == mid[k]);
                }
                assert forall|k: int| 0 <= k < fired.len() implies #[trigger] out@[old(out)@.len()
                    + k] == (fired[k].0 as usize, fired[k].1 as usize) by {
                    if k < own.len() {
                        assert(out@[old(out)@.len() + k] == mid[old(out)@.len() + k]);
                        assert(mid[old(out)@.len() + k] == (m, own[k] as usize));
                        assert(fired[k] == mapped[k]);
                        assert(mapped[k] == (m as int, own[k]));
                    } else {
                        assert(out@[mid.len() + (k - own.len())] == (
                            rest[k - own.len()].0 as usize,
                            rest[k - own.len()].1 as usize,
                        ));
                        assert(fired[k] == rest[k - own.len()]);
                        assert(old(out)@.len() + k == mid.len() + (k - own.len()));
                    }
                }
            }
        },
    }
}

/// All (macro index, initiator index) pairs that the given held keys fire,
/// in scan order.
pub fn matching_initiators(macros: &Vec<Macro>, held: &Vec<Key>) -> (r: Vec<(usize, usize)>)
    ensures
        ({
            let fired = all_launches(macro_seq_view(macros@), held@, 0);
            &&& r@.len() == fired.len()
            &&& forall|k: int|
                0 <= k < fired.len() ==> #[trigger] r@[k] == (
                    fired[k].0 as usize,
                    fired[k].1 as usize,
                )
        }),
{
    let mut out: Vec<(usize, usize)> = Vec::new();
    let ghost empty_len = out@.len();
    scan_macros(macros, held, 0, &mut out);
    proof {
        let fired = all_launches(macro_seq_view(macros@), held@, 0);
        assert forall|k: int| 0 <= k < fired.len() implies #[trigger] out@[k] == (
            fired[k].0 as usize,
            fired[k].1 as usize,
        ) by {
            assert(out@[empty_len + k] == (fired[k].0 as usize, fired[k].1 as usize));
        }
    }
    out
}

fn key_vec_contains(v: &Vec<Key>, key: Key) -> (r: bool)
    ensures
        r == v@.contains(key),
{
    let n = v.len();
    let mut i: usize = 0;
    while i < n
        invariant
            n == v@.len(),
            i <= n,
            forall|p: int| 0 <= p < i ==> #[trigger] v@[p] != key,
        decreases n - i,
    {
        if v[i] == key {
            return true;
        }
        i = i + 1;
    }
    false
}

/// The set of keys currently held, kept in canonical, duplicate-free form
/// and corrected against the system's own pressed state on every event.
pub struct HeldKeys {
    keys: Vec<Key>,
}

impl View for HeldKeys {
    type V = Seq<Key>;

    closed spec fn view(&self) -> Seq<Key> {
        self.keys@
    }
}

impl HeldKeys {
    /// No key is tracked twice.
    pub closed spec fn wf(&self) -> bool {
        forall|p: int, q: int|
            0 <= p < q < self.keys@.len() ==> #[trigger] self.keys@[p] != #[trigger] self.keys@[q]
    }

    /// No keys held.
    pub fn new() -> (r: HeldKeys)
        ensures
            r.wf(),
            r@ == Seq::<Key>::empty(),
    {
        HeldKeys { keys: Vec::new() }
    }

    /// Records a raw key event: the event key is marked held, then every
    /// tracked key the system no longer reports as pressed is dropped, so
    /// the set stays accurate even when release events were missed.
    /// Afterwards exactly those keys are held that the event named or the
    /// system still presses.
    pub fn on_key_event(&mut self, key: Key, os_pressed: &Vec<Key>)
        requires
            old(self).wf(),
        ensures
            final(self).wf(),
            final(self)@.to_set() == old(self)@.to_set().insert(key).intersect(
                os_pressed@.to_set(),
            ),
    {
        let ghost s0 = self.keys@;
        if !key_vec_contains(&self.keys, key) {
            self.keys.push(key);
        }
        let ghost s1 = self.keys@;
        proof {
            assert forall|p: int, q: int| 0 <= p < q < s1.len() implies #[trigger] s1[p]
                != #[trigger] s1[q] by {
                if q < s0.len() {
                    assert(s0[p] != s0[q]);
                } else {
                    assert(!s0.contains(key));
                }
            }
            assert(forall|k: Key| s1.contains(k) <==> (s0.contains(k) || k == key)) by {
                assert(forall|p: int| 0 <= p < s0.len() ==> s1[p] == s0[p]);
                if s1.len() > s0.len() {
                    assert(s1.last() == key);
                }
            }
        }
        let n = self.keys.len();
        let mut kept: Vec<Key> = Vec::new();
        let mut i: usize = 0;
        while i < n
            invariant
                n == s1.len(),
                self.keys@ == s1,
                i <= n,
                forall|p: int, q: int|
                    0 <= p < q < s1.len() ==> #[trigger] s1[p] != #[trigger] s1[q],
                forall|p: int, q: int|
                    0 <= p < q < kept@.len() ==> #[trigger] kept@[p] != #[trigger] kept@[q],
                forall|k: Key|
                    #[trigger] kept@.contains(k) <==> (exists|p: int|
                        0 <= p < i && (#[trigger] s1[p]) == k && os_pressed@.contains(k)),
            decreases n - i,
        {
            let k = self.keys[i];
            if key_vec_contains(os_pressed, k) {
                proof {
                    assert(!kept@.contains(k)) by {
                        if kept@.contains(k) {
                            let p = choose|p: int|
                                0 <= p < i && (#[trigger] s1[p]) == k && os_pressed@.contains(k);
                            assert(s1[p] != s1[i as int]);
                            assert(false);
                        }
                    }
                }
                let ghost k0 = kept@;
                kept.push(k);
                proof {
                    assert forall|p: int, q: int| 0 <= p < q < kept@.len() implies #[trigger]
                        kept@[p] != #[trigger] kept@[q] by {
                        if q < k0.len() {
                            assert(k0[p] != k0[q]);
                        } else {
                            assert(kept@[q] == k);
                            assert(kept@[p] == k0[p]);
                            if k0[p] == k {
                                assert(k0.contains(k));
                                assert(false);
                            }
                        }
                    }
                    assert forall|kk: Key| #[trigger] kept@.contains(kk) implies (exists|p: int|
                        0 <= p < i + 1 && (#[trigger] s1[p]) == kk && os_pressed@.contains(kk))
                        by {
                        let q = choose|q: int| 0 <= q < kept@.len() && kept@[q] == kk;
                        if q < k0.len() {
                            assert(k0[q] == kk);
                            assert(k0.contains(kk));
                            let p = choose|p: int|
                                0 <= p < i && (#[trigger] s1[p]) == kk && os_pressed@.contains(kk);
                            assert(0 <= p < i + 1 && s1[p] == kk && os_pressed@.contains(kk));
                        } else {
                            assert(kept@[q] == k);
                            assert(s1[i as int] == kk && os_pressed@.contains(kk));
                        }
                    }
                    assert forall|kk: Key| (exists|p: int|
                        0 <= p < i + 1 && (#[trigger] s1[p]) == kk && os_pressed@.contains(kk))
                        implies #[trigger] kept@.contains(kk) by {
                        let p = choose|p: int|
                            0 <= p < i + 1 && (#[trigger] s1[p]) == kk && os_pressed@.contains(kk);
                        if p < i {
                            assert(k0.contains(kk));
                            let q = choose|q: int| 0 <= q < k0.len() && k0[q] == kk;
                            assert(kept@[q] == kk);
                        } else {
                            assert(s1[i as int] == kk);
                            assert(kept@[kept@.len() - 1] == kk);
                        }
                    }
                }
            } else {
                proof {
                    assert forall|kk: Key| (exists|p: int|
                        0 <= p < i + 1 && (#[trigger] s1[p]) == kk && os_pressed@.contains(kk))
                        implies #[trigger] kept@.contains(kk) by {
                        let p = choose|p: int|
                            0 <= p < i + 1 && (#[trigger] s1[p]) == kk && os_pressed@.contains(kk);
                        if p == i {
                            assert(s1[i as int] == kk && os_pressed@.contains(kk));
                            assert(false);
                        }
                        assert(0 <= p < i && s1[p] == kk && os_pressed@.contains(kk));
                    }
                }
            }
            i = i + 1;
        }
        self.keys = kept;
        proof {
            assert(final(self)@.to_set() =~= old(self)@.to_set().insert(key).intersect(
                os_pressed@.to_set(),
            ));
        }
    }

    /// The canonical names of the held keys, in tracking order.
    pub fn held_canonical(&self) -> (r: Vec<String>)
        ensures
            r@.len() == self@.len(),
            forall|i: int| 0 <= i < self@.len() ==> (#[trigger] r@[i])@ == key_name(self@[i]),
    {
        let n = self.keys.len();
        let mut out: Vec<String> = Vec::new();
        let mut i: usize = 0;
        while i < n
            invariant
                n == self.keys@.len(),
                i <= n,
                out@.len() == i,
                forall|p: int|
                    0 <= p < i ==> (#[trigger] out@[p])@ == key_name(self.keys@[p]),
            decreases n - i,
        {
            out.push(js_key(self.keys[i]));
            i = i + 1;
        }
        out
    }

    /// Handles one raw key event end to end: updates the held set, then
    /// scans the given macro list and returns every (macro, initiator)
    /// position the event fires.
    pub fn process_key_event(
        &mut self,
        key: Key,
        os_pressed: &Vec<Key>,
        macros: &Vec<Macro>,
    ) -> (r: Vec<(usize, usize)>)
        requires
            old(self).wf(),
        ensures
            final(self).wf(),
            final(self)@.to_set() == old(self)@.to_set().insert(key).intersect(
                os_pressed@.to_set(),
            ),
            ({
                let fired = all_launches(macro_seq_view(macros@), final(self)@, 0);
                &&& r@.len() == fired.len()
                &&& forall|k: int|
                    0 <= k < fired.len() ==> #[trigger] r@[k] == (
                        fired[k].0 as usize,
                        fired[k].1 as usize,
                    )
            }),
    {
        self.on_key_event(key, os_pressed);
        matching_initiators(macros, &self.keys)
    }
}

} // verus!
